//! The data the blogging service's articles carry, as plain values.
//! Times travel as RFC 3339 text; counters as plain integers.

use vstd::prelude::*;

verus! {

/// The publication status of an article.
#[derive(Clone, Copy, Debug, PartialEq, Eq, Structural)]
pub enum ArticleStatus {
    Published,
    Draft,
    Scheduled,
}

impl ArticleStatus {
    /// The word the service uses for this status.
    pub fn as_str(&self) -> (r: &'static str)
        ensures
            r@ == self.word(),
    {
        match self {
            ArticleStatus::Published => "published",
            ArticleStatus::Draft => "draft",
            ArticleStatus::Scheduled => "scheduled",
        }
    }

    /// The wire word of a status.
    pub open spec fn word(&self) -> Seq<char> {
        match self {
            ArticleStatus::Published => "published"@,
            ArticleStatus::Draft => "draft"@,
            ArticleStatus::Scheduled => "scheduled"@,
        }
    }
}

/// One article of the service.
pub struct Article {
    pub id: Option<String>,
    pub key: Option<String>,
    pub name: String,
    pub body: String,
    pub status: Option<ArticleStatus>,
    pub hashtag_notes: Option<Vec<Hashtag>>,
    pub publish_at: Option<String>,
    pub like_count: Option<u32>,
    pub comment_count: Option<u32>,
    pub read_count: Option<u32>,
}

/// A tag and how many articles carry it.
pub struct Hashtag {
    pub name: String,
    pub note_count: Option<u32>,
}

/// A magazine: a curated collection of articles.
pub struct Magazine {
    pub key: String,
    pub name: String,
    pub description: Option<String>,
    pub note_count: Option<u32>,
}

/// A user of the service.
pub struct User {
    pub urlname: String,
    pub nickname: String,
    pub user_profile_image_path: Option<String>,
    pub follower_count: Option<u32>,
    pub following_count: Option<u32>,
}

/// One comment under an article.
pub struct Comment {
    pub id: String,
    pub body: String,
    pub user: User,
    pub created_at: String,
}

/// The view counters of an article.
pub struct Stats {
    pub pv: u32,
    pub read: u32,
    pub like: u32,
    pub comment: u32,
}

/// The body of a create-article call against the service's API.
pub struct CreateArticleRequest {
    pub name: String,
    pub body: String,
    pub status: Option<ArticleStatus>,
    pub hashtag_notes: Option<Vec<String>>,
    pub publish_at: Option<String>,
}

/// The body of an update-article call against the service's API.
pub struct UpdateArticleRequest {
    pub name: Option<String>,
    pub body: Option<String>,
    pub status: Option<ArticleStatus>,
    pub hashtag_notes: Option<Vec<String>>,
}

} // verus!