//! The command-line vocabulary of the tool, as plain data.  The actual
//! argument parsing happens in the surrounding program; every command
//! and option it can produce is enumerated here.

use vstd::prelude::*;

verus! {

/// A parsed invocation: at most one command.
pub struct Cli {
    pub command: Option<Commands>,
}

/// Every command the tool understands.
pub enum Commands {
    /// Initialize a working directory.
    Init { path: Option<String> },
    /// Create a new article, optionally from a template.
    New { title: Option<String>, template: Option<String> },
    /// Publish an article file.
    Publish { file: String, draft: bool, force: bool },
    /// Show the difference between a local file and the remote article.
    Diff { file: String },
    /// Update an existing article from a file.
    Edit { id: String, file: String },
    /// Delete an article.
    Delete { id: String, force: bool },
    /// List a user's articles.
    List { username: String, page: u32 },
    /// Tag management.
    Tag(TagCommands),
    /// Magazine management.
    Magazine(MagazineCommands),
    /// Like an article.
    Like { key: String },
    /// Unlike an article.
    Unlike { key: String },
    /// Show an article's comments.
    Comments { id: String },
    /// Show a user's profile.
    User { username: String },
    /// Export articles to markdown files.
    Export {
        article_key: Option<String>,
        all: bool,
        username: Option<String>,
        output: Option<String>,
        page: u32,
    },
    /// Template management.
    Template(TemplateCommands),
    /// Authentication management.
    Auth(AuthCommands),
}

/// The tag subcommands.
pub enum TagCommands {
    List { page: u32 },
    Suggest { keyword: String },
}

/// The magazine subcommands.
pub enum MagazineCommands {
    Add { magazine: String, note_id: String, note_key: String },
    Remove { magazine: String, note_key: String },
}

/// The template subcommands.
pub enum TemplateCommands {
    List,
    Add { name: String },
    Show { name: String },
    Remove { name: String },
}

/// The authentication subcommands.
pub enum AuthCommands {
    Status,
}

} // verus!