//! Exporting articles to markdown files: the frontmatter text written
//! for an article, and the file name it may safely be stored under.
//! The files themselves are written outside.

use vstd::prelude::*;
use crate::json::dec_nat;
use crate::models::{Article, ArticleStatus, Hashtag};
use crate::text::{append_str, chars_of, str_trim, string_of, trim_of};

verus! {

/// One frontmatter line: a key, a colon and a space, a value, a
/// newline.
pub open spec fn md_line(key: Seq<char>, value: Seq<char>) -> Seq<char> {
    key + ": "@ + value + seq!['\n']
}

/// The tag names joined by commas.
pub open spec fn joined_tags(hs: Seq<Hashtag>, k: int) -> Seq<char>
    decreases hs.len() - k,
{
    if k < 0 || k >= hs.len() {
        Seq::empty()
    } else if k == hs.len() - 1 {
        hs[k].name@
    } else {
        hs[k].name@ + ", "@ + joined_tags(hs, k + 1)
    }
}

/// The markdown text an article exports to: a frontmatter block holding
/// every field the article carries, then the body.
pub open spec fn markdown_of_article(a: Article) -> Seq<char> {
    "---\n"@ + md_line("title"@, a.name@) + (match a.status {
        Option::Some(st) => md_line("status"@, st.word()),
        Option::None => Seq::empty(),
    }) + (match a.hashtag_notes {
        Option::Some(hs) => if hs@.len() > 0 {
            md_line("tags"@, joined_tags(hs@, 0))
        } else {
            Seq::empty()
        },
        Option::None => Seq::empty(),
    }) + (match a.id {
        Option::Some(id) => md_line("article_id"@, id@),
        Option::None => Seq::empty(),
    }) + (match a.key {
        Option::Some(key) => md_line("article_key"@, key@),
        Option::None => Seq::empty(),
    }) + (match a.publish_at {
        Option::Some(p) => md_line("published_at"@, p@),
        Option::None => Seq::empty(),
    }) + (match a.like_count {
        Option::Some(n) => md_line("like_count"@, dec_nat(n as nat)),
        Option::None => Seq::empty(),
    }) + (match a.comment_count {
        Option::Some(n) => md_line("comment_count"@, dec_nat(n as nat)),
        Option::None => Seq::empty(),
    }) + (match a.read_count {
        Option::Some(n) => md_line("read_count"@, dec_nat(n as nat)),
        Option::None => Seq::empty(),
    }) + "---\n\n"@ + a.body@
}

fn push_line(out: &mut Vec<char>, key: &str, value: &str)
    ensures
        final(out)@ == old(out)@ + md_line(key@, value@),
{
    append_str(out, key);
    append_str(out, ": ");
    append_str(out, value);
    out.push('\n');
    assert(out@ =~= old(out)@ + md_line(key@, value@));
}

/// Renders an article as markdown with frontmatter, as
/// `markdown_of_article` describes.
pub fn generate_markdown(article: &Article) -> (r: String)
    ensures
        r@ == markdown_of_article(*article),
{
    let mut out: Vec<char> = Vec::new();
    append_str(&mut out, "---\n");
    push_line(&mut out, "title", article.name.as_str());
    match &article.status {
        Option::Some(st) => {
            push_line(&mut out, "status", st.as_str());
        },
        Option::None => {},
    }
    match &article.hashtag_notes {
        Option::Some(hs) => {
            if hs.len() > 0 {
                let ghost pre = out@;
                append_str(&mut out, "tags");
                append_str(&mut out, ": ");
                join_tags(hs, 0, &mut out);
                out.push('\n');
                proof {
                    assert(out@ =~= pre + md_line("tags"@, joined_tags(hs@, 0)));
                }
            }
        },
        Option::None => {},
    }
    match &article.id {
        Option::Some(id) => {
            push_line(&mut out, "article_id", id.as_str());
        },
        Option::None => {},
    }
    match &article.key {
        Option::Some(key) => {
            push_line(&mut out, "article_key", key.as_str());
        },
        Option::None => {},
    }
    match &article.publish_at {
        Option::Some(p) => {
            push_line(&mut out, "published_at", p.as_str());
        },
        Option::None => {},
    }
    match &article.like_count {
        Option::Some(n) => {
            push_count(&mut out, "like_count", *n);
        },
        Option::None => {},
    }
    match &article.comment_count {
        Option::Some(n) => {
            push_count(&mut out, "comment_count", *n);
        },
        Option::None => {},
    }
    match &article.read_count {
        Option::Some(n) => {
            push_count(&mut out, "read_count", *n);
        },
        Option::None => {},
    }
    append_str(&mut out, "---\n\n");
    append_str(&mut out, article.body.as_str());
    proof {
        assert(out@ =~= markdown_of_article(*article));
    }
    string_of(&out)
}

fn join_tags(hs: &Vec<Hashtag>, k: usize, out: &mut Vec<char>)
    requires
        k <= hs@.len(),
    ensures
        final(out)@ == old(out)@ + joined_tags(hs@, k as int),
    decreases hs@.len() - k,
{
    if k < hs.len() {
        append_str(out, hs[k].name.as_str());
        if k + 1 < hs.len() {
            append_str(out, ", ");
            join_tags(hs, k + 1, out);
            assert(out@ =~= old(out)@ + joined_tags(hs@, k as int));
        } else {
            assert(out@ =~= old(out)@ + joined_tags(hs@, k as int));
        }
    }
}

fn push_count(out: &mut Vec<char>, key: &str, n: u32)
    ensures
        final(out)@ == old(out)@ + md_line(key@, dec_nat(n as nat)),
{
    append_str(out, key);
    append_str(out, ": ");
    crate::json::append_u64(n as u64, out);
    out.push('\n');
    assert(out@ =~= old(out)@ + md_line(key@, dec_nat(n as nat)));
}

/// A character that may not appear in a file name, replaced by a
/// hyphen.
pub open spec fn sanitize_char(c: char) -> char {
    if c == '/' || c == '\\' || c == ':' || c == '*' || c == '?' || c == '"' || c == '<' || c
        == '>' || c == '|' {
        '-'
    } else {
        c
    }
}

/// The file name an article title may be stored under: every character
/// a file system refuses becomes a hyphen, and the ends are trimmed.
pub open spec fn sanitize_filename_spec(name: Seq<char>) -> Seq<char> {
    trim_of(Seq::new(name.len(), |i: int| sanitize_char(name[i])))
}

/// Makes a name safe as a file name, as `sanitize_filename_spec`
/// describes.
pub fn sanitize_filename(name: &str) -> (r: String)
    ensures
        r@ == sanitize_filename_spec(name@),
{
    let cs = chars_of(name);
    let n = cs.len();
    let mut out: Vec<char> = Vec::new();
    let mut k: usize = 0;
    let ghost mapped = Seq::new(name@.len(), |i: int| sanitize_char(name@[i]));
    #[verifier::loop_isolation(false)]
    while k < n
        invariant
            k <= n,
            n == cs@.len(),
            cs@ == name@,
            out@ == mapped.take(k as int),
        decreases n - k,
    {
        let c = cs[k];
        let m = if c == '/' || c == '\\' || c == ':' || c == '*' || c == '?' || c == '"' || c == '<'
            || c == '>' || c == '|' {
            '-'
        } else {
            c
        };
        out.push(m);
        proof {
            assert(m == sanitize_char(name@[k as int]));
            assert(out@ =~= mapped.take(k + 1));
        }
        k += 1;
    }
    proof {
        assert(mapped.take(n as int) =~= mapped);
    }
    str_trim(string_of(&out).as_str())
}

} // verus!