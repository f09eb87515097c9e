//! Converting an article's HTML, as the service serves it, to markdown.
//! The conversion itself is the html2md crate's; the cleanup applied to
//! its output — collapsing runs of blank lines and trimming the ends —
//! is verified here.

use vstd::prelude::*;
use crate::errors::NoetError;
use crate::text::{
    chars_of, contains_pat, has_pat, lemma_replace_shrinks, replace_all, replace_spec, str_trim,
    string_of, trim_of,
};

verus! {

/// The markdown html2md renders for a piece of HTML: a function of the
/// text alone.
pub uninterp spec fn markdown_of(html: Seq<char>) -> Seq<char>;

/// Relies on html2md::parse_html: renders HTML as markdown; the result
/// depends on the HTML text alone.
#[verifier::external_body]
fn parse_html_raw(html: &str) -> (r: String)
    ensures
        r@ == markdown_of(html@),
{
    html2md::parse_html(html)
}

/// Three newlines collapsed to two, again and again until none remain.
pub open spec fn collapse_newlines(s: Seq<char>) -> Seq<char>
    decreases s.len(),
        when true
    via collapse_newlines_decreases
{
    if has_pat(s, seq!['\n', '\n', '\n']) {
        collapse_newlines(replace_spec(s, seq!['\n', '\n', '\n'], seq!['\n', '\n']))
    } else {
        s
    }
}

#[via_fn]
proof fn collapse_newlines_decreases(s: Seq<char>) {
    if has_pat(s, seq!['\n', '\n', '\n']) {
        lemma_replace_shrinks(s, seq!['\n', '\n', '\n'], seq!['\n', '\n']);
    }
}

/// The cleaned form of converted markdown: blank-line runs collapsed,
/// ends trimmed.
pub open spec fn post_processed(s: Seq<char>) -> Seq<char> {
    trim_of(collapse_newlines(s))
}

/// Cleans up converted markdown, as `post_processed` describes.
pub fn post_process_markdown(markdown: &str) -> (r: String)
    ensures
        r@ == post_processed(markdown@),
{
    let pat: Vec<char> = vec!['\n', '\n', '\n'];
    let rep: Vec<char> = vec!['\n', '\n'];
    proof {
        assert(pat@ =~= seq!['\n', '\n', '\n']);
        assert(rep@ =~= seq!['\n', '\n']);
    }
    let mut cur = chars_of(markdown);
    #[verifier::loop_isolation(false)]
    while contains_pat(&cur, &pat)
        invariant
            pat@ == seq!['\n', '\n', '\n'],
            rep@ == seq!['\n', '\n'],
            collapse_newlines(cur@) == collapse_newlines(markdown@),
        decreases cur@.len(),
    {
        proof {
            lemma_replace_shrinks(cur@, pat@, rep@);
        }
        cur = replace_all(&cur, &pat, &rep);
    }
    proof {
        assert(collapse_newlines(cur@) == cur@);
    }
    str_trim(string_of(&cur).as_str())
}

/// Converts the service's HTML to cleaned-up markdown: html2md's
/// rendering with the blank-line runs collapsed and the ends trimmed.
pub fn convert_html_to_markdown(html: &str) -> (r: Result<String, NoetError>)
    ensures
        r matches Ok(md) && md@ == post_processed(markdown_of(html@)),
{
    let raw = parse_html_raw(html);
    Ok(post_process_markdown(raw.as_str()))
}

} // verus!