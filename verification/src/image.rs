//! Images referenced by an article: what a markdown reference names,
//! and what an upload carries.  Reading files and encoding their bytes
//! happen outside; the shapes and the format decision live here.

use vstd::prelude::*;

verus! {

/// An image ready to upload: where it lives, what to call it, and its
/// base64-encoded bytes.
pub struct ImageData {
    pub local_path: String,
    pub filename: String,
    pub caption: String,
    pub mime_type: String,
    pub data: String,
}

/// One image reference parsed out of markdown.
pub struct ImageReference {
    pub caption: String,
    pub path: String,
}

/// The image reference standing at `i`, if one does: a bang and an
/// opening bracket, a caption free of closing brackets up to the first
/// one, an opening parenthesis right after, and a nonempty path free of
/// closing parentheses up to the first one.  Yields the caption, the
/// path, and the position after the reference.
pub open spec fn try_image_at(s: Seq<char>, i: int) -> Option<(Seq<char>, Seq<char>, int)> {
    if !(0 <= i && i + 1 < s.len() && s[i] == '!' && s[i + 1] == '[') {
        None
    } else {
        let q = crate::article::find_char(s, ']', i + 2);
        if q >= s.len() {
            None
        } else if !(q + 1 < s.len() && s[q + 1] == '(') {
            None
        } else {
            let r = crate::article::find_char(s, ')', q + 2);
            if r >= s.len() {
                None
            } else if r == q + 2 {
                None
            } else {
                Some((s.subrange(i + 2, q), s.subrange(q + 2, r), r + 1))
            }
        }
    }
}

/// A scan never lands before where it started.
proof fn lemma_find_char_ge(s: Seq<char>, c: char, i: int)
    requires
        0 <= i <= s.len(),
    ensures
        i <= crate::article::find_char(s, c, i) <= s.len(),
    decreases s.len() - i,
{
    if i < s.len() && s[i] != c {
        lemma_find_char_ge(s, c, i + 1);
    }
}

/// Every image reference in reading order, scanned from `i`: matches
/// never overlap, and the scan continues after each one.
pub open spec fn image_refs(s: Seq<char>, i: int) -> Seq<(Seq<char>, Seq<char>)>
    decreases s.len() - i,
        when true
    via image_refs_decreases
{
    if i < 0 || i >= s.len() {
        Seq::empty()
    } else {
        match try_image_at(s, i) {
            Option::None => image_refs(s, i + 1),
            Option::Some((caption, path, j)) => seq![(caption, path)] + image_refs(s, j),
        }
    }
}

#[via_fn]
proof fn image_refs_decreases(s: Seq<char>, i: int) {
    if 0 <= i < s.len() {
        if try_image_at(s, i) is Some {
            lemma_find_char_ge(s, ']', i + 2);
            let q = crate::article::find_char(s, ']', i + 2);
            lemma_find_char_ge(s, ')', q + 2);
        }
    }
}

/// The views of parsed references.
pub open spec fn refs_view(v: Seq<ImageReference>) -> Seq<(Seq<char>, Seq<char>)> {
    Seq::new(v.len(), |i: int| (v[i].caption@, v[i].path@))
}

/// Collects every image reference of a markdown text, as `image_refs`
/// describes.
pub fn extract_image_references(markdown: &str) -> (r: Vec<ImageReference>)
    ensures
        refs_view(r@) == image_refs(markdown@, 0),
{
    let cs = crate::text::chars_of(markdown);
    let n = cs.len();
    let mut out: Vec<ImageReference> = Vec::new();
    let mut i: usize = 0;
    proof {
        assert(refs_view(out@) =~= Seq::<(Seq<char>, Seq<char>)>::empty());
        assert(image_refs(cs@, 0) =~= refs_view(out@) + image_refs(cs@, 0));
    }
    #[verifier::loop_isolation(false)]
    while i < n
        invariant
            i <= n,
            n == cs@.len(),
            cs@ == markdown@,
            image_refs(cs@, 0) == refs_view(out@) + image_refs(cs@, i as int),
        decreases n - i,
    {
        let mut matched = false;
        if i + 1 < n && cs[i] == '!' && cs[i + 1] == '[' {
            let q = crate::article::find_char_x(&cs, ']', i + 2);
            if q < n && q + 1 < n && cs[q + 1] == '(' {
                let r = crate::article::find_char_x(&cs, ')', q + 2);
                if r < n && r > q + 2 {
                    let caption = crate::text::string_of(&crate::text::sub_chars(&cs, i + 2, q));
                    let path = crate::text::string_of(&crate::text::sub_chars(&cs, q + 2, r));
                    let ghost prev = refs_view(out@);
                    let ghost cv = caption@;
                    let ghost pv = path@;
                    out.push(ImageReference { caption, path });
                    proof {
                        assert(try_image_at(cs@, i as int) == Some((cv, pv, r + 1)));
                        assert(refs_view(out@) =~= prev + seq![(cv, pv)]);
                        assert(refs_view(out@) + image_refs(cs@, r + 1) =~= prev + (seq![(cv, pv)]
                            + image_refs(cs@, r + 1)));
                    }
                    i = r + 1;
                    matched = true;
                }
            }
        }
        if !matched {
            proof {
                assert(try_image_at(cs@, i as int) is None);
            }
            i = i + 1;
        }
    }
    proof {
        assert(image_refs(cs@, n as int) =~= Seq::<(Seq<char>, Seq<char>)>::empty());
        assert(refs_view(out@) + Seq::<(Seq<char>, Seq<char>)>::empty() =~= refs_view(out@));
    }
    out
}

/// Whether a reference names a local file the upload step should carry:
/// remote addresses and already-uploaded assets are left alone.
pub fn is_local_reference(path: &str) -> (r: bool)
    ensures
        r == (!crate::text::pat_at(path@, 0, "http://"@) && !crate::text::pat_at(
            path@,
            0,
            "https://"@,
        ) && !crate::text::has_pat(path@, "st-note.com"@)),
{
    proof {
        reveal_strlit("http://");
        reveal_strlit("https://");
        reveal_strlit("st-note.com");
        assert("http://"@.len() == 7);
        assert("https://"@.len() == 8);
        assert("st-note.com"@.len() == 11);
    }
    let cs = crate::text::chars_of(path);
    let http = crate::text::chars_of("http://");
    let https = crate::text::chars_of("https://");
    let asset = crate::text::chars_of("st-note.com");
    !crate::text::pat_at_x(&cs, 0, &http) && !crate::text::pat_at_x(&cs, 0, &https)
        && !crate::text::contains_pat(&cs, &asset)
}

/// The MIME type an image file's extension names, if the format is one
/// the service accepts.
pub fn mime_of_extension(ext: &str) -> (r: Option<&'static str>)
    ensures
        ext@ == "jpg"@ || ext@ == "jpeg"@ ==> (r matches Some(m) && m@ == "image/jpeg"@),
        ext@ == "png"@ ==> (r matches Some(m) && m@ == "image/png"@),
        ext@ == "gif"@ ==> (r matches Some(m) && m@ == "image/gif"@),
        ext@ == "webp"@ ==> (r matches Some(m) && m@ == "image/webp"@),
        ext@ != "jpg"@ && ext@ != "jpeg"@ && ext@ != "png"@ && ext@ != "gif"@ && ext@ != "webp"@
            ==> r is None,
{
    proof {
        reveal_strlit("jpg");
        reveal_strlit("jpeg");
        reveal_strlit("png");
        reveal_strlit("gif");
        reveal_strlit("webp");
        assert("jpg"@.len() == 3 && "jpeg"@.len() == 4 && "png"@.len() == 3 && "gif"@.len() == 3
            && "webp"@.len() == 4);
        assert("jpg"@[0] == 'j' && "png"@[0] == 'p' && "gif"@[0] == 'g');
        assert("jpeg"@[0] == 'j' && "webp"@[0] == 'w');
    }
    if crate::text::str_eq(ext, "jpg") || crate::text::str_eq(ext, "jpeg") {
        Some("image/jpeg")
    } else if crate::text::str_eq(ext, "png") {
        Some("image/png")
    } else if crate::text::str_eq(ext, "gif") {
        Some("image/gif")
    } else if crate::text::str_eq(ext, "webp") {
        Some("image/webp")
    } else {
        None
    }
}

} // verus!