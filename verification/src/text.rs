//! Conversions between `String`/`&str` and `Vec<char>`, on which the
//! verified text processing in this crate operates, and a verified
//! string-equality test.

use vstd::prelude::*;

verus! {

/// Relies on str::chars: iterates the characters of the slice in order.
#[verifier::external_body]
pub fn chars_of(s: &str) -> (r: Vec<char>)
    ensures
        r@ == s@,
{
    s.chars().collect()
}

/// Relies on String's FromIterator impl: collects the characters in order.
#[verifier::external_body]
pub fn string_of(cs: &Vec<char>) -> (r: String)
    ensures
        r@ == cs@,
{
    cs.iter().collect()
}

/// True exactly when the two slices spell the same character sequence.
pub fn str_eq(a: &str, b: &str) -> (r: bool)
    ensures
        r == (a@ == b@),
{
    let av = a.as_bytes_vec();
    let bv = b.as_bytes_vec();
    proof {
        vstd::utf8::encode_utf8_decode_utf8(a@);
        vstd::utf8::encode_utf8_decode_utf8(b@);
    }
    if av.len() != bv.len() {
        assert(a@ != b@);
        return false;
    }
    let n = av.len();
    let mut i: usize = 0;
    while i < n
        invariant
            n == av.len() == bv.len(),
            i <= n,
            av@ == vstd::utf8::encode_utf8(a@),
            bv@ == vstd::utf8::encode_utf8(b@),
            forall|j: int| 0 <= j < i ==> av@[j] == bv@[j],
        decreases n - i,
    {
        if av[i] != bv[i] {
            assert(av@ != bv@);
            assert(a@ != b@);
            return false;
        }
        i += 1;
    }
    assert(av@ =~= bv@);
    assert(a@ == b@);
    true
}

/// The lowercase form of a text, as the standard library folds case.
pub uninterp spec fn lower_of(s: Seq<char>) -> Seq<char>;

/// Relies on str::to_lowercase: the result depends on the characters
/// alone.
#[verifier::external_body]
pub fn to_lowercase(s: &str) -> (r: String)
    ensures
        r@ == lower_of(s@),
{
    s.to_lowercase()
}

/// Whether a character is alphanumeric in the Unicode sense.
pub uninterp spec fn is_alnum_char(c: char) -> bool;

/// Relies on char::is_alphanumeric: a property of the character alone.
#[verifier::external_body]
pub fn char_is_alphanumeric(c: char) -> (r: bool)
    ensures
        r == is_alnum_char(c),
{
    c.is_alphanumeric()
}

/// A text with its leading and trailing whitespace removed.
pub uninterp spec fn trim_of(s: Seq<char>) -> Seq<char>;

/// Relies on str::trim: the result depends on the characters alone.
#[verifier::external_body]
pub fn str_trim(s: &str) -> (r: String)
    ensures
        r@ == trim_of(s@),
{
    s.trim().to_string()
}

/// Appends the characters of a slice.
pub fn append_str(out: &mut Vec<char>, s: &str)
    ensures
        final(out)@ == old(out)@ + s@,
{
    let cs = chars_of(s);
    let n = cs.len();
    let mut k: usize = 0;
    #[verifier::loop_isolation(false)]
    while k < n
        invariant
            k <= n,
            n == cs@.len(),
            cs@ == s@,
            out@ == old(out)@ + s@.take(k as int),
        decreases n - k,
    {
        out.push(cs[k]);
        assert(out@ =~= old(out)@ + s@.take(k + 1));
        k += 1;
    }
    assert(s@.take(n as int) =~= s@);
}

/// The characters of a window, as their own vector.
pub fn sub_chars(s: &Vec<char>, a: usize, b: usize) -> (r: Vec<char>)
    requires
        a <= b <= s@.len(),
    ensures
        r@ == s@.subrange(a as int, b as int),
{
    let mut out: Vec<char> = Vec::new();
    let mut k: usize = a;
    #[verifier::loop_isolation(false)]
    while k < b
        invariant
            a <= k <= b,
            out@ == s@.subrange(a as int, k as int),
        decreases b - k,
    {
        out.push(s[k]);
        assert(out@ =~= s@.subrange(a as int, k + 1));
        k += 1;
    }
    out
}

// ---------------------------------------------------------------------------
// Verified substring search and replacement.
// ---------------------------------------------------------------------------

/// The pattern stands at position `i`.
pub open spec fn pat_at(s: Seq<char>, i: int, pat: Seq<char>) -> bool {
    &&& 0 <= i
    &&& i + pat.len() <= s.len()
    &&& forall|m: int| 0 <= m < pat.len() ==> s[i + m] == #[trigger] pat[m]
}

/// The pattern stands somewhere in the text.
pub open spec fn has_pat(s: Seq<char>, pat: Seq<char>) -> bool {
    exists|i: int| pat_at(s, i, pat)
}

/// Replacement of every occurrence, leftmost first, never overlapping:
/// the meaning of `str::replace`.
pub open spec fn replace_spec(s: Seq<char>, pat: Seq<char>, rep: Seq<char>) -> Seq<char>
    decreases s.len(),
        when pat.len() > 0
{
    if s.len() == 0 {
        s
    } else if pat_at(s, 0, pat) {
        rep + replace_spec(s.skip(pat.len() as int), pat, rep)
    } else {
        seq![s[0]] + replace_spec(s.drop_first(), pat, rep)
    }
}

pub fn pat_at_x(s: &Vec<char>, i: usize, pat: &Vec<char>) -> (r: bool)
    requires
        i <= s@.len(),
    ensures
        r == pat_at(s@, i as int, pat@),
{
    let n = s.len();
    let p = pat.len();
    if n - i < p {
        return false;
    }
    let mut m: usize = 0;
    #[verifier::loop_isolation(false)]
    while m < p
        invariant
            m <= p,
            i + p <= n,
            forall|j: int| 0 <= j < m ==> s@[i + j] == #[trigger] pat@[j],
        decreases p - m,
    {
        if s[i + m] != pat[m] {
            return false;
        }
        m += 1;
    }
    true
}

/// Replaces every occurrence of `pat` by `rep`, as `replace_spec`
/// describes.
pub fn replace_all(s: &Vec<char>, pat: &Vec<char>, rep: &Vec<char>) -> (r: Vec<char>)
    requires
        pat@.len() > 0,
    ensures
        r@ == replace_spec(s@, pat@, rep@),
{
    let mut out: Vec<char> = Vec::new();
    let mut i: usize = 0;
    proof {
        assert(s@.skip(0) =~= s@);
    }
    #[verifier::loop_isolation(false)]
    while i < s.len()
        invariant
            i <= s@.len(),
            replace_spec(s@, pat@, rep@) == out@ + replace_spec(s@.skip(i as int), pat@, rep@),
        decreases s@.len() - i,
    {
        let ghost rem = s@.skip(i as int);
        proof {
            assert(rem.len() == s@.len() - i);
            assert forall|m: int| 0 <= m < rem.len() implies rem[m] == s@[i + m] by {}
        }
        if pat_at_x(s, i, pat) {
            proof {
                assert(pat_at(rem, 0, pat@));
                assert(rem.skip(pat@.len() as int) =~= s@.skip(i + pat@.len()));
            }
            let ghost prev = out@;
            let mut m: usize = 0;
            let p = rep.len();
            #[verifier::loop_isolation(false)]
            while m < p
                invariant
                    m <= p,
                    out@ == prev + rep@.take(m as int),
                decreases p - m,
            {
                out.push(rep[m]);
                assert(out@ =~= prev + rep@.take(m + 1));
                m += 1;
            }
            proof {
                assert(rep@.take(p as int) =~= rep@);
                assert(out@ + replace_spec(s@.skip(i + pat@.len()), pat@, rep@) =~= prev + (rep@
                    + replace_spec(rem.skip(pat@.len() as int), pat@, rep@)));
            }
            i += pat.len();
        } else {
            proof {
                assert(!pat_at(rem, 0, pat@)) by {
                    if pat_at(rem, 0, pat@) {
                        assert forall|m: int| 0 <= m < pat@.len() implies s@[i + m]
                            == #[trigger] pat@[m] by {
                            assert(rem[m] == pat@[m]);
                        }
                    }
                }
                assert(rem.drop_first() =~= s@.skip(i + 1));
                assert(rem[0] == s@[i as int]);
            }
            let ghost prev = out@;
            out.push(s[i]);
            proof {
                assert(out@ + replace_spec(s@.skip(i + 1), pat@, rep@) =~= prev + (seq![rem[0]]
                    + replace_spec(rem.drop_first(), pat@, rep@)));
            }
            i += 1;
        }
    }
    proof {
        assert(s@.skip(s@.len() as int) =~= Seq::<char>::empty());
        assert(out@ + Seq::<char>::empty() =~= out@);
    }
    out
}

/// Whether `pat` occurs in `s`.
pub fn contains_pat(s: &Vec<char>, pat: &Vec<char>) -> (r: bool)
    requires
        pat@.len() > 0,
    ensures
        r == has_pat(s@, pat@),
{
    let n = s.len();
    let mut i: usize = 0;
    #[verifier::loop_isolation(false)]
    while i < n
        invariant
            i <= n,
            n == s@.len(),
            forall|j: int| 0 <= j < i ==> !pat_at(s@, j, pat@),
        decreases n - i,
    {
        if pat_at_x(s, i, pat) {
            return true;
        }
        i += 1;
    }
    proof {
        assert forall|j: int| !pat_at(s@, j, pat@) by {
            if pat_at(s@, j, pat@) {
                assert(0 <= j && j + pat@.len() <= s@.len());
                assert(j < n);
            }
        }
    }
    false
}

/// Replacement by a shorter text never grows the text, and strictly
/// shrinks it when the pattern occurs.
pub proof fn lemma_replace_shrinks(s: Seq<char>, pat: Seq<char>, rep: Seq<char>)
    requires
        0 < pat.len(),
        rep.len() < pat.len(),
    ensures
        replace_spec(s, pat, rep).len() <= s.len(),
        has_pat(s, pat) ==> replace_spec(s, pat, rep).len() < s.len(),
    decreases s.len(),
{
    if s.len() == 0 {
        assert(!has_pat(s, pat)) by {
            if pat_at(s, 0, pat) {
            }
            assert forall|i: int| !pat_at(s, i, pat) by {}
        }
    } else if pat_at(s, 0, pat) {
        lemma_replace_shrinks(s.skip(pat.len() as int), pat, rep);
    } else {
        lemma_replace_shrinks(s.drop_first(), pat, rep);
        if has_pat(s, pat) {
            let i = choose|i: int| pat_at(s, i, pat);
            assert(i > 0);
            assert(pat_at(s.drop_first(), i - 1, pat)) by {
                assert forall|m: int| 0 <= m < pat.len() implies s.drop_first()[i - 1 + m]
                    == #[trigger] pat[m] by {
                    assert(s[i + m] == pat[m]);
                }
            }
            assert(has_pat(s.drop_first(), pat));
        }
    }
}

} // verus!
