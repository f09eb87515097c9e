//! Markdown articles on the caller's disk: the frontmatter block, the
//! fields read out of it, and the file name derived from a title.

use vstd::prelude::*;
use crate::models::ArticleStatus;
use crate::errors::NoetError;
use crate::text::{
    chars_of, char_is_alphanumeric, is_alnum_char, lower_of, pat_at, str_trim, string_of,
    to_lowercase, trim_of,
};

verus! {

/// The key/value block at the head of an article file.  Later bindings
/// of a key overwrite earlier ones, as in the original map.
pub struct Frontmatter {
    entries: Vec<(String, String)>,
}

impl Frontmatter {
    /// The map this block stands for.
    pub closed spec fn view(&self) -> Map<Seq<char>, Seq<char>> {
        Self::map_of(self.entries@)
    }

    pub closed spec fn map_of(es: Seq<(String, String)>) -> Map<Seq<char>, Seq<char>>
        decreases es.len(),
    {
        if es.len() == 0 {
            Map::empty()
        } else {
            Self::map_of(es.drop_last()).insert(es.last().0@, es.last().1@)
        }
    }

    /// No two entries carry the same key.
    pub closed spec fn wf(&self) -> bool {
        forall|i: int, j: int|
            0 <= i < j < self.entries@.len() ==> self.entries@[i].0@ != self.entries@[j].0@
    }

    proof fn lemma_map_of_contains(es: Seq<(String, String)>, key: Seq<char>)
        ensures
            Self::map_of(es).contains_key(key) <==> exists|i: int|
                0 <= i < es.len() && #[trigger] es[i].0@ == key,
        decreases es.len(),
    {
        if es.len() > 0 {
            Self::lemma_map_of_contains(es.drop_last(), key);
            if Self::map_of(es).contains_key(key) {
                if es.last().0@ != key {
                    let i = choose|i: int|
                        0 <= i < es.drop_last().len() && #[trigger] es.drop_last()[i].0@ == key;
                    assert(es[i].0@ == key);
                }
            }
            if exists|i: int| 0 <= i < es.len() && #[trigger] es[i].0@ == key {
                let i = choose|i: int| 0 <= i < es.len() && #[trigger] es[i].0@ == key;
                if i < es.len() - 1 {
                    assert(es.drop_last()[i].0@ == key);
                }
            }
        }
    }

    proof fn lemma_map_of_at(es: Seq<(String, String)>, i: int)
        requires
            forall|a: int, b: int| 0 <= a < b < es.len() ==> es[a].0@ != es[b].0@,
            0 <= i < es.len(),
        ensures
            Self::map_of(es).contains_key(es[i].0@),
            Self::map_of(es)[es[i].0@] == es[i].1@,
        decreases es.len(),
    {
        if i == es.len() - 1 {
        } else {
            Self::lemma_map_of_at(es.drop_last(), i);
            assert(es.drop_last()[i] == es[i]);
            assert(es[i].0@ != es.last().0@);
        }
    }

    proof fn lemma_map_of_remove(es: Seq<(String, String)>, i: int)
        requires
            forall|a: int, b: int| 0 <= a < b < es.len() ==> es[a].0@ != es[b].0@,
            0 <= i < es.len(),
        ensures
            Self::map_of(es.remove(i)) == Self::map_of(es).remove(es[i].0@),
        decreases es.len(),
    {
        let key = es[i].0@;
        if i == es.len() - 1 {
            assert(es.remove(i) =~= es.drop_last());
            Self::lemma_map_of_contains(es.drop_last(), key);
            assert(!Self::map_of(es.drop_last()).contains_key(key));
            assert(Self::map_of(es.drop_last()) =~= Self::map_of(es).remove(key));
        } else {
            Self::lemma_map_of_remove(es.drop_last(), i);
            assert(es.remove(i).drop_last() =~= es.drop_last().remove(i));
            assert(es.remove(i).last() == es.last());
            assert(es.remove(i).len() == es.len() - 1);
            assert(Self::map_of(es.remove(i)) == Self::map_of(es.drop_last().remove(i)).insert(
                es.last().0@,
                es.last().1@,
            ));
            assert(es[i].0@ != es.last().0@);
            assert(Self::map_of(es.remove(i)) =~= Self::map_of(es).remove(key));
        }
    }

    /// An empty block.
    pub fn new() -> (r: Self)
        ensures
            r@ == Map::<Seq<char>, Seq<char>>::empty(),
            r.wf(),
    {
        let r = Frontmatter { entries: Vec::new() };
        proof {
            assert(r@ =~= Map::<Seq<char>, Seq<char>>::empty());
        }
        r
    }

    /// Binds `key` to `value`, replacing any earlier binding.
    pub fn insert(&mut self, key: String, value: String)
        requires
            old(self).wf(),
        ensures
            final(self).wf(),
            final(self)@ == old(self)@.insert(key@, value@),
    {
        proof {
            Self::lemma_map_of_contains(self.entries@, key@);
        }
        let n = self.entries.len();
        let mut k: usize = 0;
        #[verifier::loop_isolation(false)]
        while k < n
            invariant
                n == self.entries@.len(),
                k <= n,
                self.entries@ == old(self).entries@,
                forall|i: int| 0 <= i < k ==> self.entries@[i].0@ != key@,
            decreases n - k,
        {
            if crate::text::str_eq(self.entries[k].0.as_str(), key.as_str()) {
                proof {
                    assert forall|a: int, b: int|
                        0 <= a < b < self.entries@.len() implies self.entries@[a].0@
                        != self.entries@[b].0@ by {
                        assert(old(self).entries@[a].0@ != old(self).entries@[b].0@);
                    }
                    Self::lemma_map_of_remove(self.entries@, k as int);
                    Self::lemma_map_of_contains(self.entries@.remove(k as int), key@);
                }
                let ghost pre = self.entries@;
                self.entries.remove(k);
                proof {
                    assert(forall|a: int, b: int|
                        0 <= a < b < self.entries@.len() ==> self.entries@[a].0@
                            != self.entries@[b].0@);
                    assert(forall|i: int|
                        0 <= i < self.entries@.len() ==> #[trigger] self.entries@[i].0@ != key@) by {
                        Self::lemma_map_of_contains(self.entries@, key@);
                    }
                }
                let ghost mid = self.entries@;
                let ghost kv = key@;
                proof {
                    assert forall|i: int| 0 <= i < mid.len() implies #[trigger] mid[i].0@
                        != kv by {
                        assert(self.entries@[i].0@ != kv);
                    }
                    assert forall|a: int, b: int|
                        0 <= a < b < mid.len() implies mid[a].0@ != mid[b].0@ by {
                        assert(self.entries@[a].0@ != self.entries@[b].0@);
                    }
                }
                self.entries.push((key, value));
                proof {
                    assert(self.entries@.drop_last() =~= mid);
                    assert forall|a: int, b: int|
                        0 <= a < b < self.entries@.len() implies self.entries@[a].0@
                        != self.entries@[b].0@ by {
                        if b < mid.len() {
                            assert(self.entries@[a] == mid[a]);
                            assert(self.entries@[b] == mid[b]);
                        } else {
                            assert(self.entries@[a] == mid[a]);
                            assert(self.entries@[b].0@ == kv);
                        }
                    }
                    assert(self.wf());
                    assert(self@ == Self::map_of(mid).insert(kv, self.entries@.last().1@));
                    assert(Self::map_of(mid) == Self::map_of(pre).remove(kv));
                    assert(self@ =~= old(self)@.insert(kv, self.entries@.last().1@));
                }
                return ;
            }
            k += 1;
        }
        let ghost pre = self.entries@;
        let ghost kv = key@;
        let ghost vv = value@;
        proof {
            assert(pre == old(self).entries@);
            assert forall|i: int| 0 <= i < pre.len() implies #[trigger] pre[i].0@ != kv by {
                assert(self.entries@[i].0@ != kv);
            }
            assert(old(self).wf());
            assert forall|a: int, b: int|
                0 <= a < b < pre.len() implies pre[a].0@ != pre[b].0@ by {
                assert(old(self).entries@[a].0@ != old(self).entries@[b].0@);
            }
        }
        self.entries.push((key, value));
        proof {
            assert(self.entries@.drop_last() =~= pre);
            assert(self.entries@.last().0@ == kv && self.entries@.last().1@ == vv);
            assert forall|a: int, b: int|
                0 <= a < b < self.entries@.len() implies self.entries@[a].0@
                != self.entries@[b].0@ by {
                if b < pre.len() {
                    assert(self.entries@[a] == pre[a]);
                    assert(self.entries@[b] == pre[b]);
                } else {
                    assert(self.entries@[a] == pre[a]);
                    assert(self.entries@[b].0@ == kv);
                }
            }
            assert(self.wf());
            assert(Self::map_of(self.entries@) == Self::map_of(self.entries@.drop_last()).insert(
                kv,
                vv,
            ));
            assert(Self::map_of(self.entries@.drop_last()) == Self::map_of(pre));
            assert(self@ =~= old(self)@.insert(kv, vv));
        }
    }

    /// The value bound to `key`, if any.
    pub fn get(&self, key: &str) -> (r: Option<String>)
        requires
            self.wf(),
        ensures
            match r {
                Option::Some(v) => self@.contains_key(key@) && v@ == self@[key@],
                Option::None => !self@.contains_key(key@),
            },
    {
        proof {
            Self::lemma_map_of_contains(self.entries@, key@);
        }
        let n = self.entries.len();
        let mut k: usize = 0;
        #[verifier::loop_isolation(false)]
        while k < n
            invariant
                n == self.entries@.len(),
                k <= n,
                forall|i: int| 0 <= i < k ==> self.entries@[i].0@ != key@,
            decreases n - k,
        {
            if crate::text::str_eq(self.entries[k].0.as_str(), key) {
                proof {
                    Self::lemma_map_of_at(self.entries@, k as int);
                }
                return Some(self.entries[k].1.clone());
            }
            k += 1;
        }
        None
    }

    /// Whether the block holds no binding at all.
    pub fn is_empty(&self) -> (r: bool)
        requires
            self.wf(),
        ensures
            r == (self@ =~= Map::<Seq<char>, Seq<char>>::empty()),
    {
        if self.entries.len() == 0 {
            proof {
                assert(self@ =~= Map::<Seq<char>, Seq<char>>::empty());
            }
            true
        } else {
            proof {
                Self::lemma_map_of_at(self.entries@, 0);
                assert(self@.contains_key(self.entries@[0].0@));
            }
            false
        }
    }
}

/// The publication status a frontmatter block names: only the two words
/// the service understands count.
pub open spec fn status_of(m: Map<Seq<char>, Seq<char>>) -> Option<ArticleStatus> {
    if m.contains_key("status"@) {
        if m["status"@] == "published"@ {
            Some(ArticleStatus::Published)
        } else if m["status"@] == "draft"@ {
            Some(ArticleStatus::Draft)
        } else {
            None
        }
    } else {
        None
    }
}

/// Reads the publication status out of a frontmatter block, as
/// `status_of` describes.
pub fn parse_status(frontmatter: &Frontmatter) -> (r: Option<ArticleStatus>)
    requires
        frontmatter.wf(),
    ensures
        r == status_of(frontmatter@),
{
    match frontmatter.get("status") {
        Option::None => None,
        Option::Some(s) => {
            if crate::text::str_eq(s.as_str(), "published") {
                Some(ArticleStatus::Published)
            } else if crate::text::str_eq(s.as_str(), "draft") {
                Some(ArticleStatus::Draft)
            } else {
                None
            }
        },
    }
}

/// The position of the first `c` at or after `i`, or the length.
pub open spec fn find_char(s: Seq<char>, c: char, i: int) -> int
    decreases s.len() - i,
{
    if i < 0 || i >= s.len() {
        s.len() as int
    } else if s[i] == c {
        i
    } else {
        find_char(s, c, i + 1)
    }
}

pub fn find_char_x(s: &Vec<char>, c: char, i: usize) -> (r: usize)
    requires
        i <= s@.len(),
    ensures
        r as int == find_char(s@, c, i as int),
        i <= r <= s@.len(),
        r < s@.len() ==> s@[r as int] == c,
        forall|j: int| i <= j < r ==> s@[j] != c,
    decreases s@.len() - i,
{
    if i < s.len() {
        if s[i] == c {
            i
        } else {
            find_char_x(s, c, i + 1)
        }
    } else {
        i
    }
}

/// The comma-separated pieces of a text.
pub open spec fn split_commas(s: Seq<char>) -> Seq<Seq<char>>
    decreases s.len(),
{
    let i = find_char(s, ',', 0);
    if i < 0 || i >= s.len() {
        seq![s]
    } else {
        seq![s.take(i)] + split_commas(s.skip(i + 1))
    }
}

/// Each piece trimmed, empty pieces dropped.
pub open spec fn clean_tags(parts: Seq<Seq<char>>) -> Seq<Seq<char>>
    decreases parts.len(),
{
    if parts.len() == 0 {
        Seq::empty()
    } else {
        let t = trim_of(parts[0]);
        let rest = clean_tags(parts.drop_first());
        if t.len() == 0 {
            rest
        } else {
            seq![t] + rest
        }
    }
}

/// The tag list a frontmatter block names: the `tags` value split on
/// commas, each tag trimmed, empty tags dropped; no usable tag means no
/// list at all.
pub open spec fn tags_of(m: Map<Seq<char>, Seq<char>>) -> Option<Seq<Seq<char>>> {
    if m.contains_key("tags"@) {
        let ts = clean_tags(split_commas(m["tags"@]));
        if ts.len() == 0 {
            None
        } else {
            Some(ts)
        }
    } else {
        None
    }
}

/// The views of a list of strings.
pub open spec fn strings_view(v: Seq<String>) -> Seq<Seq<char>> {
    Seq::new(v.len(), |i: int| if 0 <= i < v.len() { v[i]@ } else { Seq::empty() })
}

/// Reads the tag list out of a frontmatter block, as `tags_of`
/// describes.
#[verifier::rlimit(50)]
pub fn parse_tags(frontmatter: &Frontmatter) -> (r: Option<Vec<String>>)
    requires
        frontmatter.wf(),
    ensures
        match r {
            Option::Some(ts) => tags_of(frontmatter@) == Some(strings_view(ts@)),
            Option::None => tags_of(frontmatter@) is None,
        },
{
    let t = match frontmatter.get("tags") {
        Option::None => {
            return None;
        },
        Option::Some(t) => t,
    };
    let cs = chars_of(t.as_str());
    let mut out: Vec<String> = Vec::new();
    let mut i: usize = 0;
    let ghost whole = cs@;
    proof {
        assert(whole.skip(0) =~= whole);
    }
    let mut done = false;
    #[verifier::loop_isolation(false)]
    while !done
        invariant
            i <= whole.len(),
            done ==> strings_view(out@) =~= clean_tags(split_commas(whole)),
            !done ==> clean_tags(split_commas(whole)) =~= strings_view(out@) + clean_tags(
                split_commas(whole.skip(i as int)),
            ),
        decreases whole.len() - i + (if done { 0int } else { 1int }),
    {
        let ghost rem = whole.skip(i as int);
        let j = find_char_x(&cs, ',', i);
        proof {
            assert(find_char(rem, ',', 0) == (if j < whole.len() {
                j - i
            } else {
                rem.len() as int
            })) by {
                lemma_find_char_skip(whole, ',', i as int, j as int);
            }
        }
        let piece = {
            let mut p: Vec<char> = Vec::new();
            let mut k: usize = i;
            #[verifier::loop_isolation(false)]
            while k < j
                invariant
                    i <= k <= j,
                    j <= whole.len(),
                    p@ == whole.subrange(i as int, k as int),
                decreases j - k,
            {
                p.push(cs[k]);
                assert(p@ =~= whole.subrange(i as int, k + 1));
                k += 1;
            }
            p
        };
        let trimmed = str_trim(string_of(&piece).as_str());
        let ghost parts = split_commas(rem);
        proof {
            if j < whole.len() {
                assert(rem.take(j - i) =~= whole.subrange(i as int, j as int));
            } else {
                assert(rem =~= whole.subrange(i as int, whole.len() as int));
            }
        }
        let ghost prev_out = strings_view(out@);
        if !trimmed.as_str().is_empty() {
            let ghost tv = trimmed@;
            out.push(trimmed);
            proof {
                assert(trimmed@.len() > 0);
                assert(strings_view(out@) =~= prev_out + seq![tv]);
            }
        } else {
            proof {
                assert(trimmed@.len() == 0);
            }
        }
        if j < cs.len() {
            proof {
                assert(rem.skip((j - i) + 1) =~= whole.skip(j + 1));
                assert(parts == seq![rem.take(j - i)] + split_commas(whole.skip(j + 1)));
                assert(parts.drop_first() =~= split_commas(whole.skip(j + 1)));
                assert(clean_tags(parts) == (if trim_of(parts[0]).len() == 0 {
                    clean_tags(parts.drop_first())
                } else {
                    seq![trim_of(parts[0])] + clean_tags(parts.drop_first())
                }));
                assert(strings_view(out@) + clean_tags(split_commas(whole.skip(j + 1))) =~= prev_out
                    + clean_tags(parts));
            }
            i = j + 1;
        } else {
            proof {
                assert(parts == seq![rem]);
                assert(parts.drop_first() =~= Seq::<Seq<char>>::empty());
                assert(clean_tags(parts.drop_first()) =~= Seq::<Seq<char>>::empty());
                if trim_of(rem).len() == 0 {
                    assert(clean_tags(parts) =~= Seq::<Seq<char>>::empty());
                    assert(strings_view(out@) =~= prev_out + clean_tags(parts));
                } else {
                    assert(clean_tags(parts) =~= seq![trim_of(rem)]);
                    assert(strings_view(out@) =~= prev_out + clean_tags(parts));
                }
            }
            i = cs.len();
            done = true;
        }
    }
    if out.len() == 0 {
        proof {
            assert(clean_tags(split_commas(whole)).len() == 0);
        }
        None
    } else {
        proof {
            assert(clean_tags(split_commas(whole)).len() > 0);
        }
        Some(out)
    }
}

/// Searching from an offset finds the same comma.
proof fn lemma_find_char_skip(s: Seq<char>, c: char, i: int, j: int)
    requires
        0 <= i <= s.len(),
        i <= j <= s.len(),
        j == find_char(s, c, i),
        j < s.len() ==> s[j] == c,
        forall|m: int| i <= m < j ==> s[m] != c,
    ensures
        find_char(s.skip(i), c, 0) == (if j < s.len() {
            j - i
        } else {
            s.skip(i).len() as int
        }),
{
    let rem = s.skip(i);
    lemma_find_char_prefix(rem, c, 0, j - i);
}

/// A scan that sees no `c` before position `k`, and `c` (or the end) at
/// `k`, ends at `k`.
proof fn lemma_find_char_prefix(s: Seq<char>, c: char, i: int, k: int)
    requires
        0 <= i <= k <= s.len(),
        forall|m: int| i <= m < k ==> s[m] != c,
        k < s.len() ==> s[k] == c,
    ensures
        find_char(s, c, i) == k,
    decreases k - i,
{
    if i < k {
        lemma_find_char_prefix(s, c, i + 1, k);
    }
}

// ---------------------------------------------------------------------------
// Parsing a whole article file into its frontmatter block and body.
// ---------------------------------------------------------------------------

/// The position of the first occurrence of `pat` at or after `i`, or
/// the length when it never occurs.
pub open spec fn find_pat_from(s: Seq<char>, pat: Seq<char>, i: int) -> int
    decreases s.len() - i,
{
    if i < 0 || i >= s.len() {
        s.len() as int
    } else if pat_at(s, i, pat) {
        i
    } else {
        find_pat_from(s, pat, i + 1)
    }
}

fn find_pat_x(s: &Vec<char>, pat: &Vec<char>, i: usize) -> (r: usize)
    requires
        i <= s@.len(),
    ensures
        r as int == find_pat_from(s@, pat@, i as int),
        i <= r <= s@.len(),
        r < s@.len() ==> pat_at(s@, r as int, pat@),
    decreases s@.len() - i,
{
    if i >= s.len() {
        i
    } else if crate::text::pat_at_x(s, i, pat) {
        i
    } else {
        find_pat_x(s, pat, i + 1)
    }
}

/// The newline-separated lines of a text.
pub open spec fn lines_of(s: Seq<char>) -> Seq<Seq<char>>
    decreases s.len(),
{
    let i = find_char(s, '\n', 0);
    if i < 0 || i >= s.len() {
        seq![s]
    } else {
        seq![s.take(i)] + lines_of(s.skip(i + 1))
    }
}

/// A quote character of either kind.
pub open spec fn is_quote(c: char) -> bool {
    c == '"' || c == '\''
}

/// How many quote characters open the text.
pub open spec fn lead_quotes(s: Seq<char>) -> int
    decreases s.len(),
{
    if s.len() > 0 && is_quote(s[0]) {
        1 + lead_quotes(s.drop_first())
    } else {
        0
    }
}

/// How many quote characters close the text.
pub open spec fn trail_quotes(s: Seq<char>) -> int
    decreases s.len(),
{
    if s.len() > 0 && is_quote(s.last()) {
        1 + trail_quotes(s.drop_last())
    } else {
        0
    }
}

/// The text with every leading and trailing quote character removed.
pub open spec fn trim_quotes(s: Seq<char>) -> Seq<char> {
    let t = s.skip(lead_quotes(s));
    t.take(t.len() - trail_quotes(t))
}

proof fn lemma_lead_quotes(s: Seq<char>, f: int)
    requires
        0 <= f <= s.len(),
        forall|j: int| 0 <= j < f ==> is_quote(#[trigger] s[j]),
        f == s.len() || !is_quote(s[f]),
    ensures
        lead_quotes(s) == f,
    decreases f,
{
    if f == 0 {
    } else {
        assert(is_quote(s[0]));
        lemma_lead_quotes(s.drop_first(), f - 1);
    }
}

proof fn lemma_trail_quotes(s: Seq<char>, b: int)
    requires
        0 <= b <= s.len(),
        forall|j: int| b <= j < s.len() ==> is_quote(#[trigger] s[j]),
        b == 0 || !is_quote(s[b - 1]),
    ensures
        trail_quotes(s) == s.len() - b,
    decreases s.len() - b,
{
    if b == s.len() {
        if s.len() > 0 {
            assert(!is_quote(s.last()));
        }
    } else {
        assert(is_quote(s.last()));
        assert(forall|j: int|
            b <= j < s.drop_last().len() ==> is_quote(#[trigger] s.drop_last()[j]));
        lemma_trail_quotes(s.drop_last(), b);
    }
}

/// Strips the quote characters at both ends, as `trim_quotes`
/// describes.
fn trim_quotes_x(s: &Vec<char>) -> (r: Vec<char>)
    ensures
        r@ == trim_quotes(s@),
{
    let n = s.len();
    let mut f: usize = 0;
    #[verifier::loop_isolation(false)]
    while f < n && (s[f] == '"' || s[f] == '\'')
        invariant
            f <= n,
            n == s@.len(),
            forall|j: int| 0 <= j < f ==> is_quote(#[trigger] s@[j]),
        decreases n - f,
    {
        f += 1;
    }
    proof {
        lemma_lead_quotes(s@, f as int);
    }
    let ghost t = s@.skip(f as int);
    let mut b: usize = n;
    #[verifier::loop_isolation(false)]
    while b > f && (s[b - 1] == '"' || s[b - 1] == '\'')
        invariant
            f <= b <= n,
            forall|j: int| b <= j < n ==> is_quote(#[trigger] s@[j]),
        decreases b,
    {
        b -= 1;
    }
    proof {
        assert forall|j: int| b - f <= j < t.len() implies is_quote(#[trigger] t[j]) by {
            assert(t[j] == s@[f + j]);
        }
        if b > f {
            assert(t[b - f - 1] == s@[b - 1]);
        }
        lemma_trail_quotes(t, b - f);
    }
    let mut out: Vec<char> = Vec::new();
    let mut k: usize = f;
    #[verifier::loop_isolation(false)]
    while k < b
        invariant
            f <= k <= b <= n,
            n == s@.len(),
            out@ == s@.subrange(f as int, k as int),
        decreases b - k,
    {
        out.push(s[k]);
        assert(out@ =~= s@.subrange(f as int, k + 1));
        k += 1;
    }
    proof {
        assert(out@ =~= t.take(t.len() - trail_quotes(t)));
    }
    out
}

/// The key/value binding a frontmatter line carries: the first colon
/// splits it; the key is trimmed, the value is trimmed and then loses
/// its surrounding quotes.  A line with no colon binds nothing.
pub open spec fn kv_of_line(line: Seq<char>) -> Option<(Seq<char>, Seq<char>)> {
    let ci = find_char(line, ':', 0);
    if ci < 0 || ci >= line.len() {
        None
    } else {
        Some((trim_of(line.take(ci)), trim_quotes(trim_of(line.skip(ci + 1)))))
    }
}

/// The map a sequence of frontmatter lines builds up, in order: a later
/// binding of a key overwrites an earlier one.
pub open spec fn fm_of_lines(ls: Seq<Seq<char>>) -> Map<Seq<char>, Seq<char>>
    decreases ls.len(),
{
    if ls.len() == 0 {
        Map::empty()
    } else {
        let m = fm_of_lines(ls.drop_last());
        match kv_of_line(ls.last()) {
            Option::None => m,
            Option::Some((k, v)) => m.insert(k, v),
        }
    }
}

/// What a whole article file means: with a frontmatter block between
/// two `---` markers, its bindings and the trimmed rest; without one,
/// no bindings and the text unchanged.
pub open spec fn parse_markdown_spec(s: Seq<char>) -> (Map<Seq<char>, Seq<char>>, Seq<char>) {
    let dashes = seq!['-', '-', '-'];
    if !pat_at(s, 0, dashes) {
        (Map::empty(), s)
    } else {
        let i = find_pat_from(s, dashes, 3);
        if i >= s.len() {
            (Map::empty(), s)
        } else {
            (fm_of_lines(lines_of(s.subrange(3, i))), trim_of(s.skip(i + 3)))
        }
    }
}

/// Splits an article file into its frontmatter block and body, as
/// `parse_markdown_spec` describes.  Never fails: a malformed block
/// simply binds nothing.
#[verifier::rlimit(50)]
pub fn parse_markdown(content: &str) -> (r: Result<(Frontmatter, String), NoetError>)
    ensures
        r matches Ok(p) && p.0.wf() && p.0@ == parse_markdown_spec(content@).0 && p.1@
            == parse_markdown_spec(content@).1,
{
    let cs = chars_of(content);
    let dashes: Vec<char> = vec!['-', '-', '-'];
    proof {
        assert(dashes@ =~= seq!['-', '-', '-']);
    }
    if !crate::text::pat_at_x(&cs, 0, &dashes) {
        return Ok((Frontmatter::new(), String::from_str(content)));
    }
    let i = find_pat_x(&cs, &dashes, 3);
    if i >= cs.len() {
        return Ok((Frontmatter::new(), String::from_str(content)));
    }
    // the body: everything after the closing marker, trimmed
    let mut body_chars: Vec<char> = Vec::new();
    let mut k: usize = i + 3;
    let n = cs.len();
    #[verifier::loop_isolation(false)]
    while k < n
        invariant
            i + 3 <= k <= n,
            n == cs@.len(),
            body_chars@ == cs@.subrange(i + 3, k as int),
        decreases n - k,
    {
        body_chars.push(cs[k]);
        assert(body_chars@ =~= cs@.subrange(i + 3, k + 1));
        k += 1;
    }
    proof {
        assert(body_chars@ =~= cs@.skip(i + 3));
    }
    let body = str_trim(string_of(&body_chars).as_str());
    // the frontmatter text between the markers, processed line by line
    let ghost fm_text = cs@.subrange(3, i as int);
    let mut fm = Frontmatter::new();
    let ghost mut done: Seq<Seq<char>> = Seq::empty();
    let mut u: usize = 3;
    let mut finished = false;
    proof {
        assert(fm_text.skip(0) =~= fm_text);
        assert(fm@ =~= fm_of_lines(done));
        assert(lines_of(fm_text) =~= done + lines_of(fm_text.skip(0)));
    }
    #[verifier::loop_isolation(false)]
    while !finished
        invariant
            3 <= u <= i,
            i < cs@.len(),
            fm_text == cs@.subrange(3, i as int),
            fm.wf(),
            fm@ == fm_of_lines(done),
            finished ==> fm@ == fm_of_lines(lines_of(fm_text)),
            !finished ==> lines_of(fm_text) == done + lines_of(fm_text.skip(u - 3)),
        decreases i - u + (if finished { 0int } else { 1int }),
    {
        let ghost rem = fm_text.skip(u - 3);
        proof {
            assert(rem.len() == i - u);
            assert forall|m: int| 0 <= m < rem.len() implies rem[m] == cs@[u + m] by {
                assert(rem[m] == fm_text[u - 3 + m]);
            }
        }
        // the line ends at the next newline inside the block, or at the
        // block's end
        let mut j: usize = u;
        #[verifier::loop_isolation(false)]
        while j < i && cs[j] != '\n'
            invariant
                u <= j <= i,
                i < cs@.len(),
                forall|m: int| u <= m < j ==> cs@[m] != '\n',
            decreases i - j,
        {
            j += 1;
        }
        proof {
            assert forall|m: int| 0 <= m < j - u implies rem[m] != '\n' by {
                assert(rem[m] == cs@[u + m]);
            }
            if j < i {
                assert(rem[j - u] == cs@[j as int]);
                lemma_find_char_prefix(rem, '\n', 0, j - u);
            } else {
                lemma_find_char_prefix(rem, '\n', 0, rem.len() as int);
            }
        }
        let mut line: Vec<char> = Vec::new();
        let mut k2: usize = u;
        #[verifier::loop_isolation(false)]
        while k2 < j
            invariant
                u <= k2 <= j <= i,
                i < cs@.len(),
                line@ == cs@.subrange(u as int, k2 as int),
            decreases j - k2,
        {
            line.push(cs[k2]);
            assert(line@ =~= cs@.subrange(u as int, k2 + 1));
            k2 += 1;
        }
        proof {
            if j < i {
                assert(line@ =~= rem.take(j - u));
            } else {
                assert(line@ =~= rem);
            }
        }
        // bind key and value when the line has a colon
        let ci = find_char_x(&line, ':', 0);
        let ghost prev_fm = fm@;
        let ghost prev_done = done;
        if ci < line.len() {
            let mut keyc: Vec<char> = Vec::new();
            let mut k3: usize = 0;
            #[verifier::loop_isolation(false)]
            while k3 < ci
                invariant
                    k3 <= ci <= line@.len(),
                    keyc@ == line@.subrange(0, k3 as int),
                decreases ci - k3,
            {
                keyc.push(line[k3]);
                assert(keyc@ =~= line@.subrange(0, k3 + 1));
                k3 += 1;
            }
            let mut valc: Vec<char> = Vec::new();
            let mut k4: usize = ci + 1;
            #[verifier::loop_isolation(false)]
            while k4 < line.len()
                invariant
                    ci + 1 <= k4 <= line@.len(),
                    valc@ == line@.subrange(ci + 1, k4 as int),
                decreases line@.len() - k4,
            {
                valc.push(line[k4]);
                assert(valc@ =~= line@.subrange(ci + 1, k4 + 1));
                k4 += 1;
            }
            let key = str_trim(string_of(&keyc).as_str());
            let val_trimmed = str_trim(string_of(&valc).as_str());
            let val = string_of(&trim_quotes_x(&chars_of(val_trimmed.as_str())));
            proof {
                assert(keyc@ =~= line@.take(ci as int));
                assert(valc@ =~= line@.skip(ci + 1));
                assert(kv_of_line(line@) == Some((key@, val@)));
            }
            fm.insert(key, val);
        } else {
            proof {
                assert(kv_of_line(line@) is None);
            }
        }
        proof {
            done = prev_done.push(line@);
            assert(done.drop_last() =~= prev_done);
            assert(fm@ =~= fm_of_lines(done));
        }
        if j < i {
            proof {
                assert(rem.skip((j - u) + 1) =~= fm_text.skip(j + 1 - 3));
                assert(lines_of(rem) == seq![rem.take(j - u)] + lines_of(rem.skip((j - u) + 1)));
                assert(lines_of(fm_text) =~= done + lines_of(fm_text.skip(j + 1 - 3)));
            }
            u = j + 1;
        } else {
            proof {
                assert(lines_of(rem) == seq![rem]);
                assert(lines_of(fm_text) =~= done + Seq::<Seq<char>>::empty());
                assert(lines_of(fm_text) =~= done);
            }
            u = i;
            finished = true;
        }
    }
    proof {
        assert(parse_markdown_spec(content@).0 == fm_of_lines(lines_of(fm_text)));
        assert(parse_markdown_spec(content@).1 == trim_of(cs@.skip(i + 3)));
    }
    Ok((fm, body))
}

/// The file name derived from a title: the lowercase form with spaces
/// as hyphens, keeping only alphanumeric characters and hyphens.
pub open spec fn filename_of(title: Seq<char>) -> Seq<char> {
    keep_chars(Seq::new(lower_of(title).len(), |i: int| hyphenate(lower_of(title)[i])))
}

pub open spec fn hyphenate(c: char) -> char {
    if c == ' ' {
        '-'
    } else {
        c
    }
}

pub open spec fn keep_chars(s: Seq<char>) -> Seq<char>
    decreases s.len(),
{
    if s.len() == 0 {
        Seq::empty()
    } else {
        let rest = keep_chars(s.drop_first());
        if is_alnum_char(s[0]) || s[0] == '-' {
            seq![s[0]] + rest
        } else {
            rest
        }
    }
}

/// Derives a file name from a title, as `filename_of` describes.
pub fn generate_filename(title: &str) -> (r: String)
    ensures
        r@ == filename_of(title@),
{
    let lowered = to_lowercase(title);
    let cs = chars_of(lowered.as_str());
    let ghost mapped = Seq::new(lower_of(title@).len(), |i: int| hyphenate(lower_of(title@)[i]));
    let n = cs.len();
    let mut out: Vec<char> = Vec::new();
    let mut k: usize = 0;
    proof {
        assert(mapped.skip(0) =~= mapped);
    }
    #[verifier::loop_isolation(false)]
    while k < n
        invariant
            k <= n,
            n == cs@.len(),
            cs@ == lower_of(title@),
            keep_chars(mapped) =~= out@ + keep_chars(mapped.skip(k as int)),
        decreases n - k,
    {
        let ghost rem = mapped.skip(k as int);
        proof {
            assert(rem[0] == mapped[k as int]);
            assert(rem.drop_first() =~= mapped.skip(k + 1));
        }
        let c0 = cs[k];
        let c = if c0 == ' ' {
            '-'
        } else {
            c0
        };
        proof {
            assert(c == hyphenate(cs@[k as int]));
            assert(mapped[k as int] == hyphenate(lower_of(title@)[k as int]));
        }
        let ghost prev = out@;
        if char_is_alphanumeric(c) || c == '-' {
            out.push(c);
            proof {
                assert(out@ =~= prev + seq![c]);
                assert(out@ + keep_chars(mapped.skip(k + 1)) =~= prev + (seq![rem[0]] + keep_chars(
                    rem.drop_first(),
                )));
            }
        }
        k += 1;
    }
    proof {
        assert(mapped.skip(n as int) =~= Seq::<char>::empty());
        assert(keep_chars(Seq::<char>::empty()) =~= Seq::<char>::empty());
        assert(out@ + Seq::<char>::empty() =~= out@);
        assert(out@ =~= filename_of(title@));
    }
    string_of(&out)
}

} // verus!