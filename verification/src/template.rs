//! Article templates: filling the title placeholder into a template's
//! text, and picking out the template names among a directory's files.
//! The directory itself is read outside and its file names handed in.

use vstd::prelude::*;
use crate::text::{chars_of, replace_all, replace_spec, string_of};

verus! {

broadcast use vstd::multiset::group_multiset_axioms;

/// The text of a template with every title placeholder replaced.
pub open spec fn rendered_template(content: Seq<char>, title: Seq<char>) -> Seq<char> {
    replace_spec(content, "{{TITLE}}"@, title)
}

/// Fills `title` into every `{{TITLE}}` placeholder of a template's
/// text, as `rendered_template` describes.
pub fn render_template(content: &str, title: &str) -> (r: String)
    ensures
        r@ == rendered_template(content@, title@),
{
    proof {
        reveal_strlit("{{TITLE}}");
        assert("{{TITLE}}"@.len() == 9);
    }
    let cs = chars_of(content);
    let pat = chars_of("{{TITLE}}");
    let rep = chars_of(title);
    let out = replace_all(&cs, &pat, &rep);
    string_of(&out)
}

/// Whether a file name ends in the markdown extension.
pub open spec fn is_md_name(name: Seq<char>) -> bool {
    name.len() >= 3 && name.skip(name.len() - 3) == ".md"@
}

/// The name with its markdown extension removed.
pub open spec fn md_stem(name: Seq<char>) -> Seq<char> {
    name.take(name.len() - 3)
}

/// Whether `a` reads at or before `b`, character code by character
/// code.
pub open spec fn lex_le(a: Seq<char>, b: Seq<char>) -> bool
    decreases a.len(),
{
    if a.len() == 0 {
        true
    } else if b.len() == 0 {
        false
    } else if (a[0] as u32) < (b[0] as u32) {
        true
    } else if (a[0] as u32) > (b[0] as u32) {
        false
    } else {
        lex_le(a.drop_first(), b.drop_first())
    }
}

/// The order is total.
pub proof fn lemma_lex_total(a: Seq<char>, b: Seq<char>)
    ensures
        lex_le(a, b) || lex_le(b, a),
    decreases a.len(),
{
    if a.len() > 0 && b.len() > 0 && !((a[0] as u32) < (b[0] as u32)) && !((a[0] as u32) > (
    b[0] as u32)) {
        lemma_lex_total(a.drop_first(), b.drop_first());
    }
}

/// The order is reflexive.
pub proof fn lemma_lex_refl(a: Seq<char>)
    ensures
        lex_le(a, a),
    decreases a.len(),
{
    if a.len() > 0 {
        lemma_lex_refl(a.drop_first());
    }
}

fn lex_le_x(a: &Vec<char>, b: &Vec<char>, i: usize) -> (r: bool)
    requires
        i <= a@.len(),
        i <= b@.len(),
    ensures
        r == lex_le(a@.skip(i as int), b@.skip(i as int)),
    decreases a@.len() - i,
{
    let ghost ar = a@.skip(i as int);
    let ghost br = b@.skip(i as int);
    proof {
        if i < a@.len() {
            assert(ar[0] == a@[i as int]);
            assert(ar.drop_first() =~= a@.skip(i + 1));
        }
        if i < b@.len() {
            assert(br[0] == b@[i as int]);
            assert(br.drop_first() =~= b@.skip(i + 1));
        }
    }
    if i >= a.len() {
        proof {
            assert(ar.len() == 0);
        }
        true
    } else if i >= b.len() {
        proof {
            assert(br.len() == 0);
        }
        false
    } else if (a[i] as u32) < (b[i] as u32) {
        true
    } else if (a[i] as u32) > (b[i] as u32) {
        false
    } else {
        lex_le_x(a, b, i + 1)
    }
}

/// Whether one string reads at or before another.
pub fn str_le(a: &String, b: &String) -> (r: bool)
    ensures
        r == lex_le(a@, b@),
{
    let av = chars_of(a.as_str());
    let bv = chars_of(b.as_str());
    proof {
        assert(av@.skip(0) =~= av@);
        assert(bv@.skip(0) =~= bv@);
    }
    lex_le_x(&av, &bv, 0)
}

/// A sequence sorted by the lexicographic order.
pub open spec fn lex_sorted(s: Seq<Seq<char>>) -> bool {
    forall|i: int, j: int| 0 <= i < j < s.len() ==> lex_le(#[trigger] s[i], #[trigger] s[j])
}

/// The template names among a directory's file names: the stem of every
/// name ending in the markdown extension, sorted.
pub fn list_template_names(files: &Vec<String>) -> (r: Vec<String>)
    ensures
        lex_sorted(crate::article::strings_view(r@)),
        r@.map_values(|s: String| s@).to_multiset() == files@.map_values(
            |s: String| s@,
        ).filter(|n: Seq<char>| is_md_name(n)).map_values(|n: Seq<char>| md_stem(n)).to_multiset(),
{
    let n = files.len();
    let mut stems: Vec<String> = Vec::new();
    let mut k: usize = 0;
    let ghost all = files@.map_values(|s: String| s@);
    #[verifier::loop_isolation(false)]
    while k < n
        invariant
            k <= n,
            n == files@.len(),
            all == files@.map_values(|s: String| s@),
            stems@.map_values(|s: String| s@) =~= all.take(k as int).filter(
                |m: Seq<char>| is_md_name(m),
            ).map_values(|m: Seq<char>| md_stem(m)),
        decreases n - k,
    {
        let name = &files[k];
        let cs = chars_of(name.as_str());
        let ghost prev = stems@.map_values(|s: String| s@);
        let keep = if cs.len() >= 3 {
            let l = cs.len();
            cs[l - 3] == '.' && cs[l - 2] == 'm' && cs[l - 1] == 'd'
        } else {
            false
        };
        proof {
            if keep {
                assert(cs@.skip(cs@.len() - 3) =~= ".md"@) by {
                    reveal_strlit(".md");
                    assert(".md"@.len() == 3);
                    assert(".md"@[0] == '.' && ".md"@[1] == 'm' && ".md"@[2] == 'd');
                }
                assert(is_md_name(name@));
            } else {
                if is_md_name(name@) {
                    reveal_strlit(".md");
                    assert(".md"@.len() == 3);
                    assert(".md"@[0] == '.' && ".md"@[1] == 'm' && ".md"@[2] == 'd');
                    assert(cs@.skip(cs@.len() - 3)[0] == cs@[cs@.len() - 3]);
                    assert(cs@.skip(cs@.len() - 3)[1] == cs@[cs@.len() - 2]);
                    assert(cs@.skip(cs@.len() - 3)[2] == cs@[cs@.len() - 1]);
                }
                assert(!is_md_name(name@));
            }
            assert(all.take(k + 1).drop_last() =~= all.take(k as int));
            assert(all.take(k + 1).last() == name@);
            reveal(Seq::filter);
        }
        if keep {
            let l = cs.len();
            let mut stem: Vec<char> = Vec::new();
            let mut m: usize = 0;
            #[verifier::loop_isolation(false)]
            while m < l - 3
                invariant
                    m <= l - 3,
                    l == cs@.len(),
                    3 <= l,
                    stem@ == cs@.subrange(0, m as int),
                decreases l - 3 - m,
            {
                stem.push(cs[m]);
                assert(stem@ =~= cs@.subrange(0, m + 1));
                m += 1;
            }
            proof {
                assert(stem@ =~= md_stem(name@));
            }
            stems.push(string_of(&stem));
            proof {
                assert(stems@.map_values(|s: String| s@) =~= prev.push(md_stem(name@)));
                assert(all.take(k + 1).filter(|m2: Seq<char>| is_md_name(m2)) =~= all.take(
                    k as int,
                ).filter(|m2: Seq<char>| is_md_name(m2)).push(name@));
                assert(stems@.map_values(|s: String| s@) =~= all.take(k + 1).filter(
                    |m2: Seq<char>| is_md_name(m2),
                ).map_values(|m2: Seq<char>| md_stem(m2)));
            }
        } else {
            proof {
                assert(all.take(k + 1).filter(|m2: Seq<char>| is_md_name(m2)) =~= all.take(
                    k as int,
                ).filter(|m2: Seq<char>| is_md_name(m2)));
            }
        }
        k += 1;
    }
    proof {
        assert(all.take(n as int) =~= all);
    }
    sort_strings(stems)
}

/// Sorts strings by the lexicographic order, keeping exactly the same
/// strings.
fn sort_strings(mut v: Vec<String>) -> (r: Vec<String>)
    ensures
        lex_sorted(crate::article::strings_view(r@)),
        r@.map_values(|s: String| s@).to_multiset() == v@.map_values(|s: String| s@).to_multiset(),
{
    let ghost orig = v@.map_values(|s: String| s@);
    let mut out: Vec<String> = Vec::new();
    proof {
        let om = out@.map_values(|s: String| s@);
        om.to_multiset_ensures();
        assert(om =~= Seq::<Seq<char>>::empty());
        assert(om.to_multiset() =~= vstd::multiset::Multiset::<Seq<char>>::empty());
        assert(om.to_multiset().add(orig.to_multiset()) =~= orig.to_multiset());
    }
    #[verifier::loop_isolation(false)]
    while v.len() > 0
        invariant
            lex_sorted(crate::article::strings_view(out@)),
            out@.map_values(|s: String| s@).to_multiset().add(
                v@.map_values(|s: String| s@).to_multiset(),
            ) == orig.to_multiset(),
            forall|i: int, j: int|
                0 <= i < out@.len() && 0 <= j < v@.len() ==> lex_le(
                    #[trigger] out@[i]@,
                    #[trigger] v@[j]@,
                ),
        decreases v@.len(),
    {
        // take out a least remaining string
        let mut best: usize = 0;
        let mut t: usize = 1;
        proof {
            lemma_lex_refl(v@[0]@);
        }
        #[verifier::loop_isolation(false)]
        while t < v.len()
            invariant
                best < v@.len(),
                t <= v@.len(),
                forall|j: int| 0 <= j < t ==> lex_le(v@[best as int]@, #[trigger] v@[j]@),
            decreases v@.len() - t,
        {
            if str_le(&v[t], &v[best]) {
                proof {
                    lemma_lex_trans_all(v@[t as int]@, v@[best as int]@, v@, t as int);
                    lemma_lex_refl(v@[t as int]@);
                }
                best = t;
            } else {
                proof {
                    lemma_lex_total(v@[t as int]@, v@[best as int]@);
                }
            }
            t += 1;
        }
        let ghost vpre = v@;
        let picked = v.remove(best);
        let ghost opre = out@;
        out.push(picked);
        proof {
            let pm = vpre.map_values(|s: String| s@);
            let vm = v@.map_values(|s: String| s@);
            let om0 = opre.map_values(|s: String| s@);
            let om1 = out@.map_values(|s: String| s@);
            pm.to_multiset_ensures();
            om0.to_multiset_ensures();
            assert(vm =~= pm.remove(best as int));
            assert(vm.to_multiset() =~= pm.to_multiset().remove(pm[best as int]));
            assert(pm[best as int] == picked@);
            assert(om1 =~= om0.push(picked@));
            assert(om1.to_multiset() =~= om0.to_multiset().insert(picked@));
            assert(pm.to_multiset().count(picked@) > 0) by {
                assert(pm.contains(picked@)) by {
                    assert(pm[best as int] == picked@);
                }
            }
            assert(om1.to_multiset().add(vm.to_multiset()) =~= om0.to_multiset().add(
                pm.to_multiset(),
            ));
            assert forall|i: int, j: int|
                0 <= i < j < out@.len() implies lex_le(
                #[trigger] crate::article::strings_view(out@)[i],
                #[trigger] crate::article::strings_view(out@)[j],
            ) by {
                if j < opre.len() {
                    assert(out@[i] == opre[i] && out@[j] == opre[j]);
                    assert(lex_le(crate::article::strings_view(opre)[i], crate::article::strings_view(opre)[j]));
                } else {
                    assert(out@[j] == picked);
                    assert(out@[i] == opre[i]);
                    assert(lex_le(opre[i]@, vpre[best as int]@));
                }
            }
            assert forall|i: int, j: int|
                0 <= i < out@.len() && 0 <= j < v@.len() implies lex_le(
                #[trigger] out@[i]@,
                #[trigger] v@[j]@,
            ) by {
                if i < opre.len() {
                    if j < best {
                        assert(v@[j] == vpre[j]);
                    } else {
                        assert(v@[j] == vpre[j + 1]);
                    }
                } else {
                    assert(out@[i] == picked);
                    if j < best {
                        assert(v@[j] == vpre[j]);
                        assert(lex_le(picked@, vpre[j]@));
                    } else {
                        assert(v@[j] == vpre[j + 1]);
                        assert(lex_le(picked@, vpre[j + 1]@));
                    }
                }
            }
        }
    }
    proof {
        let vm = v@.map_values(|s: String| s@);
        vm.to_multiset_ensures();
        assert(vm =~= Seq::<Seq<char>>::empty());
        assert(vm.to_multiset() =~= vstd::multiset::Multiset::<Seq<char>>::empty());
        assert(out@.map_values(|s: String| s@).to_multiset() =~= orig.to_multiset());
    }
    out
}

/// A string at or before another is at or before everything that one
/// precedes.
proof fn lemma_lex_trans_all(a: Seq<char>, b: Seq<char>, v: Seq<String>, t: int)
    requires
        lex_le(a, b),
        forall|j: int| 0 <= j < t ==> lex_le(b, #[trigger] v[j]@),
        0 <= t <= v.len(),
    ensures
        forall|j: int| 0 <= j < t ==> lex_le(a, #[trigger] v[j]@),
{
    assert forall|j: int| 0 <= j < t implies lex_le(a, #[trigger] v[j]@) by {
        lemma_lex_trans(a, b, v[j]@);
    }
}

/// The order chains.
proof fn lemma_lex_trans(a: Seq<char>, b: Seq<char>, c: Seq<char>)
    requires
        lex_le(a, b),
        lex_le(b, c),
    ensures
        lex_le(a, c),
    decreases a.len(),
{
    if a.len() > 0 && b.len() > 0 && c.len() > 0 {
        if !((a[0] as u32) < (b[0] as u32)) && !((a[0] as u32) > (b[0] as u32)) && !((
        b[0] as u32) < (c[0] as u32)) && !((b[0] as u32) > (c[0] as u32)) {
            lemma_lex_trans(a.drop_first(), b.drop_first(), c.drop_first());
        }
    }
}

} // verus!