//! The editor command line a user configures: one string that must be
//! split into a program and its arguments, honoring quotes.

use vstd::prelude::*;
use crate::article::strings_view;
use crate::text::{chars_of, string_of};

verus! {

/// How the editor command line splits: spaces separate arguments except
/// inside quotes; quote characters toggle quoting and never appear in
/// the result.  `cur` and `acc` carry the split already done.
pub open spec fn split_command(
    s: Seq<char>,
    i: int,
    quoted: bool,
    cur: Seq<char>,
    acc: Seq<Seq<char>>,
) -> Seq<Seq<char>>
    decreases s.len() - i,
{
    if i < 0 || i >= s.len() {
        if cur.len() > 0 {
            acc + seq![cur]
        } else {
            acc
        }
    } else {
        let c = s[i];
        if c == '"' || c == '\'' {
            split_command(s, i + 1, !quoted, cur, acc)
        } else if c == ' ' && !quoted {
            if cur.len() > 0 {
                split_command(s, i + 1, quoted, Seq::empty(), acc + seq![cur])
            } else {
                split_command(s, i + 1, quoted, cur, acc)
            }
        } else {
            split_command(s, i + 1, quoted, cur.push(c), acc)
        }
    }
}

/// Splits an editor command line into its words, as `split_command`
/// describes.
pub fn parse_editor_command(cmd: &str) -> (r: Vec<String>)
    ensures
        strings_view(r@) == split_command(cmd@, 0, false, Seq::empty(), Seq::empty()),
{
    let cs = chars_of(cmd);
    let n = cs.len();
    let mut args: Vec<String> = Vec::new();
    let mut cur: Vec<char> = Vec::new();
    let mut quoted = false;
    let mut i: usize = 0;
    proof {
        assert(strings_view(args@) =~= Seq::<Seq<char>>::empty());
        assert(cur@ =~= Seq::<char>::empty());
    }
    #[verifier::loop_isolation(false)]
    while i < n
        invariant
            i <= n,
            n == cs@.len(),
            split_command(cs@, 0, false, Seq::empty(), Seq::empty()) == split_command(
                cs@,
                i as int,
                quoted,
                cur@,
                strings_view(args@),
            ),
        decreases n - i,
    {
        let c = cs[i];
        if c == '"' || c == '\'' {
            quoted = !quoted;
        } else if c == ' ' && !quoted {
            if cur.len() > 0 {
                let ghost prev = strings_view(args@);
                let w = string_of(&cur);
                args.push(w);
                cur = Vec::new();
                proof {
                    assert(strings_view(args@) =~= prev + seq![w@]);
                    assert(cur@ =~= Seq::<char>::empty());
                }
            }
        } else {
            cur.push(c);
        }
        i += 1;
    }
    if cur.len() > 0 {
        let ghost prev = strings_view(args@);
        let w = string_of(&cur);
        args.push(w);
        proof {
            assert(strings_view(args@) =~= prev + seq![w@]);
        }
    }
    args
}

} // verus!