//! The JSON values carried by the broker's envelopes, with a verified
//! encoder that writes the compact form and a verified decoder that
//! reads standard JSON text.

use vstd::prelude::*;

verus! {

broadcast use vstd::std_specs::vec::group_vec_axioms;

/// Mathematical model of a JSON value: the payload vocabulary of the
/// envelope protocol.  A number an `i64` holds exactly is an integer;
/// any other number is carried losslessly as its own text.
pub enum JsonV {
    Null,
    Bool(bool),
    Int(int),
    /// A number no `i64` holds exactly — one with a fraction, an
    /// exponent, or a magnitude out of range — kept as its own text.
    Num(Seq<char>),
    Str(Seq<char>),
    Arr(Seq<JsonV>),
    Obj(Seq<(Seq<char>, JsonV)>),
}

/// Executable JSON value.  Its view is a `JsonV`.
pub enum Json {
    Null,
    Bool(bool),
    Int(i64),
    /// A number no `i64` holds exactly, kept losslessly as its text.
    Num(String),
    Str(String),
    Arr(Vec<Json>),
    Obj(Vec<(String, Json)>),
}

impl Json {
    pub open spec fn view(&self) -> JsonV
        decreases *self, 1int,
    {
        match self {
            Json::Null => JsonV::Null,
            Json::Bool(b) => JsonV::Bool(*b),
            Json::Int(i) => JsonV::Int(*i as int),
            Json::Num(t) => JsonV::Num(t@),
            Json::Str(s) => JsonV::Str(s@),
            Json::Arr(es) => JsonV::Arr(view_elems(*es)),
            Json::Obj(fs) => JsonV::Obj(view_fields(*fs)),
        }
    }
}

/// Views of the elements of an array, in order.
pub open spec fn view_elems(es: Vec<Json>) -> Seq<JsonV>
    decreases es, 0int,
{
    Seq::new(es@.len(), |i: int| if 0 <= i < es@.len() { es[i].view() } else { JsonV::Null })
}

/// Views of the fields of an object, in order.
pub open spec fn view_fields(fs: Vec<(String, Json)>) -> Seq<(Seq<char>, JsonV)>
    decreases fs, 0int,
{
    Seq::new(
        fs@.len(),
        |i: int|
            if 0 <= i < fs@.len() {
                (fs[i].0@, fs[i].1.view())
            } else {
                (Seq::empty(), JsonV::Null)
            },
    )
}

/// The decimal digits of `n`, most significant first.
pub open spec fn dec_nat(n: nat) -> Seq<char>
    decreases n,
{
    if n < 10 {
        seq![digit_char(n)]
    } else {
        dec_nat(n / 10).push(digit_char(n % 10))
    }
}

/// The character for a single decimal digit.
pub open spec fn digit_char(d: nat) -> char {
    ((48 + d % 10) as u8) as char
}

/// The decimal form of an integer: a minus sign, then the digits.
pub open spec fn enc_int(i: int) -> Seq<char> {
    if i < 0 {
        seq!['-'] + dec_nat((-i) as nat)
    } else {
        dec_nat(i as nat)
    }
}

/// The lowercase hexadecimal digit for a value below sixteen.
pub open spec fn hex_char(d: int) -> char {
    if d < 10 {
        ((48 + d) as u8) as char
    } else {
        ((87 + d) as u8) as char
    }
}

/// How one character appears inside a JSON string literal: the five
/// short escapes, a `\u00XX` escape for the other control characters,
/// and everything else as itself.
pub open spec fn esc_char(c: char) -> Seq<char> {
    if c == '"' {
        seq!['\\', '"']
    } else if c == '\\' {
        seq!['\\', '\\']
    } else if c == '\n' {
        seq!['\\', 'n']
    } else if c == '\r' {
        seq!['\\', 'r']
    } else if c == '\t' {
        seq!['\\', 't']
    } else if (c as u32) < 32 {
        seq!['\\', 'u', '0', '0', hex_char((c as u32) as int / 16), hex_char((c as u32) as int % 16)]
    } else {
        seq![c]
    }
}

/// The escaped body of a JSON string literal.
pub open spec fn esc(s: Seq<char>) -> Seq<char>
    decreases s.len(),
{
    if s.len() == 0 {
        Seq::empty()
    } else {
        esc_char(s[0]) + esc(s.drop_first())
    }
}

/// A character the protocol's strings may carry: printable, or one of the
/// three escaped control characters.
pub open spec fn wf_char(c: char) -> bool {
    c == '\n' || c == '\r' || c == '\t' || (c as u32) >= 32
}

pub open spec fn wf_str(s: Seq<char>) -> bool {
    forall|i: int| 0 <= i < s.len() ==> wf_char(s[i])
}

/// A value the encoder and decoder round-trip: integers fit in an
/// `i64`, and a textual number is valid number syntax that is not
/// simply an `i64` (else the decoder would return it as one).
pub open spec fn wf_json(v: JsonV) -> bool
    decreases v, 1int,
{
    match v {
        JsonV::Null => true,
        JsonV::Bool(_) => true,
        JsonV::Int(i) => i64::MIN <= i <= i64::MAX,
        JsonV::Num(t) => wf_num(t),
        JsonV::Str(_) => true,
        JsonV::Arr(es) => wf_elems(es, 0),
        JsonV::Obj(fs) => wf_fields(fs, 0),
    }
}

pub open spec fn wf_elems(es: Seq<JsonV>, k: int) -> bool
    decreases es, 0int, es.len() - k,
{
    k >= es.len() || (0 <= k && wf_json(es[k]) && wf_elems(es, k + 1))
}

pub open spec fn wf_fields(fs: Seq<(Seq<char>, JsonV)>, k: int) -> bool
    decreases fs, 0int, fs.len() - k,
{
    k >= fs.len() || (0 <= k && wf_json(fs[k].1) && wf_fields(fs, k + 1))
}

/// The compact textual form of a JSON value: no whitespace, fields in
/// the order given.  The decoder accepts much more — standard JSON —
/// and the round-trip law below says it reads this form back exactly.
pub open spec fn enc(v: JsonV) -> Seq<char>
    decreases v, 1int, 0int,
{
    match v {
        JsonV::Null => seq!['n', 'u', 'l', 'l'],
        JsonV::Bool(b) => if b {
            seq!['t', 'r', 'u', 'e']
        } else {
            seq!['f', 'a', 'l', 's', 'e']
        },
        JsonV::Int(i) => enc_int(i),
        JsonV::Num(t) => t,
        JsonV::Str(s) => seq!['"'] + esc(s) + seq!['"'],
        JsonV::Arr(es) => seq!['['] + enc_elems(es, 0) + seq![']'],
        JsonV::Obj(fs) => seq!['{'] + enc_fields(fs, 0) + seq!['}'],
    }
}

/// The elements of an array from position `k` on, joined by commas.
pub open spec fn enc_elems(es: Seq<JsonV>, k: int) -> Seq<char>
    decreases es, 0int, es.len() - k,
{
    if k < 0 || k >= es.len() {
        Seq::empty()
    } else if k == es.len() - 1 {
        enc(es[k])
    } else {
        enc(es[k]) + seq![','] + enc_elems(es, k + 1)
    }
}

/// The fields of an object from position `k` on, joined by commas.
pub open spec fn enc_fields(fs: Seq<(Seq<char>, JsonV)>, k: int) -> Seq<char>
    decreases fs, 0int, fs.len() - k,
{
    if k < 0 || k >= fs.len() {
        Seq::empty()
    } else {
        let f = seq!['"'] + esc(fs[k].0) + seq!['"', ':'] + enc(fs[k].1);
        if k == fs.len() - 1 {
            f
        } else {
            f + seq![','] + enc_fields(fs, k + 1)
        }
    }
}

fn push_digits(n: u64, out: &mut Vec<char>)
    ensures
        final(out)@ == old(out)@ + dec_nat(n as nat),
    decreases n,
{
    if n < 10 {
        let c = ((48 + (n % 10) as u8)) as char;
        out.push(c);
        assert(out@ =~= old(out)@ + dec_nat(n as nat));
    } else {
        push_digits(n / 10, out);
        let c = ((48 + (n % 10) as u8)) as char;
        out.push(c);
        assert(out@ =~= old(out)@ + dec_nat(n as nat));
    }
}

fn push_int(i: i64, out: &mut Vec<char>)
    ensures
        final(out)@ == old(out)@ + enc_int(i as int),
{
    if i < 0 {
        out.push('-');
        let m: u64 = (-(i as i128)) as u64;
        assert(m as nat == (-(i as int)) as nat);
        push_digits(m, out);
        assert(out@ =~= old(out)@ + enc_int(i as int));
    } else {
        push_digits(i as u64, out);
    }
}

fn push_escaped(cs: &Vec<char>, out: &mut Vec<char>)
    ensures
        final(out)@ == old(out)@ + esc(cs@),
{
    let n = cs.len();
    let mut k: usize = 0;
    while k < n
        invariant
            n == cs@.len(),
            k <= n,
            out@ == old(out)@ + esc(cs@.take(k as int)),
        decreases n - k,
    {
        let ghost prev = out@;
        let c = cs[k];
        if c == '"' {
            out.push('\\');
            out.push('"');
        } else if c == '\\' {
            out.push('\\');
            out.push('\\');
        } else if c == '\n' {
            out.push('\\');
            out.push('n');
        } else if c == '\r' {
            out.push('\\');
            out.push('r');
        } else if c == '\t' {
            out.push('\\');
            out.push('t');
        } else if (c as u32) < 32 {
            out.push('\\');
            out.push('u');
            out.push('0');
            out.push('0');
            let v = c as u32;
            let hi = (v / 16) as u8;
            let lo = (v % 16) as u8;
            out.push((if hi < 10 { 48 + hi } else { 87 + hi }) as char);
            out.push((if lo < 10 { 48 + lo } else { 87 + lo }) as char);
        } else {
            out.push(c);
        }
        proof {
            assert(out@ =~= prev + esc_char(cs@[k as int]));
            lemma_esc_snoc(cs@, k as int);
            assert(out@ =~= old(out)@ + esc(cs@.take(k + 1)));
        }
        k += 1;
    }
    assert(cs@.take(n as int) =~= cs@);
}

/// Escaping a concatenation escapes the parts in place.
pub proof fn lemma_esc_concat(a: Seq<char>, b: Seq<char>)
    ensures
        esc(a + b) == esc(a) + esc(b),
    decreases a.len(),
{
    if a.len() == 0 {
        assert(a + b =~= b);
        assert(esc(a) + esc(b) =~= esc(b));
    } else {
        lemma_esc_concat(a.drop_first(), b);
        assert((a + b).drop_first() =~= a.drop_first() + b);
        assert((a + b)[0] == a[0]);
        assert(esc(a + b) == esc_char(a[0]) + (esc(a.drop_first()) + esc(b)));
        assert(esc(a + b) =~= esc(a) + esc(b));
    }
}

/// Escaping one more character appends its escape.
proof fn lemma_esc_snoc(s: Seq<char>, k: int)
    requires
        0 <= k < s.len(),
    ensures
        esc(s.take(k + 1)) == esc(s.take(k)) + esc_char(s[k]),
{
    assert(s.take(k + 1) =~= s.take(k) + seq![s[k]]);
    lemma_esc_concat(s.take(k), seq![s[k]]);
    assert(seq![s[k]].drop_first() =~= Seq::<char>::empty());
    assert(esc(Seq::<char>::empty()) =~= Seq::<char>::empty());
    assert(esc(seq![s[k]]) =~= esc_char(s[k]));
}

fn push_string_literal(s: &String, out: &mut Vec<char>)
    ensures
        final(out)@ == old(out)@ + seq!['"'] + esc(s@) + seq!['"'],
{
    out.push('"');
    let cs = crate::text::chars_of(s.as_str());
    push_escaped(&cs, out);
    out.push('"');
    assert(out@ =~= old(out)@ + seq!['"'] + esc(s@) + seq!['"']);
}

/// Appends the compact textual form of `v` to `out`.
pub fn push_value(v: &Json, out: &mut Vec<char>)
    ensures
        final(out)@ == old(out)@ + enc(v@),
    decreases *v, 1int, 0int,
{
    match v {
        Json::Null => {
            out.push('n');
            out.push('u');
            out.push('l');
            out.push('l');
            assert(out@ =~= old(out)@ + enc(v@));
        },
        Json::Bool(b) => {
            if *b {
                out.push('t');
                out.push('r');
                out.push('u');
                out.push('e');
            } else {
                out.push('f');
                out.push('a');
                out.push('l');
                out.push('s');
                out.push('e');
            }
            assert(out@ =~= old(out)@ + enc(v@));
        },
        Json::Int(i) => {
            push_int(*i, out);
        },
        Json::Num(t) => {
            crate::text::append_str(out, t.as_str());
        },
        Json::Str(s) => {
            push_string_literal(s, out);
        },
        Json::Arr(es) => {
            out.push('[');
            push_elems(es, 0, out);
            out.push(']');
            assert(out@ =~= old(out)@ + enc(v@));
        },
        Json::Obj(fs) => {
            out.push('{');
            push_fields(fs, 0, out);
            out.push('}');
            assert(out@ =~= old(out)@ + enc(v@));
        },
    }
}

fn push_elems(es: &Vec<Json>, k: usize, out: &mut Vec<char>)
    requires
        k <= es@.len(),
    ensures
        final(out)@ == old(out)@ + enc_elems(view_elems(*es), k as int),
    decreases *es, 0int, es@.len() - k,
{
    if k < es.len() {
        push_value(&es[k], out);
        if k + 1 < es.len() {
            out.push(',');
            push_elems(es, k + 1, out);
            assert(out@ =~= old(out)@ + enc_elems(view_elems(*es), k as int));
        } else {
            assert(out@ =~= old(out)@ + enc_elems(view_elems(*es), k as int));
        }
    }
}

fn push_fields(fs: &Vec<(String, Json)>, k: usize, out: &mut Vec<char>)
    requires
        k <= fs@.len(),
    ensures
        final(out)@ == old(out)@ + enc_fields(view_fields(*fs), k as int),
    decreases *fs, 0int, fs@.len() - k,
{
    if k < fs.len() {
        push_string_literal(&fs[k].0, out);
        out.push(':');
        push_value(&fs[k].1, out);
        if k + 1 < fs.len() {
            out.push(',');
            push_fields(fs, k + 1, out);
            assert(out@ =~= old(out)@ + enc_fields(view_fields(*fs), k as int));
        } else {
            assert(out@ =~= old(out)@ + enc_fields(view_fields(*fs), k as int));
        }
    }
}

/// The compact JSON text of `v`.
pub fn json_encode(v: &Json) -> (r: String)
    ensures
        r@ == enc(v@),
{
    let mut out: Vec<char> = Vec::new();
    push_value(v, &mut out);
    crate::text::string_of(&out)
}

// ---------------------------------------------------------------------------
// Decoding: a strict parser for the compact form, given as a fueled
// specification that the executable parser mirrors exactly.
// ---------------------------------------------------------------------------

pub open spec fn is_digit(c: char) -> bool {
    48 <= (c as u32) <= 57
}

pub open spec fn dval(c: char) -> int {
    (c as u32) - 48
}

/// The numeric value of a run of decimal digits.
pub open spec fn seq_to_nat(d: Seq<char>) -> int
    decreases d.len(),
{
    if d.len() == 0 {
        0
    } else {
        seq_to_nat(d.drop_last()) * 10 + dval(d.last())
    }
}

/// The first position at or after `i` that does not hold a digit.
pub open spec fn digit_run_end(s: Seq<char>, i: int) -> int
    decreases s.len() - i,
{
    if i < 0 || i >= s.len() || !is_digit(s[i]) {
        i
    } else {
        digit_run_end(s, i + 1)
    }
}

/// A JSON whitespace character.
pub open spec fn is_ws(c: char) -> bool {
    c == ' ' || c == '\t' || c == '\n' || c == '\r'
}

/// The first position at or after `i` that holds no whitespace.
pub open spec fn ws_end(s: Seq<char>, i: int) -> int
    decreases s.len() - i,
{
    if i < 0 || i >= s.len() || !is_ws(s[i]) {
        i
    } else {
        ws_end(s, i + 1)
    }
}

/// Where the number starting at `i` ends, if one starts there: an
/// optional minus sign, an integer part (a lone zero or a nonzero
/// digit's run), an optional fraction, an optional exponent.
pub open spec fn num_end(s: Seq<char>, i: int) -> Option<int> {
    let p0 = if 0 <= i < s.len() && s[i] == '-' {
        i + 1
    } else {
        i
    };
    if !(0 <= p0 < s.len() && is_digit(s[p0])) {
        None
    } else {
        let p1 = if s[p0] == '0' {
            p0 + 1
        } else {
            digit_run_end(s, p0)
        };
        let frac = if p1 < s.len() && s[p1] == '.' {
            let q = digit_run_end(s, p1 + 1);
            if q == p1 + 1 {
                None
            } else {
                Some(q)
            }
        } else {
            Some(p1)
        };
        match frac {
            Option::None => None,
            Option::Some(p2) => {
                if p2 < s.len() && (s[p2] == 'e' || s[p2] == 'E') {
                    let ps = if p2 + 1 < s.len() && (s[p2 + 1] == '+' || s[p2 + 1] == '-') {
                        p2 + 2
                    } else {
                        p2 + 1
                    };
                    let q = digit_run_end(s, ps);
                    if q == ps {
                        None
                    } else {
                        Some(q)
                    }
                } else {
                    Some(p2)
                }
            },
        }
    }
}

/// A number text with neither fraction nor exponent.
pub open spec fn is_plain_num(t: Seq<char>) -> bool {
    forall|m: int| 0 <= m < t.len() ==> t[m] != '.' && t[m] != 'e' && t[m] != 'E'
}

/// The value a plain integer text names.
pub open spec fn plain_int_value(t: Seq<char>) -> int {
    if t.len() > 0 && t[0] == '-' {
        -seq_to_nat(t.skip(1))
    } else {
        seq_to_nat(t)
    }
}

/// A textual number the decoder would keep as text: valid number
/// syntax, and not a plain integer an `i64` holds.
pub open spec fn wf_num(t: Seq<char>) -> bool {
    &&& num_end(t, 0) == Some(t.len() as int)
    &&& !(is_plain_num(t) && i64::MIN <= plain_int_value(t) <= i64::MAX)
}

/// Parses the number at `i`: a plain integer an `i64` holds becomes a
/// machine integer; any other number keeps its text.
pub open spec fn sp_number(s: Seq<char>, i: int) -> Option<(JsonV, int)> {
    match num_end(s, i) {
        Option::None => None,
        Option::Some(j) => {
            let t = s.subrange(i, j);
            if is_plain_num(t) {
                let v = plain_int_value(t);
                if i64::MIN <= v <= i64::MAX {
                    Some((JsonV::Int(v), j))
                } else {
                    Some((JsonV::Num(t), j))
                }
            } else {
                Some((JsonV::Num(t), j))
            }
        },
    }
}

/// The numeric value of a hexadecimal digit of either case.
pub open spec fn hex_val(c: char) -> Option<int> {
    if 48 <= (c as u32) <= 57 {
        Some((c as u32) - 48)
    } else if 97 <= (c as u32) <= 102 {
        Some((c as u32) - 87)
    } else if 65 <= (c as u32) <= 70 {
        Some((c as u32) - 55)
    } else {
        None
    }
}

/// The code named by the four hexadecimal digits at `i`.
pub open spec fn hex4_val(s: Seq<char>, i: int) -> Option<int> {
    if !(0 <= i && i + 4 <= s.len()) {
        None
    } else {
        match (hex_val(s[i]), hex_val(s[i + 1]), hex_val(s[i + 2]), hex_val(s[i + 3])) {
            (Option::Some(a), Option::Some(b), Option::Some(c), Option::Some(d)) => Some(
                4096 * a + 256 * b + 16 * c + d,
            ),
            _ => None,
        }
    }
}

/// The character a `\u` escape (or a surrogate pair of them) names, and
/// the position after it, starting right after the `\u`.
pub open spec fn sp_unicode_escape(s: Seq<char>, i: int) -> Option<(char, int)> {
    match hex4_val(s, i) {
        Option::None => None,
        Option::Some(v1) => {
            if 0xD800 <= v1 < 0xDC00 {
                // a high surrogate must pair with a low one
                if i + 6 <= s.len() && s[i + 4] == '\\' && s[i + 5] == 'u' {
                    match hex4_val(s, i + 6) {
                        Option::None => None,
                        Option::Some(v2) => {
                            if 0xDC00 <= v2 < 0xE000 {
                                let code = 0x10000 + (v1 - 0xD800) * 0x400 + (v2 - 0xDC00);
                                Some(((code as u32) as char, i + 10))
                            } else {
                                None
                            }
                        },
                    }
                } else {
                    None
                }
            } else if 0xDC00 <= v1 < 0xE000 {
                // a lone low surrogate names nothing
                None
            } else {
                Some(((v1 as u32) as char, i + 4))
            }
        },
    }
}

/// The character named by a one-letter escape sequence.
pub open spec fn unesc_char(c: char) -> Option<char> {
    if c == '"' {
        Some('"')
    } else if c == '\\' {
        Some('\\')
    } else if c == '/' {
        Some('/')
    } else if c == 'n' {
        Some('\n')
    } else if c == 'r' {
        Some('\r')
    } else if c == 't' {
        Some('\t')
    } else if c == 'b' {
        Some((8u8) as char)
    } else if c == 'f' {
        Some((12u8) as char)
    } else {
        None
    }
}

/// Parses a string body starting after the opening quote; yields the
/// unescaped content and the position after the closing quote.
pub open spec fn sp_str(s: Seq<char>, i: int) -> Option<(Seq<char>, int)>
    decreases s.len() - i,
{
    if i < 0 || i >= s.len() {
        None
    } else if s[i] == '"' {
        Some((Seq::empty(), i + 1))
    } else if s[i] == '\\' {
        if i + 1 >= s.len() {
            None
        } else if s[i + 1] == 'u' {
            match sp_unicode_escape(s, i + 2) {
                Option::None => None,
                Option::Some((c, j)) => match sp_str(s, j) {
                    Option::None => None,
                    Option::Some((rest, k)) => Some((seq![c] + rest, k)),
                },
            }
        } else {
            match unesc_char(s[i + 1]) {
                Option::None => None,
                Option::Some(c) => match sp_str(s, i + 2) {
                    Option::None => None,
                    Option::Some((rest, j)) => Some((seq![c] + rest, j)),
                },
            }
        }
    } else if (s[i] as u32) < 32 {
        None
    } else {
        match sp_str(s, i + 1) {
            Option::None => None,
            Option::Some((rest, j)) => Some((seq![s[i]] + rest, j)),
        }
    }
}

/// True when the characters of `lit` stand at `i`.
pub open spec fn lit_at(s: Seq<char>, i: int, lit: Seq<char>) -> bool {
    &&& i >= 0
    &&& i + lit.len() <= s.len()
    &&& forall|m: int| 0 <= m < lit.len() ==> s[i + m] == #[trigger] lit[m]
}

/// Parses one JSON value, skipping the whitespace before it.  The fuel
/// bounds the recursion; any fuel of at least twice the length of a
/// value's compact encoding is enough to parse that encoding.
pub open spec fn sp_value(s: Seq<char>, i0: int, fuel: nat) -> Option<(JsonV, int)>
    decreases fuel,
{
    let i = ws_end(s, i0);
    if fuel == 0 || i < 0 || i >= s.len() {
        None
    } else {
        let c = s[i];
        if c == 'n' {
            if lit_at(s, i, seq!['n', 'u', 'l', 'l']) {
                Some((JsonV::Null, i + 4))
            } else {
                None
            }
        } else if c == 't' {
            if lit_at(s, i, seq!['t', 'r', 'u', 'e']) {
                Some((JsonV::Bool(true), i + 4))
            } else {
                None
            }
        } else if c == 'f' {
            if lit_at(s, i, seq!['f', 'a', 'l', 's', 'e']) {
                Some((JsonV::Bool(false), i + 5))
            } else {
                None
            }
        } else if c == '"' {
            match sp_str(s, i + 1) {
                Option::None => None,
                Option::Some((cs, j)) => Some((JsonV::Str(cs), j)),
            }
        } else if c == '-' || is_digit(c) {
            sp_number(s, i)
        } else if c == '[' {
            let a = ws_end(s, i + 1);
            if a < s.len() && s[a] == ']' {
                Some((JsonV::Arr(Seq::empty()), a + 1))
            } else {
                match sp_elems(s, i + 1, (fuel - 1) as nat) {
                    Option::None => None,
                    Option::Some((es, j)) => Some((JsonV::Arr(es), j)),
                }
            }
        } else if c == '{' {
            let a = ws_end(s, i + 1);
            if a < s.len() && s[a] == '}' {
                Some((JsonV::Obj(Seq::empty()), a + 1))
            } else {
                match sp_fields(s, i + 1, (fuel - 1) as nat) {
                    Option::None => None,
                    Option::Some((fs, j)) => Some((JsonV::Obj(fs), j)),
                }
            }
        } else {
            None
        }
    }
}

/// Parses the elements of a nonempty array from `i` up to and including
/// the closing bracket.
pub open spec fn sp_elems(s: Seq<char>, i: int, fuel: nat) -> Option<(Seq<JsonV>, int)>
    decreases fuel,
{
    if fuel == 0 {
        None
    } else {
        match sp_value(s, i, (fuel - 1) as nat) {
            Option::None => None,
            Option::Some((v, j0)) => {
                let j = ws_end(s, j0);
                if j < s.len() && s[j] == ',' {
                    match sp_elems(s, j + 1, (fuel - 1) as nat) {
                        Option::None => None,
                        Option::Some((rest, k)) => Some((seq![v] + rest, k)),
                    }
                } else if j < s.len() && s[j] == ']' {
                    Some((seq![v], j + 1))
                } else {
                    None
                }
            },
        }
    }
}

/// Parses the fields of a nonempty object from `i` up to and including
/// the closing brace.
pub open spec fn sp_fields(s: Seq<char>, i0: int, fuel: nat) -> Option<
    (Seq<(Seq<char>, JsonV)>, int),
>
    decreases fuel,
{
    let i = ws_end(s, i0);
    if fuel == 0 {
        None
    } else if !(0 <= i < s.len() && s[i] == '"') {
        None
    } else {
        match sp_str(s, i + 1) {
            Option::None => None,
            Option::Some((key, j0)) => {
                let j = ws_end(s, j0);
                if !(j < s.len() && s[j] == ':') {
                    None
                } else {
                    match sp_value(s, j + 1, (fuel - 1) as nat) {
                        Option::None => None,
                        Option::Some((v, k0)) => {
                            let k = ws_end(s, k0);
                            if k < s.len() && s[k] == ',' {
                                match sp_fields(s, k + 1, (fuel - 1) as nat) {
                                    Option::None => None,
                                    Option::Some((rest, m)) => Some((seq![(key, v)] + rest, m)),
                                }
                            } else if k < s.len() && s[k] == '}' {
                                Some((seq![(key, v)], k + 1))
                            } else {
                                None
                            }
                        },
                    }
                }
            },
        }
    }
}

/// The length bound under which the executable parser's fuel cannot
/// overflow a `u64`.
pub open spec fn len_cap() -> int {
    0x1000_0000_0000_0000
}

/// Decodes a complete text as one JSON value: the parse must consume
/// every character.
pub open spec fn json_decode_spec(s: Seq<char>) -> Option<JsonV> {
    if s.len() >= len_cap() {
        None
    } else {
        match sp_value(s, 0, (2 * s.len() + 2) as nat) {
            Option::None => None,
            Option::Some((v, j)) => if ws_end(s, j) == s.len() {
                Some(v)
            } else {
                None
            },
        }
    }
}

// ---------------------------------------------------------------------------
// Inversion: the parser recovers exactly what the encoder produced.
// ---------------------------------------------------------------------------

/// A position where a value may legally end: the end of the text or a
/// separator/closer of the surrounding construct.
pub open spec fn delim_ok(s: Seq<char>, j: int) -> bool {
    j == s.len() || s[j] == ',' || s[j] == ']' || s[j] == '}'
}

/// The digits of `n` are digits, and they spell `n`.
proof fn lemma_dec_nat(n: nat)
    ensures
        dec_nat(n).len() >= 1,
        forall|k: int| 0 <= k < dec_nat(n).len() ==> is_digit(#[trigger] dec_nat(n)[k]),
        seq_to_nat(dec_nat(n)) == n,
        n >= 1 ==> dec_nat(n)[0] != '0',
    decreases n,
{
    assert(((48 + n % 10) as u8) as char as u32 == 48 + n % 10);
    if n < 10 {
        assert(dec_nat(n) == seq![digit_char(n)]);
        assert(dec_nat(n).drop_last() =~= Seq::<char>::empty());
        assert(seq_to_nat(Seq::<char>::empty()) == 0);
        assert(is_digit(digit_char(n)));
        assert(seq_to_nat(dec_nat(n)) == n);
    } else {
        lemma_dec_nat(n / 10);
        let a = dec_nat(n / 10);
        assert(dec_nat(n) == a.push(digit_char(n % 10)));
        assert(dec_nat(n).drop_last() =~= a);
        assert(dec_nat(n).last() == digit_char(n % 10));
        assert(is_digit(digit_char(n % 10)));
        assert(seq_to_nat(dec_nat(n)) == (n / 10) * 10 + n % 10);
        assert((n / 10) * 10 + n % 10 == n);
    }
}

/// A digit run ends exactly at the first non-digit.
proof fn lemma_run_end(s: Seq<char>, i: int, j: int)
    requires
        0 <= i <= j <= s.len(),
        forall|k: int| i <= k < j ==> is_digit(#[trigger] s[k]),
        j == s.len() || !is_digit(s[j]),
    ensures
        digit_run_end(s, i) == j,
    decreases j - i,
{
    if i < j {
        lemma_run_end(s, i + 1, j);
    }
}

/// The characters of a digit run, and where it stops.
proof fn lemma_run_chars(s: Seq<char>, a: int)
    requires
        0 <= a <= s.len(),
    ensures
        a <= digit_run_end(s, a) <= s.len(),
        forall|k: int| a <= k < digit_run_end(s, a) ==> is_digit(#[trigger] s[k]),
        digit_run_end(s, a) == s.len() || !is_digit(s[digit_run_end(s, a)]),
    decreases s.len() - a,
{
    if a < s.len() && is_digit(s[a]) {
        lemma_run_chars(s, a + 1);
    }
}

/// A digit run inside a window runs the same way inside the larger
/// text, as long as no digit follows the window.
proof fn lemma_run_transfer(t: Seq<char>, s: Seq<char>, i: int, a: int)
    requires
        0 <= a <= t.len(),
        0 <= i,
        i + t.len() <= s.len(),
        forall|m: int| 0 <= m < t.len() ==> s[i + m] == #[trigger] t[m],
        i + t.len() == s.len() || !is_digit(s[i + t.len()]),
    ensures
        digit_run_end(s, i + a) == i + digit_run_end(t, a),
{
    lemma_run_chars(t, a);
    let r = digit_run_end(t, a);
    assert forall|k: int| i + a <= k < i + r implies is_digit(#[trigger] s[k]) by {
        assert(s[i + (k - i)] == t[k - i]);
    }
    if r < t.len() {
        assert(s[i + r] == t[r]);
        lemma_run_end(s, i + a, i + r);
    } else {
        lemma_run_end(s, i + a, i + r);
    }
}

/// Parsing an encoded machine integer recovers it as one.
proof fn lemma_inv_int(iv: int, s: Seq<char>, i: int)
    requires
        i64::MIN <= iv <= i64::MAX,
        0 <= i,
        i + enc_int(iv).len() <= s.len(),
        s.subrange(i, i + enc_int(iv).len()) == enc_int(iv),
        delim_ok(s, i + enc_int(iv).len()),
    ensures
        sp_number(s, i) == Some((JsonV::Int(iv), i + enc_int(iv).len())),
{
    let t = enc_int(iv);
    let l = t.len() as int;
    assert forall|k: int| 0 <= k < l implies s[i + k] == #[trigger] t[k] by {
        assert(s.subrange(i, i + l)[k] == s[i + k]);
    }
    let d = i + l;
    assert(d == s.len() || (s[d] == ',' || s[d] == ']' || s[d] == '}'));
    assert(d == s.len() || !is_digit(s[d]));
    if iv >= 0 {
        lemma_dec_nat(iv as nat);
        assert(t == dec_nat(iv as nat));
        assert(s[i + 0] == t[0]);
        assert(is_digit(t[0]));
        assert(s[i] != '-');
        if iv == 0 {
            assert(t =~= seq![digit_char(0)]);
            assert(s[i] == '0');
            assert(num_end(s, i) == Some(i + 1));
        } else {
            assert(t[0] != '0');
            assert(s[i] != '0');
            lemma_run_chars(t, 0);
            lemma_run_end(t, 0, l);
            assert(digit_run_end(t, 0) == l);
            lemma_run_transfer(t, s, i, 0);
            assert(num_end(s, i) == Some(i + l));
        }
        assert(s.subrange(i, d) == t);
        assert(is_plain_num(t)) by {
            assert forall|m: int| 0 <= m < t.len() implies t[m] != '.' && t[m] != 'e' && t[m]
                != 'E' by {
                assert(is_digit(t[m]));
            }
        }
        assert(t[0] != '-');
        assert(plain_int_value(t) == iv);
    } else {
        let m = (-iv) as nat;
        lemma_dec_nat(m);
        assert(t == seq!['-'] + dec_nat(m));
        assert(s[i + 0] == t[0] && t[0] == '-');
        let dn = dec_nat(m);
        assert forall|k: int| 0 <= k < dn.len() implies s[i + 1 + k] == #[trigger] dn[k] by {
            assert(s[i + (1 + k)] == t[1 + k]);
            assert(t[1 + k] == dn[k]);
        }
        assert(s[i + 1] == dn[0]);
        assert(is_digit(dn[0]));
        assert(dn[0] != '0');
        assert(s[i + 1] != '0');
        assert(digit_run_end(dn, 0) == dn.len() as int) by {
            lemma_run_chars(dn, 0);
            lemma_run_end(dn, 0, dn.len() as int);
        }
        lemma_run_transfer(dn, s, i + 1, 0);
        assert(digit_run_end(s, i + 1) == i + l);
        assert(num_end(s, i) == Some(i + l));
        assert(s.subrange(i, d) == t);
        assert(is_plain_num(t)) by {
            assert forall|m2: int| 0 <= m2 < t.len() implies t[m2] != '.' && t[m2] != 'e' && t[m2]
                != 'E' by {
                if m2 >= 1 {
                    assert(t[m2] == dn[m2 - 1]);
                    assert(is_digit(dn[m2 - 1]));
                }
            }
        }
        assert(t.skip(1) =~= dn);
        assert(plain_int_value(t) == -(m as int));
    }
}

/// Parsing an encoded textual number recovers it as text.
proof fn lemma_inv_num(t: Seq<char>, s: Seq<char>, i: int)
    requires
        wf_num(t),
        0 <= i,
        i + t.len() <= s.len(),
        s.subrange(i, i + t.len()) == t,
        delim_ok(s, i + t.len()),
    ensures
        sp_number(s, i) == Some((JsonV::Num(t), i + t.len())),
{
    let l = t.len() as int;
    assert forall|k: int| 0 <= k < l implies s[i + k] == #[trigger] t[k] by {
        assert(s.subrange(i, i + l)[k] == s[i + k]);
    }
    let d = i + l;
    assert(d == s.len() || (s[d] == ',' || s[d] == ']' || s[d] == '}'));
    assert(d == s.len() || !is_digit(s[d]));
    // walk the number grammar on both texts in step
    let p0t: int = if t[0] == '-' {
        1
    } else {
        0
    };
    assert(l > 0);
    assert(s[i + 0] == t[0]);
    if 0 < l {
        assert((s[i] == '-') == (t[0] == '-'));
    }
    let p0 = i + p0t;
    assert(0 <= p0t < l && is_digit(t[p0t]));
    assert(s[i + p0t] == t[p0t]);
    let p1t: int = if t[p0t] == '0' {
        p0t + 1
    } else {
        digit_run_end(t, p0t)
    };
    if t[p0t] != '0' {
        lemma_run_transfer(t, s, i, p0t);
    }
    assert(digit_run_end(s, p0) == i + digit_run_end(t, p0t)) by {
        lemma_run_transfer(t, s, i, p0t);
    }
    let p1 = i + p1t;
    lemma_run_chars(t, p0t);
    assert(p1t <= l);
    // the fraction: present on one side exactly when on the other
    assert(p1t < l ==> s[p1] == t[p1t]);
    assert((p1 < s.len() && s[p1] == '.') == (p1t < l && t[p1t] == '.')) by {
        if p1t == l {
            assert(p1 == d);
        }
    }
    if p1t < l && t[p1t] == '.' {
        lemma_run_transfer(t, s, i, p1t + 1);
        lemma_run_chars(t, p1t + 1);
    }
    let p2t: int = if p1t < l && t[p1t] == '.' {
        digit_run_end(t, p1t + 1)
    } else {
        p1t
    };
    let p2 = i + p2t;
    assert(p2t <= l) by {
        lemma_run_chars(t, p0t);
        if p1t < l && t[p1t] == '.' {
            lemma_run_chars(t, p1t + 1);
        }
    }
    // the exponent likewise
    assert(p2t < l ==> s[p2] == t[p2t]);
    assert((p2 < s.len() && (s[p2] == 'e' || s[p2] == 'E')) == (p2t < l && (t[p2t] == 'e' || t[p2t]
        == 'E'))) by {
        if p2t == l {
            assert(p2 == d);
        }
    }
    if p2t < l && (t[p2t] == 'e' || t[p2t] == 'E') {
        assert(p2t + 1 < l ==> s[p2 + 1] == t[p2t + 1]);
        assert((p2 + 1 < s.len() && (s[p2 + 1] == '+' || s[p2 + 1] == '-')) == (p2t + 1 < l && (
        t[p2t + 1] == '+' || t[p2t + 1] == '-'))) by {
            if p2t + 1 == l {
                assert(p2 + 1 == d);
            }
        }
        let pst: int = if p2t + 1 < l && (t[p2t + 1] == '+' || t[p2t + 1] == '-') {
            p2t + 2
        } else {
            p2t + 1
        };
        assert(pst <= l);
        lemma_run_transfer(t, s, i, pst);
    }
    assert(num_end(s, i) == Some(i + l));
    assert(s.subrange(i, i + l) == t);
}

/// A hexadecimal digit written by the encoder reads back as itself.
proof fn lemma_hex_char_val(d: int)
    requires
        0 <= d < 16,
    ensures
        hex_val(hex_char(d)) == Some(d),
{
}

/// Parsing an escaped, quoted string body recovers the original text.
proof fn lemma_inv_str(cs: Seq<char>, s: Seq<char>, i: int)
    requires
        0 <= i,
        i + esc(cs).len() + 1 <= s.len(),
        s.subrange(i, i + esc(cs).len()) == esc(cs),
        s[i + esc(cs).len()] == '"',
    ensures
        sp_str(s, i) == Some((cs, i + esc(cs).len() + 1)),
    decreases cs.len(),
{
    let l = esc(cs).len() as int;
    assert(forall|k: int| 0 <= k < l ==> s[i + k] == #[trigger] esc(cs)[k]);
    if cs.len() == 0 {
        assert(s[i] == '"');
        assert(sp_str(s, i) == Some((Seq::<char>::empty(), i + 1)));
        assert(Seq::<char>::empty() =~= cs);
    } else {
        let c0 = cs[0];
        let tail = cs.drop_first();
        let e = esc_char(c0);
        assert(esc(cs) == e + esc(tail));
        assert(seq![c0] + tail =~= cs);
        assert(l >= e.len());
        assert(s[i + 0] == esc(cs)[0]);
        assert(esc(cs)[0] == e[0]);
        if e.len() == 2 {
            assert(s[i] == e[0] && e[0] == '\\');
            assert(s[i + 1] == esc(cs)[1] && esc(cs)[1] == e[1]);
            assert(e[1] != 'u');
            assert(unesc_char(e[1]) == Some(c0));
            assert forall|m: int| 0 <= m < esc(tail).len() implies s[i + 2 + m] == esc(tail)[m] by {
                assert(esc(cs)[2 + m] == esc(tail)[m]);
                assert(s[i + (2 + m)] == esc(cs)[2 + m]);
            }
            assert(s.subrange(i + 2, i + 2 + esc(tail).len()) =~= esc(tail));
            lemma_inv_str(tail, s, i + 2);
            assert(sp_str(s, i) == Some((cs, i + l + 1)));
        } else if e.len() == 6 {
            // a control character written as a `\u00XX` escape
            let u = c0 as u32 as int;
            assert(u < 32);
            assert(e == seq!['\\', 'u', '0', '0', hex_char(u / 16), hex_char(u % 16)]);
            assert forall|m: int| 0 <= m < 6 implies s[i + m] == e[m] by {
                assert(esc(cs)[m] == e[m]);
                assert(s[i + m] == esc(cs)[m]);
            }
            assert(s[i] == '\\' && s[i + 1] == 'u');
            assert(s[i + 2] == '0' && s[i + 3] == '0');
            assert(s[i + 4] == hex_char(u / 16) && s[i + 5] == hex_char(u % 16));
            lemma_hex_char_val(u / 16);
            lemma_hex_char_val(u % 16);
            assert(hex_val('0') == Some(0int));
            assert(hex4_val(s, i + 2) == Some(16 * (u / 16) + u % 16));
            assert(16 * (u / 16) + u % 16 == u);
            assert(u < 0xD800);
            assert(sp_unicode_escape(s, i + 2) == Some((((u as u32) as char), i + 6)));
            vstd::utf8::char_u32_cast(c0, u as u32);
            assert(((u as u32) as char) == c0);
            assert forall|m: int| 0 <= m < esc(tail).len() implies s[i + 6 + m] == esc(tail)[m] by {
                assert(esc(cs)[6 + m] == esc(tail)[m]);
                assert(s[i + (6 + m)] == esc(cs)[6 + m]);
            }
            assert(s.subrange(i + 6, i + 6 + esc(tail).len()) =~= esc(tail));
            lemma_inv_str(tail, s, i + 6);
            assert(sp_str(s, i) == Some((cs, i + l + 1)));
        } else {
            assert(e == seq![c0]);
            assert(s[i] == c0);
            assert(c0 != '"' && c0 != '\\');
            assert((c0 as u32) >= 32);
            assert forall|m: int| 0 <= m < esc(tail).len() implies s[i + 1 + m] == esc(tail)[m] by {
                assert(esc(cs)[1 + m] == esc(tail)[m]);
                assert(s[i + (1 + m)] == esc(cs)[1 + m]);
            }
            assert(s.subrange(i + 1, i + 1 + esc(tail).len()) =~= esc(tail));
            lemma_inv_str(tail, s, i + 1);
            assert(sp_str(s, i) == Some((cs, i + l + 1)));
        }
    }
}

/// Every encoding is nonempty and starts with a character that names its
/// kind to the parser.
proof fn lemma_enc_first(v: JsonV)
    requires
        wf_json(v),
    ensures
        enc(v).len() >= 1,
        enc(v)[0] == 'n' || enc(v)[0] == 't' || enc(v)[0] == 'f' || enc(v)[0] == '"' || enc(
            v,
        )[0] == '-' || is_digit(enc(v)[0]) || enc(v)[0] == '[' || enc(v)[0] == '{',
        !is_ws(enc(v)[0]),
{
    match v {
        JsonV::Int(iv) => {
            if iv >= 0 {
                lemma_dec_nat(iv as nat);
            } else {
                lemma_dec_nat((-iv) as nat);
            }
        },
        JsonV::Num(t) => {
            assert(num_end(t, 0) == Some(t.len() as int));
            assert(t.len() >= 1);
            if t[0] != '-' {
                assert(is_digit(t[0]));
            }
        },
        _ => {},
    }
}

/// A part of a sequence known through a matching window of a larger one.
proof fn lemma_sub_slice(s: Seq<char>, i: int, full: Seq<char>, off: int, part: Seq<char>)
    requires
        0 <= i,
        i + full.len() <= s.len(),
        s.subrange(i, i + full.len()) == full,
        0 <= off,
        off + part.len() <= full.len(),
        full.subrange(off, off + part.len()) == part,
    ensures
        s.subrange(i + off, i + off + part.len()) == part,
        forall|m: int| 0 <= m < part.len() ==> s[i + off + m] == #[trigger] part[m],
{
    assert forall|m: int| 0 <= m < part.len() implies s[i + off + m] == #[trigger] part[m] by {
        assert(full.subrange(off, off + part.len())[m] == full[off + m]);
        assert(s.subrange(i, i + full.len())[off + m] == s[i + off + m]);
    }
    assert(s.subrange(i + off, i + off + part.len()) =~= part);
}

/// Parsing an encoded value at its place in a larger text recovers it.
#[verifier::rlimit(100)]
proof fn lemma_inv_value(v: JsonV, s: Seq<char>, i: int, fuel: nat)
    requires
        wf_json(v),
        0 <= i,
        i + enc(v).len() <= s.len(),
        s.subrange(i, i + enc(v).len()) == enc(v),
        delim_ok(s, i + enc(v).len()),
        fuel >= 2 * enc(v).len(),
    ensures
        sp_value(s, i, fuel) == Some((v, i + enc(v).len())),
    decreases v, 1int, 0int,
{
    let full = enc(v);
    let l = full.len() as int;
    lemma_enc_first(v);
    assert forall|m: int| 0 <= m < l implies s[i + m] == #[trigger] full[m] by {
        assert(s.subrange(i, i + l)[m] == s[i + m]);
    }
    assert(s[i + 0] == full[0]);
    assert(ws_end(s, i) == i) by {
        assert(!is_ws(s[i]));
    }
    match v {
        JsonV::Null => {
            assert(s.subrange(i, i + 4) == seq!['n', 'u', 'l', 'l']);
            assert(lit_at(s, i, seq!['n', 'u', 'l', 'l']));
        },
        JsonV::Bool(b) => {
            if b {
                assert(lit_at(s, i, seq!['t', 'r', 'u', 'e']));
            } else {
                assert(lit_at(s, i, seq!['f', 'a', 'l', 's', 'e']));
                assert(s[i] == 'f');
                assert(!lit_at(s, i, seq!['n', 'u', 'l', 'l']) && !lit_at(
                    s,
                    i,
                    seq!['t', 'r', 'u', 'e'],
                )) by {
                    assert(s[i] != 'n' && s[i] != 't');
                }
            }
        },
        JsonV::Int(iv) => {
            if iv >= 0 {
                lemma_dec_nat(iv as nat);
                assert(full[0] == dec_nat(iv as nat)[0]);
                assert(is_digit(s[i]));
            } else {
                lemma_dec_nat((-iv) as nat);
                assert(s[i] == '-');
            }
            assert(!is_digit(',') && !is_digit(']') && !is_digit('}'));
            lemma_inv_int(iv, s, i);
        },
        JsonV::Num(t) => {
            assert(full == t);
            assert(num_end(t, 0) == Some(t.len() as int));
            if t[0] != '-' {
                assert(is_digit(s[i]));
            } else {
                assert(s[i] == '-');
            }
            assert(s.subrange(i, i + l) =~= t);
            lemma_inv_num(t, s, i);
        },
        JsonV::Str(cs) => {
            assert(s[i] == '"');
            assert(full =~= seq!['"'] + esc(cs) + seq!['"']);
            assert(full.subrange(1, 1 + esc(cs).len() as int) =~= esc(cs));
            lemma_sub_slice(s, i, full, 1, esc(cs));
            assert(s[i + (l - 1)] == full[l - 1]);
            assert(full[l - 1] == '"');
            lemma_inv_str(cs, s, i + 1);
            assert(sp_str(s, i + 1) == Some((cs, i + l)));
        },
        JsonV::Arr(es) => {
            assert(s[i] == '[');
            let el = enc_elems(es, 0);
            assert(full =~= seq!['['] + el + seq![']']);
            if es.len() == 0 {
                assert(el =~= Seq::<char>::empty());
                assert(s[i + 1] == full[1]);
                assert(full[1] == ']');
                assert(ws_end(s, i + 1) == i + 1) by {
                    assert(!is_ws(s[i + 1]));
                }
                assert(Seq::<JsonV>::empty() =~= es);
            } else {
                assert(wf_json(es[0]));
                lemma_enc_first(es[0]);
                assert(el =~= if es.len() == 1 {
                    enc(es[0])
                } else {
                    enc(es[0]) + seq![','] + enc_elems(es, 1)
                });
                assert(el[0] == enc(es[0])[0]);
                assert(s[i + 1] == full[1]);
                assert(full[1] == el[0]);
                assert(s[i + 1] != ']');
                assert(ws_end(s, i + 1) == i + 1) by {
                    assert(!is_ws(s[i + 1]));
                }
                assert(full.subrange(1, 1 + el.len() as int) =~= el);
                lemma_sub_slice(s, i, full, 1, el);
                assert(s[i + (l - 1)] == full[l - 1]);
                assert(full[l - 1] == ']');
                assert(i + 1 + el.len() == i + l - 1);
                lemma_inv_elems(es, 0, s, i + 1, (fuel - 1) as nat);
                assert(es.skip(0) =~= es);
                assert(sp_value(s, i, fuel) == Some((v, i + l)));
            }
        },
        JsonV::Obj(fs) => {
            assert(s[i] == '{');
            let el = enc_fields(fs, 0);
            assert(full =~= seq!['{'] + el + seq!['}']);
            if fs.len() == 0 {
                assert(el =~= Seq::<char>::empty());
                assert(s[i + 1] == full[1]);
                assert(full[1] == '}');
                assert(ws_end(s, i + 1) == i + 1) by {
                    assert(!is_ws(s[i + 1]));
                }
                assert(Seq::<(Seq<char>, JsonV)>::empty() =~= fs);
            } else {
                let f0 = seq!['"'] + esc(fs[0].0) + seq!['"', ':'] + enc(fs[0].1);
                assert(el =~= if fs.len() == 1 {
                    f0
                } else {
                    f0 + seq![','] + enc_fields(fs, 1)
                });
                assert(el[0] == '"');
                assert(s[i + 1] == full[1]);
                assert(full[1] == el[0]);
                assert(s[i + 1] != '}');
                assert(ws_end(s, i + 1) == i + 1) by {
                    assert(!is_ws(s[i + 1]));
                }
                assert(full.subrange(1, 1 + el.len() as int) =~= el);
                lemma_sub_slice(s, i, full, 1, el);
                assert(s[i + (l - 1)] == full[l - 1]);
                assert(full[l - 1] == '}');
                lemma_inv_fields(fs, 0, s, i + 1, (fuel - 1) as nat);
                assert(fs.skip(0) =~= fs);
                assert(sp_value(s, i, fuel) == Some((v, i + l)));
            }
        },
    }
}

/// Parsing the encoded tail of an array recovers the remaining elements.
proof fn lemma_inv_elems(es: Seq<JsonV>, k: int, s: Seq<char>, i: int, fuel: nat)
    requires
        0 <= k < es.len(),
        wf_elems(es, k),
        0 <= i,
        i + enc_elems(es, k).len() < s.len(),
        s.subrange(i, i + enc_elems(es, k).len()) == enc_elems(es, k),
        s[i + enc_elems(es, k).len()] == ']',
        delim_ok(s, i + enc_elems(es, k).len() + 1),
        fuel >= 2 * enc_elems(es, k).len() + 2,
    ensures
        sp_elems(s, i, fuel) == Some((es.skip(k), i + enc_elems(es, k).len() + 1)),
    decreases es, 0int, es.len() - k,
{
    let full = enc_elems(es, k);
    let l = full.len() as int;
    let ev = enc(es[k]);
    let l1 = ev.len() as int;
    assert(wf_json(es[k]) && wf_elems(es, k + 1));
    if k == es.len() - 1 {
        assert(full == ev);
        lemma_inv_value(es[k], s, i, (fuel - 1) as nat);
        assert(s[i + l] == ']');
        assert(ws_end(s, i + l) == i + l) by {
            assert(!is_ws(s[i + l]));
        }
        assert(seq![es[k]] =~= es.skip(k));
        assert(sp_elems(s, i, fuel) == Some((es.skip(k), i + l + 1)));
    } else {
        let rest = enc_elems(es, k + 1);
        let l2 = rest.len() as int;
        assert(full == ev + seq![','] + rest);
        assert(l == l1 + 1 + l2);
        assert(full.subrange(0, l1) =~= ev);
        lemma_sub_slice(s, i, full, 0, ev);
        assert(s.subrange(i, i + l)[l1] == s[i + l1]);
        assert(full[l1] == ',');
        assert(s[i + l1] == ',');
        assert(ws_end(s, i + l1) == i + l1) by {
            assert(!is_ws(s[i + l1]));
        }
        lemma_inv_value(es[k], s, i, (fuel - 1) as nat);
        assert(full.subrange(l1 + 1, l1 + 1 + l2) =~= rest);
        lemma_sub_slice(s, i, full, l1 + 1, rest);
        assert(i + l1 + 1 + l2 == i + l);
        lemma_inv_elems(es, k + 1, s, i + l1 + 1, (fuel - 1) as nat);
        assert(seq![es[k]] + es.skip(k + 1) =~= es.skip(k));
        assert(sp_elems(s, i, fuel) == Some((es.skip(k), i + l + 1)));
    }
}

/// Parsing the encoded tail of an object recovers the remaining fields.
proof fn lemma_inv_fields(fs: Seq<(Seq<char>, JsonV)>, k: int, s: Seq<char>, i: int, fuel: nat)
    requires
        0 <= k < fs.len(),
        wf_fields(fs, k),
        0 <= i,
        i + enc_fields(fs, k).len() < s.len(),
        s.subrange(i, i + enc_fields(fs, k).len()) == enc_fields(fs, k),
        s[i + enc_fields(fs, k).len()] == '}',
        delim_ok(s, i + enc_fields(fs, k).len() + 1),
        fuel >= 2 * enc_fields(fs, k).len() + 2,
    ensures
        sp_fields(s, i, fuel) == Some((fs.skip(k), i + enc_fields(fs, k).len() + 1)),
    decreases fs, 0int, fs.len() - k,
{
    let full = enc_fields(fs, k);
    let l = full.len() as int;
    let key = fs[k].0;
    let ev = enc(fs[k].1);
    let f0 = seq!['"'] + esc(key) + seq!['"', ':'] + ev;
    let lk = esc(key).len() as int;
    let l0 = f0.len() as int;
    assert(wf_json(fs[k].1) && wf_fields(fs, k + 1));
    assert(l0 == lk + 3 + ev.len());
    // the key: a quoted string at the front of the field
    assert(full.subrange(0, l0) =~= f0) by {
        if k < fs.len() - 1 {
            assert(full == f0 + seq![','] + enc_fields(fs, k + 1));
        } else {
            assert(full == f0);
        }
    }
    lemma_sub_slice(s, i, full, 0, f0);
    assert(f0.subrange(0, l0) =~= f0);
    assert(f0.subrange(1, 1 + lk) =~= esc(key));
    lemma_sub_slice(s, i, f0, 1, esc(key));
    assert(s[i + 0] == f0[0]);
    assert(f0[0] == '"');
    assert(ws_end(s, i) == i) by {
        assert(!is_ws(s[i]));
    }
    assert(s[i + (1 + lk)] == f0[1 + lk]);
    assert(f0[1 + lk] == '"');
    lemma_inv_str(key, s, i + 1);
    assert(sp_str(s, i + 1) == Some((key, i + lk + 2)));
    assert(s[i + (lk + 2)] == f0[lk + 2]);
    assert(f0[lk + 2] == ':');
    assert(ws_end(s, i + lk + 2) == i + lk + 2) by {
        assert(!is_ws(s[i + lk + 2]));
    }
    // the value after the colon
    assert(f0.subrange(lk + 3, l0) =~= ev);
    lemma_sub_slice(s, i, f0, lk + 3, ev);
    let vi = i + lk + 3;
    if k == fs.len() - 1 {
        assert(full == f0);
        assert(s[i + l] == '}');
        assert(vi + ev.len() == i + l);
        assert(ws_end(s, i + l) == i + l) by {
            assert(!is_ws(s[i + l]));
        }
        lemma_inv_value(fs[k].1, s, vi, (fuel - 1) as nat);
        assert(seq![(key, fs[k].1)] =~= fs.skip(k));
        assert((key, fs[k].1) == fs[k]);
        assert(sp_fields(s, i, fuel) == Some((fs.skip(k), i + l + 1)));
    } else {
        let rest = enc_fields(fs, k + 1);
        let l2 = rest.len() as int;
        assert(full == f0 + seq![','] + rest);
        assert(l == l0 + 1 + l2);
        assert(s[i + l0] == full[l0]);
        assert(full[l0] == ',');
        assert(ws_end(s, i + l0) == i + l0) by {
            assert(!is_ws(s[i + l0]));
        }
        lemma_inv_value(fs[k].1, s, vi, (fuel - 1) as nat);
        assert(full.subrange(l0 + 1, l0 + 1 + l2) =~= rest);
        lemma_sub_slice(s, i, full, l0 + 1, rest);
        lemma_inv_fields(fs, k + 1, s, i + l0 + 1, (fuel - 1) as nat);
        assert(seq![(key, fs[k].1)] + fs.skip(k + 1) =~= fs.skip(k));
        assert((key, fs[k].1) == fs[k]);
        assert(sp_fields(s, i, fuel) == Some((fs.skip(k), i + l + 1)));
    }
}

/// THE round trip: decoding an encoded value yields the value back, for
/// every well-formed value.
pub proof fn lemma_json_round_trip(v: JsonV)
    requires
        wf_json(v),
        enc(v).len() < len_cap(),
    ensures
        json_decode_spec(enc(v)) == Some(v),
{
    let s = enc(v);
    assert(s.subrange(0, s.len() as int) =~= s);
    lemma_inv_value(v, s, 0, (2 * s.len() + 2) as nat);
    assert(ws_end(s, s.len() as int) == s.len());
}

// ---------------------------------------------------------------------------
// The executable parser.  Each function mirrors its specification exactly.
// ---------------------------------------------------------------------------

/// The view of an executable parse result.
pub open spec fn opt_value_view(r: Option<(Json, usize)>) -> Option<(JsonV, int)> {
    match r {
        Option::None => None,
        Option::Some((v, n)) => Some((v@, n as int)),
    }
}

fn is_digit_x(c: char) -> (r: bool)
    ensures
        r == is_digit(c),
{
    (c as u32) >= 48 && (c as u32) <= 57
}

fn find_run_end(s: &Vec<char>, i: usize) -> (r: usize)
    requires
        i <= s@.len(),
    ensures
        r as int == digit_run_end(s@, i as int),
        i <= r <= s@.len(),
        forall|k: int| i <= k < r ==> is_digit(#[trigger] s@[k]),
    decreases s@.len() - i,
{
    if i < s.len() && is_digit_x(s[i]) {
        find_run_end(s, i + 1)
    } else {
        i
    }
}

/// Accumulates the value of the digit run `s[i..j]`; values above `2^63`
/// are reported by the flag instead of a number.
fn run_value(s: &Vec<char>, i: usize, j: usize) -> (r: (u64, bool))
    requires
        i <= j <= s@.len(),
        forall|k: int| i <= k < j ==> is_digit(#[trigger] s@[k]),
    ensures
        !r.1 ==> r.0 as int == seq_to_nat(s@.subrange(i as int, j as int)) && r.0
            <= 0x8000_0000_0000_0000u64,
        r.1 ==> seq_to_nat(s@.subrange(i as int, j as int)) > 0x8000_0000_0000_0000,
{
    let mut acc: u64 = 0;
    let mut over: bool = false;
    let mut m: usize = i;
    assert(s@.subrange(i as int, i as int) =~= Seq::<char>::empty());
    while m < j
        invariant
            i <= m <= j <= s@.len(),
            forall|k: int| i <= k < j ==> is_digit(#[trigger] s@[k]),
            !over ==> acc as int == seq_to_nat(s@.subrange(i as int, m as int)) && acc
                <= 0x8000_0000_0000_0000u64,
            over ==> seq_to_nat(s@.subrange(i as int, m as int)) > 0x8000_0000_0000_0000,
        decreases j - m,
    {
        let ghost prevseq = s@.subrange(i as int, m as int);
        let ghost prevval = seq_to_nat(prevseq);
        let c = s[m];
        let d: u64 = ((c as u32) - 48) as u64;
        proof {
            assert(is_digit(s@[m as int]));
            assert(d < 10);
            assert(s@.subrange(i as int, m + 1).drop_last() =~= prevseq);
            assert(s@.subrange(i as int, m + 1).last() == s@[m as int]);
            assert(seq_to_nat(s@.subrange(i as int, m + 1)) == prevval * 10 + dval(s@[m as int]));
        }
        if over {
            proof {
                assert(prevval * 10 >= prevval) by (nonlinear_arith)
                    requires prevval >= 0;
            }
        } else {
            let t: u128 = 10 * (acc as u128) + (d as u128);
            if t > 0x8000_0000_0000_0000u128 {
                over = true;
            } else {
                acc = t as u64;
            }
        }
        m += 1;
    }
    (acc, over)
}

/// Parses the number at `i`, as `sp_number` describes.
#[verifier::rlimit(60)]
fn parse_number(s: &Vec<char>, i: usize) -> (r: Option<(Json, usize)>)
    requires
        i < s@.len(),
        s@.len() < 0x1000_0000_0000_0000,
    ensures
        opt_value_view(r) == sp_number(s@, i as int),
        r is Some ==> i < r.unwrap().1 <= s@.len(),
{
    let n = s.len();
    // the optional sign, then the integer part
    let p0: usize = if s[i] == '-' {
        i + 1
    } else {
        i
    };
    if !(p0 < n && is_digit_x(s[p0])) {
        assert(num_end(s@, i as int) is None);
        return None;
    }
    let p1: usize = if s[p0] == '0' {
        p0 + 1
    } else {
        find_run_end(s, p0)
    };
    // the optional fraction
    let p2: usize = if p1 < n && s[p1] == '.' {
        let q = find_run_end(s, p1 + 1);
        if q == p1 + 1 {
            assert(num_end(s@, i as int) is None);
            return None;
        }
        q
    } else {
        p1
    };
    // the optional exponent
    let j: usize = if p2 < n && (s[p2] == 'e' || s[p2] == 'E') {
        let ps: usize = if p2 + 1 < n && (s[p2 + 1] == '+' || s[p2 + 1] == '-') {
            p2 + 2
        } else {
            p2 + 1
        };
        let q = find_run_end(s, ps);
        if q == ps {
            assert(num_end(s@, i as int) is None);
            return None;
        }
        q
    } else {
        p2
    };
    assert(num_end(s@, i as int) == Some(j as int));
    let ghost t = s@.subrange(i as int, j as int);
    if p1 == j {
        // a plain integer: no fraction, no exponent
        proof {
            lemma_run_chars(s@, p0 as int);
            assert forall|m: int| 0 <= m < t.len() implies t[m] != '.' && t[m] != 'e' && t[m]
                != 'E' by {
                assert(t[m] == s@[i + m]);
                if i + m >= p0 {
                    assert(is_digit(s@[i + m]));
                }
            }
            assert(is_plain_num(t));
        }
        let (acc, over) = run_value(s, p0, p1);
        proof {
            if i < p0 {
                assert(t[0] == '-');
                assert(t.skip(1) =~= s@.subrange(p0 as int, p1 as int));
            } else {
                assert(t[0] != '-');
                assert(t =~= s@.subrange(p0 as int, p1 as int));
            }
        }
        if s[i] == '-' {
            if over {
                let num = crate::text::string_of(&crate::text::sub_chars(s, i, j));
                assert(plain_int_value(t) < i64::MIN);
                return Some((Json::Num(num), j));
            }
            let v: i64 = (-(acc as i128)) as i64;
            assert(v as int == -(acc as int));
            assert(plain_int_value(t) == v as int);
            Some((Json::Int(v), j))
        } else {
            if over || acc > 0x7fff_ffff_ffff_ffffu64 {
                let num = crate::text::string_of(&crate::text::sub_chars(s, i, j));
                assert(plain_int_value(t) > i64::MAX);
                return Some((Json::Num(num), j));
            }
            assert(plain_int_value(t) == acc as int);
            Some((Json::Int(acc as i64), j))
        }
    } else {
        // a fraction or an exponent: keep the text
        proof {
            if p2 > p1 {
                assert(t[p1 - i] == '.');
            } else {
                assert(t[p2 - i] == 'e' || t[p2 - i] == 'E');
            }
            assert(!is_plain_num(t));
        }
        let num = crate::text::string_of(&crate::text::sub_chars(s, i, j));
        Some((Json::Num(num), j))
    }
}

fn skip_ws(s: &Vec<char>, i: usize) -> (r: usize)
    requires
        i <= s@.len(),
    ensures
        r as int == ws_end(s@, i as int),
        i <= r <= s@.len(),
    decreases s@.len() - i,
{
    if i < s.len() && (s[i] == ' ' || s[i] == '\t' || s[i] == '\n' || s[i] == '\r') {
        skip_ws(s, i + 1)
    } else {
        i
    }
}

fn hex_val_x(c: char) -> (r: Option<u32>)
    ensures
        match r {
            Option::Some(v) => hex_val(c) == Some(v as int) && v < 16,
            Option::None => hex_val(c) is None,
        },
{
    let u = c as u32;
    if 48 <= u && u <= 57 {
        Some(u - 48)
    } else if 97 <= u && u <= 102 {
        Some(u - 87)
    } else if 65 <= u && u <= 70 {
        Some(u - 55)
    } else {
        None
    }
}

fn hex4_val_x(s: &Vec<char>, i: usize) -> (r: Option<u32>)
    requires
        i <= s@.len(),
    ensures
        match r {
            Option::Some(v) => hex4_val(s@, i as int) == Some(v as int) && v < 0x10000,
            Option::None => hex4_val(s@, i as int) is None,
        },
{
    if s.len() - i < 4 {
        return None;
    }
    let a = hex_val_x(s[i]);
    let b = hex_val_x(s[i + 1]);
    let c = hex_val_x(s[i + 2]);
    let d = hex_val_x(s[i + 3]);
    match (a, b, c, d) {
        (Option::Some(a), Option::Some(b), Option::Some(c), Option::Some(d)) => Some(
            4096 * a + 256 * b + 16 * c + d,
        ),
        _ => None,
    }
}

/// Relies on char::from_u32: a character for every code point that is
/// no surrogate and at most the maximum scalar, and nothing otherwise.
#[verifier::external_body]
fn char_from_u32_x(v: u32) -> (r: Option<char>)
    ensures
        (r is Some) <==> (v < 0xD800 || (0xE000 <= v && v <= 0x10FFFF)),
        r matches Some(c) ==> c as u32 == v,
{
    char::from_u32(v)
}

/// Parses one `\u` escape (or a surrogate pair), as
/// `sp_unicode_escape` describes, starting right after the `\u`.
fn parse_unicode_escape(s: &Vec<char>, i: usize) -> (r: Option<(char, usize)>)
    requires
        i <= s@.len(),
        s@.len() < 0x1000_0000_0000_0000,
    ensures
        match r {
            Option::Some((c, j)) => sp_unicode_escape(s@, i as int) == Some((c, j as int)) && i < j
                <= s@.len(),
            Option::None => sp_unicode_escape(s@, i as int) is None,
        },
{
    let n = s.len();
    let v1 = match hex4_val_x(s, i) {
        Option::Some(v) => v,
        Option::None => {
            return None;
        },
    };
    assert(i + 4 <= n);
    if 0xD800 <= v1 && v1 < 0xDC00 {
        if s.len() - i >= 6 && s[i + 4] == '\\' && s[i + 5] == 'u' {
            let v2 = match hex4_val_x(s, i + 6) {
                Option::Some(v) => v,
                Option::None => {
                    return None;
                },
            };
            assert(i + 10 <= n);
            if 0xDC00 <= v2 && v2 < 0xE000 {
                let code: u32 = 0x10000 + (v1 - 0xD800) * 0x400 + (v2 - 0xDC00);
                let c = char_from_u32_x(code).unwrap();
                proof {
                    vstd::utf8::char_u32_cast(c, code);
                }
                Some((c, i + 10))
            } else {
                None
            }
        } else {
            None
        }
    } else if 0xDC00 <= v1 && v1 < 0xE000 {
        None
    } else {
        let c = char_from_u32_x(v1).unwrap();
        proof {
            vstd::utf8::char_u32_cast(c, v1);
        }
        Some((c, i + 4))
    }
}

/// The view of an executable string-body parse.
pub open spec fn opt_str_view(r: Option<(Vec<char>, usize)>) -> Option<(Seq<char>, int)> {
    match r {
        Option::None => None,
        Option::Some((cs, n)) => Some((cs@, n as int)),
    }
}

/// Prefixes a parsed string body with already-consumed characters.
pub open spec fn sp_str_prepend(p: Seq<char>, r: Option<(Seq<char>, int)>) -> Option<
    (Seq<char>, int),
> {
    match r {
        Option::None => None,
        Option::Some((cs, j)) => Some((p + cs, j)),
    }
}

/// Parses a string body starting after the opening quote, as `sp_str`
/// describes.
fn parse_str_body(s: &Vec<char>, i: usize) -> (r: Option<(Vec<char>, usize)>)
    requires
        i <= s@.len(),
        s@.len() < 0x1000_0000_0000_0000,
    ensures
        opt_str_view(r) == sp_str(s@, i as int),
        r is Some ==> r.unwrap().1 <= s@.len(),
{
    let mut acc: Vec<char> = Vec::new();
    let mut cur: usize = i;
    loop
        invariant
            i <= cur <= s@.len(),
            s@.len() < 0x1000_0000_0000_0000,
            sp_str(s@, i as int) == sp_str_prepend(acc@, sp_str(s@, cur as int)),
        decreases s@.len() - cur,
    {
        if cur >= s.len() {
            assert(sp_str(s@, cur as int) is None);
            return None;
        }
        let c = s[cur];
        if c == '"' {
            assert(sp_str(s@, cur as int) == Some((Seq::<char>::empty(), cur + 1)));
            assert(acc@ + Seq::<char>::empty() =~= acc@);
            return Some((acc, cur + 1));
        } else if c == '\\' {
            if cur + 1 >= s.len() {
                assert(sp_str(s@, cur as int) is None);
                return None;
            }
            let e = s[cur + 1];
            if e == 'u' {
                match parse_unicode_escape(s, cur + 2) {
                    Option::None => {
                        assert(sp_str(s@, cur as int) is None);
                        return None;
                    },
                    Option::Some((u, nx)) => {
                        let ghost prev = acc@;
                        acc.push(u);
                        proof {
                            if sp_str(s@, nx as int) is Some {
                                let (rest, j) = sp_str(s@, nx as int).unwrap();
                                assert(sp_str(s@, cur as int) == Some((seq![u] + rest, j)));
                                assert(prev + (seq![u] + rest) =~= acc@ + rest);
                            }
                        }
                        cur = nx;
                    },
                }
                continue ;
            }
            let u: char = if e == '"' {
                '"'
            } else if e == '\\' {
                '\\'
            } else if e == '/' {
                '/'
            } else if e == 'n' {
                '\n'
            } else if e == 'r' {
                '\r'
            } else if e == 't' {
                '\t'
            } else if e == 'b' {
                (8u8) as char
            } else if e == 'f' {
                (12u8) as char
            } else {
                assert(unesc_char(e) is None);
                assert(sp_str(s@, cur as int) is None);
                return None;
            };
            assert(unesc_char(e) == Some(u));
            let ghost prev = acc@;
            acc.push(u);
            proof {
                if sp_str(s@, cur + 2) is Some {
                    let (rest, j) = sp_str(s@, cur + 2).unwrap();
                    assert(sp_str(s@, cur as int) == Some((seq![u] + rest, j)));
                    assert(prev + (seq![u] + rest) =~= acc@ + rest);
                }
            }
            cur = cur + 2;
        } else if (c as u32) < 32 {
            assert(sp_str(s@, cur as int) is None);
            return None;
        } else {
            let ghost prev = acc@;
            acc.push(c);
            proof {
                if sp_str(s@, cur + 1) is Some {
                    let (rest, j) = sp_str(s@, cur + 1).unwrap();
                    assert(sp_str(s@, cur as int) == Some((seq![c] + rest, j)));
                    assert(prev + (seq![c] + rest) =~= acc@ + rest);
                }
            }
            cur = cur + 1;
        }
    }
}

/// Parses one JSON value at `i`, as `sp_value` describes.
pub fn parse_value(s: &Vec<char>, i0: usize, fuel: u64) -> (r: Option<(Json, usize)>)
    requires
        i0 <= s@.len(),
        s@.len() < 0x1000_0000_0000_0000,
    ensures
        opt_value_view(r) == sp_value(s@, i0 as int, fuel as nat),
        r is Some ==> r.unwrap().1 <= s@.len(),
    decreases fuel,
{
    let i = skip_ws(s, i0);
    if fuel == 0 || i >= s.len() {
        return None;
    }
    let c = s[i];
    if c == 'n' {
        if s.len() - i >= 4 && s[i + 1] == 'u' && s[i + 2] == 'l' && s[i + 3] == 'l' {
            proof {
                let lit = seq!['n', 'u', 'l', 'l'];
                assert forall|m: int| 0 <= m < lit.len() implies s@[i + m] == #[trigger] lit[m] by {
                    assert(lit[0] == 'n' && lit[1] == 'u' && lit[2] == 'l' && lit[3] == 'l');
                }
            }
            Some((Json::Null, i + 4))
        } else {
            assert(!lit_at(s@, i as int, seq!['n', 'u', 'l', 'l'])) by {
                let lit = seq!['n', 'u', 'l', 'l'];
                if lit_at(s@, i as int, lit) {
                    assert(s@[i + 1] == lit[1] && s@[i + 2] == lit[2] && s@[i + 3] == lit[3]);
                }
            }
            None
        }
    } else if c == 't' {
        if s.len() - i >= 4 && s[i + 1] == 'r' && s[i + 2] == 'u' && s[i + 3] == 'e' {
            proof {
                let lit = seq!['t', 'r', 'u', 'e'];
                assert forall|m: int| 0 <= m < lit.len() implies s@[i + m] == #[trigger] lit[m] by {
                    assert(lit[0] == 't' && lit[1] == 'r' && lit[2] == 'u' && lit[3] == 'e');
                }
            }
            Some((Json::Bool(true), i + 4))
        } else {
            assert(!lit_at(s@, i as int, seq!['t', 'r', 'u', 'e'])) by {
                let lit = seq!['t', 'r', 'u', 'e'];
                if lit_at(s@, i as int, lit) {
                    assert(s@[i + 1] == lit[1] && s@[i + 2] == lit[2] && s@[i + 3] == lit[3]);
                }
            }
            None
        }
    } else if c == 'f' {
        if s.len() - i >= 5 && s[i + 1] == 'a' && s[i + 2] == 'l' && s[i + 3] == 's' && s[i + 4]
            == 'e' {
            proof {
                let lit = seq!['f', 'a', 'l', 's', 'e'];
                assert forall|m: int| 0 <= m < lit.len() implies s@[i + m] == #[trigger] lit[m] by {
                    assert(lit[0] == 'f' && lit[1] == 'a' && lit[2] == 'l' && lit[3] == 's'
                        && lit[4] == 'e');
                }
            }
            Some((Json::Bool(false), i + 5))
        } else {
            assert(!lit_at(s@, i as int, seq!['f', 'a', 'l', 's', 'e'])) by {
                let lit = seq!['f', 'a', 'l', 's', 'e'];
                if lit_at(s@, i as int, lit) {
                    assert(s@[i + 1] == lit[1] && s@[i + 2] == lit[2] && s@[i + 3] == lit[3]
                        && s@[i + 4] == lit[4]);
                }
            }
            None
        }
    } else if c == '"' {
        match parse_str_body(s, i + 1) {
            Option::None => None,
            Option::Some((cs, j)) => {
                let st = crate::text::string_of(&cs);
                Some((Json::Str(st), j))
            },
        }
    } else if c == '-' || is_digit_x(c) {
        parse_number(s, i)
    } else if c == '[' {
        let a = skip_ws(s, i + 1);
        if a < s.len() && s[a] == ']' {
            let es: Vec<Json> = Vec::new();
            assert(view_elems(es) =~= Seq::<JsonV>::empty());
            Some((Json::Arr(es), a + 1))
        } else {
            match parse_elems(s, i + 1, fuel - 1) {
                Option::None => None,
                Option::Some((es, j)) => Some((Json::Arr(es), j)),
            }
        }
    } else if c == '{' {
        let a = skip_ws(s, i + 1);
        if a < s.len() && s[a] == '}' {
            let fs: Vec<(String, Json)> = Vec::new();
            assert(view_fields(fs) =~= Seq::<(Seq<char>, JsonV)>::empty());
            Some((Json::Obj(fs), a + 1))
        } else {
            match parse_fields(s, i + 1, fuel - 1) {
                Option::None => None,
                Option::Some((fs, j)) => Some((Json::Obj(fs), j)),
            }
        }
    } else {
        None
    }
}

/// The view of an executable element-list parse.
pub open spec fn opt_elems_view(r: Option<(Vec<Json>, usize)>) -> Option<(Seq<JsonV>, int)> {
    match r {
        Option::None => None,
        Option::Some((es, n)) => Some((view_elems(es), n as int)),
    }
}

fn parse_elems(s: &Vec<char>, i: usize, fuel: u64) -> (r: Option<(Vec<Json>, usize)>)
    requires
        i <= s@.len(),
        s@.len() < 0x1000_0000_0000_0000,
    ensures
        opt_elems_view(r) == sp_elems(s@, i as int, fuel as nat),
        r is Some ==> r.unwrap().1 <= s@.len(),
    decreases fuel,
{
    if fuel == 0 {
        return None;
    }
    match parse_value(s, i, fuel - 1) {
        Option::None => None,
        Option::Some((v, j0)) => {
            let j = skip_ws(s, j0);
            if j < s.len() && s[j] == ',' {
                match parse_elems(s, j + 1, fuel - 1) {
                    Option::None => None,
                    Option::Some((mut rest, k)) => {
                        let ghost prev = view_elems(rest);
                        rest.insert(0, v);
                        assert(view_elems(rest) =~= seq![v@] + prev);
                        Some((rest, k))
                    },
                }
            } else if j < s.len() && s[j] == ']' {
                let mut es: Vec<Json> = Vec::new();
                es.push(v);
                assert(view_elems(es) =~= seq![v@]);
                Some((es, j + 1))
            } else {
                None
            }
        },
    }
}

/// The view of an executable field-list parse.
pub open spec fn opt_fields_view(r: Option<(Vec<(String, Json)>, usize)>) -> Option<
    (Seq<(Seq<char>, JsonV)>, int),
> {
    match r {
        Option::None => None,
        Option::Some((fs, n)) => Some((view_fields(fs), n as int)),
    }
}

fn parse_fields(s: &Vec<char>, i0: usize, fuel: u64) -> (r: Option<(Vec<(String, Json)>, usize)>)
    requires
        i0 <= s@.len(),
        s@.len() < 0x1000_0000_0000_0000,
    ensures
        opt_fields_view(r) == sp_fields(s@, i0 as int, fuel as nat),
        r is Some ==> r.unwrap().1 <= s@.len(),
    decreases fuel,
{
    let i = skip_ws(s, i0);
    if fuel == 0 {
        return None;
    }
    if !(i < s.len() && s[i] == '"') {
        return None;
    }
    match parse_str_body(s, i + 1) {
        Option::None => None,
        Option::Some((key, j0)) => {
            let j = skip_ws(s, j0);
            if !(j < s.len() && s[j] == ':') {
                return None;
            }
            match parse_value(s, j + 1, fuel - 1) {
                Option::None => None,
                Option::Some((v, k0)) => {
                    let k = skip_ws(s, k0);
                    let ks = crate::text::string_of(&key);
                    if k < s.len() && s[k] == ',' {
                        match parse_fields(s, k + 1, fuel - 1) {
                            Option::None => None,
                            Option::Some((mut rest, m)) => {
                                let ghost prev = view_fields(rest);
                                rest.insert(0, (ks, v));
                                assert(view_fields(rest) =~= seq![(key@, v@)] + prev);
                                Some((rest, m))
                            },
                        }
                    } else if k < s.len() && s[k] == '}' {
                        let mut fs: Vec<(String, Json)> = Vec::new();
                        fs.push((ks, v));
                        assert(view_fields(fs) =~= seq![(key@, v@)]);
                        Some((fs, k + 1))
                    } else {
                        None
                    }
                },
            }
        },
    }
}

/// Appends the decimal digits of `n`.
pub fn append_u64(n: u64, out: &mut Vec<char>)
    ensures
        final(out)@ == old(out)@ + dec_nat(n as nat),
{
    push_digits(n, out);
}

/// Decodes a complete text as one JSON value, as `json_decode_spec`
/// describes: the whole text must be consumed.
pub fn json_parse(s: &Vec<char>) -> (r: Option<Json>)
    ensures
        match r {
            Option::Some(v) => json_decode_spec(s@) == Some(v@),
            Option::None => json_decode_spec(s@) is None,
        },
{
    if (s.len() as u64) >= 0x1000_0000_0000_0000u64 {
        return None;
    }
    let fuel: u64 = 2 * (s.len() as u64) + 2;
    match parse_value(s, 0, fuel) {
        Option::None => None,
        Option::Some((v, j)) => {
            if skip_ws(s, j) == s.len() {
                Some(v)
            } else {
                None
            }
        },
    }
}

/// Decodes a text frame as one JSON value.
pub fn json_parse_text(s: &str) -> (r: Option<Json>)
    ensures
        match r {
            Option::Some(v) => json_decode_spec(s@) == Some(v@),
            Option::None => json_decode_spec(s@) is None,
        },
{
    let cs = crate::text::chars_of(s);
    json_parse(&cs)
}

} // verus!
