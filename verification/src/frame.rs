//! The length-prefixed framing of the standard-stream transport: each
//! message is a 4-byte little-endian length followed by that many bytes
//! of UTF-8 JSON.

use vstd::prelude::*;
use vstd::utf8::{decode_utf8, encode_utf8, valid_utf8};
use crate::envelope::{
    decode_response_spec, encode_response, Response, response_wire, ResponseV,
};

verus! {

/// The little-endian 4-byte form of a length below `2^32`.
pub open spec fn le4(n: nat) -> Seq<u8> {
    seq![
        (n % 256) as u8,
        ((n / 256) % 256) as u8,
        ((n / 65536) % 256) as u8,
        ((n / 16777216) % 256) as u8,
    ]
}

/// The length named by four little-endian bytes.
pub open spec fn le4_val(b0: u8, b1: u8, b2: u8, b3: u8) -> int {
    b0 + 256 * b1 + 65536 * b2 + 16777216 * b3
}

/// Four little-endian bytes name the length they encode.
pub proof fn lemma_le4_round_trip(n: nat)
    requires
        n < 0x1_0000_0000,
    ensures
        le4(n).len() == 4,
        le4_val(le4(n)[0], le4(n)[1], le4(n)[2], le4(n)[3]) == n,
{
    let n1 = n / 256;
    let n2 = n1 / 256;
    let n3 = n2 / 256;
    assert(n == 256 * n1 + n % 256);
    assert(n1 == 256 * n2 + n1 % 256);
    assert(n2 == 256 * n3 + n2 % 256);
    assert(n3 < 256);
    assert(n3 % 256 == n3);
    assert(n1 % 256 == (n / 256) % 256);
}

/// One frame: the length prefix, then the body.
pub open spec fn frame_of(body: Seq<u8>) -> Seq<u8> {
    le4(body.len()) + body
}

/// What one read attempt at position `i` of a byte stream yields.
pub enum FrameReadV {
    /// The stream ended exactly at a message boundary.
    CleanEof,
    /// The stream ended inside a length prefix or a body.
    Truncated,
    /// A complete body, and the position after it.
    Frame(Seq<u8>, int),
}

/// Reading a frame at `i`: no byte means a clean end of stream, fewer
/// than four prefix bytes or a short body means a truncated message.
pub open spec fn frame_read(s: Seq<u8>, i: int) -> FrameReadV {
    if i == s.len() {
        FrameReadV::CleanEof
    } else if i + 4 > s.len() {
        FrameReadV::Truncated
    } else {
        let len = le4_val(s[i], s[i + 1], s[i + 2], s[i + 3]);
        if i + 4 + len > s.len() {
            FrameReadV::Truncated
        } else {
            FrameReadV::Frame(s.subrange(i + 4, i + 4 + len), i + 4 + len)
        }
    }
}

/// Executable frame-read outcome.
pub enum FrameRead {
    CleanEof,
    Truncated,
    Frame(Vec<u8>, usize),
}

impl FrameRead {
    pub open spec fn view(&self) -> FrameReadV {
        match self {
            FrameRead::CleanEof => FrameReadV::CleanEof,
            FrameRead::Truncated => FrameReadV::Truncated,
            FrameRead::Frame(b, j) => FrameReadV::Frame(b@, *j as int),
        }
    }
}

/// Appends the frame for `body` to `out`; a body too long for the
/// 4-byte prefix is refused.
pub fn write_frame(body: &Vec<u8>, out: &mut Vec<u8>) -> (ok: bool)
    ensures
        ok == (body@.len() <= u32::MAX),
        ok ==> final(out)@ == old(out)@ + frame_of(body@),
        !ok ==> final(out)@ == old(out)@,
{
    if (body.len() as u64) > 0xffff_ffffu64 {
        return false;
    }
    let len: u64 = body.len() as u64;
    out.push((len % 256) as u8);
    out.push(((len / 256) % 256) as u8);
    out.push(((len / 65536) % 256) as u8);
    out.push(((len / 16777216) % 256) as u8);
    let n = body.len();
    let mut k: usize = 0;
    while k < n
        invariant
            n == body@.len(),
            k <= n,
            out@ == old(out)@ + le4(body@.len()) + body@.take(k as int),
        decreases n - k,
    {
        out.push(body[k]);
        assert(out@ =~= old(out)@ + le4(body@.len()) + body@.take(k + 1));
        k += 1;
    }
    proof {
        assert(body@.take(n as int) =~= body@);
        assert(out@ =~= old(out)@ + frame_of(body@));
    }
    true
}

/// Reads one frame at position `i`, as `frame_read` describes.
pub fn read_frame(s: &Vec<u8>, i: usize) -> (r: FrameRead)
    requires
        i <= s@.len(),
    ensures
        r@ == frame_read(s@, i as int),
        r is Frame ==> i < r->Frame_1 <= s@.len(),
{
    let n = s.len();
    if i == n {
        return FrameRead::CleanEof;
    }
    if n - i < 4 {
        return FrameRead::Truncated;
    }
    let b0 = s[i];
    let b1 = s[i + 1];
    let b2 = s[i + 2];
    let b3 = s[i + 3];
    let len: u64 = (b0 as u64) + 256 * (b1 as u64) + 65536 * (b2 as u64) + 16777216 * (b3 as u64);
    assert(len == le4_val(b0, b1, b2, b3));
    if ((n - i - 4) as u64) < len {
        return FrameRead::Truncated;
    }
    let len_us: usize = len as usize;
    let start = i + 4;
    let end = start + len_us;
    let mut body: Vec<u8> = Vec::new();
    let mut k: usize = start;
    while k < end
        invariant
            start == i + 4,
            end == start + len_us,
            end <= s@.len(),
            start <= k <= end,
            body@ == s@.subrange(start as int, k as int),
        decreases end - k,
    {
        body.push(s[k]);
        assert(body@ =~= s@.subrange(start as int, k + 1));
        k += 1;
    }
    FrameRead::Frame(body, end)
}

/// The framed bytes of a response: its JSON text in UTF-8, behind the
/// length prefix.
pub open spec fn response_frame_bytes(r: ResponseV) -> Seq<u8> {
    frame_of(encode_utf8(response_wire(r)))
}

/// Serializes a response into one frame appended to `out`; a response
/// too long for the prefix is refused.
pub fn write_response_frame(r: Response, out: &mut Vec<u8>) -> (ok: bool)
    ensures
        ok == (encode_utf8(response_wire(r@)).len() <= u32::MAX),
        ok ==> final(out)@ == old(out)@ + response_frame_bytes(r@),
        !ok ==> final(out)@ == old(out)@,
{
    let ghost rv = r@;
    let text = encode_response(r);
    let bytes = text.as_str().as_bytes_vec();
    write_frame(&bytes, out)
}

/// Relies on String::from_utf8: it succeeds exactly on valid UTF-8 and
/// yields the text those bytes encode.
#[verifier::external_body]
pub fn bytes_to_string(v: Vec<u8>) -> (r: Option<String>)
    ensures
        match r {
            Option::Some(s) => valid_utf8(v@) && s@ == decode_utf8(v@),
            Option::None => !valid_utf8(v@),
        },
{
    match String::from_utf8(v) {
        Ok(s) => Some(s),
        Err(_) => None,
    }
}

/// Round trip through the framed stream: the frame written for any
/// well-formed response reads back as one complete message whose body
/// decodes to that same response.
pub proof fn lemma_response_frame_round_trip(r: ResponseV)
    requires
        crate::envelope::wf_response(r),
        response_wire(r).len() < crate::json::len_cap(),
        encode_utf8(response_wire(r)).len() <= u32::MAX,
    ensures
        ({
            let s = response_frame_bytes(r);
            let body = encode_utf8(response_wire(r));
            &&& frame_read(s, 0) == FrameReadV::Frame(body, s.len() as int)
            &&& valid_utf8(body)
            &&& decode_response_spec(decode_utf8(body)) == Some(r)
        }),
{
    let body = encode_utf8(response_wire(r));
    let s = response_frame_bytes(r);
    lemma_le4_round_trip(body.len());
    assert(s =~= le4(body.len()) + body);
    assert(s.len() == 4 + body.len());
    assert(s[0] == le4(body.len())[0] && s[1] == le4(body.len())[1] && s[2] == le4(
        body.len(),
    )[2] && s[3] == le4(body.len())[3]);
    assert(le4_val(s[0], s[1], s[2], s[3]) == body.len());
    assert(s.subrange(4, 4 + body.len() as int) =~= body);
    vstd::utf8::encode_utf8_valid_utf8(response_wire(r));
    vstd::utf8::encode_utf8_decode_utf8(response_wire(r));
    crate::envelope::lemma_response_round_trip(r);
}

/// A stream that ends cleanly at a boundary reads as a clean end; one
/// that ends inside the four prefix bytes reads as a truncation.
pub proof fn lemma_clean_shutdown(s: Seq<u8>, i: int)
    requires
        0 <= i <= s.len(),
    ensures
        i == s.len() ==> frame_read(s, i) == FrameReadV::CleanEof,
        i < s.len() && s.len() < i + 4 ==> frame_read(s, i) == FrameReadV::Truncated,
{
}

} // verus!