use tokio_util::bytes::BytesMut;
use tokio_util::codec::{Decoder, Encoder, LengthDelimitedCodec};
use vstd::prelude::*;

verus! {

/// The largest payload that a frame may carry: 8 MiB, the limit of the
/// length-delimited codec's default settings.
pub const MAX_FRAME_LEN: usize = 8388608;

/// A length as four bytes, most significant first.
pub open spec fn be32_bytes(n: nat) -> Seq<u8> {
    seq![(n / 0x100_0000 % 256) as u8, (n / 0x1_0000 % 256) as u8, (n / 256 % 256) as u8, (n % 256) as u8]
}

/// The length that the first four bytes of `b` announce.
pub open spec fn frame_len(b: Seq<u8>) -> nat {
    b[0] as nat * 0x100_0000 + b[1] as nat * 0x1_0000 + b[2] as nat * 256 + b[3] as nat
}

/// One frame: the payload's length in four big-endian bytes, then the payload.
pub open spec fn frame_bytes(payload: Seq<u8>) -> Seq<u8> {
    be32_bytes(payload.len()) + payload
}

/// Relies on tokio_util's LengthDelimitedCodec with its default settings (a
/// four-byte big-endian length, payloads of at most 8 MiB): it writes one
/// frame, or refuses a longer payload.
#[verifier::external_body]
fn codec_encode(payload: &[u8]) -> (r: Result<Vec<u8>, String>)
    ensures
        match r {
            Ok(b) => payload@.len() <= MAX_FRAME_LEN && b@ == frame_bytes(payload@),
            Err(_) => payload@.len() > MAX_FRAME_LEN,
        },
{
    let mut dst = BytesMut::new();
    match LengthDelimitedCodec::new().encode(payload, &mut dst) {
        Ok(()) => Ok(dst.to_vec()),
        Err(e) => Err(e.to_string()),
    }
}

/// Relies on tokio_util's LengthDelimitedCodec with its default settings: it
/// reads one frame from the front of the bytes and gives its payload and the
/// number of bytes after it; nothing while the frame is incomplete; an error
/// when the announced length is over 8 MiB.
#[verifier::external_body]
fn codec_decode(b: &[u8]) -> (r: Result<Option<(Vec<u8>, usize)>, String>)
    ensures
        match r {
            Ok(Some((p, rest))) => {
                &&& b@.len() >= 4
                &&& frame_len(b@) <= MAX_FRAME_LEN
                &&& 4 + frame_len(b@) <= b@.len()
                &&& p@ == b@.subrange(4, 4 + frame_len(b@) as int)
                &&& rest == b@.len() - 4 - frame_len(b@)
            },
            Ok(None) => b@.len() < 4 || (frame_len(b@) <= MAX_FRAME_LEN && b@.len() < 4
                + frame_len(b@)),
            Err(_) => b@.len() >= 4 && frame_len(b@) > MAX_FRAME_LEN,
        },
{
    let mut src = BytesMut::from(b);
    match LengthDelimitedCodec::new().decode(&mut src) {
        Ok(Some(frame)) => Ok(Some((frame.to_vec(), src.len()))),
        Ok(None) => Ok(None),
        Err(e) => Err(e.to_string()),
    }
}

/// What the front of a byte stream holds.
pub enum FrameRead {
    /// A whole frame: its payload, and how many bytes it took with its head.
    Complete(Vec<u8>, usize),
    /// Not yet a whole frame: more bytes must be read.
    Incomplete,
    /// The head announces a payload over the limit.
    Oversized,
}

/// Prefixes the payload with its length. `None` when it is over the limit.
pub fn encode_frame(payload: &[u8]) -> (r: Option<Vec<u8>>)
    ensures
        match r {
            Some(b) => payload@.len() <= MAX_FRAME_LEN && b@ == frame_bytes(payload@),
            None => payload@.len() > MAX_FRAME_LEN,
        },
{
    match codec_encode(payload) {
        Ok(b) => Some(b),
        Err(_) => None,
    }
}

/// Reads the frame at the front of `b`, which may hold less than a frame
/// (a partial read) or more (the start of the next frame).
pub fn decode_frame(b: &[u8]) -> (r: FrameRead)
    ensures
        match r {
            FrameRead::Complete(p, n) => {
                &&& b@.len() >= 4
                &&& frame_len(b@) <= MAX_FRAME_LEN
                &&& n == 4 + frame_len(b@)
                &&& n <= b@.len()
                &&& p@ == b@.subrange(4, n as int)
            },
            FrameRead::Incomplete => b@.len() < 4 || (frame_len(b@) <= MAX_FRAME_LEN && b@.len()
                < 4 + frame_len(b@)),
            FrameRead::Oversized => b@.len() >= 4 && frame_len(b@) > MAX_FRAME_LEN,
        },
{
    match codec_decode(b) {
        Ok(Some((p, rest))) => FrameRead::Complete(p, b.len() - rest),
        Ok(None) => FrameRead::Incomplete,
        Err(_) => FrameRead::Oversized,
    }
}

/// A frame's head announces its payload's length.
pub proof fn lemma_frame_len(payload: Seq<u8>, rest: Seq<u8>)
    requires
        payload.len() <= MAX_FRAME_LEN,
    ensures
        frame_len(frame_bytes(payload) + rest) == payload.len(),
{
    let n = payload.len();
    let s = frame_bytes(payload) + rest;
    assert(s[0] == (n / 0x100_0000 % 256) as u8);
    assert(s[1] == (n / 0x1_0000 % 256) as u8);
    assert(s[2] == (n / 256 % 256) as u8);
    assert(s[3] == (n % 256) as u8);
    assert(n / 0x100_0000 % 256 * 0x100_0000 + n / 0x1_0000 % 256 * 0x1_0000 + n / 256 % 256 * 256
        + n % 256 == n) by (nonlinear_arith)
        requires
            n <= 8388608,
    ;
}

} // verus!
