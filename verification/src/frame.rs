//! Length-prefixed framing: a 4-byte big-endian unsigned length, then that
//! many bytes of message body.

use vstd::prelude::*;

verus! {

/// Hard cap on a single frame's payload (16 MiB). Anything larger is a
/// protocol error rather than an allocation.
pub const MAX_FRAME_LEN: usize = 16777216;

/// The kinds of I/O failure the framing layer tells apart.
#[derive(Debug, Clone, Copy, PartialEq, Eq, Structural)]
pub enum IoKind {
    UnexpectedEof,
    ConnectionReset,
    ConnectionAborted,
    BrokenPipe,
    Other,
}

/// Errors reading a frame.
#[derive(Debug, Clone, PartialEq, Eq)]
pub enum FrameError {
    /// Clean end of stream at a frame boundary.
    Closed,
    /// The length prefix exceeds [`MAX_FRAME_LEN`].
    TooLarge(usize),
    /// The body did not decode as a message.
    Decode(String),
    /// The transport failed.
    Io(IoKind),
}

impl FrameError {
    /// Whether this looks like an orderly peer disconnect rather than a bug.
    pub open spec fn spec_is_disconnect(&self) -> bool {
        match self {
            FrameError::Closed => true,
            FrameError::Io(k) => k != IoKind::Other,
            _ => false,
        }
    }

    /// Whether this looks like an orderly peer disconnect rather than a bug.
    pub fn is_disconnect(&self) -> (b: bool)
        ensures b == self.spec_is_disconnect(),
    {
        match self {
            FrameError::Closed => true,
            FrameError::Io(k) => match k {
                IoKind::Other => false,
                _ => true,
            },
            _ => false,
        }
    }
}

/// The big-endian `u32` the four bytes spell.
pub open spec fn be32(b: [u8; 4]) -> u32 {
    ((b[0] as u32) << 24u32) | ((b[1] as u32) << 16u32) | ((b[2] as u32) << 8u32) | (b[3] as u32)
}

/// The four big-endian bytes of `n`.
pub open spec fn be32_bytes(n: u32) -> [u8; 4] {
    [((n >> 24u32) & 0xffu32) as u8, ((n >> 16u32) & 0xffu32) as u8, ((n >> 8u32) & 0xffu32) as u8, (n & 0xffu32) as u8]
}

/// The length prefix of a frame decodes to the length it was built from.
pub proof fn lemma_be32_roundtrip(n: u32)
    ensures be32(be32_bytes(n)) == n,
{
    let b = be32_bytes(n);
    let (b0, b1, b2, b3) = (b[0] as u32, b[1] as u32, b[2] as u32, b[3] as u32);
    assert((n >> 24u32) & 0xffu32 < 256 && (n >> 16u32) & 0xffu32 < 256 && (n >> 8u32) & 0xffu32 < 256
        && n & 0xffu32 < 256) by (bit_vector);
    assert(b0 == (n >> 24u32) & 0xffu32 && b1 == (n >> 16u32) & 0xffu32 && b2 == (n >> 8u32) & 0xffu32 && b3 == n & 0xffu32);
    assert(b0 == (n >> 24u32) & 0xffu32 && b1 == (n >> 16u32) & 0xffu32 && b2 == (n >> 8u32) & 0xffu32
        && b3 == n & 0xffu32 ==> (b0 << 24u32) | (b1 << 16u32) | (b2 << 8u32) | b3 == n) by (bit_vector);
}

/// Decode a length prefix.
pub fn decode_be32(b: [u8; 4]) -> (n: u32)
    ensures n == be32(b),
{
    ((b[0] as u32) << 24u32) | ((b[1] as u32) << 16u32) | ((b[2] as u32) << 8u32) | (b[3] as u32)
}

/// Encode a length prefix.
pub fn encode_be32(n: u32) -> (b: [u8; 4])
    ensures b == be32_bytes(n),
{
    [((n >> 24u32) & 0xffu32) as u8, ((n >> 16u32) & 0xffu32) as u8, ((n >> 8u32) & 0xffu32) as u8, (n & 0xffu32) as u8]
}

/// The body length a length prefix announces, or `TooLarge` when it is over
/// the cap (checked before anything is allocated for the body).
pub fn check_len(hdr: [u8; 4]) -> (r: Result<usize, FrameError>)
    ensures
        be32(hdr) <= MAX_FRAME_LEN ==> r == Ok::<usize, FrameError>(be32(hdr) as usize),
        be32(hdr) > MAX_FRAME_LEN ==> r == Err::<usize, FrameError>(FrameError::TooLarge(be32(hdr) as usize)),
{
    let n = decode_be32(hdr);
    if n as usize > MAX_FRAME_LEN {
        Err(FrameError::TooLarge(n as usize))
    } else {
        Ok(n as usize)
    }
}

/// A whole frame: length prefix then body. `None` when the body is too long
/// for a `u32` prefix.
pub open spec fn spec_frame(body: Seq<u8>) -> Option<Seq<u8>> {
    if body.len() <= u32::MAX {
        Some(be32_bytes(body.len() as u32)@ + body)
    } else {
        None
    }
}

/// Build the bytes of one frame around an encoded message body.
pub fn encode_frame(body: &[u8]) -> (r: Option<Vec<u8>>)
    ensures
        match r {
            Some(v) => spec_frame(body@) == Some(v@),
            None => spec_frame(body@) is None,
        },
{
    if body.len() > 0xffff_ffffusize {
        return None;
    }
    let hdr = encode_be32(body.len() as u32);
    let mut out: Vec<u8> = Vec::new();
    out.push(hdr[0]);
    out.push(hdr[1]);
    out.push(hdr[2]);
    out.push(hdr[3]);
    let mut i: usize = 0;
    while i < body.len()
        invariant
            i <= body@.len(),
            out@ == hdr@ + body@.subrange(0, i as int),
        decreases body@.len() - i,
    {
        out.push(body[i]);
        i += 1;
        proof { assert(out@ =~= hdr@ + body@.subrange(0, i as int)); }
    }
    proof { assert(body@.subrange(0, body@.len() as int) =~= body@); assert(hdr@ =~= seq![hdr[0], hdr[1], hdr[2], hdr[3]]); }
    Some(out)
}

/// What the front of a receive buffer holds.
#[derive(Debug, Clone, PartialEq, Eq)]
pub enum FrameParse {
    /// Fewer bytes than a whole frame; read more.
    NeedMore,
    /// The prefix announces an oversize frame.
    TooLarge(usize),
    /// A whole frame: its body is `buf[4 .. 4 + len]`.
    Complete { len: usize },
}

/// The first four bytes of `s` as an array.
pub open spec fn prefix4(s: Seq<u8>) -> [u8; 4] {
    [s[0], s[1], s[2], s[3]]
}

/// Classify the front of a receive buffer without allocating for the body.
pub open spec fn spec_parse_frame(s: Seq<u8>) -> FrameParse {
    if s.len() < 4 {
        FrameParse::NeedMore
    } else {
        let n = be32(prefix4(s));
        if n > MAX_FRAME_LEN {
            FrameParse::TooLarge(n as usize)
        } else if s.len() < 4 + n {
            FrameParse::NeedMore
        } else {
            FrameParse::Complete { len: n as usize }
        }
    }
}

/// Classify the front of a receive buffer.
pub fn parse_frame(buf: &[u8]) -> (r: FrameParse)
    ensures r == spec_parse_frame(buf@),
{
    if buf.len() < 4 {
        return FrameParse::NeedMore;
    }
    let hdr: [u8; 4] = [buf[0], buf[1], buf[2], buf[3]];
    assert(hdr == prefix4(buf@));
    match check_len(hdr) {
        Err(e) => FrameParse::TooLarge(decode_be32(hdr) as usize),
        Ok(n) => {
            if buf.len() - 4 < n {
                FrameParse::NeedMore
            } else {
                FrameParse::Complete { len: n }
            }
        },
    }
}

/// A frame built from a body parses back to that body's length.
pub proof fn lemma_frame_roundtrip(body: Seq<u8>)
    requires body.len() <= MAX_FRAME_LEN,
    ensures
        spec_frame(body) matches Some(f) && spec_parse_frame(f) == (FrameParse::Complete { len: body.len() as usize })
            && f.subrange(4, 4 + body.len() as int) == body,
{
    let n = body.len() as u32;
    let h = be32_bytes(n);
    let f = h@ + body;
    lemma_be32_roundtrip(n);
    assert(prefix4(f) == h) by {
        assert(f[0] == h[0]); assert(f[1] == h[1]); assert(f[2] == h[2]); assert(f[3] == h[3]);
        assert(prefix4(f) =~= h);
    }
    assert(f.subrange(4, 4 + body.len() as int) =~= body);
}

} // verus!
