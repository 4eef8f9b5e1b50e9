use vstd::prelude::*;

verus! {

/// The longest payload that a frame carries, in bytes.
pub const MAX_FRAME_LENGTH: usize = 8388608;

/// The four bytes of `v`, most significant first.
pub open spec fn be_u32(v: u32) -> Seq<u8> {
    seq![
        (v / 0x100_0000) as u8,
        ((v / 0x1_0000) % 0x100) as u8,
        ((v / 0x100) % 0x100) as u8,
        (v % 0x100) as u8,
    ]
}

/// The number that four bytes spell, most significant first.
pub open spec fn from_be_u32(a: u8, b: u8, c: u8, d: u8) -> int {
    a * 0x100_0000 + b * 0x1_0000 + c * 0x100 + d
}

/// A payload as a frame on a byte stream: its length in four bytes, most
/// significant first, then the payload.
pub open spec fn frame(payload: Seq<u8>) -> Seq<u8> {
    be_u32(payload.len() as u32) + payload
}

/// What the front of a byte stream holds.
pub enum Frame {
    /// Not yet a whole frame: more bytes are needed.
    Incomplete,
    /// A frame that announces a payload longer than `MAX_FRAME_LENGTH`.
    TooLong,
    /// A whole frame: its payload, and the number of bytes that it took
    /// from the stream.
    Complete { payload: Vec<u8>, consumed: usize },
}

/// What the front of a byte stream holds, as a mathematical value.
pub enum FrameView {
    Incomplete,
    TooLong,
    Complete { payload: Seq<u8>, consumed: int },
}

impl View for Frame {
    type V = FrameView;

    open spec fn view(&self) -> FrameView {
        match self {
            Frame::Incomplete => FrameView::Incomplete,
            Frame::TooLong => FrameView::TooLong,
            Frame::Complete { payload, consumed } => FrameView::Complete {
                payload: payload@,
                consumed: *consumed as int,
            },
        }
    }
}

/// The payload length that a stream's first four bytes announce.
pub open spec fn announced(s: Seq<u8>) -> int {
    from_be_u32(s[0], s[1], s[2], s[3])
}

/// What the front of the byte stream `s` holds.
pub open spec fn parse_frame(s: Seq<u8>) -> FrameView {
    if s.len() < 4 {
        FrameView::Incomplete
    } else if announced(s) > MAX_FRAME_LENGTH {
        FrameView::TooLong
    } else if s.len() < 4 + announced(s) {
        FrameView::Incomplete
    } else {
        FrameView::Complete { payload: s.subrange(4, 4 + announced(s)), consumed: 4 + announced(s) }
    }
}

/// The frame of `payload`, if the payload is not too long for one.
pub fn encode_frame(payload: &[u8]) -> (framed: Option<Vec<u8>>)
    ensures
        framed is Some <==> payload@.len() <= MAX_FRAME_LENGTH,
        framed matches Some(bytes) ==> bytes@ == frame(payload@),
{
    let len = payload.len();
    if len > MAX_FRAME_LENGTH {
        return None;
    }
    let mut bytes: Vec<u8> = Vec::with_capacity(len + 4);
    bytes.push((len / 0x100_0000) as u8);
    bytes.push(((len / 0x1_0000) % 0x100) as u8);
    bytes.push(((len / 0x100) % 0x100) as u8);
    bytes.push((len % 0x100) as u8);
    assert(bytes@ =~= be_u32(len as u32));
    let mut n: usize = 0;
    while n < len
        invariant
            n <= len,
            len == payload@.len(),
            bytes@ == be_u32(len as u32) + payload@.take(n as int),
        decreases len - n,
    {
        bytes.push(payload[n]);
        assert(bytes@ =~= be_u32(len as u32) + payload@.take(n as int + 1));
        n += 1;
    }
    assert(payload@.take(n as int) =~= payload@);
    Some(bytes)
}

/// Reads one frame from the front of `buffer`.
pub fn decode_frame(buffer: &[u8]) -> (front: Frame)
    ensures
        front@ == parse_frame(buffer@),
{
    if buffer.len() < 4 {
        return Frame::Incomplete;
    }
    let announced: u64 = buffer[0] as u64 * 0x100_0000 + buffer[1] as u64 * 0x1_0000 + buffer[2] as u64
        * 0x100 + buffer[3] as u64;
    if announced > MAX_FRAME_LENGTH as u64 {
        return Frame::TooLong;
    }
    let len = announced as usize;
    if buffer.len() - 4 < len {
        return Frame::Incomplete;
    }
    let mut payload: Vec<u8> = Vec::with_capacity(len);
    let mut n: usize = 0;
    while n < len
        invariant
            n <= len,
            4 + len <= buffer@.len() <= usize::MAX,
            payload@ == buffer@.subrange(4, 4 + n),
        decreases len - n,
    {
        payload.push(buffer[4 + n]);
        assert(payload@ =~= buffer@.subrange(4, 4 + n + 1));
        n += 1;
    }
    Frame::Complete { payload, consumed: 4 + len }
}

/// A frame reads back as the payload it was made of, whatever bytes follow
/// it on the stream.
pub proof fn lemma_frame_round_trip(payload: Seq<u8>, rest: Seq<u8>)
    requires
        payload.len() <= MAX_FRAME_LENGTH,
    ensures
        parse_frame(frame(payload) + rest) == (FrameView::Complete {
            payload,
            consumed: 4 + payload.len() as int,
        }),
{
    let s = frame(payload) + rest;
    let v = payload.len() as u32;
    assert(s[0] == be_u32(v)[0] && s[1] == be_u32(v)[1] && s[2] == be_u32(v)[2] && s[3] == be_u32(
        v,
    )[3]);
    assert(announced(s) == payload.len());
    assert(s.subrange(4, 4 + payload.len() as int) =~= payload);
}

/// While a frame has not arrived whole, reading it asks for more bytes.
pub proof fn lemma_frame_prefix_is_incomplete(payload: Seq<u8>, count: int)
    requires
        payload.len() <= MAX_FRAME_LENGTH,
        0 <= count < 4 + payload.len(),
    ensures
        parse_frame(frame(payload).take(count)) == FrameView::Incomplete,
{
    let s = frame(payload).take(count);
    let v = payload.len() as u32;
    if count >= 4 {
        assert(s[0] == be_u32(v)[0] && s[1] == be_u32(v)[1] && s[2] == be_u32(v)[2] && s[3]
            == be_u32(v)[3]);
        assert(announced(s) == payload.len());
    }
}

} // verus!
