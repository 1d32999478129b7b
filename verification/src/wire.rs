//! Message framing on a byte stream.
//!
//! Every message travels as one frame: a delimiter byte, then the payload
//! length as a big-endian `u32`, then the payload itself. A reader consumes a
//! stream frame by frame with [`FrameReader`], asking for exactly as many bytes
//! as the next part of the frame holds.
use vstd::prelude::*;

verus! {

/// The byte that opens every frame (`b'D'`).
pub const DELIMITER: u8 = 0x44;

/// Length of the frame header: the delimiter and the four size bytes.
pub const HEADER_LEN: usize = 5;

/// The four big-endian bytes of `n`.
pub open spec fn be32_bytes(n: u32) -> Seq<u8> {
    seq![(n >> 24u32) as u8, ((n >> 16u32) & 0xffu32) as u8, ((n >> 8u32) & 0xffu32) as u8, (n & 0xffu32) as u8]
}

/// The `u32` whose big-endian bytes are the first four of `b`.
pub open spec fn be32_value(b: Seq<u8>) -> u32
    recommends
        b.len() == 4,
{
    ((b[0] as u32) << 24u32) | ((b[1] as u32) << 16u32) | ((b[2] as u32) << 8u32) | (b[3] as u32)
}

/// The frame that carries `payload`. The size field holds the payload length
/// truncated to 32 bits.
pub open spec fn framed(payload: Seq<u8>) -> Seq<u8> {
    seq![DELIMITER] + be32_bytes(payload.len() as u32) + payload
}

/// Decoding the four size bytes gives back the size that was encoded.
pub proof fn lemma_be32_roundtrip(n: u32)
    ensures
        be32_value(be32_bytes(n)) == n,
{
    let b0 = (n >> 24u32) as u8;
    let b1 = ((n >> 16u32) & 0xffu32) as u8;
    let b2 = ((n >> 8u32) & 0xffu32) as u8;
    let b3 = (n & 0xffu32) as u8;
    assert(((b0 as u32) << 24u32) | ((b1 as u32) << 16u32) | ((b2 as u32) << 8u32) | (b3 as u32)
        == n) by (bit_vector)
        requires
            b0 == (n >> 24u32) as u8,
            b1 == ((n >> 16u32) & 0xffu32) as u8,
            b2 == ((n >> 8u32) & 0xffu32) as u8,
            b3 == (n & 0xffu32) as u8,
    ;
}

/// Builds the frame that carries `payload`.
pub fn frame_message(payload: &[u8]) -> (frame: Vec<u8>)
    ensures
        frame@ == framed(payload@),
{
    let size: u32 = payload.len() as u32;
    let mut frame: Vec<u8> = Vec::new();
    frame.push(DELIMITER);
    frame.push((size >> 24u32) as u8);
    frame.push(((size >> 16u32) & 0xffu32) as u8);
    frame.push(((size >> 8u32) & 0xffu32) as u8);
    frame.push((size & 0xffu32) as u8);
    assert(frame@ == seq![DELIMITER] + be32_bytes(payload@.len() as u32));
    let mut i: usize = 0;
    while i < payload.len()
        invariant
            i <= payload@.len(),
            frame@ == seq![DELIMITER] + be32_bytes(payload@.len() as u32) + payload@.subrange(0, i as int),
        decreases payload@.len() - i,
    {
        frame.push(payload[i]);
        assert(payload@.subrange(0, i as int + 1) == payload@.subrange(0, i as int).push(payload@[i as int]));
        i = i + 1;
    }
    assert(payload@.subrange(0, payload@.len() as int) == payload@);
    frame
}


/// Where a [`FrameReader`] stands inside the frame it is reading.
#[derive(Clone, Copy, Debug, PartialEq, Eq, Structural)]
pub enum FrameReader {
    /// Waiting for the delimiter byte that opens a frame.
    AwaitingDelimiter,
    /// The delimiter was seen; waiting for the four size bytes.
    AwaitingSize,
    /// The header was read; waiting for `size` payload bytes.
    AwaitingPayload { size: u32 },
}

/// The part of a frame whose read failed.
#[derive(Clone, Copy, Debug, PartialEq, Eq, Structural)]
pub enum ReadPhase {
    Delimiter,
    Size,
    Payload,
}

/// What a [`FrameReader`] reports after each read.
#[derive(Debug)]
pub enum FrameEvent {
    /// A part of a frame was taken in; the frame is not complete yet.
    Pending,
    /// A byte other than the delimiter stood where a frame should open; it is skipped.
    InvalidDelimiter { found: u8 },
    /// The read of the given part failed; the reader starts over at the next delimiter.
    ReadFailed { phase: ReadPhase },
    /// A whole frame was read; here is its payload.
    Frame { payload: Vec<u8> },
}

/// The mathematical content of a [`FrameEvent`].
pub enum FrameEventView {
    Pending,
    InvalidDelimiter { found: u8 },
    ReadFailed { phase: ReadPhase },
    Frame { payload: Seq<u8> },
}

impl View for FrameEvent {
    type V = FrameEventView;

    open spec fn view(&self) -> FrameEventView {
        match self {
            FrameEvent::Pending => FrameEventView::Pending,
            FrameEvent::InvalidDelimiter { found } => FrameEventView::InvalidDelimiter { found: *found },
            FrameEvent::ReadFailed { phase } => FrameEventView::ReadFailed { phase: *phase },
            FrameEvent::Frame { payload } => FrameEventView::Frame { payload: payload@ },
        }
    }
}

/// How many bytes the reader asks for next.
pub open spec fn wanted(state: FrameReader) -> nat {
    match state {
        FrameReader::AwaitingDelimiter => 1,
        FrameReader::AwaitingSize => 4,
        FrameReader::AwaitingPayload { size } => size as nat,
    }
}

/// The phase a read is for, in a given state.
pub open spec fn phase_of(state: FrameReader) -> ReadPhase {
    match state {
        FrameReader::AwaitingDelimiter => ReadPhase::Delimiter,
        FrameReader::AwaitingSize => ReadPhase::Size,
        FrameReader::AwaitingPayload { .. } => ReadPhase::Payload,
    }
}

/// One step of the reader: `chunk` is the result of reading `wanted(state)`
/// bytes, or `None` when that read failed.
pub open spec fn reader_step(state: FrameReader, chunk: Option<Seq<u8>>) -> (FrameReader, FrameEventView) {
    match chunk {
        None => (FrameReader::AwaitingDelimiter, FrameEventView::ReadFailed { phase: phase_of(state) }),
        Some(bytes) => match state {
            FrameReader::AwaitingDelimiter => if bytes[0] == DELIMITER {
                (FrameReader::AwaitingSize, FrameEventView::Pending)
            } else {
                (FrameReader::AwaitingDelimiter, FrameEventView::InvalidDelimiter { found: bytes[0] })
            },
            FrameReader::AwaitingSize => (
                FrameReader::AwaitingPayload { size: be32_value(bytes) },
                FrameEventView::Pending,
            ),
            FrameReader::AwaitingPayload { .. } => (
                FrameReader::AwaitingDelimiter,
                FrameEventView::Frame { payload: bytes },
            ),
        },
    }
}

/// The events a reader reports while it reads `stream` from `state` on,
/// each read taking exactly the bytes it asks for, until the stream holds
/// fewer bytes than the next read wants.
pub open spec fn decode_stream(state: FrameReader, stream: Seq<u8>) -> Seq<FrameEventView>
    decreases stream.len(), (if state is AwaitingPayload { 1int } else { 0int }),
{
    let n = wanted(state);
    if stream.len() < n {
        Seq::empty()
    } else {
        let step = reader_step(state, Some(stream.subrange(0, n as int)));
        seq![step.1] + decode_stream(step.0, stream.subrange(n as int, stream.len() as int))
    }
}

/// The payloads of the complete frames among `events`, in order.
pub open spec fn payloads(events: Seq<FrameEventView>) -> Seq<Seq<u8>>
    decreases events.len(),
{
    if events.len() == 0 {
        Seq::empty()
    } else {
        let rest = payloads(events.drop_first());
        match events[0] {
            FrameEventView::Frame { payload } => seq![payload] + rest,
            _ => rest,
        }
    }
}

/// The stream that carries the frames of `messages`, one after the other.
pub open spec fn frames(messages: Seq<Seq<u8>>) -> Seq<u8>
    decreases messages.len(),
{
    if messages.len() == 0 {
        Seq::empty()
    } else {
        framed(messages[0]) + frames(messages.drop_first())
    }
}

/// Every payload fits the 32-bit size field.
pub open spec fn all_fit(messages: Seq<Seq<u8>>) -> bool {
    forall|i: int| 0 <= i < messages.len() ==> #[trigger] messages[i].len() <= u32::MAX
}

proof fn lemma_payloads_append(a: Seq<FrameEventView>, b: Seq<FrameEventView>)
    ensures
        payloads(a + b) == payloads(a) + payloads(b),
    decreases a.len(),
{
    if a.len() == 0 {
        assert(a + b == b);
    } else {
        assert((a + b).drop_first() == a.drop_first() + b);
        lemma_payloads_append(a.drop_first(), b);
    }
}

/// A reader waiting for a frame reads the frame of `payload` in three reads
/// (delimiter, size, payload), reports the payload, and is then waiting for
/// the next frame, whatever follows in the stream.
pub proof fn lemma_frame_then_rest(payload: Seq<u8>, rest: Seq<u8>)
    requires
        payload.len() <= u32::MAX,
    ensures
        decode_stream(FrameReader::AwaitingDelimiter, framed(payload) + rest)
            == seq![FrameEventView::Pending, FrameEventView::Pending, FrameEventView::Frame { payload }]
            + decode_stream(FrameReader::AwaitingDelimiter, rest),
{
    let s0 = framed(payload) + rest;
    let n = payload.len() as u32;
    lemma_be32_roundtrip(n);
    assert(s0.subrange(0, 1) == seq![DELIMITER]);
    let s1 = s0.subrange(1, s0.len() as int);
    assert(s1.subrange(0, 4) == be32_bytes(n));
    let s2 = s1.subrange(4, s1.len() as int);
    assert(s2 == payload + rest);
    assert(s2.subrange(0, payload.len() as int) == payload);
    let s3 = s2.subrange(payload.len() as int, s2.len() as int);
    assert(s3 == rest);
    let st2 = FrameReader::AwaitingPayload { size: n };
    assert(wanted(st2) == payload.len());
    assert(decode_stream(st2, s2) == seq![FrameEventView::Frame { payload }]
        + decode_stream(FrameReader::AwaitingDelimiter, rest));
    assert(decode_stream(FrameReader::AwaitingSize, s1) == seq![FrameEventView::Pending]
        + decode_stream(st2, s2));
    assert(decode_stream(FrameReader::AwaitingDelimiter, s0) == seq![FrameEventView::Pending]
        + decode_stream(FrameReader::AwaitingSize, s1));
}

/// A reader that reads the frames of `messages` from a stream reports
/// exactly those payloads, in the order they were framed.
pub proof fn lemma_frames_roundtrip(messages: Seq<Seq<u8>>)
    requires
        all_fit(messages),
    ensures
        payloads(decode_stream(FrameReader::AwaitingDelimiter, frames(messages))) == messages,
    decreases messages.len(),
{
    if messages.len() == 0 {
        assert(frames(messages) == Seq::<u8>::empty());
        assert(decode_stream(FrameReader::AwaitingDelimiter, Seq::<u8>::empty()) == Seq::<FrameEventView>::empty());
    } else {
        let head = messages[0];
        let tail = messages.drop_first();
        assert(all_fit(tail)) by {
            assert forall|i: int| 0 <= i < tail.len() implies #[trigger] tail[i].len() <= u32::MAX by {
                assert(tail[i] == messages[i + 1]);
            }
        }
        assert(head.len() <= u32::MAX);
        lemma_frame_then_rest(head, frames(tail));
        lemma_frames_roundtrip(tail);
        let three = seq![FrameEventView::Pending, FrameEventView::Pending, FrameEventView::Frame { payload: head }];
        lemma_payloads_append(three, decode_stream(FrameReader::AwaitingDelimiter, frames(tail)));
        assert(payloads(three) == seq![head]) by {
            let t2 = three.drop_first().drop_first();
            assert(t2 == seq![FrameEventView::Frame { payload: head }]);
            assert(t2.drop_first() == Seq::<FrameEventView>::empty());
            assert(payloads(t2.drop_first()) == Seq::<Seq<u8>>::empty());
            assert(payloads(t2) == seq![head]);
            assert(payloads(three.drop_first()) == seq![head]);
        }
        assert(seq![head] + tail == messages);
    }
}

/// Bytes other than the delimiter in front of the frames are skipped one by
/// one: the reader still reports exactly the framed payloads.
pub proof fn lemma_skips_noise(noise: Seq<u8>, stream: Seq<u8>)
    requires
        forall|i: int| 0 <= i < noise.len() ==> #[trigger] noise[i] != DELIMITER,
    ensures
        payloads(decode_stream(FrameReader::AwaitingDelimiter, noise + stream))
            == payloads(decode_stream(FrameReader::AwaitingDelimiter, stream)),
    decreases noise.len(),
{
    if noise.len() > 0 {
        let s = noise + stream;
        let tail = noise.drop_first();
        assert(s.subrange(0, 1) == seq![noise[0]]);
        assert(s.subrange(1, s.len() as int) == tail + stream);
        let ev = FrameEventView::InvalidDelimiter { found: noise[0] };
        assert(decode_stream(FrameReader::AwaitingDelimiter, s) == seq![ev]
            + decode_stream(FrameReader::AwaitingDelimiter, tail + stream));
        lemma_payloads_append(seq![ev], decode_stream(FrameReader::AwaitingDelimiter, tail + stream));
        assert(payloads(seq![ev]) == Seq::<Seq<u8>>::empty()) by {
            assert(seq![ev].drop_first() == Seq::<FrameEventView>::empty());
            assert(payloads(seq![ev].drop_first()) == Seq::<Seq<u8>>::empty());
            assert(seq![ev][0] == ev);
        }
        assert forall|i: int| 0 <= i < tail.len() implies #[trigger] tail[i] != DELIMITER by {
            assert(tail[i] == noise[i + 1]);
        }
        lemma_skips_noise(tail, stream);
    } else {
        assert(noise + stream == stream);
    }
}

impl FrameReader {
    /// A reader that waits for the first frame.
    pub fn new() -> (reader: FrameReader)
        ensures
            reader == FrameReader::AwaitingDelimiter,
    {
        FrameReader::AwaitingDelimiter
    }

    /// How many bytes the next read must deliver.
    pub fn bytes_wanted(&self) -> (n: usize)
        ensures
            n == wanted(*self),
    {
        match self {
            FrameReader::AwaitingDelimiter => 1,
            FrameReader::AwaitingSize => 4,
            FrameReader::AwaitingPayload { size } => *size as usize,
        }
    }

    /// Takes in the result of the read that [`FrameReader::bytes_wanted`] asked
    /// for and returns the next state with what it makes of those bytes.
    pub fn advance(self, chunk: Option<&[u8]>) -> (next: (FrameReader, FrameEvent))
        requires
            chunk matches Some(bytes) ==> bytes@.len() == wanted(self),
        ensures
            (next.0, next.1@) == reader_step(self, match chunk {
                Some(bytes) => Some(bytes@),
                None => None,
            }),
    {
        match chunk {
            None => {
                let phase = match self {
                    FrameReader::AwaitingDelimiter => ReadPhase::Delimiter,
                    FrameReader::AwaitingSize => ReadPhase::Size,
                    FrameReader::AwaitingPayload { .. } => ReadPhase::Payload,
                };
                (FrameReader::AwaitingDelimiter, FrameEvent::ReadFailed { phase })
            },
            Some(bytes) => match self {
                FrameReader::AwaitingDelimiter => {
                    let b = bytes[0];
                    if b == DELIMITER {
                        (FrameReader::AwaitingSize, FrameEvent::Pending)
                    } else {
                        (FrameReader::AwaitingDelimiter, FrameEvent::InvalidDelimiter { found: b })
                    }
                },
                FrameReader::AwaitingSize => {
                    let size: u32 = ((bytes[0] as u32) << 24u32) | ((bytes[1] as u32) << 16u32)
                        | ((bytes[2] as u32) << 8u32) | (bytes[3] as u32);
                    (FrameReader::AwaitingPayload { size }, FrameEvent::Pending)
                },
                FrameReader::AwaitingPayload { .. } => {
                    let payload = vstd::slice::slice_to_vec(bytes);
                    (FrameReader::AwaitingDelimiter, FrameEvent::Frame { payload })
                },
            },
        }
    }
}

} // verus!
