//! Mathematical model of the demultiplexing decoder.
//!
//! The decoder is modeled as a state machine that consumes one byte at a
//! time. Each consumed byte either extends the header accumulator, finishes
//! a header (possibly reporting it malformed), or passes one body byte
//! through as an event tagged with its channel. Stating the executable
//! decoder's contract against `run` makes the contract independent of how
//! the input stream is chopped into buffers: feeding two buffers one after
//! the other is, by `lemma_run_split`, the same as feeding their
//! concatenation.

use vstd::prelude::*;

use crate::frame_header::be_u32;
use crate::frame_header::header_bytes;
use crate::frame_header::lemma_header_bytes_roundtrip;

verus! {

/// Decoder state between two consumed bytes: collecting the 8 header bytes,
/// or inside a body with `remaining` bytes of it still to come.
pub enum DecoderModel {
    Header { partial: Seq<u8> },
    Body { stream_type: u8, remaining: nat },
}

/// What consuming bytes can produce: one decoded body byte on a channel, or
/// a report of a malformed header (its 8 bytes attached).
pub enum DecodeEvent {
    Byte { stream_type: u8, byte: u8 },
    Malformed { header: Seq<u8> },
}

/// The state of a freshly constructed decoder.
pub open spec fn initial() -> DecoderModel {
    DecoderModel::Header { partial: Seq::empty() }
}

/// What happens once the 8th header byte has arrived: a malformed header
/// (non-zero reserved byte) is reported and the accumulator discarded; a
/// zero-length header is consumed silently; any other header opens a body.
pub open spec fn header_complete(acc: Seq<u8>) -> (DecoderModel, Seq<DecodeEvent>) {
    if acc[1] == 0 && acc[2] == 0 && acc[3] == 0 {
        let length = be_u32(acc[4], acc[5], acc[6], acc[7]);
        if length == 0 {
            (initial(), Seq::empty())
        } else {
            (DecoderModel::Body { stream_type: acc[0], remaining: length as nat }, Seq::empty())
        }
    } else {
        (initial(), seq![DecodeEvent::Malformed { header: acc }])
    }
}

/// Consumes a single input byte.
pub open spec fn step_byte(s: DecoderModel, b: u8) -> (DecoderModel, Seq<DecodeEvent>) {
    match s {
        DecoderModel::Header { partial } => {
            let acc = partial.push(b);
            if acc.len() < 8 {
                (DecoderModel::Header { partial: acc }, Seq::empty())
            } else {
                header_complete(acc)
            }
        },
        DecoderModel::Body { stream_type, remaining } => {
            let events = seq![DecodeEvent::Byte { stream_type, byte: b }];
            if remaining <= 1 {
                (initial(), events)
            } else {
                (DecoderModel::Body { stream_type, remaining: (remaining - 1) as nat }, events)
            }
        },
    }
}

/// Consumes a whole input buffer, byte by byte.
pub open spec fn run(s: DecoderModel, input: Seq<u8>) -> (DecoderModel, Seq<DecodeEvent>)
    decreases input.len(),
{
    if input.len() == 0 {
        (s, Seq::empty())
    } else {
        let first = step_byte(s, input[0]);
        let rest = run(first.0, input.skip(1));
        (rest.0, first.1 + rest.1)
    }
}

/// Running an empty buffer changes nothing and produces nothing.
pub proof fn lemma_run_empty(s: DecoderModel)
    ensures
        run(s, Seq::<u8>::empty()).0 == s,
        run(s, Seq::<u8>::empty()).1 == Seq::<DecodeEvent>::empty(),
{
}

/// Law: decoding is split-invariant. Feeding a stream in two pieces leaves
/// the decoder in the same state, and produces the same events in the same
/// order, as feeding the concatenation at once — so chopping a byte stream
/// into buffers in any way, down to one byte at a time, cannot change what
/// is decoded.
pub proof fn lemma_run_split(s: DecoderModel, a: Seq<u8>, b: Seq<u8>)
    ensures
        run(s, a + b).0 == run(run(s, a).0, b).0,
        run(s, a + b).1 == run(s, a).1 + run(run(s, a).0, b).1,
    decreases a.len(),
{
    if a.len() == 0 {
        assert(a + b =~= b);
        assert(run(s, a).1 + run(run(s, a).0, b).1 =~= run(s, b).1);
    } else {
        let first = step_byte(s, a[0]);
        lemma_run_split(first.0, a.skip(1), b);
        assert((a + b)[0] == a[0]);
        assert((a + b).skip(1) =~= a.skip(1) + b);
        let x = run(first.0, a.skip(1)).1;
        let y = run(run(first.0, a.skip(1)).0, b).1;
        assert(first.1 + (x + y) =~= (first.1 + x) + y);
    }
}

/// Consumes a sequence of input buffers, one after the other, carrying the
/// decoder state across buffer boundaries — the shape of a caller that
/// decodes a stream in successive `decode` calls.
pub open spec fn run_buffers(s: DecoderModel, buffers: Seq<Seq<u8>>) -> (
    DecoderModel,
    Seq<DecodeEvent>,
)
    decreases buffers.len(),
{
    if buffers.len() == 0 {
        (s, Seq::empty())
    } else {
        let first = run(s, buffers[0]);
        let rest = run_buffers(first.0, buffers.skip(1));
        (rest.0, first.1 + rest.1)
    }
}

/// Law: decoding a stream buffer by buffer — however it was chopped, down
/// to one byte per buffer — ends in the same state and produces the same
/// events, in the same order, as decoding the whole stream at once.
pub proof fn lemma_run_buffers_flatten(s: DecoderModel, buffers: Seq<Seq<u8>>)
    ensures
        run_buffers(s, buffers).0 == run(s, buffers.flatten()).0,
        run_buffers(s, buffers).1 == run(s, buffers.flatten()).1,
    decreases buffers.len(),
{
    if buffers.len() == 0 {
        lemma_run_empty(s);
        assert(buffers.flatten() =~= Seq::<u8>::empty());
    } else {
        let first = run(s, buffers[0]);
        lemma_run_buffers_flatten(first.0, buffers.skip(1));
        assert(buffers.drop_first() =~= buffers.skip(1));
        assert(buffers.flatten() == buffers[0] + buffers.skip(1).flatten());
        lemma_run_split(s, buffers[0], buffers.skip(1).flatten());
    }
}

/// Running bytes that do not yet fill the header accumulator only extends it.
pub proof fn lemma_run_header_fill(partial: Seq<u8>, bytes: Seq<u8>)
    requires
        partial.len() + bytes.len() < 8,
    ensures
        run(DecoderModel::Header { partial }, bytes).0 == (DecoderModel::Header {
            partial: partial + bytes,
        }),
        run(DecoderModel::Header { partial }, bytes).1 == Seq::<DecodeEvent>::empty(),
    decreases bytes.len(),
{
    if bytes.len() == 0 {
        assert(partial + bytes =~= partial);
    } else {
        lemma_run_header_fill(partial.push(bytes[0]), bytes.skip(1));
        assert(partial.push(bytes[0]) + bytes.skip(1) =~= partial + bytes);
        let rest = run(DecoderModel::Header { partial: partial.push(bytes[0]) }, bytes.skip(1));
        assert(Seq::<DecodeEvent>::empty() + rest.1 =~= rest.1);
    }
}

/// Running exactly the bytes that complete the header accumulator ends with
/// `header_complete` of the accumulated 8 bytes.
pub proof fn lemma_run_header_complete(partial: Seq<u8>, bytes: Seq<u8>)
    requires
        partial.len() + bytes.len() == 8,
        bytes.len() >= 1,
    ensures
        run(DecoderModel::Header { partial }, bytes).0 == header_complete(partial + bytes).0,
        run(DecoderModel::Header { partial }, bytes).1 == header_complete(partial + bytes).1,
    decreases bytes.len(),
{
    if bytes.len() == 1 {
        let acc = partial.push(bytes[0]);
        assert(acc =~= partial + bytes);
        assert(bytes.skip(1) =~= Seq::<u8>::empty());
        let hc = header_complete(acc);
        lemma_run_empty(hc.0);
        assert(hc.1 + Seq::<DecodeEvent>::empty() =~= hc.1);
    } else {
        lemma_run_header_complete(partial.push(bytes[0]), bytes.skip(1));
        assert(partial.push(bytes[0]) + bytes.skip(1) =~= partial + bytes);
        let rest = run(DecoderModel::Header { partial: partial.push(bytes[0]) }, bytes.skip(1));
        assert(Seq::<DecodeEvent>::empty() + rest.1 =~= rest.1);
    }
}

/// The events produced by passing `body` through on channel `stream_type`.
pub open spec fn byte_events(stream_type: u8, body: Seq<u8>) -> Seq<DecodeEvent> {
    Seq::new(body.len(), |i: int| DecodeEvent::Byte { stream_type, byte: body[i] })
}

/// Running bytes of a body in progress passes each byte through, tagged, and
/// returns to header parsing exactly when the body is complete.
pub proof fn lemma_run_body(stream_type: u8, remaining: nat, bytes: Seq<u8>)
    requires
        0 < bytes.len() <= remaining,
    ensures
        run(DecoderModel::Body { stream_type, remaining }, bytes).0 == (if bytes.len()
            == remaining {
            initial()
        } else {
            DecoderModel::Body { stream_type, remaining: (remaining - bytes.len()) as nat }
        }),
        run(DecoderModel::Body { stream_type, remaining }, bytes).1 == byte_events(
            stream_type,
            bytes,
        ),
    decreases bytes.len(),
{
    let first = step_byte(DecoderModel::Body { stream_type, remaining }, bytes[0]);
    if bytes.len() == 1 {
        assert(bytes.skip(1) =~= Seq::<u8>::empty());
        lemma_run_empty(first.0);
        assert(first.1 + Seq::<DecodeEvent>::empty() =~= first.1);
        assert(first.1 =~= byte_events(stream_type, bytes));
    } else {
        lemma_run_body(stream_type, (remaining - 1) as nat, bytes.skip(1));
        let rest = run(first.0, bytes.skip(1));
        assert(first.1 + byte_events(stream_type, bytes.skip(1)) =~= byte_events(
            stream_type,
            bytes,
        ));
    }
}

/// The wire bytes of one frame: the 8 header bytes, then the body.
pub open spec fn frame_bytes(stream_type: u8, body: Seq<u8>) -> Seq<u8> {
    header_bytes(stream_type, body.len() as u32) + body
}

/// A frame the multiplexer can emit: a non-empty body whose length fits the
/// header's 32-bit length field.
pub open spec fn frame_wf(frame: (u8, Seq<u8>)) -> bool {
    0 < frame.1.len() <= u32::MAX
}

pub open spec fn frames_wf(frames: Seq<(u8, Seq<u8>)>) -> bool {
    forall|i: int| 0 <= i < frames.len() ==> frame_wf(#[trigger] frames[i])
}

/// The wire bytes of a sequence of frames, in order.
pub open spec fn frames_bytes(frames: Seq<(u8, Seq<u8>)>) -> Seq<u8>
    decreases frames.len(),
{
    if frames.len() == 0 {
        Seq::empty()
    } else {
        frame_bytes(frames[0].0, frames[0].1) + frames_bytes(frames.skip(1))
    }
}

/// Appending one frame appends its wire bytes.
pub proof fn lemma_frames_bytes_push(frames: Seq<(u8, Seq<u8>)>, tag: u8, body: Seq<u8>)
    ensures
        frames_bytes(frames.push((tag, body))) == frames_bytes(frames) + frame_bytes(tag, body),
    decreases frames.len(),
{
    if frames.len() == 0 {
        assert(frames.push((tag, body)).skip(1) =~= frames);
        assert(frames_bytes(frames) == Seq::<u8>::empty());
        assert(frames.push((tag, body))[0] == (tag, body));
        assert(frame_bytes(tag, body) + Seq::<u8>::empty() =~= frame_bytes(tag, body));
        assert(Seq::<u8>::empty() + frame_bytes(tag, body) =~= frame_bytes(tag, body));
    } else {
        lemma_frames_bytes_push(frames.skip(1), tag, body);
        assert(frames.push((tag, body)).skip(1) =~= frames.skip(1).push((tag, body)));
        assert(frames.push((tag, body))[0] == frames[0]);
        let head = frame_bytes(frames[0].0, frames[0].1);
        assert(head + (frames_bytes(frames.skip(1)) + frame_bytes(tag, body)) =~= (head
            + frames_bytes(frames.skip(1))) + frame_bytes(tag, body));
    }
}

/// Concatenation of the bodies of the frames on one channel, in order.
pub open spec fn channel_bytes(frames: Seq<(u8, Seq<u8>)>, tag: u8) -> Seq<u8>
    decreases frames.len(),
{
    if frames.len() == 0 {
        Seq::empty()
    } else if frames[0].0 == tag {
        frames[0].1 + channel_bytes(frames.skip(1), tag)
    } else {
        channel_bytes(frames.skip(1), tag)
    }
}

/// The decoded bytes that a sequence of events carries on one channel.
pub open spec fn events_channel_bytes(events: Seq<DecodeEvent>, tag: u8) -> Seq<u8>
    decreases events.len(),
{
    if events.len() == 0 {
        Seq::empty()
    } else {
        let rest = events_channel_bytes(events.skip(1), tag);
        match events[0] {
            DecodeEvent::Byte { stream_type, byte } => if stream_type == tag {
                seq![byte] + rest
            } else {
                rest
            },
            DecodeEvent::Malformed { header } => rest,
        }
    }
}

/// No malformed-header report among the events.
pub open spec fn all_byte_events(events: Seq<DecodeEvent>) -> bool {
    forall|i: int| 0 <= i < events.len() ==> (#[trigger] events[i]) is Byte
}

proof fn lemma_events_channel_bytes_append(a: Seq<DecodeEvent>, b: Seq<DecodeEvent>, tag: u8)
    ensures
        events_channel_bytes(a + b, tag) == events_channel_bytes(a, tag) + events_channel_bytes(
            b,
            tag,
        ),
    decreases a.len(),
{
    if a.len() == 0 {
        assert(a + b =~= b);
        assert(events_channel_bytes(a, tag) == Seq::<u8>::empty());
        assert(Seq::<u8>::empty() + events_channel_bytes(b, tag) =~= events_channel_bytes(b, tag));
    } else {
        lemma_events_channel_bytes_append(a.skip(1), b, tag);
        assert((a + b)[0] == a[0]);
        assert((a + b).skip(1) =~= a.skip(1) + b);
        let x = events_channel_bytes(a.skip(1), tag);
        let y = events_channel_bytes(b, tag);
        match a[0] {
            DecodeEvent::Byte { stream_type, byte } => {
                if stream_type == tag {
                    assert(seq![byte] + (x + y) =~= (seq![byte] + x) + y);
                }
            },
            DecodeEvent::Malformed { header } => {},
        }
    }
}

proof fn lemma_byte_events_channel(stream_type: u8, body: Seq<u8>, tag: u8)
    ensures
        events_channel_bytes(byte_events(stream_type, body), tag) == if tag == stream_type {
            body
        } else {
            Seq::<u8>::empty()
        },
    decreases body.len(),
{
    if body.len() == 0 {
    } else {
        lemma_byte_events_channel(stream_type, body.skip(1), tag);
        assert(byte_events(stream_type, body).skip(1) =~= byte_events(stream_type, body.skip(1)));
        if tag == stream_type {
            assert(seq![body[0]] + body.skip(1) =~= body);
        }
    }
}

proof fn lemma_all_byte_events_append(a: Seq<DecodeEvent>, b: Seq<DecodeEvent>)
    requires
        all_byte_events(a),
        all_byte_events(b),
    ensures
        all_byte_events(a + b),
{
    assert forall|i: int| 0 <= i < (a + b).len() implies ((#[trigger] (a + b)[i]) is Byte) by {
        if i < a.len() {
            assert((a + b)[i] == a[i]);
        } else {
            assert((a + b)[i] == b[i - a.len()]);
        }
    }
}

/// Law: round trip. Encode any sequence of well-formed frames and decode
/// the resulting byte stream from a fresh decoder: per channel, the decoded
/// bytes are exactly the concatenation of that channel's frame bodies in
/// their original order, no error is reported, and the decoder ends ready
/// to parse the next header.
pub proof fn lemma_round_trip(frames: Seq<(u8, Seq<u8>)>)
    requires
        frames_wf(frames),
    ensures
        run(initial(), frames_bytes(frames)).0 == initial(),
        all_byte_events(run(initial(), frames_bytes(frames)).1),
        forall|tag: u8|
            events_channel_bytes(run(initial(), frames_bytes(frames)).1, tag) == channel_bytes(
                frames,
                tag,
            ),
    decreases frames.len(),
{
    if frames.len() == 0 {
        lemma_run_empty(initial());
    } else {
        let f = frames[0];
        let length = f.1.len() as u32;
        let hdr = header_bytes(f.0, length);
        let rest_frames = frames.skip(1);
        assert(frame_wf(f));
        lemma_header_bytes_roundtrip(f.0, length);
        lemma_run_header_complete(Seq::empty(), hdr);
        assert(Seq::<u8>::empty() + hdr =~= hdr);
        assert(header_complete(hdr).0 == DecoderModel::Body {
            stream_type: f.0,
            remaining: f.1.len(),
        });
        lemma_run_body(f.0, f.1.len(), f.1);
        lemma_run_split(initial(), hdr, f.1);
        lemma_run_split(initial(), frame_bytes(f.0, f.1), frames_bytes(rest_frames));
        assert forall|i: int| 0 <= i < rest_frames.len() implies frame_wf(
            #[trigger] rest_frames[i],
        ) by {
            assert(rest_frames[i] == frames[i + 1]);
        }
        lemma_round_trip(rest_frames);
        let ev0 = byte_events(f.0, f.1);
        let evr = run(initial(), frames_bytes(rest_frames)).1;
        assert(Seq::<DecodeEvent>::empty() + ev0 =~= ev0);
        assert(run(initial(), frame_bytes(f.0, f.1)).1 == ev0);
        assert(run(initial(), frame_bytes(f.0, f.1)).0 == initial());
        assert(run(initial(), frames_bytes(frames)).1 == ev0 + evr);
        lemma_all_byte_events_append(ev0, evr);
        assert forall|tag: u8|
            events_channel_bytes(run(initial(), frames_bytes(frames)).1, tag) == channel_bytes(
                frames,
                tag,
            ) by {
            lemma_events_channel_bytes_append(ev0, evr, tag);
            lemma_byte_events_channel(f.0, f.1, tag);
            if tag == f.0 {
                assert(channel_bytes(frames, tag) == f.1 + channel_bytes(rest_frames, tag));
            } else {
                assert(Seq::<u8>::empty() + channel_bytes(rest_frames, tag) =~= channel_bytes(
                    rest_frames,
                    tag,
                ));
            }
        }
    }
}

} // verus!
