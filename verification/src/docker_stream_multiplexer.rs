//! The multiplexing encoder.
//!
//! A `DockerStreamMultiplexer` interleaves several tagged byte sources into
//! one framed byte stream, one randomly sized frame at a time. The sources
//! themselves live with the caller (they are arbitrary byte producers, read
//! by whatever I/O the caller uses); the multiplexer owns every decision:
//! which source to read next and how much (`plan_read`), what becomes of a
//! read's result (`accept_read` — an exhausted source is removed for good,
//! anything else opens a frame), and the byte-exact emission of the pending
//! frame into output buffers of arbitrary size (`fill`). A caller drives it
//! by looping: `fill`, then while it is selecting, `plan_read`, perform the
//! read, `accept_read`, and `fill` again; `plan_read` returning `None` is
//! the permanent end of the stream.
//!
//! `accept_read` pins the pending frame to `decode_model::frame_bytes`, the
//! same spec the decoder's round-trip law speaks of: what the multiplexer
//! emits for a source's bytes is exactly what the decoder decodes back to
//! those bytes on that source's channel.

use vstd::prelude::*;
use vstd::slice::slice_to_vec;

use rand::Rng;

use crate::decode_model::all_byte_events;
use crate::decode_model::channel_bytes;
use crate::decode_model::events_channel_bytes;
use crate::decode_model::frame_bytes;
use crate::decode_model::frame_wf;
use crate::decode_model::frames_bytes;
use crate::decode_model::frames_wf;
use crate::decode_model::initial;
use crate::decode_model::lemma_frames_bytes_push;
use crate::decode_model::lemma_round_trip;
use crate::decode_model::run;
use crate::frame_header::FrameHeader;
use crate::frame_header::FRAME_HEADER_LENGTH;

verus! {

#[verifier::external_type_specification]
#[verifier::external_body]
pub struct ExThreadRng(rand::rngs::ThreadRng);

/// Relies on rand::thread_rng: returns a handle to the thread-local random
/// number generator. Nothing is promised of the values it will yield.
#[verifier::external_body]
fn fresh_rng() -> rand::rngs::ThreadRng {
    rand::thread_rng()
}

/// Relies on rand::Rng::gen_range on the inclusive range `lo..=hi`: it
/// returns a value of that range, and panics only when the range is empty,
/// which `lo <= hi` rules out.
#[verifier::external_body]
fn rand_u32_inclusive(rng: &mut rand::rngs::ThreadRng, lo: u32, hi: u32) -> (r: u32)
    requires
        lo <= hi,
    ensures
        lo <= r <= hi,
{
    rng.gen_range(lo..=hi)
}

/// Relies on rand::Rng::gen_range on the range `0..n`: it returns a value
/// below `n`, and panics only when the range is empty, which `n > 0` rules
/// out.
#[verifier::external_body]
fn rand_below(rng: &mut rand::rngs::ThreadRng, n: usize) -> (r: usize)
    requires
        n > 0,
    ensures
        r < n,
{
    rng.gen_range(0..n)
}

/// The smaller of two mathematical integers.
pub open spec fn min_int(a: int, b: int) -> int {
    if a <= b {
        a
    } else {
        b
    }
}

proof fn lemma_fill_step(
    pending0: Seq<u8>,
    pend: Seq<u8>,
    buf0: Seq<u8>,
    buf_pre: Seq<u8>,
    buf_post: Seq<u8>,
    start: int,
    bw0: int,
    k: int,
)
    requires
        0 <= start <= bw0,
        0 <= k,
        bw0 + k <= buf0.len(),
        buf_pre.len() == buf0.len(),
        buf_post.len() == buf0.len(),
        bw0 - start <= pending0.len(),
        pend == pending0.skip(bw0 - start),
        k <= pend.len(),
        buf_pre.subrange(start, bw0) == pending0.take(bw0 - start),
        buf_pre.take(start) == buf0.take(start),
        buf_pre.skip(bw0) == buf0.skip(bw0),
        buf_post.take(bw0) == buf_pre.take(bw0),
        buf_post.subrange(bw0, bw0 + k) == pend.take(k),
        buf_post.skip(bw0 + k) == buf_pre.skip(bw0 + k),
    ensures
        buf_post.subrange(start, bw0 + k) == pending0.take(bw0 + k - start),
        buf_post.take(start) == buf0.take(start),
        buf_post.skip(bw0 + k) == buf0.skip(bw0 + k),
        pend.skip(k) == pending0.skip(bw0 + k - start),
        pending0.take(bw0 + k - start) == pending0.take(bw0 - start) + pend.take(k),
        bw0 + k - start <= pending0.len(),
{
    assert forall|i: int| 0 <= i < bw0 implies buf_post[i] == buf_pre[i] by {
        assert(buf_post.take(bw0)[i] == buf_post[i]);
        assert(buf_pre.take(bw0)[i] == buf_pre[i]);
        assert(buf_post.take(bw0)[i] == buf_pre.take(bw0)[i]);
    }
    assert forall|i: int| bw0 <= i < buf0.len() implies buf_pre[i] == buf0[i] by {
        assert(buf_pre.skip(bw0)[i - bw0] == buf0.skip(bw0)[i - bw0]);
    }
    assert(buf_post.subrange(start, bw0) =~= buf_pre.subrange(start, bw0));
    assert(buf_post.subrange(start, bw0 + k) =~= buf_post.subrange(start, bw0)
        + buf_post.subrange(bw0, bw0 + k));
    assert(pending0.take(bw0 + k - start) =~= pending0.take(bw0 - start) + pend.take(k));
    assert(buf_post.take(start) =~= buf_pre.take(start));
    assert(buf_pre.skip(bw0 + k) =~= buf0.skip(bw0 + k));
    assert(pend.skip(k) =~= pending0.skip(bw0 + k - start));
}

#[derive(Clone, Copy)]
enum OperationMode {
    Read,
    CopyHeader(usize),
    CopyBody(usize),
}

/// The multiplexer's state between two calls: either selecting the source
/// of the next frame (`Read`), or partway through emitting the current
/// frame's header or body.
pub struct DockerStreamMultiplexer {
    operation_mode: OperationMode,
    body_buffer: Vec<u8>,
    header_buffer: [u8; FRAME_HEADER_LENGTH],
    frame_min: u32,
    frame_max: u32,
    source_types: Vec<u8>,
    rand_rng: rand::rngs::ThreadRng,
    bytes_written: usize,
    body_length: usize,
    frames_accepted: Ghost<Seq<(u8, Seq<u8>)>>,
    bytes_emitted: Ghost<Seq<u8>>,
}

impl DockerStreamMultiplexer {
    /// The channel tags of the sources still live, in list order.
    pub closed spec fn sources(&self) -> Seq<u8> {
        self.source_types@
    }

    /// The configured smallest frame size.
    pub closed spec fn frame_min_spec(&self) -> u32 {
        self.frame_min
    }

    /// The configured largest frame size.
    pub closed spec fn frame_max_spec(&self) -> u32 {
        self.frame_max
    }

    /// Whether the multiplexer is between frames, ready to select a source.
    pub closed spec fn selecting(&self) -> bool {
        self.operation_mode is Read
    }

    /// The bytes of the current frame not yet handed to the caller: the
    /// rest of the header, then the body — or nothing, between frames.
    pub closed spec fn pending(&self) -> Seq<u8> {
        match self.operation_mode {
            OperationMode::Read => Seq::empty(),
            OperationMode::CopyHeader(o) => self.header_buffer@.skip(o as int)
                + self.body_buffer@,
            OperationMode::CopyBody(o) => self.body_buffer@.skip(o as int),
        }
    }

    /// The frames opened so far: for each non-empty read accepted, the
    /// channel tag it was framed under and the bytes it delivered.
    pub closed spec fn frames(&self) -> Seq<(u8, Seq<u8>)> {
        self.frames_accepted@
    }

    /// Every byte handed to callers so far, in stream order.
    pub closed spec fn emitted(&self) -> Seq<u8> {
        self.bytes_emitted@
    }

    /// Internal invariant: frame bounds are positive and ordered, emission
    /// offsets lie strictly inside what they index, and the bytes emitted so
    /// far, followed by the pending ones, are exactly the wire encoding of
    /// the frames accepted so far.
    pub closed spec fn wf(&self) -> bool {
        &&& 1 <= self.frame_min <= self.frame_max
        &&& self.body_length == self.body_buffer@.len()
        &&& match self.operation_mode {
            OperationMode::Read => true,
            OperationMode::CopyHeader(o) => o < FRAME_HEADER_LENGTH && self.body_length >= 1,
            OperationMode::CopyBody(o) => o < self.body_length,
        }
        &&& frames_wf(self.frames_accepted@)
        &&& self.bytes_emitted@ + self.pending() == frames_bytes(self.frames_accepted@)
    }

    /// A fresh multiplexer over the given channel tags, one per source, in
    /// the caller's list order. Frame sizes will be drawn from
    /// `[frame_min, frame_max]`.
    pub fn new(stream_types: Vec<u8>, frame_max: u32, frame_min: u32) -> (m:
        DockerStreamMultiplexer)
        requires
            1 <= frame_min <= frame_max,
        ensures
            m.wf(),
            m.sources() == stream_types@,
            m.selecting(),
            m.pending() == Seq::<u8>::empty(),
            m.frame_min_spec() == frame_min,
            m.frame_max_spec() == frame_max,
            m.frames() == Seq::<(u8, Seq<u8>)>::empty(),
            m.emitted() == Seq::<u8>::empty(),
    {
        let m = DockerStreamMultiplexer {
            operation_mode: OperationMode::Read,
            body_buffer: Vec::new(),
            header_buffer: [0u8; FRAME_HEADER_LENGTH],
            frame_max,
            frame_min,
            source_types: stream_types,
            rand_rng: fresh_rng(),
            bytes_written: 0,
            body_length: 0,
            frames_accepted: Ghost(Seq::empty()),
            bytes_emitted: Ghost(Seq::empty()),
        };
        proof {
            assert(m.bytes_emitted@ + m.pending() =~= frames_bytes(m.frames_accepted@));
        }
        m
    }

    /// The size of the next read request: `frame_max` when the bounds
    /// coincide, otherwise drawn uniformly from `[frame_min, frame_max]`.
    fn get_random_chunk_size(&mut self) -> (r: usize)
        requires
            old(self).wf(),
        ensures
            final(self).wf(),
            old(self).frame_min_spec() <= r <= old(self).frame_max_spec(),
            final(self).sources() == old(self).sources(),
            final(self).pending() == old(self).pending(),
            final(self).selecting() == old(self).selecting(),
            final(self).frame_min_spec() == old(self).frame_min_spec(),
            final(self).frame_max_spec() == old(self).frame_max_spec(),
            final(self).frames() == old(self).frames(),
            final(self).emitted() == old(self).emitted(),
    {
        if self.frame_min == self.frame_max {
            return self.frame_max as usize;
        }
        rand_u32_inclusive(&mut self.rand_rng, self.frame_min, self.frame_max) as usize
    }

    /// The index of the source to read next, drawn uniformly from the live
    /// list; 0 when the list is empty.
    fn get_random_source_index(&mut self) -> (r: usize)
        requires
            old(self).wf(),
        ensures
            final(self).wf(),
            old(self).sources().len() > 0 ==> r < old(self).sources().len(),
            old(self).sources().len() == 0 ==> r == 0,
            final(self).sources() == old(self).sources(),
            final(self).pending() == old(self).pending(),
            final(self).selecting() == old(self).selecting(),
            final(self).frame_min_spec() == old(self).frame_min_spec(),
            final(self).frame_max_spec() == old(self).frame_max_spec(),
            final(self).frames() == old(self).frames(),
            final(self).emitted() == old(self).emitted(),
    {
        if self.source_types.len() == 0 {
            return 0;
        }
        rand_below(&mut self.rand_rng, self.source_types.len())
    }

    /// Decides the next read: which live source to ask, and for how many
    /// bytes. Returns `None` exactly when no source is left — the permanent
    /// end of the stream.
    pub fn plan_read(&mut self) -> (r: Option<(usize, usize)>)
        requires
            old(self).wf(),
            old(self).selecting(),
        ensures
            final(self).wf(),
            final(self).selecting(),
            final(self).sources() == old(self).sources(),
            final(self).pending() == old(self).pending(),
            final(self).frame_min_spec() == old(self).frame_min_spec(),
            final(self).frame_max_spec() == old(self).frame_max_spec(),
            final(self).frames() == old(self).frames(),
            final(self).emitted() == old(self).emitted(),
            r is None <==> old(self).sources().len() == 0,
            r matches Some(p) ==> p.0 < old(self).sources().len() && old(self).frame_min_spec()
                <= p.1 <= old(self).frame_max_spec(),
    {
        if self.source_types.len() == 0 {
            return None;
        }
        let bytes_to_read = self.get_random_chunk_size();
        let source_index = self.get_random_source_index();
        Some((source_index, bytes_to_read))
    }

    /// Takes in what a planned read returned. An empty read means the
    /// source is exhausted: it is removed from the list for good (so it can
    /// never be selected again) and no frame is emitted for it. A non-empty
    /// read opens one frame whose pending bytes are exactly
    /// `frame_bytes(tag, data)` — the source's tag, three zero bytes, the
    /// big-endian length, then the data.
    pub fn accept_read(&mut self, source_index: usize, data: &[u8]) -> (removed: bool)
        requires
            old(self).wf(),
            old(self).selecting(),
            source_index < old(self).sources().len(),
            data@.len() <= old(self).frame_max_spec(),
        ensures
            final(self).wf(),
            final(self).frame_min_spec() == old(self).frame_min_spec(),
            final(self).frame_max_spec() == old(self).frame_max_spec(),
            removed <==> data@.len() == 0,
            final(self).emitted() == old(self).emitted(),
            data@.len() == 0 ==> final(self).sources() == old(self).sources().remove(
                source_index as int,
            ) && final(self).selecting() && final(self).pending() == Seq::<u8>::empty()
                && final(self).frames() == old(self).frames(),
            data@.len() > 0 ==> final(self).sources() == old(self).sources()
                && !final(self).selecting() && final(self).pending() == frame_bytes(
                old(self).sources()[source_index as int],
                data@,
            ) && final(self).frames() == old(self).frames().push(
                (old(self).sources()[source_index as int], data@),
            ),
    {
        if data.len() == 0 {
            self.source_types.remove(source_index);
            true
        } else {
            let stream_type = self.source_types[source_index];
            let header = FrameHeader::new(stream_type, data.len() as u32);
            header.serialize(&mut self.header_buffer);
            self.body_buffer = slice_to_vec(data);
            self.body_length = data.len();
            self.operation_mode = OperationMode::CopyHeader(0);
            proof {
                self.frames_accepted@ = self.frames_accepted@.push((stream_type, data@));
                assert(self.header_buffer@.skip(0) =~= self.header_buffer@);
                assert(self.pending() =~= frame_bytes(stream_type, data@));
                lemma_frames_bytes_push(old(self).frames_accepted@, stream_type, data@);
                assert(old(self).pending() =~= Seq::<u8>::empty());
                assert(old(self).bytes_emitted@ + old(self).pending()
                    =~= old(self).bytes_emitted@);
                assert(self.bytes_emitted@ + self.pending() =~= frames_bytes(
                    self.frames_accepted@,
                ));
                assert forall|i: int|
                    0 <= i < self.frames_accepted@.len() implies frame_wf(
                    #[trigger] self.frames_accepted@[i],
                ) by {
                    if i < old(self).frames_accepted@.len() {
                        assert(self.frames_accepted@[i] == old(self).frames_accepted@[i]);
                    }
                }
            }
            false
        }
    }

    /// Copies into `buf`, starting at `self.bytes_written`, as many of the
    /// not-yet-emitted header bytes as fit.
    #[verifier::loop_isolation(false)]
    fn copy_header(&mut self, buf: &mut Vec<u8>, header_bytes_written: usize)
        requires
            old(self).wf(),
            old(self).operation_mode == OperationMode::CopyHeader(header_bytes_written),
            old(self).bytes_written < old(buf).len(),
        ensures
            final(self).wf(),
            final(buf)@.len() == old(buf)@.len(),
            ({
                let k = min_int(
                    FRAME_HEADER_LENGTH - header_bytes_written,
                    old(buf)@.len() - old(self).bytes_written,
                );
                &&& final(self).bytes_written == old(self).bytes_written + k
                &&& final(buf)@.subrange(
                    old(self).bytes_written as int,
                    old(self).bytes_written + k,
                ) == old(self).header_buffer@.subrange(
                    header_bytes_written as int,
                    header_bytes_written + k,
                )
                &&& final(buf)@.take(old(self).bytes_written as int) == old(buf)@.take(
                    old(self).bytes_written as int,
                )
                &&& final(buf)@.skip(old(self).bytes_written + k) == old(buf)@.skip(
                    old(self).bytes_written + k,
                )
                &&& final(self).operation_mode == (if k < FRAME_HEADER_LENGTH
                    - header_bytes_written {
                    OperationMode::CopyHeader((header_bytes_written + k) as usize)
                } else {
                    OperationMode::CopyBody(0)
                })
                &&& final(self).emitted() == old(self).emitted() + old(self).pending().take(k)
            }),
            final(self).frames() == old(self).frames(),
            final(self).header_buffer == old(self).header_buffer,
            final(self).body_buffer == old(self).body_buffer,
            final(self).body_length == old(self).body_length,
            final(self).source_types == old(self).source_types,
            final(self).frame_min == old(self).frame_min,
            final(self).frame_max == old(self).frame_max,
    {
        let remainder = FRAME_HEADER_LENGTH - header_bytes_written;
        let space = buf.len() - self.bytes_written;
        let bytes_to_write = if remainder < space {
            remainder
        } else {
            space
        };
        let bw = self.bytes_written;
        let mut j: usize = 0;
        while j < bytes_to_write
            invariant
                j <= bytes_to_write,
                buf@.len() == old(buf)@.len(),
                buf@.subrange(bw as int, bw + j) == self.header_buffer@.subrange(
                    header_bytes_written as int,
                    header_bytes_written + j,
                ),
                forall|i: int|
                    0 <= i < buf@.len() && !(bw <= i < bw + j) ==> buf@[i] == old(buf)@[i],
            decreases bytes_to_write - j,
        {
            let b = self.header_buffer[header_bytes_written + j];
            buf.set(bw + j, b);
            proof {
                assert(buf@.subrange(bw as int, bw + j + 1) =~= buf@.subrange(bw as int, bw
                    + j).push(b));
                assert(self.header_buffer@.subrange(
                    header_bytes_written as int,
                    header_bytes_written + j + 1,
                ) =~= self.header_buffer@.subrange(
                    header_bytes_written as int,
                    header_bytes_written + j,
                ).push(self.header_buffer@[header_bytes_written + j]));
            }
            j += 1;
        }
        self.bytes_written = bw + bytes_to_write;
        if bytes_to_write < remainder {
            self.operation_mode = OperationMode::CopyHeader(header_bytes_written + bytes_to_write);
        } else {
            self.operation_mode = OperationMode::CopyBody(0);
        }
        proof {
            let k = bytes_to_write as int;
            let pend = old(self).pending();
            self.bytes_emitted@ = self.bytes_emitted@ + pend.take(k);
            assert(pend.take(k) =~= old(self).header_buffer@.subrange(
                header_bytes_written as int,
                header_bytes_written + k,
            ));
            assert(self.pending() =~= pend.skip(k));
            assert(self.bytes_emitted@ + self.pending() =~= old(self).bytes_emitted@ + pend);
            assert(buf@.take(bw as int) =~= old(buf)@.take(bw as int));
            assert(buf@.skip(bw + bytes_to_write) =~= old(buf)@.skip(bw + bytes_to_write));
        }
    }

    /// Copies into `buf`, starting at `self.bytes_written`, as many of the
    /// not-yet-emitted body bytes as fit.
    #[verifier::loop_isolation(false)]
    fn copy_body(&mut self, buf: &mut Vec<u8>, body_bytes_written: usize)
        requires
            old(self).wf(),
            old(self).operation_mode == OperationMode::CopyBody(body_bytes_written),
            old(self).bytes_written < old(buf).len(),
        ensures
            final(self).wf(),
            final(buf)@.len() == old(buf)@.len(),
            ({
                let k = min_int(
                    old(self).body_length - body_bytes_written,
                    old(buf)@.len() - old(self).bytes_written,
                );
                &&& final(self).bytes_written == old(self).bytes_written + k
                &&& final(buf)@.subrange(
                    old(self).bytes_written as int,
                    old(self).bytes_written + k,
                ) == old(self).body_buffer@.subrange(
                    body_bytes_written as int,
                    body_bytes_written + k,
                )
                &&& final(buf)@.take(old(self).bytes_written as int) == old(buf)@.take(
                    old(self).bytes_written as int,
                )
                &&& final(buf)@.skip(old(self).bytes_written + k) == old(buf)@.skip(
                    old(self).bytes_written + k,
                )
                &&& final(self).operation_mode == (if k < old(self).body_length
                    - body_bytes_written {
                    OperationMode::CopyBody((body_bytes_written + k) as usize)
                } else {
                    OperationMode::Read
                })
                &&& final(self).emitted() == old(self).emitted() + old(self).pending().take(k)
            }),
            final(self).frames() == old(self).frames(),
            final(self).header_buffer == old(self).header_buffer,
            final(self).body_buffer == old(self).body_buffer,
            final(self).body_length == old(self).body_length,
            final(self).source_types == old(self).source_types,
            final(self).frame_min == old(self).frame_min,
            final(self).frame_max == old(self).frame_max,
    {
        let remainder = self.body_length - body_bytes_written;
        let space = buf.len() - self.bytes_written;
        let bytes_to_write = if remainder < space {
            remainder
        } else {
            space
        };
        let bw = self.bytes_written;
        let mut j: usize = 0;
        while j < bytes_to_write
            invariant
                j <= bytes_to_write,
                buf@.len() == old(buf)@.len(),
                buf@.subrange(bw as int, bw + j) == self.body_buffer@.subrange(
                    body_bytes_written as int,
                    body_bytes_written + j,
                ),
                forall|i: int|
                    0 <= i < buf@.len() && !(bw <= i < bw + j) ==> buf@[i] == old(buf)@[i],
            decreases bytes_to_write - j,
        {
            let b = self.body_buffer[body_bytes_written + j];
            buf.set(bw + j, b);
            proof {
                assert(buf@.subrange(bw as int, bw + j + 1) =~= buf@.subrange(bw as int, bw
                    + j).push(b));
                assert(self.body_buffer@.subrange(
                    body_bytes_written as int,
                    body_bytes_written + j + 1,
                ) =~= self.body_buffer@.subrange(
                    body_bytes_written as int,
                    body_bytes_written + j,
                ).push(self.body_buffer@[body_bytes_written + j]));
            }
            j += 1;
        }
        self.bytes_written = bw + bytes_to_write;
        if bytes_to_write < remainder {
            self.operation_mode = OperationMode::CopyBody(body_bytes_written + bytes_to_write);
        } else {
            self.operation_mode = OperationMode::Read;
        }
        proof {
            let k = bytes_to_write as int;
            let pend = old(self).pending();
            self.bytes_emitted@ = self.bytes_emitted@ + pend.take(k);
            assert(pend.take(k) =~= old(self).body_buffer@.subrange(
                body_bytes_written as int,
                body_bytes_written + k,
            ));
            assert(self.pending() =~= pend.skip(k));
            assert(self.bytes_emitted@ + self.pending() =~= old(self).bytes_emitted@ + pend);
            assert(buf@.take(bw as int) =~= old(buf)@.take(bw as int));
            assert(buf@.skip(bw + bytes_to_write) =~= old(buf)@.skip(bw + bytes_to_write));
        }
    }

    /// Whether a frame is partway through emission.
    fn emitting(&self) -> (b: bool)
        ensures
            b == !self.selecting(),
    {
        match self.operation_mode {
            OperationMode::Read => false,
            OperationMode::CopyHeader(_) => true,
            OperationMode::CopyBody(_) => true,
        }
    }

    /// Whether the multiplexer is between frames: the caller should plan
    /// and perform the next read rather than ask for output bytes.
    pub fn is_selecting(&self) -> (b: bool)
        ensures
            b == self.selecting(),
    {
        match self.operation_mode {
            OperationMode::Read => true,
            OperationMode::CopyHeader(_) => false,
            OperationMode::CopyBody(_) => false,
        }
    }

    /// Emits pending frame bytes into `buf[start..]`, as many as fit:
    /// exactly `min(pending, space)` bytes, after which either the frame is
    /// fully emitted (the multiplexer is selecting again) or the buffer is
    /// full. No byte is duplicated, skipped, or written outside the range.
    #[verifier::loop_isolation(false)]
    pub fn fill(&mut self, buf: &mut Vec<u8>, start: usize) -> (n: usize)
        requires
            old(self).wf(),
            start <= old(buf).len(),
        ensures
            final(self).wf(),
            final(self).sources() == old(self).sources(),
            final(self).frame_min_spec() == old(self).frame_min_spec(),
            final(self).frame_max_spec() == old(self).frame_max_spec(),
            n == min_int(old(self).pending().len() as int, old(buf)@.len() - start),
            final(buf)@.len() == old(buf)@.len(),
            final(buf)@.subrange(start as int, start + n) == old(self).pending().take(n as int),
            final(buf)@.take(start as int) == old(buf)@.take(start as int),
            final(buf)@.skip(start + n) == old(buf)@.skip(start + n),
            final(self).pending() == old(self).pending().skip(n as int),
            final(self).selecting() <==> final(self).pending().len() == 0,
            final(self).frames() == old(self).frames(),
            final(self).emitted() == old(self).emitted() + old(self).pending().take(n as int),
    {
        self.bytes_written = start;
        while self.bytes_written < buf.len() && self.emitting()
            invariant
                self.wf(),
                start <= self.bytes_written <= buf@.len(),
                buf@.len() == old(buf)@.len(),
                self.bytes_written - start <= old(self).pending().len(),
                buf@.subrange(start as int, self.bytes_written as int) == old(
                    self,
                ).pending().take(self.bytes_written - start),
                buf@.take(start as int) == old(buf)@.take(start as int),
                buf@.skip(self.bytes_written as int) == old(buf)@.skip(
                    self.bytes_written as int,
                ),
                self.pending() == old(self).pending().skip(self.bytes_written - start),
                self.sources() == old(self).sources(),
                self.frame_min_spec() == old(self).frame_min_spec(),
                self.frame_max_spec() == old(self).frame_max_spec(),
                self.frames() == old(self).frames(),
                self.emitted() == old(self).emitted() + old(self).pending().take(
                    self.bytes_written - start,
                ),
            decreases buf@.len() - self.bytes_written,
        {
            let ghost pend = self.pending();
            let ghost bw0 = self.bytes_written as int;
            let ghost buf_pre = buf@;
            match self.operation_mode {
                OperationMode::Read => {
                    proof {
                        assert(false);
                    }
                },
                OperationMode::CopyHeader(header_bytes_written) => {
                    self.copy_header(buf, header_bytes_written);
                    proof {
                        let k = min_int(
                            FRAME_HEADER_LENGTH - header_bytes_written,
                            buf@.len() - bw0,
                        );
                        assert(buf@.subrange(bw0, bw0 + k) =~= pend.take(k));
                        assert(self.pending() =~= pend.skip(k));
                        lemma_fill_step(old(self).pending(), pend, old(buf)@, buf_pre, buf@, start as int, bw0, k);
                        assert(self.emitted() =~= old(self).emitted() + old(self).pending().take(
                            self.bytes_written - start,
                        ));
                    }
                },
                OperationMode::CopyBody(body_bytes_written) => {
                    self.copy_body(buf, body_bytes_written);
                    proof {
                        let k = min_int(self.body_length - body_bytes_written, buf@.len() - bw0);
                        assert(buf@.subrange(bw0, bw0 + k) =~= pend.take(k));
                        assert(self.pending() =~= pend.skip(k));
                        lemma_fill_step(old(self).pending(), pend, old(buf)@, buf_pre, buf@, start as int, bw0, k);
                        assert(self.emitted() =~= old(self).emitted() + old(self).pending().take(
                            self.bytes_written - start,
                        ));
                    }
                },
            }
        }
        self.bytes_written - start
    }
}

/// Law: round trip through the multiplexer. Whenever it stands between
/// frames, decoding everything it has emitted so far from a fresh decoder
/// reproduces, per channel, exactly the bytes its sources delivered, in
/// delivery order — no error is reported, and the decoder ends ready to
/// parse the next header.
pub proof fn lemma_multiplexer_round_trip(m: &DockerStreamMultiplexer)
    requires
        m.wf(),
        m.selecting(),
    ensures
        run(initial(), m.emitted()).0 == initial(),
        all_byte_events(run(initial(), m.emitted()).1),
        forall|tag: u8|
            events_channel_bytes(run(initial(), m.emitted()).1, tag) == channel_bytes(
                m.frames(),
                tag,
            ),
{
    assert(m.emitted() + m.pending() =~= m.emitted());
    assert(m.emitted() =~= frames_bytes(m.frames()));
    lemma_round_trip(m.frames());
}

} // verus!
