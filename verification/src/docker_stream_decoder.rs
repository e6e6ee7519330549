//! The incremental demultiplexing decoder.
//!
//! A `DockerStreamDecoder` turns a sequence of arbitrarily sized input
//! buffers into tagged body chunks. Parsing state persists in the decoder
//! between calls, so a header or a body may straddle any number of `decode`
//! calls. The contract of `decode` is stated against the byte-at-a-time
//! model in `decode_model`: the decoder ends a call in exactly the state
//! `run` reaches, and the returned items carry exactly the events `run`
//! produces.

use vstd::prelude::*;
use vstd::slice::slice_subrange;
use vstd::slice::slice_to_vec;

use crate::decode_model::byte_events;
use crate::decode_model::initial;
use crate::decode_model::lemma_run_body;
use crate::decode_model::lemma_run_empty;
use crate::decode_model::lemma_run_header_complete;
use crate::decode_model::lemma_run_header_fill;
use crate::decode_model::lemma_run_split;
use crate::decode_model::run;
use crate::decode_model::DecodeEvent;
use crate::decode_model::DecoderModel;
use crate::docker_decoder_error::DockerDecoderError;
use crate::frame_header::FrameHeader;
use crate::frame_header::FRAME_HEADER_LENGTH;

verus! {

/// One decoded chunk: the channel tag of the frame it came from and a copy
/// of the body bytes it covers.
pub struct DockerDecoderChunk {
    pub stream_type: u8,
    pub body: Vec<u8>,
}

/// The events that one decode result item stands for: a chunk stands for its
/// body bytes in order, a malformed-header error for the one report carrying
/// the offending 8 bytes.
pub open spec fn item_events(item: Result<DockerDecoderChunk, DockerDecoderError>) -> Seq<
    DecodeEvent,
> {
    match item {
        Ok(chunk) => byte_events(chunk.stream_type, chunk.body@),
        Err(DockerDecoderError::MalformedHeader(hb)) => seq![
            DecodeEvent::Malformed { header: hb@ },
        ],
        Err(DockerDecoderError::IncorrectFrameType(_)) => Seq::empty(),
    }
}

/// The events that a whole sequence of decode result items stands for.
pub open spec fn items_events(items: Seq<Result<DockerDecoderChunk, DockerDecoderError>>) -> Seq<
    DecodeEvent,
>
    decreases items.len(),
{
    if items.len() == 0 {
        Seq::empty()
    } else {
        item_events(items[0]) + items_events(items.skip(1))
    }
}

/// Every chunk the decoder hands out has a non-empty body, and the only
/// error it hands out is `MalformedHeader`.
pub open spec fn items_wf(items: Seq<Result<DockerDecoderChunk, DockerDecoderError>>) -> bool {
    forall|i: int|
        0 <= i < items.len() ==> (((#[trigger] items[i]) matches Ok(c) ==> c.body@.len() > 0) && (
        items[i] matches Err(e) ==> e is MalformedHeader))
}

proof fn lemma_items_events_push(
    items: Seq<Result<DockerDecoderChunk, DockerDecoderError>>,
    item: Result<DockerDecoderChunk, DockerDecoderError>,
)
    ensures
        items_events(items.push(item)) == items_events(items) + item_events(item),
    decreases items.len(),
{
    if items.len() == 0 {
        let pushed = items.push(item);
        assert(pushed[0] == item);
        assert(pushed.skip(1) =~= items);
        assert(items_events(items) == Seq::<DecodeEvent>::empty());
        assert(items_events(pushed) == item_events(item) + items_events(items));
        assert(item_events(item) + Seq::<DecodeEvent>::empty() =~= item_events(item));
        assert(Seq::<DecodeEvent>::empty() + item_events(item) =~= item_events(item));
    } else {
        lemma_items_events_push(items.skip(1), item);
        assert(items.push(item).skip(1) =~= items.skip(1).push(item));
        assert(items.push(item)[0] == items[0]);
        assert(item_events(items[0]) + (items_events(items.skip(1)) + item_events(item)) =~= (
        item_events(items[0]) + items_events(items.skip(1))) + item_events(item));
    }
}

/// The items decoded out of one input buffer, handed out one at a time.
pub struct DockerStreamDecoderChunks {
    items: Vec<Result<DockerDecoderChunk, DockerDecoderError>>,
}

impl View for DockerStreamDecoderChunks {
    type V = Seq<Result<DockerDecoderChunk, DockerDecoderError>>;

    closed spec fn view(&self) -> Seq<Result<DockerDecoderChunk, DockerDecoderError>> {
        self.items@
    }
}

impl DockerStreamDecoderChunks {
    /// Hands out the next decoded item, in input order.
    pub fn next(&mut self) -> (r: Option<Result<DockerDecoderChunk, DockerDecoderError>>)
        ensures
            old(self)@.len() == 0 ==> r is None && final(self)@ == old(self)@,
            old(self)@.len() > 0 ==> r == Some(old(self)@[0]) && final(self)@ == old(self)@.skip(
                1,
            ),
    {
        if self.items.len() == 0 {
            None
        } else {
            let item = self.items.remove(0);
            proof {
                assert(old(self)@.remove(0) =~= old(self)@.skip(1));
            }
            Some(item)
        }
    }

    /// How many decoded items are still to be handed out.
    pub fn len(&self) -> (n: usize)
        ensures
            n == self@.len(),
    {
        self.items.len()
    }
}

#[derive(Clone, Copy)]
enum ParsingMode {
    Header,
    Body(FrameHeader),
}

/// The incremental decoder. Between calls it is either collecting the 8
/// header bytes (`n_bytes_read` of them buffered so far) or inside a body
/// (`n_bytes_read` of the current header's length already consumed).
pub struct DockerStreamDecoder {
    n_bytes_read: u32,
    header_buffer: [u8; FRAME_HEADER_LENGTH],
    mode: ParsingMode,
}

impl View for DockerStreamDecoder {
    type V = DecoderModel;

    closed spec fn view(&self) -> DecoderModel {
        match self.mode {
            ParsingMode::Header => DecoderModel::Header {
                partial: self.header_buffer@.take(self.n_bytes_read as int),
            },
            ParsingMode::Body(h) => DecoderModel::Body {
                stream_type: h.stream_type,
                remaining: (h.length - self.n_bytes_read) as nat,
            },
        }
    }
}

impl DockerStreamDecoder {
    /// The decoder's internal invariant: the header accumulator is never
    /// full between calls, and a body in progress is never finished.
    pub closed spec fn wf(&self) -> bool {
        match self.mode {
            ParsingMode::Header => self.n_bytes_read < 8,
            ParsingMode::Body(h) => self.n_bytes_read < h.length,
        }
    }

    /// A fresh decoder, awaiting the first header byte.
    pub fn new() -> (d: DockerStreamDecoder)
        ensures
            d.wf(),
            d@ == initial(),
    {
        let d = DockerStreamDecoder {
            n_bytes_read: 0,
            header_buffer: [0u8; FRAME_HEADER_LENGTH],
            mode: ParsingMode::Header,
        };
        proof {
            assert(d.header_buffer@.take(0) =~= Seq::<u8>::empty());
        }
        d
    }

    /// Consumes one input buffer entirely and returns the decoded items.
    ///
    /// The decoder ends in exactly the state that the byte-at-a-time model
    /// reaches on this buffer, and the returned items stand for exactly the
    /// events the model produces — so the decoded content is independent of
    /// how a stream is chopped into buffers (see
    /// `decode_model::lemma_run_split`). A malformed header is reported once
    /// and its 8 bytes are discarded; parsing restarts at the following byte.
    #[verifier::loop_isolation(false)]
    pub fn decode(&mut self, buffer: &[u8]) -> (r: DockerStreamDecoderChunks)
        requires
            old(self).wf(),
        ensures
            final(self).wf(),
            final(self)@ == run(old(self)@, buffer@).0,
            items_events(r@) == run(old(self)@, buffer@).1,
            items_wf(r@),
    {
        let ghost s0 = self@;
        let mut items: Vec<Result<DockerDecoderChunk, DockerDecoderError>> = Vec::new();
        let mut pos: usize = 0;
        proof {
            assert(buffer@.take(0) =~= Seq::<u8>::empty());
            lemma_run_empty(s0);
        }
        while pos < buffer.len()
            invariant
                pos <= buffer@.len(),
                self.wf(),
                run(s0, buffer@.take(pos as int)).0 == self@,
                run(s0, buffer@.take(pos as int)).1 == items_events(items@),
                items_wf(items@),
            decreases buffer@.len() - pos,
        {
            let ghost consumed = buffer@.take(pos as int);
            match self.mode {
                ParsingMode::Header => {
                    let n = self.n_bytes_read as usize;
                    let ghost partial = self.header_buffer@.take(n as int);
                    let available = buffer.len() - pos;
                    let remainder = FRAME_HEADER_LENGTH - n;
                    let bytes_to_copy = if remainder < available {
                        remainder
                    } else {
                        available
                    };
                    let ghost block = buffer@.subrange(pos as int, (pos + bytes_to_copy) as int);
                    let mut j: usize = 0;
                    while j < bytes_to_copy
                        invariant
                            j <= bytes_to_copy,
                            self.mode is Header,
                            self.n_bytes_read == n as u32,
                            self.header_buffer@.take(n as int) == partial,
                            self.header_buffer@.take((n + j) as int) == partial + buffer@.subrange(
                                pos as int,
                                (pos + j) as int,
                            ),
                        decreases bytes_to_copy - j,
                    {
                        let b = buffer[pos + j];
                        self.header_buffer[n + j] = b;
                        proof {
                            assert(self.header_buffer@.take(n as int) =~= partial);
                            assert(self.header_buffer@.take((n + j + 1) as int)
                                =~= self.header_buffer@.take((n + j) as int).push(b));
                            assert(buffer@.subrange(pos as int, (pos + j + 1) as int)
                                =~= buffer@.subrange(pos as int, (pos + j) as int).push(b));
                            assert(partial + buffer@.subrange(pos as int, (pos + j + 1) as int) =~= (
                            partial + buffer@.subrange(pos as int, (pos + j) as int)).push(b));
                        }
                        j += 1;
                    }
                    proof {
                        assert(buffer@.take((pos + bytes_to_copy) as int) =~= consumed + block);
                        lemma_run_split(s0, consumed, block);
                    }
                    if n + bytes_to_copy < FRAME_HEADER_LENGTH {
                        self.n_bytes_read = (n + bytes_to_copy) as u32;
                        proof {
                            lemma_run_header_fill(partial, block);
                            assert(run(s0, consumed).1 + Seq::<DecodeEvent>::empty()
                                =~= items_events(items@));
                        }
                    } else {
                        self.n_bytes_read = 0;
                        proof {
                            assert(self.header_buffer@.take(8) =~= self.header_buffer@);
                            assert(self.header_buffer@ =~= partial + block);
                            lemma_run_header_complete(partial, block);
                        }
                        let header = FrameHeader::parse(&self.header_buffer);
                        match header {
                            Ok(h) => {
                                if h.length > 0 {
                                    self.mode = ParsingMode::Body(h);
                                } else {
                                    proof {
                                        assert(self.header_buffer@.take(0) =~= Seq::<u8>::empty());
                                    }
                                }
                                proof {
                                    assert(run(s0, consumed).1 + Seq::<DecodeEvent>::empty()
                                        =~= items_events(items@));
                                }
                            },
                            Err(err) => {
                                proof {
                                    assert(self.header_buffer@.take(0) =~= Seq::<u8>::empty());
                                    lemma_items_events_push(items@, Err(err));
                                }
                                items.push(Err(err));
                            },
                        }
                    }
                    pos += bytes_to_copy;
                },
                ParsingMode::Body(header) => {
                    let ghost remaining = (header.length - self.n_bytes_read) as nat;
                    let remaining_frame = (header.length - self.n_bytes_read) as usize;
                    let available = buffer.len() - pos;
                    let bytes_to_read = if remaining_frame < available {
                        remaining_frame
                    } else {
                        available
                    };
                    let ghost block = buffer@.subrange(pos as int, (pos + bytes_to_read) as int);
                    let body_slice = slice_subrange(buffer, pos, pos + bytes_to_read);
                    let body = slice_to_vec(body_slice);
                    self.n_bytes_read = self.n_bytes_read + (bytes_to_read as u32);
                    let stream_type = header.stream_type;
                    if self.n_bytes_read >= header.length {
                        self.n_bytes_read = 0;
                        self.mode = ParsingMode::Header;
                        proof {
                            assert(self.header_buffer@.take(0) =~= Seq::<u8>::empty());
                        }
                    }
                    let chunk = DockerDecoderChunk { stream_type, body };
                    proof {
                        assert(buffer@.take((pos + bytes_to_read) as int) =~= consumed + block);
                        lemma_run_split(s0, consumed, block);
                        lemma_run_body(stream_type, remaining, block);
                        lemma_items_events_push(items@, Ok(chunk));
                        assert(item_events(Ok(chunk)) =~= byte_events(stream_type, block));
                    }
                    items.push(Ok(chunk));
                    pos += bytes_to_read;
                },
            }
        }
        proof {
            assert(buffer@.take(buffer@.len() as int) =~= buffer@);
        }
        DockerStreamDecoderChunks { items }
    }
}

} // verus!
