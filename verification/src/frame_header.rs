//! The fixed 8-byte frame header: parsing and serialization.
//!
//! On the wire a header is: one channel-tag byte, three reserved bytes that
//! must be zero, and the body length as a big-endian 32-bit integer.

use vstd::prelude::*;

use crate::docker_decoder_error::DockerDecoderError;

verus! {

/// Size of a frame header on the wire, in bytes.
pub const FRAME_HEADER_LENGTH: usize = 8;

/// The value of a 32-bit big-endian integer stored in four bytes.
pub open spec fn be_u32(b0: u8, b1: u8, b2: u8, b3: u8) -> int {
    b0 * 0x1000000 + b1 * 0x10000 + b2 * 0x100 + b3
}

/// The 8 bytes that a header with the given tag and body length occupies on
/// the wire: the tag, three zero bytes, and the length in big-endian order.
pub open spec fn header_bytes(stream_type: u8, length: u32) -> Seq<u8> {
    seq![
        stream_type,
        0u8,
        0u8,
        0u8,
        (length / 0x1000000) as u8,
        ((length / 0x10000) % 0x100) as u8,
        ((length / 0x100) % 0x100) as u8,
        (length % 0x100) as u8,
    ]
}

/// Reading the four length bytes of `header_bytes` back yields the length.
pub proof fn lemma_header_bytes_roundtrip(stream_type: u8, length: u32)
    ensures
        header_bytes(stream_type, length).len() == 8,
        header_bytes(stream_type, length)[0] == stream_type,
        header_bytes(stream_type, length)[1] == 0,
        header_bytes(stream_type, length)[2] == 0,
        header_bytes(stream_type, length)[3] == 0,
        be_u32(
            header_bytes(stream_type, length)[4],
            header_bytes(stream_type, length)[5],
            header_bytes(stream_type, length)[6],
            header_bytes(stream_type, length)[7],
        ) == length,
{
    let x = length;
    assert((x / 0x1000000) < 0x100 && ((x / 0x10000) % 0x100) < 0x100 && ((x / 0x100) % 0x100)
        < 0x100 && (x % 0x100) < 0x100) by (bit_vector);
    assert((x / 0x1000000) * 0x1000000 + ((x / 0x10000) % 0x100) * 0x10000 + ((x / 0x100) % 0x100)
        * 0x100 + (x % 0x100) == x) by (bit_vector);
}

/// One of the three recognized logical channels.
///
/// Classification of a tag byte is layered above the codec: a header whose
/// tag is outside these values still parses successfully.
#[derive(Clone, Copy, PartialEq, Eq, Structural, Debug)]
pub enum StreamType {
    Stdin,
    Stdout,
    Stderr,
}

impl StreamType {
    /// Classifies a channel tag; any tag other than 0, 1 or 2 is unrecognized.
    pub fn try_from(value: u8) -> (r: Result<StreamType, ()>)
        ensures
            r == if value == 0 {
                Ok::<StreamType, ()>(StreamType::Stdin)
            } else if value == 1 {
                Ok::<StreamType, ()>(StreamType::Stdout)
            } else if value == 2 {
                Ok::<StreamType, ()>(StreamType::Stderr)
            } else {
                Err::<StreamType, ()>(())
            },
    {
        match value {
            0 => Ok(StreamType::Stdin),
            1 => Ok(StreamType::Stdout),
            2 => Ok(StreamType::Stderr),
            _ => Err(()),
        }
    }
}

/// A parsed frame header: the channel tag and the number of body bytes that
/// follow the header on the wire.
#[derive(Clone, Copy, Debug)]
pub struct FrameHeader {
    pub stream_type: u8,
    pub length: u32,
}

impl FrameHeader {
    pub fn new(stream_type: u8, length: u32) -> (h: FrameHeader)
        ensures
            h.stream_type == stream_type,
            h.length == length,
    {
        FrameHeader { stream_type, length }
    }

    /// Parses the fixed 8-byte header. Fails exactly when one of the reserved
    /// bytes at offsets 1 to 3 is non-zero; the tag byte is not validated.
    pub fn parse(buffer: &[u8; FRAME_HEADER_LENGTH]) -> (r: Result<
        FrameHeader,
        DockerDecoderError,
    >)
        ensures
            r is Ok <==> (buffer@[1] == 0 && buffer@[2] == 0 && buffer@[3] == 0),
            r matches Ok(h) ==> h.stream_type == buffer@[0] && h.length == be_u32(
                buffer@[4],
                buffer@[5],
                buffer@[6],
                buffer@[7],
            ),
            r matches Err(e) ==> (e matches DockerDecoderError::MalformedHeader(hb) && hb@
                == buffer@),
    {
        if buffer[1] != 0u8 || buffer[2] != 0u8 || buffer[3] != 0u8 {
            return Err(DockerDecoderError::MalformedHeader(*buffer));
        }
        let length: u32 = (buffer[4] as u32) * 0x1000000 + (buffer[5] as u32) * 0x10000 + (
        buffer[6] as u32) * 0x100 + (buffer[7] as u32);
        Ok(FrameHeader { stream_type: buffer[0], length })
    }

    /// Writes the header into the first 8 bytes of `buffer`: the tag, three
    /// zero bytes, and the length in big-endian order.
    pub fn serialize(&self, buffer: &mut [u8; FRAME_HEADER_LENGTH])
        ensures
            final(buffer)@ == header_bytes(self.stream_type, self.length),
    {
        buffer[0] = self.stream_type;
        buffer[1] = 0u8;
        buffer[2] = 0u8;
        buffer[3] = 0u8;
        let len = self.length;
        assert((len / 0x1000000) < 0x100 && ((len / 0x10000) % 0x100) < 0x100 && ((len / 0x100)
            % 0x100) < 0x100 && (len % 0x100) < 0x100) by (bit_vector);
        buffer[4] = (len / 0x1000000) as u8;
        buffer[5] = ((len / 0x10000) % 0x100) as u8;
        buffer[6] = ((len / 0x100) % 0x100) as u8;
        buffer[7] = (len % 0x100) as u8;
        assert(buffer@ =~= header_bytes(self.stream_type, self.length));
    }
}

} // verus!
