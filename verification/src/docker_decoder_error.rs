//! Errors surfaced while demultiplexing a framed stream.

use vstd::prelude::*;

use crate::frame_header::FRAME_HEADER_LENGTH;

verus! {

/// What can go wrong while decoding.
///
/// `MalformedHeader` carries the 8 offending header bytes; it is raised when
/// one of the reserved bytes (offsets 1 to 3) is non-zero. `IncorrectFrameType`
/// is raised by the semantic layer above the codec when a channel tag is
/// outside the three recognized values; the codec itself never produces it.
#[derive(Clone, Copy, Debug)]
pub enum DockerDecoderError {
    IncorrectFrameType(u8),
    MalformedHeader([u8; FRAME_HEADER_LENGTH]),
}

} // verus!
