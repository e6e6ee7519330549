//! Multiplexing and demultiplexing of the Docker attach-stream wire format.
//!
//! One linear byte stream carries three logical channels (stdin, stdout,
//! stderr). Each frame is an 8-byte header — channel tag, three reserved
//! zero bytes, and a big-endian body length — followed by that many body
//! bytes. The decoder turns arbitrarily split input buffers back into
//! tagged chunks; the multiplexer interleaves several tagged byte sources
//! into one framed stream.

pub mod decode_model;
pub mod decoder_args;
pub mod docker_decoder_error;
pub mod docker_stream_decoder;
pub mod docker_stream_multiplexer;
pub mod encoder_args;
pub mod frame_header;

pub use docker_decoder_error::DockerDecoderError;
pub use docker_stream_decoder::DockerDecoderChunk;
pub use docker_stream_decoder::DockerStreamDecoder;
pub use docker_stream_decoder::DockerStreamDecoderChunks;
pub use docker_stream_multiplexer::DockerStreamMultiplexer;
pub use frame_header::FrameHeader;
pub use frame_header::StreamType;
pub use frame_header::FRAME_HEADER_LENGTH;
