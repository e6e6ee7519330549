use docker_mux::DockerDecoderError;
use docker_mux::FrameHeader;
use docker_mux::StreamType;
use docker_mux::FRAME_HEADER_LENGTH;

#[test]
fn header_parse() {
    let buffer: [u8; FRAME_HEADER_LENGTH] = [0x01, 0x00, 0x00, 0x00, 0x12, 0x34, 0x56, 0x78];
    let header = FrameHeader::parse(&buffer).unwrap();
    assert_eq!(header.length, 0x12345678);
    assert_eq!(header.stream_type, 1);
}

#[test]
fn frame_header_header_parse() {
    let buffer: [u8; FRAME_HEADER_LENGTH] = [0x01, 0x00, 0x00, 0x00, 0x00, 0x00, 0x00, 0x18];
    let header = FrameHeader::parse(&buffer).unwrap();
    assert_eq!(header.length, 24);
    assert_eq!(header.stream_type, 1);
}

#[test]
fn header_parse_endiannes() {
    let buffer: [u8; FRAME_HEADER_LENGTH] = [0x00, 0x00, 0x00, 0x00, 0x11, 00, 0x00, 0x22];
    let header = FrameHeader::parse(&buffer).unwrap();
    assert_eq!(header.length, 0x11000022u32);
    assert_eq!(header.stream_type, 0);
}

#[test]
fn mallformed_header_error() {
    let buffer: [u8; FRAME_HEADER_LENGTH] = [0x00, 0x22, 0x00, 0x00, 0x11, 00, 0x00, 0x22];
    let header = FrameHeader::parse(&buffer);
    assert!(header.is_err());
}

#[test]
fn malformed_header_carries_offending_bytes() {
    let buffer: [u8; FRAME_HEADER_LENGTH] = [0x07, 0x00, 0x01, 0x00, 0x00, 0x00, 0x00, 0x05];
    match FrameHeader::parse(&buffer) {
        Err(DockerDecoderError::MalformedHeader(bytes)) => assert_eq!(bytes, buffer),
        _ => panic!("expected a malformed-header error"),
    }
}

#[test]
fn header_serialize() {
    let header = FrameHeader::new(2, 0x25);
    let mut buffer = [0u8; FRAME_HEADER_LENGTH];
    header.serialize(&mut buffer);
    assert_eq!(buffer, [0x02, 0x00, 0x00, 0x00, 0x00, 0x00, 0x00, 0x25])
}

#[test]
fn header_serialize_big_endian() {
    let header = FrameHeader::new(1, 0x12345678);
    let mut buffer = [0xffu8; FRAME_HEADER_LENGTH];
    header.serialize(&mut buffer);
    assert_eq!(buffer, [0x01, 0x00, 0x00, 0x00, 0x12, 0x34, 0x56, 0x78])
}

#[test]
fn stream_type_classification() {
    assert!(matches!(StreamType::try_from(0), Ok(StreamType::Stdin)));
    assert!(matches!(StreamType::try_from(1), Ok(StreamType::Stdout)));
    assert!(matches!(StreamType::try_from(2), Ok(StreamType::Stderr)));
    assert!(StreamType::try_from(3).is_err());
    assert!(StreamType::try_from(255).is_err());
}
