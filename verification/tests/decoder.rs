use docker_mux::DockerDecoderError;
use docker_mux::DockerStreamDecoder;

/// Feeds one buffer and collects the decoded chunks and the number of
/// errors reported for it.
fn decode_all(decoder: &mut DockerStreamDecoder, input: &[u8]) -> (Vec<(u8, Vec<u8>)>, usize) {
    let mut chunks = decoder.decode(input);
    let mut out = Vec::new();
    let mut errors: usize = 0;
    while let Some(item) = chunks.next() {
        match item {
            Ok(c) => out.push((c.stream_type, c.body)),
            Err(e) => {
                assert!(matches!(e, DockerDecoderError::MalformedHeader(_)));
                errors += 1;
            }
        }
    }
    (out, errors)
}

fn channel_concat(chunks: &[(u8, Vec<u8>)], tag: u8) -> Vec<u8> {
    let mut out = Vec::new();
    for (t, body) in chunks {
        if *t == tag {
            out.extend_from_slice(body);
        }
    }
    out
}

#[test]
fn decode_single_frame() {
    let mut decoder = DockerStreamDecoder::new();
    let stream = [0x01, 0, 0, 0, 0, 0, 0, 3, 0xaa, 0xbb, 0xcc];
    let (chunks, errors) = decode_all(&mut decoder, &stream);
    assert_eq!(errors, 0);
    assert_eq!(chunks.len(), 1);
    assert_eq!(chunks[0].0, 1);
    assert_eq!(chunks[0].1, vec![0xaa, 0xbb, 0xcc]);
}

#[test]
fn zero_length_frame_produces_no_chunk() {
    let mut decoder = DockerStreamDecoder::new();
    let (chunks, errors) = decode_all(&mut decoder, &[1, 0, 0, 0, 0, 0, 0, 0]);
    assert_eq!(chunks.len(), 0);
    assert_eq!(errors, 0);
    // The decoder is ready for the next header immediately.
    let (chunks, errors) = decode_all(&mut decoder, &[2, 0, 0, 0, 0, 0, 0, 2, 9, 8]);
    assert_eq!(errors, 0);
    assert_eq!(chunks, vec![(2u8, vec![9u8, 8u8])]);
}

#[test]
fn malformed_header_yields_exactly_one_error() {
    let mut decoder = DockerStreamDecoder::new();
    let (chunks, errors) = decode_all(&mut decoder, &[0, 0x22, 0, 0, 0x11, 0, 0, 0x22]);
    assert_eq!(chunks.len(), 0);
    assert_eq!(errors, 1);
    // The offending 8 bytes are discarded; the next 8 bytes parse as a header.
    let (chunks, errors) = decode_all(&mut decoder, &[1, 0, 0, 0, 0, 0, 0, 1, 0x55]);
    assert_eq!(errors, 0);
    assert_eq!(chunks, vec![(1u8, vec![0x55u8])]);
}

#[test]
fn unrecognized_tag_still_parses() {
    let mut decoder = DockerStreamDecoder::new();
    let (chunks, errors) = decode_all(&mut decoder, &[9, 0, 0, 0, 0, 0, 0, 1, 0x42]);
    assert_eq!(errors, 0);
    assert_eq!(chunks, vec![(9u8, vec![0x42u8])]);
}

#[test]
fn header_straddles_calls() {
    let mut decoder = DockerStreamDecoder::new();
    let (chunks, errors) = decode_all(&mut decoder, &[2, 0, 0]);
    assert_eq!((chunks.len(), errors), (0, 0));
    let (chunks, errors) = decode_all(&mut decoder, &[0, 0, 0, 0, 2, 7]);
    assert_eq!(errors, 0);
    assert_eq!(chunks, vec![(2u8, vec![7u8])]);
    let (chunks, errors) = decode_all(&mut decoder, &[8]);
    assert_eq!(errors, 0);
    assert_eq!(chunks, vec![(2u8, vec![8u8])]);
}

#[test]
fn split_invariance_across_buffer_sizes() {
    // Two frames on different channels, a zero-length frame between them.
    let mut stream: Vec<u8> = Vec::new();
    stream.extend_from_slice(&[1, 0, 0, 0, 0, 0, 0, 4, 10, 11, 12, 13]);
    stream.extend_from_slice(&[2, 0, 0, 0, 0, 0, 0, 0]);
    stream.extend_from_slice(&[2, 0, 0, 0, 0, 0, 0, 3, 20, 21, 22]);

    let mut whole = DockerStreamDecoder::new();
    let (whole_chunks, whole_errors) = decode_all(&mut whole, &stream);

    for split in 1..stream.len() {
        let mut decoder = DockerStreamDecoder::new();
        let mut chunks = Vec::new();
        let mut errors: usize = 0;
        for piece in stream.chunks(split) {
            let (c, e) = decode_all(&mut decoder, piece);
            chunks.extend(c);
            errors += e;
        }
        assert_eq!(errors, whole_errors);
        for tag in [0u8, 1, 2, 9] {
            assert_eq!(channel_concat(&chunks, tag), channel_concat(&whole_chunks, tag));
        }
    }
}

#[test]
fn chunks_len_counts_down() {
    let mut decoder = DockerStreamDecoder::new();
    let stream = [1, 0, 0, 0, 0, 0, 0, 1, 0xaa, 2, 0, 0, 0, 0, 0, 0, 1, 0xbb];
    let mut chunks = decoder.decode(&stream);
    assert_eq!(chunks.len(), 2);
    assert!(chunks.next().is_some());
    assert_eq!(chunks.len(), 1);
    assert!(chunks.next().is_some());
    assert!(chunks.next().is_none());
    assert_eq!(chunks.len(), 0);
}
