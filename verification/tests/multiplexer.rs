use docker_mux::DockerStreamDecoder;
use docker_mux::DockerStreamMultiplexer;

/// An in-memory byte source: hands out up to the requested number of bytes,
/// and an empty answer once drained.
struct MemSource {
    data: Vec<u8>,
    pos: usize,
}

impl MemSource {
    fn new(data: &[u8]) -> MemSource {
        MemSource { data: data.to_vec(), pos: 0 }
    }

    fn read(&mut self, n: usize) -> Vec<u8> {
        let end = if self.pos + n < self.data.len() { self.pos + n } else { self.data.len() };
        let out = self.data[self.pos..end].to_vec();
        self.pos = end;
        out
    }
}

/// Drives the multiplexer like the encode tool does: fills `buf` until it
/// is full or every source is exhausted, reading sources on demand.
fn mux_fill(
    mp: &mut DockerStreamMultiplexer,
    sources: &mut Vec<MemSource>,
    buf: &mut Vec<u8>,
) -> usize {
    let mut written: usize = 0;
    while written < buf.len() {
        if mp.is_selecting() {
            match mp.plan_read() {
                None => return written,
                Some((index, bytes_to_read)) => {
                    let data = sources[index].read(bytes_to_read);
                    if mp.accept_read(index, &data) {
                        sources.remove(index);
                    }
                }
            }
        } else {
            written += mp.fill(buf, written);
        }
    }
    written
}

/// Reads the whole multiplexed stream through small odd-sized buffers.
fn mux_read_to_end(mp: &mut DockerStreamMultiplexer, sources: &mut Vec<MemSource>) -> Vec<u8> {
    let mut out = Vec::new();
    loop {
        let mut buf = vec![0u8; 7];
        let n = mux_fill(mp, sources, &mut buf);
        if n == 0 {
            return out;
        }
        out.extend_from_slice(&buf[..n]);
    }
}

fn simple_input_expected_output() -> (Vec<MemSource>, Vec<u8>) {
    let sources = vec![MemSource::new(&[0x01, 0x02, 0x03, 0x04, 0x05, 0x06, 0x07, 0x08, 0x09])];
    let header: [u8; 8] = [0x02, 0x00, 0x00, 0x00, 0x00, 0x00, 0x00, 0x03];
    let mut expected_output = Vec::<u8>::new();
    expected_output.extend_from_slice(&header);
    expected_output.extend_from_slice(&[0x01, 0x02, 0x03]);
    expected_output.extend_from_slice(&header);
    expected_output.extend_from_slice(&[0x04, 0x05, 0x06]);
    expected_output.extend_from_slice(&header);
    expected_output.extend_from_slice(&[0x07, 0x08, 0x09]);
    (sources, expected_output)
}

#[test]
fn breaks_single_stream_into_chunks() {
    let (mut sources, expected_output) = simple_input_expected_output();
    let mut mp = DockerStreamMultiplexer::new(vec![2u8], 3, 3);

    let mut output = vec![0; expected_output.len()];
    let n = mux_fill(&mut mp, &mut sources, &mut output);
    assert_eq!(n, expected_output.len());
    assert_eq!(output, expected_output);
}

#[test]
fn read_to_end() {
    let (mut sources, expected_output) = simple_input_expected_output();
    let mut mp = DockerStreamMultiplexer::new(vec![2u8], 3, 3);

    let output = mux_read_to_end(&mut mp, &mut sources);
    assert_eq!(output, expected_output);
}

#[test]
fn exhausted_source_is_never_selected_again() {
    let mut mp = DockerStreamMultiplexer::new(vec![0u8, 1u8], 4, 2);
    let mut sources = vec![MemSource::new(&[]), MemSource::new(&[5, 6, 7])];
    let mut live = 2usize;
    let mut sink = Vec::new();
    loop {
        match mp.plan_read() {
            None => break,
            Some((index, bytes_to_read)) => {
                assert!(index < live, "selected a removed source");
                assert!((2..=4).contains(&bytes_to_read));
                let data = sources[index].read(bytes_to_read);
                if mp.accept_read(index, &data) {
                    sources.remove(index);
                    live -= 1;
                } else {
                    // Drain the frame before selecting again.
                    loop {
                        let mut buf = vec![0u8; 3];
                        let n = mp.fill(&mut buf, 0);
                        sink.extend_from_slice(&buf[..n]);
                        if mp.is_selecting() {
                            break;
                        }
                    }
                }
            }
        }
    }
    // The stream has ended exactly when the source list became empty, and
    // it stays ended.
    assert_eq!(live, 0);
    assert!(mp.plan_read().is_none());
    let mut buf = vec![0u8; 8];
    assert_eq!(mp.fill(&mut buf, 0), 0);
    // Everything the live source held was framed; only tag 1 appears.
    let mut decoder = DockerStreamDecoder::new();
    let mut chunks = decoder.decode(&sink);
    let mut decoded = Vec::new();
    while let Some(item) = chunks.next() {
        let chunk = item.unwrap();
        assert_eq!(chunk.stream_type, 1);
        decoded.extend_from_slice(&chunk.body);
    }
    assert_eq!(decoded, vec![5, 6, 7]);
}

#[test]
fn plan_read_respects_frame_bounds() {
    let mut mp = DockerStreamMultiplexer::new(vec![1u8], 9, 4);
    let mut sources = vec![MemSource::new(&[0u8; 256])];
    for _ in 0..20 {
        let (index, bytes_to_read) = mp.plan_read().unwrap();
        assert_eq!(index, 0);
        assert!((4..=9).contains(&bytes_to_read));
        let data = sources[index].read(bytes_to_read);
        assert!(!mp.accept_read(index, &data));
        let mut buf = vec![0u8; 32];
        mp.fill(&mut buf, 0);
        assert!(mp.is_selecting());
    }
}

#[test]
fn fill_resumes_across_tiny_buffers() {
    // With fixed frame sizes and a single source the stream is
    // deterministic, so chopping the output into 1-byte reads must give
    // the same bytes as one large read.
    let (mut sources_a, _) = simple_input_expected_output();
    let mut mp_a = DockerStreamMultiplexer::new(vec![2u8], 3, 3);
    let mut big = vec![0u8; 64];
    let n = mux_fill(&mut mp_a, &mut sources_a, &mut big);
    big.truncate(n);

    // Every buffer size must give the same stream, wherever the buffer
    // boundary falls relative to header and body boundaries.
    for size in 1..=13usize {
        let (mut sources_b, _) = simple_input_expected_output();
        let mut mp_b = DockerStreamMultiplexer::new(vec![2u8], 3, 3);
        let mut out = Vec::new();
        loop {
            let mut buf = vec![0u8; size];
            let n = mux_fill(&mut mp_b, &mut sources_b, &mut buf);
            if n == 0 {
                break;
            }
            out.extend_from_slice(&buf[..n]);
        }
        assert_eq!(out, big);
    }
}

#[test]
fn round_trip_reproduces_channels() {
    let stdout_bytes: Vec<u8> = (0u8..=200).collect();
    let stderr_bytes: Vec<u8> = (0u8..100).map(|b| b.wrapping_mul(3)).collect();
    let mut sources = vec![MemSource::new(&stdout_bytes), MemSource::new(&stderr_bytes)];
    let mut mp = DockerStreamMultiplexer::new(vec![1u8, 2u8], 7, 2);
    let encoded = mux_read_to_end(&mut mp, &mut sources);

    let mut decoder = DockerStreamDecoder::new();
    let mut decoded_stdout = Vec::new();
    let mut decoded_stderr = Vec::new();
    for piece in encoded.chunks(5) {
        let mut chunks = decoder.decode(piece);
        while let Some(item) = chunks.next() {
            let chunk = item.unwrap();
            match chunk.stream_type {
                1 => decoded_stdout.extend_from_slice(&chunk.body),
                2 => decoded_stderr.extend_from_slice(&chunk.body),
                t => panic!("unexpected channel tag {}", t),
            }
        }
    }
    assert_eq!(decoded_stdout, stdout_bytes);
    assert_eq!(decoded_stderr, stderr_bytes);
}
