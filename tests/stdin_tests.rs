use stdin_nonblocking::policy::{resolve_blocking, resolve_bounded};
use stdin_nonblocking::reader::{ReadEvent, Reader, Strategy};

const FALLBACK: &[u8] = b"fallback_value";

/// Feeds each chunk to a fresh, non-interactive reader, then the end of the
/// stream, and returns every unit it hands out.
fn run_reader(strategy: Strategy, chunks: &[&[u8]]) -> Vec<Vec<u8>> {
    let mut reader = Reader::new(strategy, false);
    let mut units = Vec::new();
    for chunk in chunks {
        assert!(reader.wants_read());
        units.extend(reader.on_read(ReadEvent::Bytes(chunk.to_vec())));
    }
    assert!(reader.wants_read());
    units.extend(reader.on_read(ReadEvent::EndOfStream));
    assert!(!reader.wants_read());
    units
}

/// What a blocking read hands back for a piped source with these chunks.
fn blocking_read(strategy: Strategy, chunks: &[&[u8]]) -> Vec<u8> {
    let first = run_reader(strategy, chunks).into_iter().next();
    resolve_blocking(false, first, Some(FALLBACK)).unwrap()
}

/// What a bounded read hands back for a piped source with these chunks.
fn bounded_read(strategy: Strategy, chunks: &[&[u8]]) -> Vec<u8> {
    let drained = run_reader(strategy, chunks);
    resolve_bounded(false, strategy, &drained, Some(FALLBACK)).unwrap()
}

#[test]
fn test_binary_input_handling() {
    {
        let binary_input: &[u8] = b"\xDE\xAD\xBE\xEF";
        let output_bytes = blocking_read(Strategy::WholeBuffer, &[binary_input]);
        assert_eq!(
            output_bytes, binary_input,
            "Expected output to match input, but got: {:?}",
            output_bytes
        );
    }

    {
        let binary_input: &[u8] = b"\xDE\xAD\xBE\xEF";
        let output_bytes = bounded_read(Strategy::Chunked, &[&binary_input[..1], &binary_input[1..]]);
        assert_eq!(
            output_bytes, binary_input,
            "Expected output to match input, but got: {:?}",
            output_bytes
        );
    }
}

#[test]
fn test_text_input_handling() {
    {
        let text_input = b"Hello, binary world!";
        let output_bytes = blocking_read(Strategy::WholeBuffer, &[text_input]);
        assert_eq!(
            output_bytes, text_input,
            "Expected output to match input, but got: {:?}",
            output_bytes
        );
    }

    {
        let text_input = b"Hello, binary world!";
        let output_bytes = bounded_read(Strategy::Chunked, &[&text_input[..7], &text_input[7..]]);
        assert_eq!(
            output_bytes, text_input,
            "Expected output to match input, but got: {:?}",
            output_bytes
        );
    }
}

#[test]
fn test_empty_input() {
    {
        let output_bytes = blocking_read(Strategy::WholeBuffer, &[]);
        assert_eq!(
            output_bytes, b"fallback_value",
            "Expected fallback value but got: {:?}",
            output_bytes
        );
    }

    {
        let output_bytes = bounded_read(Strategy::Chunked, &[]);
        assert_eq!(
            output_bytes, b"fallback_value",
            "Expected fallback value but got: {:?}",
            output_bytes
        );
    }
}
