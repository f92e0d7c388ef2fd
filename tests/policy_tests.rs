use stdin_nonblocking::policy::{aggregate_units, is_blank_bytes, resolve_blocking, resolve_bounded};
use stdin_nonblocking::reader::{ReadEvent, Reader, Strategy};
use stdin_nonblocking::text::{decode_lines, keep_decoded};

fn feed(reader: &mut Reader, bytes: &[u8]) -> Vec<Vec<u8>> {
    reader.on_read(ReadEvent::Bytes(bytes.to_vec()))
}

#[test]
fn interactive_reader_never_reads() {
    for strategy in [Strategy::Chunked, Strategy::WholeBuffer, Strategy::Lines] {
        let reader = Reader::new(strategy, true);
        assert!(!reader.wants_read());
    }
}

#[test]
fn interactive_source_returns_fallback() {
    let got = resolve_blocking(true, Some(b"data".to_vec()), Some(b"dflt"));
    assert_eq!(got, Some(b"dflt".to_vec()));
    let got = resolve_blocking(true, Some(b"data".to_vec()), None);
    assert_eq!(got, None);
    let drained = vec![b"data".to_vec()];
    let got = resolve_bounded(true, Strategy::Chunked, &drained, Some(b"dflt"));
    assert_eq!(got, Some(b"dflt".to_vec()));
}

#[test]
fn chunks_come_out_in_order_unchanged() {
    let mut reader = Reader::new(Strategy::Chunked, false);
    assert_eq!(feed(&mut reader, b"ab"), vec![b"ab".to_vec()]);
    assert_eq!(feed(&mut reader, b""), Vec::<Vec<u8>>::new());
    assert_eq!(feed(&mut reader, b"\x00\xff"), vec![b"\x00\xff".to_vec()]);
    assert!(reader.on_read(ReadEvent::EndOfStream).is_empty());
    assert!(!reader.wants_read());
}

#[test]
fn whole_buffer_waits_for_the_end() {
    let mut reader = Reader::new(Strategy::WholeBuffer, false);
    assert!(feed(&mut reader, b"\xDE\xAD").is_empty());
    assert!(feed(&mut reader, b"\xBE\xEF").is_empty());
    assert_eq!(reader.on_read(ReadEvent::EndOfStream), vec![b"\xDE\xAD\xBE\xEF".to_vec()]);
}

#[test]
fn lines_strip_only_the_terminator() {
    let mut reader = Reader::new(Strategy::Lines, false);
    assert_eq!(feed(&mut reader, b"one\r\ntw"), vec![b"one".to_vec()]);
    assert_eq!(feed(&mut reader, b"o\n\nthree\r"), vec![b"two".to_vec(), b"".to_vec()]);
    assert_eq!(reader.on_read(ReadEvent::EndOfStream), vec![b"three\r".to_vec()]);
}

#[test]
fn lines_without_trailing_partial_line() {
    let mut reader = Reader::new(Strategy::Lines, false);
    assert_eq!(feed(&mut reader, b"a\nb\n"), vec![b"a".to_vec(), b"b".to_vec()]);
    assert!(reader.on_read(ReadEvent::EndOfStream).is_empty());
}

#[test]
fn failure_drops_unfinished_units() {
    let mut reader = Reader::new(Strategy::Lines, false);
    assert_eq!(feed(&mut reader, b"done\npart"), vec![b"done".to_vec()]);
    assert!(reader.on_read(ReadEvent::Failed).is_empty());
    assert!(!reader.wants_read());

    let mut reader = Reader::new(Strategy::WholeBuffer, false);
    assert!(feed(&mut reader, b"part").is_empty());
    assert!(reader.on_read(ReadEvent::Failed).is_empty());
    assert!(!reader.wants_read());
}

#[test]
fn consumer_gone_stops_the_reader() {
    let mut reader = Reader::new(Strategy::Chunked, false);
    let units = feed(&mut reader, b"x");
    assert_eq!(units.len(), 1);
    reader.on_consumer_gone();
    assert!(!reader.wants_read());
}

#[test]
fn whitespace_only_input_gives_fallback() {
    let mut reader = Reader::new(Strategy::Lines, false);
    let mut drained = feed(&mut reader, b"  \n \n\t");
    drained.extend(reader.on_read(ReadEvent::EndOfStream));
    let got = resolve_bounded(false, Strategy::Lines, &drained, Some(b"dflt"));
    assert_eq!(got, Some(b"dflt".to_vec()));

    let drained = vec![b" \n\r\x0b\x0c".to_vec()];
    let got = resolve_bounded(false, Strategy::Chunked, &drained, Some(b"dflt"));
    assert_eq!(got, Some(b"dflt".to_vec()));
}

#[test]
fn empty_input_gives_fallback_every_time() {
    for fallback in [Some(&b"D"[..]), Some(&b""[..]), None] {
        for _ in 0..2 {
            let drained: Vec<Vec<u8>> = Vec::new();
            let got = resolve_bounded(false, Strategy::Lines, &drained, fallback);
            assert_eq!(got, fallback.map(|f| f.to_vec()));
        }
    }
}

#[test]
fn bounded_read_joins_lines_with_newlines() {
    let drained = vec![b"alpha".to_vec(), b"".to_vec(), b" beta ".to_vec()];
    assert_eq!(aggregate_units(Strategy::Lines, &drained), b"alpha\n\n beta ".to_vec());
    assert_eq!(aggregate_units(Strategy::Chunked, &drained), b"alpha beta ".to_vec());
    let got = resolve_bounded(false, Strategy::Lines, &drained, Some(b"dflt"));
    assert_eq!(got, Some(b"alpha\n\n beta ".to_vec()));
}

#[test]
fn bounded_read_keeps_surrounding_whitespace() {
    let drained = vec![b"  x \n".to_vec()];
    let got = resolve_bounded(false, Strategy::WholeBuffer, &drained, None);
    assert_eq!(got, Some(b"  x \n".to_vec()));
}

#[test]
fn blank_test_on_bytes() {
    assert!(is_blank_bytes(b""));
    assert!(is_blank_bytes(b" \t\n\x0b\x0c\r"));
    assert!(!is_blank_bytes(b" a "));
    assert!(!is_blank_bytes(b"\x00"));
    assert!(!is_blank_bytes(b"\x85"));
}

#[test]
fn blocking_read_returns_one_line_once() {
    let mut reader = Reader::new(Strategy::Lines, false);
    let mut units = feed(&mut reader, b"hello\n");
    units.extend(reader.on_read(ReadEvent::EndOfStream));
    assert_eq!(units, vec![b"hello".to_vec()]);
    assert!(!reader.wants_read());
    let got = resolve_blocking(false, units.into_iter().next(), Some(b"dflt"));
    assert_eq!(got, Some(b"hello".to_vec()));
}

#[test]
fn blocking_read_with_nothing_and_no_fallback() {
    assert_eq!(resolve_blocking(false, None, None), None);
    assert_eq!(resolve_blocking(false, None, Some(b"d")), Some(b"d".to_vec()));
    assert_eq!(resolve_blocking(false, Some(b"  ".to_vec()), Some(b"d")), Some(b"  ".to_vec()));
}

#[test]
fn lines_decode_as_utf8_and_skip_malformed() {
    let units = vec![
        "h\u{e9}llo".as_bytes().to_vec(),
        b"\xff\xfe".to_vec(),
        b"".to_vec(),
        b"end".to_vec(),
    ];
    let texts = decode_lines(&units);
    assert_eq!(texts, vec!["h\u{e9}llo".to_string(), String::new(), "end".to_string()]);
}

#[test]
fn keep_decoded_keeps_order() {
    let decoded = vec![Some("a".to_string()), None, Some("b".to_string()), None];
    assert_eq!(keep_decoded(&decoded), vec!["a".to_string(), "b".to_string()]);
    assert!(keep_decoded(&Vec::new()).is_empty());
}
