//! Line-boundary edge cases: trailing terminators, blank lines, CRLF
//! normalization, decode failures, scan granularity, and the shape of the
//! random selection.

use easy_reader::Error;
use easy_reader::EasyReader;
use easy_reader::MemSource;

fn reader_over_bytes(bytes: &[u8]) -> EasyReader<MemSource> {
    EasyReader::new(MemSource::new(bytes.to_vec())).unwrap()
}

#[test]
fn trailing_terminator_yields_no_extra_line() {
    // From BOF: the three lines in order, then an empty result with the
    // cursor at EOF, although the file ends with a terminator.
    let mut reader = reader_over_bytes(b"AAAA AAAA\nB B BB BBB\nCCCC  CCCCC\n");
    assert_eq!(reader.next_line().unwrap().unwrap(), "AAAA AAAA");
    assert_eq!(reader.next_line().unwrap().unwrap(), "B B BB BBB");
    assert_eq!(reader.next_line().unwrap().unwrap(), "CCCC  CCCCC");
    assert!(reader.next_line().unwrap().is_none());
    assert_eq!(reader.current_start_line_offset, reader.file_size);
    assert_eq!(reader.current_end_line_offset, reader.file_size);

    // From EOF: the same lines in reverse order, then an empty result.
    reader.eof();
    assert_eq!(reader.prev_line().unwrap().unwrap(), "CCCC  CCCCC");
    assert_eq!(reader.prev_line().unwrap().unwrap(), "B B BB BBB");
    assert_eq!(reader.prev_line().unwrap().unwrap(), "AAAA AAAA");
    assert!(reader.prev_line().unwrap().is_none());
    assert_eq!(reader.current_start_line_offset, 0);
}

#[test]
fn blank_line_is_returned_not_skipped() {
    // A single blank line, then a text line, terminated by LF.
    let mut reader = reader_over_bytes(b"\nBlank line above!\n");
    reader.eof();
    assert_eq!(reader.prev_line().unwrap().unwrap(), "Blank line above!");
    assert_eq!(reader.prev_line().unwrap().unwrap(), "");
    assert!(reader.prev_line().unwrap().is_none());
}

#[test]
fn single_line_no_terminator() {
    let mut reader = reader_over_bytes(b"A");
    assert_eq!(reader.next_line().unwrap().unwrap(), "A");
    assert!(reader.next_line().unwrap().is_none());
    assert!(reader.prev_line().unwrap().is_none());
}

#[test]
fn zero_length_source_fails_construction() {
    match EasyReader::new(MemSource::new(Vec::new())) {
        Ok(_) => panic!("an empty source must be rejected"),
        Err(e) => assert_eq!(e, Error::EmptyFile),
    }
}

#[test]
fn crlf_content_never_includes_cr_or_lf() {
    let mut reader = reader_over_bytes(b"one\r\ntwo\r\nthree\r\n");
    while let Ok(Some(line)) = reader.next_line() {
        assert!(!line.contains('\r'));
        assert!(!line.contains('\n'));
    }
    reader.eof();
    while let Ok(Some(line)) = reader.prev_line() {
        assert!(!line.contains('\r'));
        assert!(!line.contains('\n'));
    }
}

#[test]
fn current_line_is_idempotent() {
    let mut reader = reader_over_bytes(b"first\nsecond\nthird");
    reader.next_line().unwrap();
    reader.next_line().unwrap();
    let once = reader.current_line().unwrap().unwrap();
    let twice = reader.current_line().unwrap().unwrap();
    let thrice = reader.current_line().unwrap().unwrap();
    assert_eq!(once, "second");
    assert_eq!(twice, "second");
    assert_eq!(thrice, "second");
    assert_eq!(reader.next_line().unwrap().unwrap(), "third");
}

#[test]
fn next_then_prev_returns_to_the_same_line() {
    let mut reader = reader_over_bytes(b"first\nsecond\nthird");
    assert_eq!(reader.next_line().unwrap().unwrap(), "first");
    assert_eq!(reader.next_line().unwrap().unwrap(), "second");
    assert_eq!(reader.prev_line().unwrap().unwrap(), "first");
    assert_eq!(reader.next_line().unwrap().unwrap(), "second");
}

#[test]
fn current_line_at_eof_excludes_terminator() {
    let mut reader = reader_over_bytes(b"alpha\r\nbeta\r\n");
    reader.eof();
    assert_eq!(reader.current_line().unwrap().unwrap(), "beta");
}

#[test]
fn invalid_utf8_reports_span() {
    // Second line holds a lone 0xFF, which no UTF-8 sequence allows.
    let mut reader = reader_over_bytes(&[b'o', b'k', b'\n', 0xFF, b'\n', b'o', b'k']);
    assert_eq!(reader.next_line().unwrap().unwrap(), "ok");
    match reader.next_line() {
        Err(Error::Decode { start, end }) => {
            assert_eq!(start, 3);
            assert_eq!(end, 4);
        },
        other => panic!("expected a decode failure, got {:?}", other),
    }
    assert_eq!(reader.next_line().unwrap().unwrap(), "ok");
}

#[test]
fn tiny_chunk_sizes_give_the_same_lines() {
    let text = b"AAAA AAAA\nB B BB BBB\nCCCC  CCCCC";
    for chunk in [1usize, 2, 3, 7] {
        let mut reader = reader_over_bytes(text);
        reader.chunk_size(chunk);
        assert_eq!(reader.next_line().unwrap().unwrap(), "AAAA AAAA");
        assert_eq!(reader.next_line().unwrap().unwrap(), "B B BB BBB");
        assert_eq!(reader.next_line().unwrap().unwrap(), "CCCC  CCCCC");
        assert!(reader.next_line().unwrap().is_none());
        reader.eof();
        assert_eq!(reader.prev_line().unwrap().unwrap(), "CCCC  CCCCC");
        assert_eq!(reader.prev_line().unwrap().unwrap(), "B B BB BBB");
        assert_eq!(reader.prev_line().unwrap().unwrap(), "AAAA AAAA");
        assert!(reader.prev_line().unwrap().is_none());
    }
}

#[test]
fn lone_terminator_is_one_empty_line() {
    let mut reader = reader_over_bytes(b"\n");
    assert_eq!(reader.current_line().unwrap().unwrap(), "");
    reader.eof();
    assert_eq!(reader.prev_line().unwrap().unwrap(), "");
    assert!(reader.prev_line().unwrap().is_none());
}

#[test]
fn indexed_random_reaches_every_line() {
    // Over many draws the indexed path must select each of the three
    // lines: it draws a uniform line number, not a byte offset.
    let mut reader = reader_over_bytes(b"a\nbb\nccc");
    reader.build_index().unwrap();
    let mut seen = [false; 3];
    for _i in 0..300 {
        let line = reader.random_line().unwrap().unwrap();
        match line.as_str() {
            "a" => seen[0] = true,
            "bb" => seen[1] = true,
            "ccc" => seen[2] = true,
            other => panic!("not a line of the source: {:?}", other),
        }
    }
    assert!(seen[0] && seen[1] && seen[2]);
}

#[test]
fn unindexed_random_always_yields_a_line() {
    let mut reader = reader_over_bytes(b"a\nbb\nccc");
    for _i in 0..300 {
        let line = reader.random_line().unwrap().unwrap();
        assert!(line == "a" || line == "bb" || line == "ccc");
    }
}

#[test]
fn indexed_navigation_after_full_scan() {
    let mut reader = reader_over_bytes(b"first\nsecond\nthird\n");
    reader.build_index().unwrap();
    // The index build leaves the cursor at the beginning.
    assert_eq!(reader.next_line().unwrap().unwrap(), "first");
    assert_eq!(reader.next_line().unwrap().unwrap(), "second");
    assert_eq!(reader.prev_line().unwrap().unwrap(), "first");
    assert_eq!(reader.next_line().unwrap().unwrap(), "second");
    assert_eq!(reader.next_line().unwrap().unwrap(), "third");
    assert!(reader.next_line().unwrap().is_none());
    reader.eof();
    assert_eq!(reader.prev_line().unwrap().unwrap(), "third");
}
