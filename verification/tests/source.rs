use ast_find::source::is_probably_binary;
use ast_find::source::make_chunk_id;
use ast_find::source::slice_with_context;
use ast_find::source::LineIndex;
use ast_find::source::BINARY_SAMPLE;

#[test]
fn binary_check_looks_at_the_sample_only() {
    assert!(!is_probably_binary(b""));
    assert!(!is_probably_binary(b"plain text"));
    assert!(is_probably_binary(b"\0"));
    assert!(is_probably_binary(b"abc\0def"));
    let mut buf = vec![b'a'; BINARY_SAMPLE];
    assert!(!is_probably_binary(&buf));
    buf.push(0);
    assert!(!is_probably_binary(&buf));
    buf[BINARY_SAMPLE - 1] = 0;
    assert!(is_probably_binary(&buf));
    assert_eq!(BINARY_SAMPLE, 1024);
}

#[test]
fn line_index_counts_lines() {
    assert_eq!(LineIndex::new(b"").line_count(), 1);
    assert_eq!(LineIndex::new(b"abc").line_count(), 1);
    assert_eq!(LineIndex::new(b"abc\n").line_count(), 2);
    assert_eq!(LineIndex::new(b"a\nb\nc").line_count(), 3);
    assert_eq!(LineIndex::new(b"\n\n\n").line_count(), 4);
    assert_eq!(LineIndex::new(b"a\r\nb").line_count(), 2);
}

#[test]
fn line_ranges_in_bytes() {
    let index = LineIndex::new(b"ab\ncde\n\nf");
    // Lines start at 0, 3, 7 and 8.
    assert_eq!(index.line_count(), 4);
    assert_eq!(index.line_range_to_bytes(1, 1), Some((0, 3)));
    assert_eq!(index.line_range_to_bytes(2, 2), Some((3, 7)));
    assert_eq!(index.line_range_to_bytes(1, 3), Some((0, 8)));
    assert_eq!(index.line_range_to_bytes(4, 4), Some((8, usize::MAX)));
    assert_eq!(index.line_range_to_bytes(2, 9), Some((3, usize::MAX)));
    assert_eq!(index.line_range_to_bytes(0, 1), Some((0, 3)));
    assert_eq!(index.line_range_to_bytes(0, 0), Some((0, 0)));
    assert_eq!(index.line_range_to_bytes(5, 5), None);
    assert_eq!(index.line_range_to_bytes(5, 1), None);
    assert_eq!(index.line_range_to_bytes(3, 1), Some((7, 3)));
    assert_eq!(index.line_range_to_bytes(u32::MAX, u32::MAX), None);
}

#[test]
fn excerpts_with_context() {
    let src = b"one\ntwo\nthree\nfour\nfive";
    let index = LineIndex::new(src);
    assert_eq!(slice_with_context(src, &index, 3, 3, 0).as_deref(), Some("three\n"));
    assert_eq!(slice_with_context(src, &index, 3, 3, 1).as_deref(), Some("two\nthree\nfour\n"));
    assert_eq!(slice_with_context(src, &index, 2, 3, 1).as_deref(), Some("one\ntwo\nthree\nfour\n"));
    assert_eq!(slice_with_context(src, &index, 1, 1, 5).as_deref(), Some("one\ntwo\nthree\nfour\nfive"));
    assert_eq!(slice_with_context(src, &index, 5, 5, 0).as_deref(), Some("five"));
    assert_eq!(slice_with_context(src, &index, 5, 5, u32::MAX).as_deref(), Some("one\ntwo\nthree\nfour\nfive"));
    assert_eq!(slice_with_context(src, &index, 6, 6, 0), None);
    // A range that runs backwards gives nothing.
    assert_eq!(slice_with_context(src, &index, 4, 1, 0), None);
    // An index of another text never reaches outside the bytes it is used on.
    assert_eq!(slice_with_context(b"x", &index, 2, 2, 0), None);
    assert_eq!(slice_with_context(b"onetwo", &index, 1, 2, 0).as_deref(), Some("onetwo"));
}

#[test]
fn excerpt_that_is_not_utf8_is_none() {
    let src = b"ok\n\xff\xfe\nfine\n";
    let index = LineIndex::new(src);
    assert_eq!(slice_with_context(src, &index, 1, 1, 0).as_deref(), Some("ok\n"));
    assert_eq!(slice_with_context(src, &index, 2, 2, 0), None);
    assert_eq!(slice_with_context(src, &index, 3, 3, 0).as_deref(), Some("fine\n"));
    let src = "a\n\u{e9}t\u{e9}\n".as_bytes();
    let index = LineIndex::new(src);
    assert_eq!(slice_with_context(src, &index, 2, 2, 0).as_deref(), Some("\u{e9}t\u{e9}\n"));
}

#[test]
fn chunk_id_is_the_digest_of_path_and_lines() {
    let id = make_chunk_id("src/a.js", 3, 12);
    assert_eq!(id, blake3::hash(b"src/a.js:3-12").to_hex().to_string());
    assert_eq!(id.len(), 64);
    assert!(id.chars().all(|c| c.is_ascii_digit() || ('a'..='f').contains(&c)));
    assert_ne!(id, "src/a.js:3-12");
    assert_eq!(make_chunk_id("src/a.js", 3, 12), id);
    assert_ne!(make_chunk_id("src/a.js", 3, 13), id);
    assert_ne!(make_chunk_id("src/a.js", 31, 2), id);
    assert_ne!(make_chunk_id("src/b.js", 3, 12), id);
    assert_eq!(
        make_chunk_id("", 0, u32::MAX),
        blake3::hash(b":0-4294967295").to_hex().to_string()
    );
    assert_eq!(
        make_chunk_id("d\u{e9}j\u{e0}.py", 10, 100),
        blake3::hash("d\u{e9}j\u{e0}.py:10-100".as_bytes()).to_hex().to_string()
    );
    // The digest of the empty input is known.
    assert_eq!(
        blake3::hash(b"").to_hex().to_string(),
        "af1349b9f5f9a1a6a0404dea36dcc9499bcb25c9adc112b7cc9a93cae41f3262"
    );
}
