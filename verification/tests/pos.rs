use std::collections::hash_map::DefaultHasher;
use std::hash::{Hash, Hasher};
use truth::pos::files::{prepare_diagnostic_text_source, push_replaced, FilesError, NonUtf8Files};
use truth::pos::{BytePos, Sp, Span};

#[test]
fn test_lossy_utf8() {
    let func = prepare_diagnostic_text_source;

    // valid UTF-8
    assert_eq!(func(b"ab\xF0\x9F\x92\x96cd"), "ab💖cd");

    // invalid byte sequence...
    assert_eq!(func(b"\x80\xFFcd"), "??cd"); // ...at beginning
    assert_eq!(func(b"ab\x80\xFFcd"), "ab??cd"); // ...in middle
    assert_eq!(func(b"ab\x80\xFF"), "ab??"); // ...at end

    // incomplete character; byte 0b11110000 expects 3 more bytes after it.
    assert_eq!(func(b"ab\xF0\x80\x80"), "ab???");

    // unpaired surrogate
    // http://simonsapin.github.io/wtf-8/#surrogates-byte-sequences
    assert_eq!(func(b"ab\xED\xA3\xA4cd"), "ab???cd");

    // ambiguous case.  This begins with a 4-byte character starter byte, but returns to ascii after
    // 2 bytes.
    let input = b"ab\xF0\x80wwcd";
    let output = func(input);
    assert_eq!(output.len(), input.len());
    assert_eq!(&output.as_bytes()[..2], &input[..2]);
    assert_eq!(&output.as_bytes()[2..2 + 2], b"??");
    assert_eq!(&output.as_bytes()[2 + 4..], &input[2 + 4..]);
}

#[test]
fn incomplete_character_at_the_end() {
    // a cut-off character has no error length, so that the rest is replaced
    assert_eq!(prepare_diagnostic_text_source(b"ab\xF0\x9F"), "ab??");
    assert_eq!(prepare_diagnostic_text_source(b""), "");
}

#[test]
fn replaced_bytes_follow_good_text() {
    let mut out = String::from("x");
    push_replaced(&mut out, "ab", 3);
    assert_eq!(out, "xab???");
}

#[test]
fn test_merge() {
    // overlap
    let a = Span::from(1..5);
    let b = Span::from(3..10);
    assert_eq!(a.merge(b), Span::from(1..10));
    assert_eq!(b.merge(a), Span::from(1..10));

    // subset
    let two_four = Span::from(2..4);
    assert_eq!(a.merge(two_four), Span::from(1..5));
    assert_eq!(two_four.merge(a), Span::from(1..5));

    // disjoint
    let ten_twenty = Span::from(10..20);
    assert_eq!(a.merge(ten_twenty), Span::from(1..20));
    assert_eq!(ten_twenty.merge(a), Span::from(1..20));

    // identity
    assert_eq!(a.merge(a), a);
}

#[test]
fn test_disjoint() {
    // overlap
    let a = Span::from(1..5);
    let b = Span::from(3..10);
    assert!(!a.disjoint(b));
    assert!(!b.disjoint(a));

    // subset
    let two_four = Span::from(2..4);
    assert!(!a.disjoint(two_four));
    assert!(!two_four.disjoint(a));

    // disjoint
    let ten_twenty = Span::from(10..20);
    assert!(a.disjoint(ten_twenty));
    assert!(ten_twenty.disjoint(a));

    // identity
    assert!(!a.disjoint(a));

    // off by one (upper bound)
    let c = Span::from(5..10);
    assert!(a.disjoint(c));
    assert!(c.disjoint(a));
    // off by one (lower bound)
    let d = Span::from(0..1);
    assert!(a.disjoint(d));
    assert!(d.disjoint(a));
}

#[test]
fn span_of_text() {
    let span = Span::from_str("hello");
    assert_eq!(span.start(), BytePos(0));
    assert_eq!(span.end(), BytePos(5));
    assert_eq!(span, Span::new(None, BytePos(0), BytePos(5)));
    assert_eq!(Span::default(), Span::initial(None));
}

#[test]
fn spans_of_different_files_are_disjoint() {
    let a = Span::new(Some(1), BytePos(0), BytePos(4));
    let b = Span::new(Some(2), BytePos(0), BytePos(4));
    assert!(a.disjoint(b));
}

#[test]
fn files_are_numbered_from_one() {
    let mut files = NonUtf8Files::new();
    let a = files.add("a.spec", b"one\ntwo\xFF\n");
    let b = files.add("b.spec", b"");
    assert_eq!(a, Some(1));
    assert_eq!(b, Some(2));
    assert_eq!(files.name(a), Ok(String::from("a.spec")));
    assert_eq!(files.source(a), Ok("one\ntwo?\n"));
    assert_eq!(files.name(b), Ok(String::from("b.spec")));
    assert_eq!(files.source(b), Ok(""));
}

#[test]
fn missing_files() {
    let mut files = NonUtf8Files::new();
    files.add("a.spec", b"x");
    for id in [None, Some(0), Some(2)] {
        assert_eq!(files.name(id), Err(FilesError::FileMissing));
        assert_eq!(files.source(id), Err(FilesError::FileMissing));
        assert_eq!(files.line_index(id, 0), Err(FilesError::FileMissing));
        assert_eq!(files.line_range(id, 0), Err(FilesError::FileMissing));
    }
}

#[test]
fn lines_of_a_file() {
    let mut files = NonUtf8Files::new();
    let id = files.add("a.spec", b"foo\nbar\r\n\nbaz");
    assert_eq!(files.line_index(id, 0), Ok(0));
    assert_eq!(files.line_index(id, 3), Ok(0));
    assert_eq!(files.line_index(id, 4), Ok(1));
    assert_eq!(files.line_index(id, 9), Ok(2));
    assert_eq!(files.line_index(id, 10), Ok(3));
    assert_eq!(files.line_index(id, 1000), Ok(3));
    assert_eq!(files.line_range(id, 0), Ok(0..4));
    assert_eq!(files.line_range(id, 1), Ok(4..9));
    assert_eq!(files.line_range(id, 2), Ok(9..10));
    assert_eq!(files.line_range(id, 3), Ok(10..13));
    assert_eq!(files.line_range(id, 4), Err(FilesError::LineTooLarge { given: 5, max: 3 }));
    assert_eq!(files.line_range(id, 7), Err(FilesError::LineTooLarge { given: 7, max: 3 }));
}

#[test]
fn empty_spans_at_an_edge_are_disjoint() {
    let a = Span::from(1..5);
    for edge in [Span::from(1..1), Span::from(5..5)] {
        assert!(a.disjoint(edge));
        assert!(edge.disjoint(a));
        assert!(edge.disjoint(edge));
    }
}

#[test]
fn spans_take_no_part_in_comparisons_and_hashes() {
    let here = Sp { span: Span::from(1..5), value: 3u32 };
    let there = Sp { span: Span::from(2..9), value: 3u32 };
    assert!(here == there);
    assert!(here == 3u32);
    assert!(here != 4u32);
    let hash_of = |x: &Sp<u32>| {
        let mut hasher = DefaultHasher::new();
        x.hash(&mut hasher);
        hasher.finish()
    };
    assert_eq!(hash_of(&here), hash_of(&there));
    let mut hasher = DefaultHasher::new();
    3u32.hash(&mut hasher);
    assert_eq!(hash_of(&here), hasher.finish());
    let other = Sp { span: Span::from(1..5), value: 4u32 };
    assert_ne!(hash_of(&here), hash_of(&other));
}

#[test]
fn values_become_spanned_without_a_place() {
    let x: Sp<u32> = Sp::from(7);
    assert_eq!(x.span, Span::default());
    assert_eq!(*x, 7);
    let y: Sp<u32> = Sp::default();
    assert_eq!(y.span, Span::default());
    assert_eq!(y.value, 0);
}

#[test]
fn good_text_before_bad_bytes_changes_nothing_about_them() {
    for bad in [&b"\x80\xFFcd"[..], b"\xF0\x80\x80", b"\xED\xA3\xA4cd", b"\xE2\x82"] {
        let alone = prepare_diagnostic_text_source(bad);
        let mut behind = "ab\u{20AC}".as_bytes().to_vec();
        behind.extend_from_slice(bad);
        let whole = prepare_diagnostic_text_source(&behind);
        assert_eq!(whole, format!("ab\u{20AC}{}", alone));
        assert_eq!(prepare_diagnostic_text_source(whole.as_bytes()), whole);
    }
}

#[test]
fn ascii_behind_good_text_is_kept() {
    let source = b"x\xFF\x80y\xC3\xA9z\xE2\x82";
    let text = prepare_diagnostic_text_source(source);
    assert_eq!(text, "x??y\u{e9}z??");
    assert_eq!(text.len(), source.len());
}
