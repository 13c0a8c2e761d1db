use nom_span::content::CompareOutcome;
use nom_span::split::SplitError;
use nom_span::Spanned;

#[test]
fn utf8_vs_ascii() {
    let raised_hands = "\u{1F64C}";
    let utf8 = Spanned::new(raised_hands.as_bytes(), true);
    let ascii = Spanned::new(raised_hands.as_bytes(), false);

    let (utf8_after, _) = utf8.take_split(utf8.input_len());
    let (ascii_after, _) = ascii.take_split(ascii.input_len());

    assert_eq!(utf8_after.col(), 2);
    assert_eq!(ascii_after.col(), 5);
}

#[test]
fn can_compare_with_different_type() {
    let utf8 = Spanned::new(b"test\n", true);

    let (utf8_after, _) = utf8
        .split_at_position_complete(|b| b == b'\r' || b == b'\n')
        .unwrap();

    assert_eq!(utf8_after.data(), b"\n");
    assert_eq!(utf8_after.compare(b"\n"), CompareOutcome::Matched);
}

#[test]
fn new_starts_at_origin() {
    let span = Spanned::new(b"{\"hello\": \"world\"}", true);
    assert_eq!(span.line(), 1);
    assert_eq!(span.col(), 1);
    assert_eq!(span.byte_offset(), 0);
    assert_eq!(span.data(), b"{\"hello\": \"world\"}");
    assert_eq!(span.input_len(), 18);
}

#[test]
fn offset_is_additive() {
    let span = Spanned::new(b"ab\ncd\nef", false);
    let (s1, _) = span.take_split(3);
    let (s2, _) = s1.take_split(2);
    assert_eq!(s1.byte_offset(), 3);
    assert_eq!(s2.byte_offset(), 3 + 2);
    assert_eq!(span.offset(&s2), 5);
}

#[test]
fn take_keeps_position() {
    let span = Spanned::new(b"line one\nline two", true);
    let (middle, _) = span.take_split(10);
    let prefix = middle.take(4);
    assert_eq!(prefix.line(), middle.line());
    assert_eq!(prefix.col(), middle.col());
    assert_eq!(prefix.byte_offset(), middle.byte_offset());
    assert_eq!(prefix.data(), b"ine ");
}

#[test]
fn line_is_non_decreasing() {
    let span = Spanned::new(b"a\nbb\nccc\ndddd", false);
    let mut current = span;
    let mut last_line = current.line();
    for step in [2, 3, 4, 2] {
        let (rest, _) = current.take_split(step);
        assert!(rest.line() >= last_line);
        last_line = rest.line();
        current = rest;
    }
    assert_eq!(current.line(), 4);
}

#[test]
fn newline_resets_column_bytes() {
    let span = Spanned::new(b"ab\ncd-tail", false);
    let (rest, _) = span.take_split(5);
    assert_eq!(rest.line(), 2);
    assert_eq!(rest.col(), 1 + 2);
    assert_eq!(rest.byte_offset(), 5);
}

#[test]
fn newline_resets_column_utf8() {
    // two-byte e-acute after the newline counts as one column in UTF-8 mode
    let text = "ab\n\u{E9}d-tail";
    let utf8 = Spanned::new(text.as_bytes(), true);
    let ascii = Spanned::new(text.as_bytes(), false);
    let (utf8_rest, _) = utf8.take_split(6);
    let (ascii_rest, _) = ascii.take_split(6);
    assert_eq!(utf8_rest.line(), 2);
    assert_eq!(utf8_rest.col(), 1 + 2);
    assert_eq!(ascii_rest.line(), 2);
    assert_eq!(ascii_rest.col(), 1 + 3);
}

#[test]
fn several_newlines_count_each() {
    let span = Spanned::new(b"a\nb\nc\ndef", false);
    let (rest, consumed) = span.take_split(7);
    assert_eq!(consumed.line(), 1);
    assert_eq!(rest.line(), 4);
    assert_eq!(rest.col(), 2);
    assert_eq!(rest.data(), b"ef");
}

#[test]
fn column_carries_forward_without_newline() {
    let span = Spanned::new(b"abcdef", false);
    let (rest1, _) = span.take_split(2);
    let (rest2, _) = rest1.take_split(3);
    assert_eq!(rest2.line(), 1);
    assert_eq!(rest2.col(), 1 + 2 + 3);
}

#[test]
fn accessors_are_idempotent() {
    let span = Spanned::new(b"stable\nvalue", true);
    let (rest, _) = span.take_split(9);
    assert_eq!(rest.line(), rest.line());
    assert_eq!(rest.col(), rest.col());
    assert_eq!(rest.byte_offset(), rest.byte_offset());
    assert_eq!(rest.data(), rest.data());
    assert_eq!(rest.as_bytes(), rest.as_bytes());
}

#[test]
fn split_at_position_finds_first_match() {
    let span = Spanned::new(b"key=value", false);
    let (rest, prefix) = span.split_at_position(|b| b == b'=').unwrap();
    assert_eq!(prefix.data(), b"key");
    assert_eq!(rest.data(), b"=value");
    assert_eq!(rest.byte_offset(), 3);
    assert_eq!(rest.col(), 4);
}

#[test]
fn split_at_position_defers_when_nothing_matches() {
    let span = Spanned::new(b"key", false);
    let r = span.split_at_position(|b| b == b'=');
    assert_eq!(r, Err(SplitError::Incomplete(1)));
    let r1 = span.split_at_position1(|b| b == b'=');
    assert_eq!(r1, Err(SplitError::Incomplete(1)));
}

#[test]
fn split_at_position1_accepts_zero_length_match() {
    // the streaming one-or-more variant does not reject a match at index 0
    let span = Spanned::new(b"=rest", false);
    let (rest, prefix) = span.split_at_position1(|b| b == b'=').unwrap();
    assert_eq!(prefix.data(), b"");
    assert_eq!(rest.data(), b"=rest");
}

#[test]
fn split_complete_consumes_everything_without_match() {
    let span = Spanned::new(b"no match here", false);
    let (rest, prefix) = span.split_at_position_complete(|b| b == b'!').unwrap();
    assert_eq!(prefix.data(), b"no match here");
    assert_eq!(rest.data(), b"");
    assert_eq!(rest.byte_offset(), 13);
}

#[test]
fn split1_complete_rejects_zero_length_match() {
    let span = Spanned::new(b"=rest", false);
    let r = span.split_at_position1_complete(|b| b == b'=');
    match r {
        Err(SplitError::Unmet(at)) => {
            assert_eq!(at.byte_offset(), 0);
            assert_eq!(at.data(), b"=rest");
        }
        other => panic!("expected an unmet requirement, got {:?}", other),
    }
}

#[test]
fn split1_complete_rejects_empty_input() {
    let span = Spanned::new(b"", false);
    let r = span.split_at_position1_complete(|b| b == b'=');
    assert!(matches!(r, Err(SplitError::Unmet(_))));
}

#[test]
fn split1_complete_splits_or_consumes_all() {
    let span = Spanned::new(b"word rest", false);
    let (rest, prefix) = span.split_at_position1_complete(|b| b == b' ').unwrap();
    assert_eq!(prefix.data(), b"word");
    assert_eq!(rest.data(), b" rest");

    let span2 = Spanned::new(b"word", false);
    let (rest2, prefix2) = span2.split_at_position1_complete(|b| b == b' ').unwrap();
    assert_eq!(prefix2.data(), b"word");
    assert_eq!(rest2.data(), b"");
}

#[test]
fn compare_distinguishes_all_outcomes() {
    let span = Spanned::new(b"test\n", true);
    assert_eq!(span.compare(b"te"), CompareOutcome::Matched);
    assert_eq!(span.compare(b"test\nmore"), CompareOutcome::Incomplete);
    assert_eq!(span.compare(b"text"), CompareOutcome::Mismatch);
}

#[test]
fn compare_no_case_folds_ascii_only() {
    let span = Spanned::new(b"TeSt\n", true);
    assert_eq!(span.compare_no_case(b"tEsT"), CompareOutcome::Matched);
    assert_eq!(span.compare(b"tEsT"), CompareOutcome::Mismatch);
    assert_eq!(span.compare_no_case(b"tExT"), CompareOutcome::Mismatch);
}

#[test]
fn find_token_reports_membership() {
    let span = Spanned::new(b"abc\ndef", false);
    assert!(span.find_token(b'\n'));
    assert!(span.find_token(b'f'));
    assert!(!span.find_token(b'z'));
}

#[test]
fn find_substring_reports_first_occurrence() {
    let span = Spanned::new(b"one two two", false);
    assert_eq!(span.find_substring(b"two"), Some(4));
    assert_eq!(span.find_substring(b"one"), Some(0));
    assert_eq!(span.find_substring(b"three"), None);
    assert_eq!(span.find_substring(b""), Some(0));
}

#[test]
fn extend_into_appends_content() {
    let span = Spanned::new(b"tail", false);
    let mut acc = span.new_builder();
    assert_eq!(acc, b"");
    acc.extend_from_slice(b"head-");
    span.extend_into(&mut acc);
    assert_eq!(acc, b"head-tail");
}

#[test]
fn slice_index_reports_needed_bytes() {
    let span = Spanned::new(b"abcde", false);
    assert_eq!(span.slice_index(3), Ok(3));
    assert_eq!(span.slice_index(5), Ok(5));
    assert_eq!(span.slice_index(8), Err(3));
}

#[test]
fn narrowing_never_mutates_the_parent() {
    let span = Spanned::new(b"first\nsecond", false);
    let (rest, _) = span.take_split(6);
    assert_eq!(span.line(), 1);
    assert_eq!(span.col(), 1);
    assert_eq!(span.byte_offset(), 0);
    assert_eq!(span.data(), b"first\nsecond");
    assert_eq!(rest.line(), 2);
}
