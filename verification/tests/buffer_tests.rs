use rune_core::buffer::Buffer;
use rune_core::buffer::TABSTOP;
use unicode_width::UnicodeWidthStr;

#[test]
fn line_width_ascii_and_emoji() {
    let b = Buffer::from_lines(vec!["abc".to_string(), "\u{1F604}x".to_string()]);
    assert_eq!(b.line_width(0), 3);
    assert_eq!(b.line_width(1), 3);
}

#[test]
fn insert_char_and_navigation_grapheme() {
    let mut b = Buffer::from_lines(vec!["a".to_string()]);
    b.insert_char(1, 0, '\u{1F604}');
    assert_eq!(b.line_string(0), "a\u{1F604}");
    assert_eq!(b.next_col(0, 0), 1);
    assert_eq!(b.next_col(1, 0), 3);
    assert_eq!(b.prev_col(3, 0), 1);
}

#[test]
fn delete_prev_removes_entire_grapheme() {
    let mut b = Buffer::from_lines(vec!["a\u{1F604}b".to_string()]);
    let new_col = b.delete_prev(3, 0);
    assert_eq!(new_col, 1);
    assert_eq!(b.line_string(0), "ab");
}

#[test]
fn col_to_byte_with_multibyte_letters() {
    let b = Buffer::from_lines(vec!["\u{17C}\u{F3}\u{142}w".to_string()]);
    let mut last = 0;
    for col in 0..=b.line_width(0) {
        let bi = b.col_to_byte(0, col);
        assert!(bi >= last);
        last = bi;
        assert!(bi <= b.line_string(0).len());
    }
}

#[test]
fn insert_newline_respects_grapheme_boundaries() {
    let mut b = Buffer::from_lines(vec!["foo\u{1F604}bar".to_string()]);
    b.insert_newline(3, 0);
    assert_eq!(b.line_count(), 2);
    assert_eq!(b.line_string(0), "foo");
    assert_eq!(b.line_string(1), "\u{1F604}bar");

    b.insert_newline(1, 1);
    assert_eq!(b.line_count(), 3);
    assert_eq!(b.line_string(1), "");
    assert_eq!(b.line_string(2), "\u{1F604}bar");
}

#[test]
fn merge_up_returns_display_width() {
    let mut b = Buffer::from_lines(vec!["\u{17C}o".to_string(), "\u{142}w".to_string()]);
    let w = UnicodeWidthStr::width("\u{17C}o");
    let got = b.merge_up(1);
    assert_eq!(got, w);
    assert_eq!(b.line_count(), 1);
    assert_eq!(b.line_string(0), "\u{17C}o\u{142}w");
}

#[test]
fn delete_at_removes_grapheme_under_column() {
    let mut b = Buffer::from_lines(vec!["a\u{1F604}b".to_string()]);
    b.delete_at(1, 0);
    assert_eq!(b.line_string(0), "ab");
}

#[test]
fn tabs_affect_width_and_navigation() {
    let b = Buffer::from_lines(vec!["a\tb".to_string()]);
    assert_eq!(TABSTOP, 4);
    assert_eq!(b.line_width(0), 5);

    assert_eq!(b.next_col(0, 0), 1);
    assert_eq!(b.next_col(1, 0), 4);
    assert_eq!(b.next_col(4, 0), 5);

    assert_eq!(b.prev_col(4, 0), 1);
    assert_eq!(b.prev_col(1, 0), 0);
}

#[test]
fn from_string_strips_carriage_returns() {
    let b = Buffer::from_string("one\r\ntwo\r\n".to_string());
    assert_eq!(b.line_string(0), "one");
    assert_eq!(b.line_string(1), "two");
    assert_eq!(b.text_string(), "one\ntwo\n");
}

#[test]
fn insert_then_remove_same_span_restores_text() {
    let mut b = Buffer::from_lines(vec!["hello world".to_string(), "second".to_string()]);
    let before = b.text_string();
    let idx = b.char_index_at_col(0, 5);
    b.insert_str_at(0, 5, "XYZ");
    assert_ne!(b.text_string(), before);
    b.remove_char_range(idx, idx + 3);
    assert_eq!(b.text_string(), before);
}

#[test]
fn word_motions_on_a_line() {
    let b = Buffer::from_lines(vec!["hello world".to_string()]);
    assert_eq!(b.next_word_start(0, 0), 6);
    assert_eq!(b.prev_word_start(6, 0), 0);
    assert_eq!(b.end_of_word(0, 0), 5);
    assert_eq!(b.end_of_word(6, 0), 11);
}

#[test]
fn word_motions_keep_the_column_when_no_word_qualifies() {
    let b = Buffer::from_lines(vec!["hello".to_string(), ".. !!".to_string()]);
    assert_eq!(b.next_word_start(1, 0), 1);
    assert_eq!(b.end_of_word(5, 0), 5);
    assert_eq!(b.prev_word_start(2, 1), 2);
    assert_eq!(b.next_word_start(0, 1), 0);
}

#[test]
fn line_string_out_of_range_is_empty() {
    let b = Buffer::from_lines(vec!["only".to_string()]);
    assert_eq!(b.line_string(5), "");
    assert_eq!(b.line_width(5), 0);
}

#[test]
fn string_from_char_range_clamps_bounds() {
    let b = Buffer::from_lines(vec!["abc".to_string()]);
    assert_eq!(b.string_from_char_range(1, 3), "bc");
    assert_eq!(b.string_from_char_range(1, 99), "bc");
    assert_eq!(b.string_from_char_range(99, 2), "");
}

#[test]
fn clear_line_keeps_line_break() {
    let mut b = Buffer::from_lines(vec!["abc".to_string(), "def".to_string()]);
    b.clear_line(0);
    assert_eq!(b.line_count(), 2);
    assert_eq!(b.line_string(0), "");
    assert_eq!(b.line_string(1), "def");
}

#[test]
fn to_lines_round_trip() {
    let lines = vec!["a".to_string(), "".to_string(), "ccc".to_string()];
    let b = Buffer::from_lines(lines.clone());
    assert_eq!(b.to_lines(), lines);
}
