//! Positions, rendering, and the input cursor.

use ezpc::result::{to_dec_string, EzpcError, Position, RawEzpcError};
use ezpc::{tag, Input};

#[test]
fn position_counts_lines_and_columns() {
    // S6: an error at byte offset six of "a\nb\nbad".
    let p = Position::from_ptr("a\nb\nbad", 6);
    assert_eq!(p.line, 3);
    assert_eq!(p.column, 3);
    assert_eq!(p.line_str, "bad");
}

#[test]
fn position_at_start_and_end() {
    let p = Position::from_ptr("abc", 0);
    assert_eq!(p.line, 1);
    assert_eq!(p.column, 1);
    assert_eq!(p.line_str, "abc");
    let q = Position::from_ptr("abc", 3);
    assert_eq!(q.line, 1);
    assert_eq!(q.column, 4);
    assert_eq!(q.line_str, "abc");
}

#[test]
fn position_counts_scalars_not_bytes() {
    // P9 on concrete values: the column counts Unicode scalar values; the
    // offset is in bytes. "aß\nöx": the x sits at byte offset six, in
    // column two of line two.
    let src = "a\u{df}\n\u{f6}x";
    let p = Position::from_ptr(src, 6);
    assert_eq!(p.line, 2);
    assert_eq!(p.column, 2);
    assert_eq!(p.line_str, "\u{f6}x");
    let q = Position::from_ptr(src, 4);
    assert_eq!(q.line, 2);
    assert_eq!(q.column, 1);
}

#[test]
fn position_excerpt_stops_at_carriage_return() {
    let p = Position::from_ptr("ab\rcd", 1);
    assert_eq!(p.line, 1);
    assert_eq!(p.column, 2);
    assert_eq!(p.line_str, "ab");
}

#[test]
fn position_renders_the_caret_block() {
    // The exact diagnostic format: arrow line, gutter, excerpt, caret.
    let p = Position::from_ptr("a\nb\nbad", 6);
    let shown = p.to_display_string();
    assert_eq!(shown, " --> line 3, column 3\n  |\n3 | bad\n  |   ^");
}

#[test]
fn position_pads_the_gutter_by_digits() {
    let mut src = String::new();
    for _ in 0..12 {
        src.push('\n');
    }
    src.push_str("xyz");
    let p = Position::from_ptr(&src, 13);
    assert_eq!(p.line, 13);
    assert_eq!(p.column, 2);
    let shown = p.to_display_string();
    assert_eq!(shown, " --> line 13, column 2\n   |\n13 | xyz\n   |  ^");
}

#[test]
fn decimal_rendering() {
    assert_eq!(to_dec_string(0), "0");
    assert_eq!(to_dec_string(7), "7");
    assert_eq!(to_dec_string(10), "10");
    assert_eq!(to_dec_string(120), "120");
    assert_eq!(to_dec_string(98765), "98765");
}

#[test]
fn error_from_raw_keeps_kind_and_payload() {
    let src = "ab\ncd";
    let e = EzpcError::from_raw(RawEzpcError::Mismatch { pos: 4 }, src);
    match e {
        EzpcError::PartialParse { pos } => {
            assert_eq!(pos.line, 2);
            assert_eq!(pos.column, 2);
            assert_eq!(pos.line_str, "cd");
        }
        other => panic!("expected a partial parse, got {:?}", other),
    }
    let f = EzpcError::from_raw(RawEzpcError::Fatal { message: "oops", pos: 0 }, src);
    assert!(matches!(f, EzpcError::Fatal { expected: "oops", .. }));
    let g = EzpcError::from_raw(
        RawEzpcError::Recursion { max_depth: 5, parser_name: "value", pos: 0 },
        src,
    );
    assert!(matches!(
        g,
        EzpcError::Recursion { max_depth: 5, parser_name: "value", .. }
    ));
}

#[test]
fn error_rendering_names_the_kind() {
    let err = tag("ab").match_all("abc").unwrap_err();
    let shown = err.to_display_string();
    assert_eq!(
        shown,
        "Parsing stopped before reaching end of input:\n --> line 1, column 3\n  |\n1 | abc\n  |   ^"
    );
    let fatal = EzpcError::from_raw(RawEzpcError::Fatal { message: "boom", pos: 0 }, "x");
    assert_eq!(
        fatal.to_display_string(),
        "boom\n --> line 1, column 1\n  |\n1 | x\n  | ^"
    );
    let rec = EzpcError::from_raw(
        RawEzpcError::Recursion { max_depth: 12, parser_name: "value", pos: 0 },
        "x",
    );
    assert_eq!(
        rec.to_display_string(),
        "Exceeded maximum recursion depth 12 of parser value:\n --> line 1, column 1\n  |\n1 | x\n  | ^"
    );
}

#[test]
fn input_cursor_basics() {
    let i = Input::new("hello");
    assert!(!i.is_empty());
    assert!(i.starts_with("he"));
    assert!(!i.starts_with("el"));
    let j = i.skip(2);
    assert_eq!(j.pos, 2);
    assert_eq!(j.as_str(), "llo");
    assert!(j.starts_with("ll"));
    assert_eq!(j.get_consumed(&i), "he");
    assert!(Input::new("").is_empty());
}

#[test]
fn input_pop_char_decodes_utf8() {
    let i = Input::new("h\u{e9}llo");
    let (c, j) = i.pop_char().unwrap();
    assert_eq!(c, 'h');
    assert_eq!(j.pos, 1);
    let (c2, k) = j.pop_char().unwrap();
    assert_eq!(c2, '\u{e9}');
    assert_eq!(k.pos, 3);
    assert!(Input::new("").pop_char().is_none());
}
