use objectscript_lsp::parse_structures::{Point, TextRange};
use objectscript_lsp::text::{
    advance_point, apply_content_changes, apply_content_changes_in_order, get_string_at_byte_range,
    line_bounds, line_starts, point_to_byte, point_to_lsp_position, position_to_point,
    replace_byte_range, ts_range_to_lsp_range, ContentChange, LspPosition, LspRange,
};

fn pos(line: u32, character: u32) -> LspPosition {
    LspPosition { line, character }
}

fn pt(row: usize, column: usize) -> Point {
    Point { row, column }
}

#[test]
fn line_starts_lists_line_starts_and_sentinel() {
    assert_eq!(line_starts("ab\ncd\n"), vec![0, 3, 6, 6]);
    assert_eq!(line_starts(""), vec![0, 0]);
    assert_eq!(line_starts("x"), vec![0, 1]);
}

#[test]
fn line_bounds_excludes_newline() {
    let text = "ab\ncd\n";
    let starts = line_starts(text);
    assert_eq!(line_bounds(text, &starts, 0), (0, 3, 2));
    assert_eq!(line_bounds(text, &starts, 1), (3, 6, 5));
    assert_eq!(line_bounds(text, &starts, 2), (6, 6, 6));
    assert_eq!(line_bounds(text, &starts, 7), (6, 6, 6));
    assert_eq!(line_bounds(text, &[0], 0), (6, 6, 6));
    assert_eq!(line_bounds(text, &[0, 100], 0), (6, 6, 6));
}

#[test]
fn point_to_byte_clamps_and_handles_eof() {
    let text = "ab\ncd\n";
    assert_eq!(point_to_byte(text, pt(0, 1)), 1);
    assert_eq!(point_to_byte(text, pt(1, 1)), 4);
    assert_eq!(point_to_byte(text, pt(0, 10)), 2);
    assert_eq!(point_to_byte(text, pt(2, 0)), 6);
    assert_eq!(point_to_byte(text, pt(9, 3)), 6);
}

#[test]
fn position_to_point_counts_utf16_units() {
    // "aé😀b": a (1 byte), é (2 bytes), 😀 (4 bytes, 2 UTF-16 units), b
    let text = "a\u{e9}\u{1F600}b\nz";
    assert_eq!(position_to_point(text, pos(0, 0)), pt(0, 0));
    assert_eq!(position_to_point(text, pos(0, 2)), pt(0, 3));
    // inside the surrogate pair: stops before the character
    assert_eq!(position_to_point(text, pos(0, 3)), pt(0, 3));
    assert_eq!(position_to_point(text, pos(0, 4)), pt(0, 7));
    assert_eq!(position_to_point(text, pos(0, 5)), pt(0, 8));
    assert_eq!(position_to_point(text, pos(0, 50)), pt(0, 8));
    assert_eq!(position_to_point(text, pos(1, 1)), pt(1, 1));
    assert_eq!(position_to_point(text, pos(5, 1)), pt(5, 0));
}

#[test]
fn point_to_lsp_position_counts_utf16_units() {
    let text = "a\u{e9}\u{1F600}b\nz";
    assert_eq!(point_to_lsp_position(text, pt(0, 3)), pos(0, 2));
    assert_eq!(point_to_lsp_position(text, pt(0, 7)), pos(0, 4));
    // inside a character: only the characters before it count
    assert_eq!(point_to_lsp_position(text, pt(0, 5)), pos(0, 2));
    // clamped to the line
    assert_eq!(point_to_lsp_position(text, pt(0, 99)), pos(0, 5));
    assert_eq!(point_to_lsp_position(text, pt(3, 2)), pos(3, 0));
}

#[test]
fn point_position_round_trip_on_boundaries() {
    let text = "a\u{e9}\u{1F600}b\nz\u{e9}\n";
    for p in [pt(0, 0), pt(0, 1), pt(0, 3), pt(0, 7), pt(0, 8), pt(1, 0), pt(1, 1), pt(1, 3)] {
        assert_eq!(position_to_point(text, point_to_lsp_position(text, p)), p);
    }
}

#[test]
fn ts_range_converts_both_ends() {
    let text = "ab\n\u{1F600}x";
    let r = TextRange { start_byte: 1, end_byte: 8, start_point: pt(0, 1), end_point: pt(1, 4) };
    let out = ts_range_to_lsp_range(text, r);
    assert_eq!(out, LspRange { start: pos(0, 1), end: pos(1, 2) });
}

#[test]
fn advance_point_moves_over_text() {
    assert_eq!(advance_point(2, 3, "ab"), pt(2, 5));
    assert_eq!(advance_point(2, 3, "ab\ncde"), pt(3, 3));
    assert_eq!(advance_point(0, 0, "\u{e9}"), pt(0, 2));
    assert_eq!(advance_point(1, 7, ""), pt(1, 7));
}

#[test]
fn get_string_at_byte_range_checks_boundaries() {
    let text = "a\u{e9}b";
    assert_eq!(get_string_at_byte_range(text, 0..1), Some("a".to_string()));
    assert_eq!(get_string_at_byte_range(text, 1..3), Some("\u{e9}".to_string()));
    assert_eq!(get_string_at_byte_range(text, 1..2), None);
    assert_eq!(get_string_at_byte_range(text, 3..1), None);
    assert_eq!(get_string_at_byte_range(text, 0..9), None);
    assert_eq!(get_string_at_byte_range(text, 4..4), Some(String::new()));
}

#[test]
fn replace_byte_range_splices() {
    assert_eq!(replace_byte_range("hello world", 6, 11, "there"), "hello there");
    assert_eq!(replace_byte_range("abc", 1, 1, "XY"), "aXYbc");
    assert_eq!(replace_byte_range("a\u{e9}b", 1, 3, "e"), "aeb");
}

#[test]
fn content_changes_prefer_last_full_text() {
    let changes = vec![
        ContentChange { range: None, text: "first".to_string() },
        ContentChange { range: Some(LspRange { start: pos(0, 0), end: pos(0, 1) }), text: "X".to_string() },
        ContentChange { range: None, text: "second".to_string() },
    ];
    assert_eq!(apply_content_changes("old", &changes), Some("second".to_string()));
}

#[test]
fn content_changes_apply_ranges_in_order() {
    let changes = vec![
        ContentChange { range: Some(LspRange { start: pos(0, 0), end: pos(0, 1) }), text: "H".to_string() },
        ContentChange { range: Some(LspRange { start: pos(1, 0), end: pos(1, 0) }), text: "new ".to_string() },
    ];
    assert_eq!(apply_content_changes("hello\nline", &changes), Some("Hello\nnew line".to_string()));
    let reversed = vec![ContentChange {
        range: Some(LspRange { start: pos(0, 3), end: pos(0, 1) }),
        text: "x".to_string(),
    }];
    assert_eq!(apply_content_changes("hello", &reversed), None);
}

#[test]
fn content_changes_in_order_restart_from_full_text() {
    let changes = vec![
        ContentChange { range: None, text: "abc".to_string() },
        ContentChange { range: Some(LspRange { start: pos(0, 1), end: pos(0, 2) }), text: "Z".to_string() },
    ];
    assert_eq!(apply_content_changes_in_order("ignored", &changes), Some("aZc".to_string()));
    assert_eq!(apply_content_changes_in_order("same", &Vec::new()), Some("same".to_string()));
}
