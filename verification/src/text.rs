use crate::parse_structures::{Point, TextRange};
use vstd::prelude::*;
use vstd::string::{StringExecFns, StringSliceAdditionalSpecFns};
use vstd::utf8::{
    encode_utf8, encode_utf8_valid_utf8, is_char_boundary, is_char_boundary_iff_not_is_continuation_byte,
    is_char_boundary_start_end_of_seq, valid_utf8, valid_utf8_split,
};

verus! {

/// A position as the editor protocol gives it: zero-based line and UTF-16 code-unit offset
/// within the line.
#[derive(Clone, Copy, Debug, PartialEq, Eq, Structural)]
pub struct LspPosition {
    pub line: u32,
    pub character: u32,
}

/// A span between two editor positions.
#[derive(Clone, Copy, Debug, PartialEq, Eq, Structural)]
pub struct LspRange {
    pub start: LspPosition,
    pub end: LspPosition,
}

/// The byte offsets just after each newline among the first `n` bytes, in order.
pub open spec fn newline_ends(b: Seq<u8>, n: int) -> Seq<usize>
    decreases n,
{
    if n <= 0 {
        Seq::empty()
    } else if b[n - 1] == 10u8 {
        newline_ends(b, n - 1).push(n as usize)
    } else {
        newline_ends(b, n - 1)
    }
}

/// The start offset of every line, followed by the length of the text as a sentinel.
pub open spec fn line_start_table(b: Seq<u8>) -> Seq<usize> {
    seq![0usize] + newline_ends(b, b.len() as int) + seq![b.len() as usize]
}

/// `(start, end including the newline, end excluding the newline)` of line `row` according
/// to the table `starts`; `(len, len, len)` for a row past the end or a table that does not
/// describe `b`.
pub open spec fn line_bounds_spec(b: Seq<u8>, starts: Seq<usize>, row: int) -> (usize, usize, usize) {
    let len = b.len() as usize;
    if starts.len() < 2 || starts.last() > b.len() || row >= starts.len() - 1 {
        (len, len, len)
    } else {
        let start = starts[row];
        let end_incl = starts[row + 1];
        if start > end_incl || end_incl > b.len() {
            (len, len, len)
        } else if end_incl > start && b[end_incl - 1] == 10u8 {
            (start, end_incl, (end_incl - 1) as usize)
        } else {
            (start, end_incl, end_incl)
        }
    }
}

/// The number of bytes of the UTF-8 encoded character that starts with byte `lead`.
pub open spec fn utf8_width(lead: u8) -> int {
    if lead < 0x80 {
        1
    } else if lead < 0xE0 {
        2
    } else if lead < 0xF0 {
        3
    } else {
        4
    }
}

/// The number of UTF-16 code units of a character whose UTF-8 encoding has `w` bytes.
pub open spec fn utf16_width(w: int) -> int {
    if w == 4 {
        2
    } else {
        1
    }
}

/// The byte column reached by walking whole characters of `line` while `units` UTF-16 code
/// units remain, never splitting a character.
pub open spec fn utf16_to_byte_col(line: Seq<u8>, units: int) -> int
    decreases line.len(),
{
    if line.len() == 0 || units <= 0 {
        0
    } else {
        let w = utf8_width(line[0]);
        if units < utf16_width(w) || w > line.len() {
            0
        } else {
            w + utf16_to_byte_col(line.subrange(w, line.len() as int), units - utf16_width(w))
        }
    }
}

/// The number of UTF-16 code units of the whole characters of `line` within its first
/// `col` bytes.
pub open spec fn byte_col_to_utf16(line: Seq<u8>, col: int) -> int
    decreases line.len(),
{
    if line.len() == 0 {
        0
    } else {
        let w = utf8_width(line[0]);
        if w > col || w > line.len() {
            0
        } else if w == col {
            utf16_width(w)
        } else {
            utf16_width(w) + byte_col_to_utf16(line.subrange(w, line.len() as int), col - w)
        }
    }
}

/// `col` falls between two whole characters of `line`.
pub open spec fn on_char_boundary(line: Seq<u8>, col: int) -> bool
    decreases line.len(),
{
    if col == 0 {
        true
    } else if line.len() == 0 {
        false
    } else {
        let w = utf8_width(line[0]);
        w <= col && w <= line.len() && on_char_boundary(
            line.subrange(w, line.len() as int),
            col - w,
        )
    }
}

pub open spec fn min_usize(a: usize, b: usize) -> usize {
    if a <= b {
        a
    } else {
        b
    }
}

/// The absolute byte offset of point `p`: the start of its row plus its column, clamped to
/// the row's content; the end of the text for a row at or past the end.
pub open spec fn point_to_byte_spec(b: Seq<u8>, p: Point) -> usize {
    let t = line_start_table(b);
    if p.row >= t.len() - 1 {
        b.len() as usize
    } else {
        let (s, _, e) = line_bounds_spec(b, t, p.row as int);
        (s + min_usize(p.column, (e - s) as usize)) as usize
    }
}

/// The point of an editor position: the row is the line, and the column is the byte
/// offset that the UTF-16 offset reaches within the line.
pub open spec fn position_to_point_spec(b: Seq<u8>, pos: LspPosition) -> Point {
    let row = pos.line as usize;
    let (s, _, e) = line_bounds_spec(b, line_start_table(b), row as int);
    if s == b.len() && e == b.len() {
        Point { row, column: 0 }
    } else {
        Point {
            row,
            column: utf16_to_byte_col(b.subrange(s as int, e as int), pos.character as int) as usize,
        }
    }
}

/// The editor position of a point: the line is the row, and the character is the number of
/// UTF-16 code units before the (clamped) column within the line.
pub open spec fn point_to_lsp_position_spec(b: Seq<u8>, p: Point) -> LspPosition {
    let (s, _, e) = line_bounds_spec(b, line_start_table(b), p.row as int);
    if s == b.len() && e == b.len() {
        LspPosition { line: p.row as u32, character: 0 }
    } else {
        let target = min_usize(p.column, (e - s) as usize);
        LspPosition {
            line: p.row as u32,
            character: byte_col_to_utf16(b.subrange(s as int, e as int), target as int) as u32,
        }
    }
}

/// Where `(row, col)` ends up after `b` is typed: each newline starts a new row, every other
/// byte moves one column.
pub open spec fn advance_spec(row: int, col: int, b: Seq<u8>) -> (int, int)
    decreases b.len(),
{
    if b.len() == 0 {
        (row, col)
    } else {
        let (r, c) = advance_spec(row, col, b.drop_last());
        if b.last() == 10u8 {
            (r + 1, 0)
        } else {
            (r, c + 1)
        }
    }
}

/// Typing every prefix of `b` at `(row, col)` keeps the point within machine integers.
pub open spec fn advance_fits(row: int, col: int, b: Seq<u8>) -> bool {
    forall|k: int|
        0 <= k <= b.len() ==> #[trigger] advance_spec(row, col, b.take(k)).0 <= usize::MAX
            && advance_spec(row, col, b.take(k)).1 <= usize::MAX
}

/// The start offset of each line, with the text length appended as a sentinel.
pub fn line_starts(text: &str) -> (starts: Vec<usize>)
    ensures
        starts@ == line_start_table(text.spec_bytes()),
{
    let bytes = text.as_bytes();
    let n = bytes.len();
    let ghost b = text.spec_bytes();
    let mut starts: Vec<usize> = Vec::new();
    starts.push(0);
    let mut i: usize = 0;
    while i < n
        invariant
            n == b.len(),
            bytes@ == b,
            i <= n,
            starts@ == seq![0usize] + newline_ends(b, i as int),
        decreases n - i,
    {
        if bytes[i] == 10u8 {
            starts.push(i + 1);
        }
        proof {
            assert(starts@ =~= seq![0usize] + newline_ends(b, i + 1));
        }
        i = i + 1;
    }
    starts.push(n);
    proof {
        assert(starts@ =~= line_start_table(b));
    }
    starts
}

/// Byte bounds of line `row` according to the line-start table `starts`, which ends with a
/// sentinel: `(start, end including the newline, end excluding the newline)`, or
/// `(len, len, len)` for a row at or past the end or a table that does not fit the text.
pub fn line_bounds(text: &str, starts: &[usize], row: usize) -> (r: (usize, usize, usize))
    ensures
        r == line_bounds_spec(text.spec_bytes(), starts@, row as int),
{
    let bytes = text.as_bytes();
    let len = bytes.len();
    if starts.len() < 2 {
        return (len, len, len);
    }
    let sentinel = starts[starts.len() - 1];
    if sentinel > len {
        return (len, len, len);
    }
    let eof_row = starts.len() - 1;
    if row >= eof_row {
        return (len, len, len);
    }
    let start = starts[row];
    let end_incl = starts[row + 1];
    if start > end_incl || end_incl > len {
        return (len, len, len);
    }
    let end_excl = if end_incl > start && bytes[end_incl - 1] == 10u8 {
        end_incl - 1
    } else {
        end_incl
    };
    (start, end_incl, end_excl)
}

/// Converts a point (row and UTF-8 byte column) into an absolute byte offset into `text`.
///
/// A row at or past the end of the text gives the text's length; the column is clamped to
/// the end of the row's content (before its newline).
pub fn point_to_byte(text: &str, point: Point) -> (r: usize)
    ensures
        r == point_to_byte_spec(text.spec_bytes(), point),
        r <= text.spec_bytes().len(),
{
    let starts = line_starts(text);
    let eof_row = starts.len() - 1;
    if point.row >= eof_row {
        return text.as_bytes().len();
    }
    let (line_start, _line_end_incl, line_end_excl) = line_bounds(text, starts.as_slice(), point.row);
    let max_col = if line_end_excl >= line_start {
        line_end_excl - line_start
    } else {
        0
    };
    let col = if point.column <= max_col {
        point.column
    } else {
        max_col
    };
    line_start + col
}

/// The width in bytes of the UTF-8 character that starts with `lead`.
fn char_width(lead: u8) -> (w: usize)
    ensures
        w == utf8_width(lead),
{
    if lead < 0x80 {
        1
    } else if lead < 0xE0 {
        2
    } else if lead < 0xF0 {
        3
    } else {
        4
    }
}

proof fn lemma_subrange_tail(b: Seq<u8>, s: int, e: int, c: int, w: int)
    requires
        0 <= s <= e <= b.len(),
        0 <= c,
        c + w <= e - s,
        0 < w,
    ensures
        b.subrange(s, e).subrange(c, e - s).subrange(w, e - s - c) =~= b.subrange(s, e).subrange(
            c + w,
            e - s,
        ),
        b.subrange(s, e).subrange(c, e - s)[0] == b[s + c],
{
}

/// Converts an editor position (line and UTF-16 offset) into a point (row and UTF-8 byte
/// column) of `text`.
///
/// A line at or past the end of the text gives column 0. An offset that falls inside a
/// character (between the two code units of a surrogate pair) stops before that character.
pub fn position_to_point(text: &str, position: LspPosition) -> (p: Point)
    ensures
        p == position_to_point_spec(text.spec_bytes(), position),
{
    let ghost b = text.spec_bytes();
    let bytes = text.as_bytes();
    let starts = line_starts(text);
    let row = position.line as usize;
    let (line_start, _line_end_incl, line_end_excl) = line_bounds(text, starts.as_slice(), row);
    if line_start == bytes.len() && line_end_excl == bytes.len() {
        return Point { row, column: 0 };
    }
    let ghost line = b.subrange(line_start as int, line_end_excl as int);
    assert(line_start <= line_end_excl <= b.len());
    let mut remaining = position.character as usize;
    let mut col: usize = 0;
    let mut stop = false;
    proof {
        assert(line.subrange(0, line.len() as int) =~= line);
    }
    while !stop && line_start + col < line_end_excl
        invariant
            bytes@ == b,
            line_start <= line_end_excl <= b.len(),
            line == b.subrange(line_start as int, line_end_excl as int),
            line_start + col <= line_end_excl,
            utf16_to_byte_col(line, position.character as int) == col + utf16_to_byte_col(
                line.subrange(col as int, line.len() as int),
                remaining as int,
            ),
            stop ==> utf16_to_byte_col(line.subrange(col as int, line.len() as int), remaining as int) == 0,
        decreases line_end_excl - col + (if stop { 0int } else { 1int }),
    {
        let ghost rest = line.subrange(col as int, line.len() as int);
        assert(rest[0] == b[line_start + col]);
        if remaining == 0 {
            stop = true;
        } else {
            let w = char_width(bytes[line_start + col]);
            let u: usize = if w == 4 {
                2
            } else {
                1
            };
            if remaining < u || w > line_end_excl - line_start - col {
                stop = true;
            } else {
                proof {
                    lemma_subrange_tail(b, line_start as int, line_end_excl as int, col as int, w as int);
                }
                remaining = remaining - u;
                col = col + w;
            }
        }
    }
    proof {
        if !stop {
            assert(line.subrange(col as int, line.len() as int).len() == 0);
        }
    }
    Point { row, column: col }
}

/// Converts a point (row and UTF-8 byte column) into an editor position (line and UTF-16
/// offset) of `text`.
///
/// A row at or past the end of the text gives character 0; the column is clamped to the end
/// of the row's content, and a column inside a character counts only the characters before
/// it.
pub fn point_to_lsp_position(text: &str, p: Point) -> (pos: LspPosition)
    ensures
        pos == point_to_lsp_position_spec(text.spec_bytes(), p),
{
    let ghost b = text.spec_bytes();
    let bytes = text.as_bytes();
    let starts = line_starts(text);
    let (line_start, _line_end_incl, line_end_excl) = line_bounds(text, starts.as_slice(), p.row);
    if line_start == bytes.len() && line_end_excl == bytes.len() {
        return LspPosition { line: p.row as u32, character: 0 };
    }
    assert(line_start <= line_end_excl <= b.len());
    let ghost line = b.subrange(line_start as int, line_end_excl as int);
    let max_col = line_end_excl - line_start;
    let target_col = if p.column <= max_col {
        p.column
    } else {
        max_col
    };
    let mut consumed: usize = 0;
    let mut units: usize = 0;
    let mut stop = false;
    proof {
        assert(line.subrange(0, line.len() as int) =~= line);
    }
    while !stop && line_start + consumed < line_end_excl
        invariant
            bytes@ == b,
            line_start <= line_end_excl <= b.len(),
            line == b.subrange(line_start as int, line_end_excl as int),
            line_start + consumed <= line_end_excl,
            consumed <= target_col <= line_end_excl - line_start,
            units <= consumed,
            consumed < target_col ==> byte_col_to_utf16(line, target_col as int) == units
                + byte_col_to_utf16(
                line.subrange(consumed as int, line.len() as int),
                target_col - consumed,
            ),
            consumed == target_col ==> byte_col_to_utf16(line, target_col as int) == units,
            stop && consumed < target_col ==> byte_col_to_utf16(
                line.subrange(consumed as int, line.len() as int),
                target_col - consumed,
            ) == 0,
        decreases line_end_excl - consumed + (if stop { 0int } else { 1int }),
    {
        if consumed == target_col {
            stop = true;
        } else {
            let ghost rest = line.subrange(consumed as int, line.len() as int);
            assert(rest[0] == b[line_start + consumed]);
            let w = char_width(bytes[line_start + consumed]);
            if w > target_col - consumed || w > line_end_excl - line_start - consumed {
                stop = true;
            } else {
                proof {
                    lemma_subrange_tail(b, line_start as int, line_end_excl as int, consumed as int, w as int);
                }
                let u: usize = if w == 4 {
                    2
                } else {
                    1
                };
                units = units + u;
                consumed = consumed + w;
            }
        }
    }
    proof {
        if !stop && consumed < target_col {
            assert(line.subrange(consumed as int, line.len() as int).len() == 0);
        }
    }
    LspPosition { line: p.row as u32, character: units as u32 }
}

/// Converts a span given by points into a span of editor positions.
pub fn ts_range_to_lsp_range(text: &str, r: TextRange) -> (out: LspRange)
    ensures
        out.start == point_to_lsp_position_spec(text.spec_bytes(), r.start_point),
        out.end == point_to_lsp_position_spec(text.spec_bytes(), r.end_point),
{
    let start = point_to_lsp_position(text, r.start_point);
    let end = point_to_lsp_position(text, r.end_point);
    LspRange { start, end }
}

/// Advances `(row, column)` over `changed_text`: a newline moves to the start of the next row,
/// any other character moves the column by its UTF-8 length.
pub fn advance_point(row: usize, column: usize, changed_text: &str) -> (p: Point)
    requires
        advance_fits(row as int, column as int, changed_text.spec_bytes()),
    ensures
        (p.row as int, p.column as int) == advance_spec(
            row as int,
            column as int,
            changed_text.spec_bytes(),
        ),
{
    let ghost b = changed_text.spec_bytes();
    let bytes = changed_text.as_bytes();
    let n = bytes.len();
    let mut r = row;
    let mut c = column;
    let mut i: usize = 0;
    proof {
        assert(b.take(0) =~= Seq::<u8>::empty());
    }
    while i < n
        invariant
            n == b.len(),
            bytes@ == b,
            i <= n,
            advance_fits(row as int, column as int, b),
            (r as int, c as int) == advance_spec(row as int, column as int, b.take(i as int)),
        decreases n - i,
    {
        proof {
            assert(b.take(i + 1).drop_last() =~= b.take(i as int));
            assert(b.take(i + 1).last() == b[i as int]);
            assert(advance_spec(row as int, column as int, b.take(i + 1)).0 <= usize::MAX);
        }
        if bytes[i] == 10u8 {
            r = r + 1;
            c = 0;
        } else {
            c = c + 1;
        }
        i = i + 1;
    }
    proof {
        assert(b.take(n as int) =~= b);
    }
    Point { row: r, column: c }
}


/// Converting a point that lies on a character boundary of its line into an editor position
/// and back gives the same point.
pub proof fn law_point_position_round_trip(text: &str, p: Point)
    requires
        p.row < line_start_table(text.spec_bytes()).len() - 1,
        p.row <= u32::MAX,
        ({
            let b = text.spec_bytes();
            let (s, _, e) = line_bounds_spec(b, line_start_table(b), p.row as int);
            &&& p.column <= e - s
            &&& on_char_boundary(b.subrange(s as int, e as int), p.column as int)
            &&& byte_col_to_utf16(b.subrange(s as int, e as int), p.column as int) <= u32::MAX
        }),
    ensures
        position_to_point_spec(text.spec_bytes(), point_to_lsp_position_spec(text.spec_bytes(), p))
            == p,
{
    let b = text.spec_bytes();
    let (s, _, e) = line_bounds_spec(b, line_start_table(b), p.row as int);
    let line = b.subrange(s as int, e as int);
    if !(s == b.len() && e == b.len()) {
        lemma_col_round_trip(line, p.column as int);
    }
}

proof fn lemma_col_round_trip(line: Seq<u8>, c: int)
    requires
        on_char_boundary(line, c),
        0 <= c <= line.len(),
    ensures
        utf16_to_byte_col(line, byte_col_to_utf16(line, c)) == c,
    decreases line.len(),
{
    if c > 0 {
        let w = utf8_width(line[0]);
        let u = utf16_width(w);
        let rest = line.subrange(w, line.len() as int);
        assert(line.len() > 0 && w <= c && w <= line.len());
        if w < c {
            lemma_col_round_trip(rest, c - w);
            lemma_byte_col_nonneg(rest, c - w);
            let x = byte_col_to_utf16(rest, c - w);
            assert(byte_col_to_utf16(line, c) == u + x);
            assert(utf16_to_byte_col(line, u + x) == w + utf16_to_byte_col(rest, x));
        } else {
            assert(byte_col_to_utf16(line, c) == u);
            assert(utf16_to_byte_col(rest, 0) == 0);
            assert(utf16_to_byte_col(line, u) == w + utf16_to_byte_col(rest, 0));
        }
    }
}

proof fn lemma_ranged_edits_none(b: Seq<u8>, cs: Seq<ContentChange>, m: int)
    requires
        0 <= m <= cs.len(),
        ranged_edits(b, cs.take(m)) is None,
    ensures
        ranged_edits(b, cs) is None,
    decreases cs.len(),
{
    if m == cs.len() {
        assert(cs.take(m) =~= cs);
    } else {
        assert(cs.drop_last().take(m) =~= cs.take(m));
        lemma_ranged_edits_none(b, cs.drop_last(), m);
    }
}

proof fn lemma_byte_col_nonneg(line: Seq<u8>, c: int)
    ensures
        byte_col_to_utf16(line, c) >= 0,
    decreases line.len(),
{
    if line.len() > 0 {
        let w = utf8_width(line[0]);
        if w <= c && w <= line.len() && w != c {
            lemma_byte_col_nonneg(line.subrange(w, line.len() as int), c - w);
        }
    }
}

/// `[start, end)` is an ordered byte range of `b` whose ends fall between characters.
pub open spec fn byte_range_ok(b: Seq<u8>, start: int, end: int) -> bool {
    start <= end && is_char_boundary(b, start) && is_char_boundary(b, end)
}

proof fn lemma_encode_utf8_concat(a: Seq<char>, c: Seq<char>)
    ensures
        encode_utf8(a + c) == encode_utf8(a) + encode_utf8(c),
    decreases a.len(),
{
    if a.len() == 0 {
        assert(a + c =~= c);
        assert(encode_utf8(a) + encode_utf8(c) =~= encode_utf8(c));
    } else {
        assert((a + c).drop_first() =~= a.drop_first() + c);
        assert((a + c)[0] == a[0]);
        lemma_encode_utf8_concat(a.drop_first(), c);
        assert(encode_utf8(a + c) =~= encode_utf8(a) + encode_utf8(c));
    }
}

/// A byte range that is valid in `b` is valid in the prefix of `b` that ends where it ends.
proof fn lemma_boundary_in_prefix(b: Seq<u8>, start: int, end: int)
    requires
        valid_utf8(b),
        byte_range_ok(b, start, end),
    ensures
        valid_utf8(b.subrange(0, end)),
        is_char_boundary(b.subrange(0, end), start),
{
    valid_utf8_split(b, end);
    let h = b.subrange(0, end);
    if start < end {
        is_char_boundary_iff_not_is_continuation_byte(b, start);
        is_char_boundary_iff_not_is_continuation_byte(h, start);
    } else {
        is_char_boundary_start_end_of_seq(h);
        assert(h.len() == end);
    }
}

/// The text at byte offsets `range` of `content`, or `None` when the range is reversed, out
/// of bounds, or splits a character.
pub fn get_string_at_byte_range(content: &str, range: std::ops::Range<usize>) -> (r: Option<String>)
    ensures
        match r {
            Some(s) => byte_range_ok(content.spec_bytes(), range.start as int, range.end as int)
                && encode_utf8(s@) == content.spec_bytes().subrange(
                range.start as int,
                range.end as int,
            ),
            None => !byte_range_ok(content.spec_bytes(), range.start as int, range.end as int),
        },
{
    let start = range.start;
    let end = range.end;
    if start > end || !content.is_char_boundary(start) || !content.is_char_boundary(end) {
        return None;
    }
    let ghost b = content.spec_bytes();
    proof {
        encode_utf8_valid_utf8(content@);
        lemma_boundary_in_prefix(b, start as int, end as int);
    }
    let (head, _) = content.split_at(end);
    let (_, mid) = head.split_at(start);
    let s = mid.to_owned();
    proof {
        assert(mid.spec_bytes() =~= b.subrange(start as int, end as int));
    }
    Some(s)
}

/// `text` with the bytes `[start, end)` replaced by `new_text`.
pub fn replace_byte_range(text: &str, start: usize, end: usize, new_text: &str) -> (r: String)
    requires
        byte_range_ok(text.spec_bytes(), start as int, end as int),
    ensures
        encode_utf8(r@) == text.spec_bytes().subrange(0, start as int) + new_text.spec_bytes()
            + text.spec_bytes().subrange(end as int, text.spec_bytes().len() as int),
{
    let ghost b = text.spec_bytes();
    proof {
        encode_utf8_valid_utf8(text@);
        lemma_boundary_in_prefix(b, start as int, end as int);
    }
    let (head, tail) = text.split_at(end);
    let (pre, _) = head.split_at(start);
    let mut r = pre.to_owned();
    r.append(new_text);
    r.append(tail);
    proof {
        lemma_encode_utf8_concat(pre@, new_text@);
        lemma_encode_utf8_concat(pre@ + new_text@, tail@);
        assert(pre.spec_bytes() =~= b.subrange(0, start as int));
    }
    r
}

/// One change to a document's text as the editor sends it: a replacement of a range, or of
/// the whole text when there is no range.
pub struct ContentChange {
    pub range: Option<LspRange>,
    pub text: String,
}

/// The index of the last change that replaces the whole text.
pub open spec fn last_full_change(cs: Seq<ContentChange>) -> Option<int>
    decreases cs.len(),
{
    if cs.len() == 0 {
        None
    } else if cs.last().range is None {
        Some(cs.len() - 1)
    } else {
        last_full_change(cs.drop_last())
    }
}

/// `b` after the ranged change `c`: its start and end positions are mapped to byte offsets
/// of `b` and the bytes between them replaced; `None` when those offsets do not form a valid
/// range.
pub open spec fn ranged_edit(b: Seq<u8>, c: ContentChange) -> Option<Seq<u8>> {
    let r = c.range->0;
    let s = point_to_byte_spec(b, position_to_point_spec(b, r.start));
    let e = point_to_byte_spec(b, position_to_point_spec(b, r.end));
    if byte_range_ok(b, s as int, e as int) {
        Some(b.subrange(0, s as int) + encode_utf8(c.text@) + b.subrange(e as int, b.len() as int))
    } else {
        None
    }
}

/// `b` after the ranged changes `cs`, applied in order.
pub open spec fn ranged_edits(b: Seq<u8>, cs: Seq<ContentChange>) -> Option<Seq<u8>>
    decreases cs.len(),
{
    if cs.len() == 0 {
        Some(b)
    } else {
        match ranged_edits(b, cs.drop_last()) {
            Some(b2) => ranged_edit(b2, cs.last()),
            None => None,
        }
    }
}

/// The text of a document after the editor's changes: the last whole-text replacement when
/// there is one; otherwise every ranged change applied in order. `None` when a ranged change
/// does not map to a valid byte range of the text it applies to.
pub fn apply_content_changes(old_text: &str, changes: &Vec<ContentChange>) -> (r: Option<String>)
    ensures
        match last_full_change(changes@) {
            Some(i) => r is Some && r->0@ == changes@[i].text@,
            None => match r {
                Some(t) => ranged_edits(old_text.spec_bytes(), changes@) == Some(encode_utf8(t@)),
                None => ranged_edits(old_text.spec_bytes(), changes@) is None,
            },
        },
{
    let n = changes.len();
    let mut k = n;
    proof {
        assert(changes@.take(n as int) =~= changes@);
    }
    while k > 0
        invariant
            k <= n == changes@.len(),
            last_full_change(changes@) == last_full_change(changes@.take(k as int)),
            forall|j: int| k <= j < n ==> (#[trigger] changes@[j]).range is Some,
        decreases k,
    {
        proof {
            assert(changes@.take(k as int).drop_last() =~= changes@.take(k - 1));
            assert(changes@.take(k as int).last() == changes@[k - 1]);
        }
        if changes[k - 1].range.is_none() {
            return Some(changes[k - 1].text.clone());
        }
        k = k - 1;
    }
    let mut text = old_text.to_owned();
    let mut i: usize = 0;
    proof {
        assert(changes@.take(0) =~= Seq::<ContentChange>::empty());
    }
    while i < n
        invariant
            n == changes@.len(),
            i <= n,
            last_full_change(changes@) is None,
            forall|j: int| 0 <= j < n ==> (#[trigger] changes@[j]).range is Some,
            ranged_edits(old_text.spec_bytes(), changes@.take(i as int)) == Some(encode_utf8(text@)),
        decreases n - i,
    {
        let change = &changes[i];
        let range = match change.range {
            Some(r) => r,
            None => LspRange { start: LspPosition { line: 0, character: 0 }, end: LspPosition { line: 0, character: 0 } },
        };
        let start_point = position_to_point(text.as_str(), range.start);
        let start_byte = point_to_byte(text.as_str(), start_point);
        let end_point = position_to_point(text.as_str(), range.end);
        let end_byte = point_to_byte(text.as_str(), end_point);
        proof {
            assert(changes@.take(i + 1).drop_last() =~= changes@.take(i as int));
            assert(changes@.take(i + 1).last() == changes@[i as int]);
        }
        if start_byte > end_byte || !text.as_str().is_char_boundary(start_byte)
            || !text.as_str().is_char_boundary(end_byte) {
            proof {
                lemma_ranged_edits_none(old_text.spec_bytes(), changes@, i + 1);
            }
            return None;
        }
        text = replace_byte_range(text.as_str(), start_byte, end_byte, change.text.as_str());
        i = i + 1;
    }
    proof {
        assert(changes@.take(n as int) =~= changes@);
    }
    Some(text)
}


/// `b` after the changes `cs`, applied in order: a change without a range replaces the whole
/// text, a ranged one is applied as `ranged_edit`.
pub open spec fn edits_in_order(b: Seq<u8>, cs: Seq<ContentChange>) -> Option<Seq<u8>>
    decreases cs.len(),
{
    if cs.len() == 0 {
        Some(b)
    } else {
        match edits_in_order(b, cs.drop_last()) {
            Some(b2) => if cs.last().range is None {
                Some(encode_utf8(cs.last().text@))
            } else {
                ranged_edit(b2, cs.last())
            },
            None => None,
        }
    }
}

proof fn lemma_edits_in_order_none(b: Seq<u8>, cs: Seq<ContentChange>, m: int)
    requires
        0 <= m <= cs.len(),
        edits_in_order(b, cs.take(m)) is None,
    ensures
        edits_in_order(b, cs) is None,
    decreases cs.len(),
{
    if m == cs.len() {
        assert(cs.take(m) =~= cs);
    } else {
        assert(cs.drop_last().take(m) =~= cs.take(m));
        lemma_edits_in_order_none(b, cs.drop_last(), m);
    }
}

/// `text` after the editor's changes applied one after the other; `None` when a ranged change
/// does not map to a valid byte range of the text it applies to.
pub fn apply_content_changes_in_order(text: &str, changes: &Vec<ContentChange>) -> (r: Option<String>)
    ensures
        match r {
            Some(t) => edits_in_order(text.spec_bytes(), changes@) == Some(encode_utf8(t@)),
            None => edits_in_order(text.spec_bytes(), changes@) is None,
        },
{
    let n = changes.len();
    let mut current = text.to_owned();
    let mut i: usize = 0;
    proof {
        assert(changes@.take(0) =~= Seq::<ContentChange>::empty());
    }
    while i < n
        invariant
            n == changes@.len(),
            i <= n,
            edits_in_order(text.spec_bytes(), changes@.take(i as int)) == Some(encode_utf8(current@)),
        decreases n - i,
    {
        let change = &changes[i];
        proof {
            assert(changes@.take(i + 1).drop_last() =~= changes@.take(i as int));
            assert(changes@.take(i + 1).last() == changes@[i as int]);
        }
        match change.range {
            None => {
                current = change.text.clone();
            },
            Some(range) => {
                let start_point = position_to_point(current.as_str(), range.start);
                let start_byte = point_to_byte(current.as_str(), start_point);
                let end_point = position_to_point(current.as_str(), range.end);
                let end_byte = point_to_byte(current.as_str(), end_point);
                if start_byte > end_byte || !current.as_str().is_char_boundary(start_byte)
                    || !current.as_str().is_char_boundary(end_byte) {
                    proof {
                        lemma_edits_in_order_none(text.spec_bytes(), changes@, i + 1);
                    }
                    return None;
                }
                current = replace_byte_range(current.as_str(), start_byte, end_byte, change.text.as_str());
            },
        }
        i = i + 1;
    }
    proof {
        assert(changes@.take(n as int) =~= changes@);
    }
    Some(current)
}

} // verus!
