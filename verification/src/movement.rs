//! Cursor motions in display space.
//!
//! Every motion is a pure function of the display map, the text and a
//! display point, so it works the same with and without soft wrapping (a
//! map without wrapped rows moves row by row). Vertical motion keeps a goal
//! column: the display column the cursor had when vertical motion began.

use vstd::prelude::*;
use vstd::utf8::*;

use crate::display_map::{
    buffer_to_display, columns_fit, display_row_len, display_start, display_to_buffer,
    lemma_locate_tiled, lemma_row_holding_bounds, locate_ok, row_holding, tiled_len, tiles,
    total_lines, DisplayMap, DisplayPoint, Segments,
};
use crate::point::Point as BufferPoint;
use crate::rope::{
    ceil_from, count_newlines, floor_boundary, lemma_boundary_shift, lemma_line_start,
    lemma_next_newline, lemma_offset_point_in_row, lemma_row_boundaries, line_len, line_start,
    max_row, next_newline, offset_to_point, point_to_offset, Rope,
};
use crate::rope::lemma_encode_append;
use crate::segmentation::{
    char_offset, is_ascii_letter, is_white_space, lemma_char_offset_inside, word_break_before, word_joined_before,
    all_white_space, is_blank, is_segmentation, leading_white_space_count, leading_white_space_len,
    word_bound_offsets, word_bound_starts,
};
use crate::selection::SelectionGoal;

verus! {

broadcast use vstd::utf8::group_utf8_lib;

/// A buffer row's visual rows fit its text: they tile the row, cover
/// exactly its length and start at character boundaries.
pub open spec fn row_fits(segs: Segments, b: Seq<u8>, r: nat) -> bool {
    &&& tiles(segs)
    &&& segs.len() > 0 ==> tiled_len(segs) == line_len(b, r)
    &&& forall|i: int|
        0 <= i < segs.len() ==> is_char_boundary(b, line_start(b, r) + #[trigger] segs[i].0)
}

/// The display map describes this text: one entry per row, each fitting it.
pub open spec fn fits(rows: Seq<Segments>, b: Seq<u8>) -> bool {
    &&& rows.len() == max_row(b) + 1
    &&& forall|r: int| 0 <= r < rows.len() ==> #[trigger] row_fits(rows[r], b, r as nat)
}

/// The byte width of a visual row.
pub open spec fn width(rows: Seq<Segments>, b: Seq<u8>, row: nat) -> nat {
    match display_row_len(rows, row) {
        Some(len) => len as nat,
        None => line_len(b, display_to_buffer(rows, DisplayPoint { row: row as u32, column: 0 }).row as nat),
    }
}

/// The text offset of a display point.
pub open spec fn offset_of(rows: Seq<Segments>, b: Seq<u8>, p: DisplayPoint) -> nat {
    point_to_offset(b, display_to_buffer(rows, p))
}

/// The display point of a text offset.
pub open spec fn display_of(rows: Seq<Segments>, b: Seq<u8>, off: nat) -> DisplayPoint {
    buffer_to_display(rows, offset_to_point(b, off))
}

/// One character to the left, or `None` at the start of the text.
pub open spec fn saturating_left_spec(rows: Seq<Segments>, b: Seq<u8>, p: DisplayPoint) -> Option<DisplayPoint> {
    let off = offset_of(rows, b, p);
    if off == 0 {
        None
    } else {
        Some(display_of(rows, b, floor_boundary(b, (off - 1) as nat)))
    }
}

/// One character to the right, or `None` at the end of the text.
pub open spec fn saturating_right_spec(rows: Seq<Segments>, b: Seq<u8>, p: DisplayPoint) -> Option<DisplayPoint> {
    let off = offset_of(rows, b, p);
    if off >= b.len() {
        None
    } else {
        Some(display_of(rows, b, ceil_from(b, off + 1)))
    }
}

/// The column that vertical motion keeps.
pub open spec fn goal_column(p: DisplayPoint, goal: SelectionGoal) -> u32 {
    match goal {
        SelectionGoal::HorizontalPosition(x) => x,
        SelectionGoal::Unset => p.column,
    }
}

/// The goal column clipped to a visual row's width.
pub open spec fn clamp_to_width(goal: u32, w: nat) -> u32 {
    if goal <= w {
        goal
    } else {
        w as u32
    }
}

/// The last visual row.
pub open spec fn max_display_row(rows: Seq<Segments>) -> nat {
    if total_lines(rows) == 0 {
        0
    } else {
        (total_lines(rows) - 1) as nat
    }
}

/// One visual row up, keeping the goal column; the first row stays put
/// and forgets the goal.
pub open spec fn up_spec(rows: Seq<Segments>, b: Seq<u8>, p: DisplayPoint, goal: SelectionGoal) -> (DisplayPoint, SelectionGoal) {
    if p.row == 0 {
        (p, SelectionGoal::Unset)
    } else {
        let g = goal_column(p, goal);
        let t = (p.row - 1) as nat;
        (
            DisplayPoint { row: t as u32, column: clamp_to_width(g, width(rows, b, t)) },
            SelectionGoal::HorizontalPosition(g),
        )
    }
}

/// One visual row down, keeping the goal column; on the last row the
/// cursor goes to the end of the row and forgets the goal.
pub open spec fn down_spec(rows: Seq<Segments>, b: Seq<u8>, p: DisplayPoint, goal: SelectionGoal) -> (DisplayPoint, SelectionGoal) {
    if p.row >= max_display_row(rows) {
        (DisplayPoint { row: p.row, column: width(rows, b, p.row as nat) as u32 }, SelectionGoal::Unset)
    } else {
        let g = goal_column(p, goal);
        let t = (p.row + 1) as nat;
        (
            DisplayPoint { row: t as u32, column: clamp_to_width(g, width(rows, b, t)) },
            SelectionGoal::HorizontalPosition(g),
        )
    }
}

/// The bytes of a visual row.
pub open spec fn row_bytes(rows: Seq<Segments>, b: Seq<u8>, row: nat) -> Seq<u8> {
    let start = offset_of(rows, b, DisplayPoint { row: row as u32, column: 0 });
    b.subrange(start as int, (start + width(rows, b, row)) as int)
}

/// The start of the beginning of a visual row; with `indented`, the first
/// character after the leading white space, unless the point is already
/// there or before it.
pub open spec fn line_beginning_spec(rows: Seq<Segments>, b: Seq<u8>, p: DisplayPoint, indented: bool) -> DisplayPoint {
    let start = DisplayPoint { row: p.row, column: 0 };
    if !indented {
        start
    } else {
        let rso = offset_of(rows, b, start);
        let head = offset_of(rows, b, p);
        let prefix = decode_utf8(b.subrange(rso as int, head as int));
        let indent = encode_utf8(prefix.take(leading_white_space_count(prefix) as int)).len();
        let ip = DisplayPoint { row: p.row, column: indent as u32 };
        if ip.lt_spec(p) {
            ip
        } else {
            start
        }
    }
}

/// Where word piece `i` of `bytes` ends.
pub open spec fn piece_end(bytes: Seq<u8>, starts: Seq<usize>, i: int) -> int {
    if i + 1 < starts.len() {
        starts[i + 1] as int
    } else {
        bytes.len() as int
    }
}

/// Whether word piece `i` is all white space (and so no word).
pub open spec fn piece_blank(bytes: Seq<u8>, starts: Seq<usize>, i: int) -> bool {
    all_white_space(decode_utf8(bytes.subrange(starts[i] as int, piece_end(bytes, starts, i))))
}

/// The start of the last word that starts before `column`, from piece `i` on.
pub open spec fn last_word_start(bytes: Seq<u8>, starts: Seq<usize>, column: int, i: nat, found: Option<usize>) -> Option<usize>
    decreases starts.len() - i,
{
    if i >= starts.len() || starts[i as int] >= column {
        found
    } else if piece_blank(bytes, starts, i as int) {
        last_word_start(bytes, starts, column, i + 1, found)
    } else {
        last_word_start(bytes, starts, column, i + 1, Some(starts[i as int]))
    }
}

/// The end of the first word that ends after `column`, from piece `i` on.
pub open spec fn first_word_end(bytes: Seq<u8>, starts: Seq<usize>, column: int, i: nat) -> int
    decreases starts.len() - i,
{
    if i >= starts.len() {
        bytes.len() as int
    } else if piece_end(bytes, starts, i as int) > column && !piece_blank(bytes, starts, i as int) {
        piece_end(bytes, starts, i as int)
    } else {
        first_word_end(bytes, starts, column, i + 1)
    }
}

/// The start of the previous word on the point's visual row (words do not
/// cross visual rows); the point itself when there is none.
pub open spec fn previous_word_start_spec(rows: Seq<Segments>, b: Seq<u8>, p: DisplayPoint) -> DisplayPoint {
    let bytes = row_bytes(rows, b, p.row as nat);
    let starts = word_bound_starts(decode_utf8(bytes));
    match last_word_start(bytes, starts, p.column as int, 0, None) {
        Some(s) => DisplayPoint { row: p.row, column: s as u32 },
        None => p,
    }
}

/// The end of the next word on the point's visual row; the end of the
/// visual row when there is none.
pub open spec fn next_word_end_spec(rows: Seq<Segments>, b: Seq<u8>, p: DisplayPoint) -> DisplayPoint {
    let bytes = row_bytes(rows, b, p.row as nat);
    let starts = word_bound_starts(decode_utf8(bytes));
    DisplayPoint { row: p.row, column: first_word_end(bytes, starts, p.column as int, 0) as u32 }
}

// ---- facts ----

/// A point within its row can be placed on the display map.
proof fn lemma_point_locates(rows: Seq<Segments>, b: Seq<u8>, p: BufferPoint)
    requires
        fits(rows, b),
        p.row <= max_row(b),
        p.column <= line_len(b, p.row as nat),
    ensures
        locate_ok(rows[p.row as int], p.column as int),
{
    let r: int = p.row as int;
    let segs = rows[r];
    assert(row_fits(rows[r], b, r as nat));
    if segs.len() > 0 {
        lemma_locate_tiled(segs, p.column as int);
    }
}

/// The point of any offset can be placed on the display map.
proof fn lemma_offset_locates(rows: Seq<Segments>, b: Seq<u8>, o: nat)
    requires
        fits(rows, b),
        Rope::well_formed(b),
        o <= b.len(),
    ensures
        (offset_to_point(b, o).row as int) < rows.len() ==> locate_ok(
            rows[offset_to_point(b, o).row as int],
            offset_to_point(b, o).column as int,
        ),
{
    lemma_offset_point_in_row(b, o);
    lemma_point_locates(rows, b, offset_to_point(b, o));
}

/// A visual row that exists spans a stretch of the text between two
/// character boundaries.
proof fn lemma_row_span(rows: Seq<Segments>, b: Seq<u8>, row: nat)
    requires
        fits(rows, b),
        Rope::well_formed(b),
        DisplayMap::well_formed(rows),
        row < total_lines(rows),
    ensures
        ({
            let start = offset_of(rows, b, DisplayPoint { row: row as u32, column: 0 });
            &&& start + width(rows, b, row) <= b.len()
            &&& is_char_boundary(b, start as int)
            &&& is_char_boundary(b, (start + width(rows, b, row)) as int)
        }),
{
    lemma_row_holding_bounds(rows, row, 0);
    let i = row_holding(rows, row);
    let ii: int = i as int;
    assert(i < rows.len());
    assert(row_fits(rows[ii], b, ii as nat));
    let segs = rows[ii];
    lemma_line_start(b, i);
    let ls = line_start(b, i);
    lemma_next_newline(b, ls);
    lemma_row_boundaries(b, i);
    assert(line_len(b, i) == next_newline(b, ls) - ls);
    if segs.len() > 0 {
        let k = row - display_start(rows, i);
        assert(0 <= k < segs.len());
        assert(columns_fit(rows[ii]));
        assert(segs[k].0 < segs[k].1);
        lemma_tiles_mono(segs, k, segs.len() - 1);
        assert(segs[k].0 <= line_len(b, i));
        assert(is_char_boundary(b, ls + segs[k].0));
        if k + 1 < segs.len() {
            assert(segs[k].1 == segs[k + 1].0);
            lemma_tiles_mono(segs, k + 1, segs.len() - 1);
            assert(is_char_boundary(b, ls + segs[k + 1].0));
        }
    }
}

proof fn lemma_tiles_mono(segs: Segments, i: int, j: int)
    requires
        tiles(segs),
        0 <= i <= j < segs.len(),
    ensures
        segs[i].0 <= segs[j].0,
        segs[i].1 <= segs[j].1,
    decreases j - i,
{
    if i < j {
        lemma_tiles_mono(segs, i + 1, j);
    }
}

// ---- exec ----

/// The byte width of visual row `row`.
fn display_row_width(map: &DisplayMap, rope: &Rope, row: u32) -> (r: u32)
    ensures
        r == width(map@, rope@, row as nat) as u32,
{
    match map.display_row_len(row) {
        Some(len) => len,
        None => {
            let buffer_row = map.display_point_to_buffer_point(DisplayPoint::new(row, 0)).row;
            rope.line_len(buffer_row)
        },
    }
}

/// One character to the left; at the start of a visual row it lands on the
/// last character of the previous one. `None` at the start of the text.
pub fn saturating_left(map: &DisplayMap, rope: &Rope, point: DisplayPoint) -> (r: Option<DisplayPoint>)
    requires
        fits(map@, rope@),
    ensures
        r == saturating_left_spec(map@, rope@, point),
{
    rope.well_formed_now();
    let buffer = map.display_point_to_buffer_point(point);
    let offset = rope.point_to_offset(buffer);
    if offset == 0 {
        return None;
    }
    let prev = rope.floor_char_boundary(offset - 1);
    let p = rope.offset_to_point(prev);
    proof {
        lemma_offset_locates(map@, rope@, prev as nat);
    }
    Some(map.buffer_point_to_display_point(p))
}

/// One character to the left, staying put at the start of the text.
pub fn left(map: &DisplayMap, rope: &Rope, point: DisplayPoint) -> (r: DisplayPoint)
    requires
        fits(map@, rope@),
    ensures
        r == match saturating_left_spec(map@, rope@, point) {
            Some(q) => q,
            None => point,
        },
{
    match saturating_left(map, rope, point) {
        Some(p) => p,
        None => point,
    }
}

/// One character to the right; at the end of a visual row it lands on the
/// start of the next one. `None` at the end of the text.
pub fn saturating_right(map: &DisplayMap, rope: &Rope, point: DisplayPoint) -> (r: Option<DisplayPoint>)
    requires
        fits(map@, rope@),
    ensures
        r == saturating_right_spec(map@, rope@, point),
{
    rope.well_formed_now();
    let buffer = map.display_point_to_buffer_point(point);
    let offset = rope.point_to_offset(buffer);
    if offset >= rope.len() {
        return None;
    }
    let next = rope.ceil_char_boundary(offset + 1);
    let p = rope.offset_to_point(next);
    proof {
        lemma_offset_locates(map@, rope@, next as nat);
    }
    Some(map.buffer_point_to_display_point(p))
}

/// One character to the right, staying put at the end of the text.
pub fn right(map: &DisplayMap, rope: &Rope, point: DisplayPoint) -> (r: DisplayPoint)
    requires
        fits(map@, rope@),
    ensures
        r == match saturating_right_spec(map@, rope@, point) {
            Some(q) => q,
            None => point,
        },
{
    match saturating_right(map, rope, point) {
        Some(p) => p,
        None => point,
    }
}

/// The column to keep: the goal if there is one, else the current column.
fn resolve_goal(point: DisplayPoint, goal: SelectionGoal) -> (r: u32)
    ensures
        r == goal_column(point, goal),
{
    match goal {
        SelectionGoal::HorizontalPosition(x) => x,
        SelectionGoal::Unset => point.column,
    }
}

/// The goal column clipped to the width of visual row `row`.
fn clamp_to_row(map: &DisplayMap, rope: &Rope, row: u32, goal: u32) -> (r: u32)
    requires
        Rope::well_formed(rope@),
    ensures
        r == clamp_to_width(goal, width(map@, rope@, row as nat)),
{
    let w = display_row_width(map, rope, row);
    proof {
        lemma_width_fits(map@, rope@, row as nat);
    }
    if goal <= w {
        goal
    } else {
        w
    }
}

proof fn lemma_width_fits(rows: Seq<Segments>, b: Seq<u8>, row: nat)
    requires
        Rope::well_formed(b),
    ensures
        width(rows, b, row) <= u32::MAX,
{
    match display_row_len(rows, row) {
        Some(len) => {},
        None => {
            let r = display_to_buffer(rows, DisplayPoint { row: row as u32, column: 0 }).row as nat;
            let rr = if r > max_row(b) {
                max_row(b)
            } else {
                r
            };
            lemma_count_bound(b);
            lemma_line_start(b, rr);
            lemma_next_newline(b, line_start(b, rr));
        },
    }
}

proof fn lemma_count_bound(b: Seq<u8>)
    ensures
        max_row(b) <= b.len(),
{
    lemma_count_le(b, b.len());
}

proof fn lemma_count_le(b: Seq<u8>, n: nat)
    ensures
        count_newlines(b, n) <= n,
    decreases n,
{
    if n > 0 {
        lemma_count_le(b, (n - 1) as nat);
    }
}

/// One visual row up, keeping the goal column.
pub fn up(map: &DisplayMap, rope: &Rope, point: DisplayPoint, goal: SelectionGoal) -> (r: (DisplayPoint, SelectionGoal))
    ensures
        r == up_spec(map@, rope@, point, goal),
{
    rope.well_formed_now();
    if point.row == 0 {
        return (point, SelectionGoal::Unset);
    }
    let g = resolve_goal(point, goal);
    let target_row = point.row - 1;
    let column = clamp_to_row(map, rope, target_row, g);
    (DisplayPoint::new(target_row, column), SelectionGoal::HorizontalPosition(g))
}

/// One visual row down, keeping the goal column; on the last row the
/// cursor goes to the end of the row (the host decides whether to pass the
/// key on).
pub fn down(map: &DisplayMap, rope: &Rope, point: DisplayPoint, goal: SelectionGoal) -> (r: (DisplayPoint, SelectionGoal))
    ensures
        r == down_spec(map@, rope@, point, goal),
{
    rope.well_formed_now();
    if point.row >= map.max_display_row() {
        let w = display_row_width(map, rope, point.row);
        return (DisplayPoint::new(point.row, w), SelectionGoal::Unset);
    }
    let g = resolve_goal(point, goal);
    let target_row = point.row + 1;
    let column = clamp_to_row(map, rope, target_row, g);
    (DisplayPoint::new(target_row, column), SelectionGoal::HorizontalPosition(g))
}

/// The beginning of the point's visual row. With `indented`, the first
/// character after the leading white space, unless the point already is
/// there or before it (then column 0).
pub fn line_beginning(map: &DisplayMap, rope: &Rope, point: DisplayPoint, indented: bool) -> (r: DisplayPoint)
    requires
        fits(map@, rope@),
        indented ==> is_char_boundary(rope@, offset_of(map@, rope@, point) as int),
        indented ==> offset_of(map@, rope@, DisplayPoint { row: point.row, column: 0 })
            <= offset_of(map@, rope@, point),
    ensures
        r == line_beginning_spec(map@, rope@, point, indented),
{
    rope.well_formed_now();
    map.well_formed_now();
    let row_start = map.display_point_to_buffer_point(DisplayPoint::new(point.row, 0));
    let row_start_offset = rope.point_to_offset(row_start);
    let mut target = DisplayPoint::new(point.row, 0);
    if indented {
        let head = map.display_point_to_buffer_point(point);
        let head_offset = rope.point_to_offset(head);
        proof {
            lemma_row_start_before(map@, rope@, point);
        }
        let prefix = rope.str_in_range(row_start_offset, head_offset);
        let indent_width = leading_white_space_len(prefix);
        let indent_point = DisplayPoint::new(point.row, indent_width as u32);
        if indent_point.lt(&point) {
            target = indent_point;
        }
    }
    target
}

/// The start of a visual row comes at or before any point on it, at a
/// character boundary.
proof fn lemma_row_start_before(rows: Seq<Segments>, b: Seq<u8>, p: DisplayPoint)
    requires
        fits(rows, b),
        Rope::well_formed(b),
        DisplayMap::well_formed(rows),
    ensures
        offset_of(rows, b, p) <= b.len(),
        is_char_boundary(b, offset_of(rows, b, DisplayPoint { row: p.row, column: 0 }) as int),
{
    let z = DisplayPoint { row: p.row, column: 0 };
    lemma_row_holding_bounds(rows, p.row as nat, 0);
    let i = row_holding(rows, p.row as nat);
    is_char_boundary_start_end_of_seq(b);
    if i < rows.len() {
        let ii: int = i as int;
        assert(row_fits(rows[ii], b, ii as nat));
        let segs = rows[ii];
        lemma_line_start(b, i);
        let ls = line_start(b, i);
        lemma_next_newline(b, ls);
        lemma_row_boundaries(b, i);
        assert(line_len(b, i) == next_newline(b, ls) - ls);
        if segs.len() > 0 {
            let k = p.row - display_start(rows, i);
            assert(0 <= k < segs.len());
            lemma_tiles_mono(segs, k, segs.len() - 1);
            assert(columns_fit(rows[ii]));
            assert(segs[k].0 <= line_len(b, i));
            assert(is_char_boundary(b, ls + segs[k].0));
        }
    }
}

/// The end of the point's visual row.
pub fn line_end(map: &DisplayMap, rope: &Rope, point: DisplayPoint) -> (r: DisplayPoint)
    ensures
        r == (DisplayPoint { row: point.row, column: width(map@, rope@, point.row as nat) as u32 }),
{
    DisplayPoint::new(point.row, display_row_width(map, rope, point.row))
}

/// The text of a visual row and the point's column in it.
fn row_text_and_column<'a>(map: &DisplayMap, rope: &'a Rope, point: DisplayPoint) -> (r: (&'a str, usize))
    requires
        fits(map@, rope@),
        (point.row as nat) < total_lines(map@),
    ensures
        encode_utf8(r.0@) == row_bytes(map@, rope@, point.row as nat),
        encode_utf8(r.0@).len() <= u32::MAX,
        r.0@ == decode_utf8(row_bytes(map@, rope@, point.row as nat)),
        r.1 == point.column,
{
    rope.well_formed_now();
    map.well_formed_now();
    let w = display_row_width(map, rope, point.row) as usize;
    let start = map.display_point_to_buffer_point(DisplayPoint::new(point.row, 0));
    let start = rope.point_to_offset(start);
    proof {
        lemma_row_span(map@, rope@, point.row as nat);
        lemma_width_fits(map@, rope@, point.row as nat);
    }
    (rope.str_in_range(start, start + w), point.column as usize)
}

/// Whether the piece `[a, e)` of `text` is all white space.
fn piece_is_blank(text: &str, a: usize, e: usize) -> (r: bool)
    requires
        a <= e <= encode_utf8(text@).len(),
        is_char_boundary(encode_utf8(text@), a as int),
        is_char_boundary(encode_utf8(text@), e as int),
    ensures
        r == all_white_space(decode_utf8(encode_utf8(text@).subrange(a as int, e as int))),
{
    let ghost bytes = encode_utf8(text@);
    let (_, rest) = text.split_at(a);
    proof {
        lemma_boundary_shift(bytes, a as int, e as int);
        assert(encode_utf8(rest@) == bytes.subrange(a as int, bytes.len() as int));
    }
    let (piece, _) = rest.split_at(e - a);
    proof {
        assert(encode_utf8(piece@) =~= bytes.subrange(a as int, e as int));
        assert(decode_utf8(encode_utf8(piece@)) == piece@);
    }
    is_blank(piece)
}

/// The piece bounds `[starts[i], end)` of a segmentation lie in the text,
/// between characters.
proof fn lemma_piece_bounds(bytes: Seq<u8>, starts: Seq<usize>, i: int)
    requires
        valid_utf8(bytes),
        is_segmentation(starts, bytes),
        0 <= i < starts.len(),
    ensures
        starts[i] < piece_end(bytes, starts, i) <= bytes.len(),
        is_char_boundary(bytes, starts[i] as int),
        is_char_boundary(bytes, piece_end(bytes, starts, i)),
{
    is_char_boundary_start_end_of_seq(bytes);
    if i + 1 < starts.len() {
        assert(starts[i] < starts[i + 1]);
        assert(is_char_boundary(bytes, starts[i + 1] as int));
    } else {
        assert(starts[i] < bytes.len());
    }
    assert(is_char_boundary(bytes, starts[i] as int));
}

/// The end of piece `i` of the word segmentation `starts` of `text`.
fn piece_end_in(text: &str, starts: &Vec<usize>, i: usize) -> (r: usize)
    requires
        is_segmentation(starts@, encode_utf8(text@)),
        i < starts@.len(),
    ensures
        r == piece_end(encode_utf8(text@), starts@, i as int),
        starts@[i as int] < r <= encode_utf8(text@).len(),
        is_char_boundary(encode_utf8(text@), starts@[i as int] as int),
        is_char_boundary(encode_utf8(text@), r as int),
{
    proof {
        lemma_piece_bounds(encode_utf8(text@), starts@, i as int);
    }
    if i < starts.len() - 1 {
        starts[i + 1]
    } else {
        text.as_bytes().len()
    }
}

/// The piece that ends just after an ASCII letter is no white space.
proof fn lemma_piece_before_letter_end(chars: Seq<char>, starts: Seq<usize>, i: int, j: int)
    requires
        is_segmentation(starts, encode_utf8(chars)),
        0 < j < starts.len(),
        0 < i < chars.len(),
        starts[j] == char_offset(chars, i),
        is_ascii_letter(chars[i - 1]),
    ensures
        !piece_blank(encode_utf8(chars), starts, j - 1),
        piece_end(encode_utf8(chars), starts, j - 1) == char_offset(chars, i),
{
    let bytes = encode_utf8(chars);
    let c = chars[i - 1];
    let one = seq![c];
    let head = chars.take(i - 1);
    let tail = chars.skip(i);
    assert(chars.take(i) =~= head + one);
    assert(chars =~= head + one + tail);
    lemma_encode_append(head, one);
    lemma_encode_append(head + one, tail);
    assert(one.drop_first() =~= Seq::<char>::empty());
    assert(encode_utf8(Seq::<char>::empty()) =~= Seq::<u8>::empty());
    assert(one[0] == c);
    assert(encode_utf8(one) =~= encode_scalar(c as u32) + encode_utf8(Seq::<char>::empty()));
    let v = c as u32;
    assert(v <= 0x7F);
    assert(v <= 0x7F ==> v & 0x7Fu32 == v) by (bit_vector);
    let enc = encode_utf8(one);
    assert(enc.len() == 1);
    let off = char_offset(chars, i) as int;
    let a = starts[j - 1] as int;
    assert(starts[j - 1] < starts[j]);
    assert(off == encode_utf8(head).len() + 1);
    assert(bytes =~= encode_utf8(head) + enc + encode_utf8(tail));
    assert(bytes.subrange(off - 1, off) =~= enc);
    // the piece is valid UTF-8, and its last byte is the letter's
    encode_utf8_valid_utf8(chars);
    lemma_boundary_shift(bytes, a, off);
    let rest = bytes.subrange(a, bytes.len() as int);
    valid_utf8_split(bytes, a);
    valid_utf8_split(rest, off - a);
    let piece = bytes.subrange(a, off);
    assert(rest.subrange(0, off - a) =~= piece);
    assert(piece[piece.len() - 1] == enc[0]);
    is_char_boundary_iff_not_is_continuation_byte(piece, piece.len() - 1);
    decode_utf8_split(piece, piece.len() - 1);
    assert(piece.subrange(piece.len() - 1, piece.len() as int) =~= enc);
    encode_utf8_decode_utf8(one);
    let decoded = decode_utf8(piece);
    assert(decoded =~= decode_utf8(piece.subrange(0, piece.len() - 1)) + one);
    assert(decoded[decoded.len() - 1] == c);
    assert(!is_white_space(c));
}

/// The first word end after `column` comes no later than the end of any
/// word piece that ends after `column`.
proof fn lemma_first_word_end_at_most(bytes: Seq<u8>, starts: Seq<usize>, column: int, k: nat, m: int)
    requires
        is_segmentation(starts, bytes),
        k <= m < starts.len(),
        piece_end(bytes, starts, m) > column,
        !piece_blank(bytes, starts, m),
    ensures
        first_word_end(bytes, starts, column, k) <= piece_end(bytes, starts, m),
    decreases m - k,
{
    if k < m {
        if !(piece_end(bytes, starts, k as int) > column && !piece_blank(bytes, starts, k as int)) {
            lemma_first_word_end_at_most(bytes, starts, column, k + 1, m);
        } else {
            if k + 1 < m {
                assert(starts[k + 1 as int] < starts[m]);
            }
            assert(starts[m] < piece_end(bytes, starts, m)) by {
                if m + 1 < starts.len() {
                    assert(starts[m] < starts[m + 1]);
                }
            }
        }
    }
}

/// The first word end is the end of the text or the start of a piece.
proof fn lemma_first_word_end_is_a_bound(bytes: Seq<u8>, starts: Seq<usize>, column: int, k: nat)
    ensures
        first_word_end(bytes, starts, column, k) == bytes.len() || starts.contains(
            first_word_end(bytes, starts, column, k) as usize,
        ),
    decreases starts.len() - k,
{
    if k < starts.len() {
        if piece_end(bytes, starts, k as int) > column && !piece_blank(bytes, starts, k as int) {
            if k + 1 < starts.len() {
                assert(starts[k + 1 as int] == starts[k + 1 as int]);
            }
        } else {
            lemma_first_word_end_is_a_bound(bytes, starts, column, k + 1);
        }
    }
}

/// The last word start found is the start of a piece.
proof fn lemma_last_word_start_is_a_start(
    bytes: Seq<u8>,
    starts: Seq<usize>,
    column: int,
    k: nat,
    found: Option<usize>,
)
    requires
        found matches Some(f) ==> starts.contains(f),
    ensures
        last_word_start(bytes, starts, column, k, found) matches Some(f) ==> starts.contains(f),
    decreases starts.len() - k,
{
    if k < starts.len() && starts[k as int] < column {
        assert(starts[k as int] == starts[k as int]);
        if piece_blank(bytes, starts, k as int) {
            lemma_last_word_start_is_a_start(bytes, starts, column, k + 1, found);
        } else {
            lemma_last_word_start_is_a_start(bytes, starts, column, k + 1, Some(starts[k as int]));
        }
    }
}

/// As [`word_start_before`], over the given word segmentation `starts` of `text`.
pub fn word_start_before_in(text: &str, starts: &Vec<usize>, column: usize) -> (r: Option<usize>)
    requires
        is_segmentation(starts@, encode_utf8(text@)),
    ensures
        r == last_word_start(
            encode_utf8(text@),
            starts@,
            column as int,
            0,
            None,
        ),
        match r {
            Some(s) => s < column && s < encode_utf8(text@).len() && is_char_boundary(
                encode_utf8(text@),
                s as int,
            ),
            None => true,
        },
{
    let ghost bytes = encode_utf8(text@);
    let mut found: Option<usize> = None;
    let mut i: usize = 0;
    while i < starts.len()
        invariant
            i <= starts@.len(),
            is_segmentation(starts@, bytes),
            bytes == encode_utf8(text@),
            last_word_start(bytes, starts@, column as int, 0, None) == last_word_start(
                bytes,
                starts@,
                column as int,
                i as nat,
                found,
            ),
            match found {
                Some(s) => s < column && s < bytes.len() && is_char_boundary(bytes, s as int),
                None => true,
            },
        ensures
            last_word_start(bytes, starts@, column as int, 0, None) == found,
            match found {
                Some(s) => s < column && s < bytes.len() && is_char_boundary(bytes, s as int),
                None => true,
            },
        decreases starts@.len() - i,
    {
        let idx = starts[i];
        if idx >= column {
            break;
        }
        let end = piece_end_in(text, starts, i);
        if !piece_is_blank(text, idx, end) {
            found = Some(idx);
        }
        i = i + 1;
    }
    found
}

/// The start of the last word of `text` that starts before byte `column`
/// (pieces between UAX#29 word boundaries that are not all white space).
pub fn word_start_before(text: &str, column: usize) -> (r: Option<usize>)
    ensures
        r == last_word_start(
            encode_utf8(text@),
            word_bound_starts(text@),
            column as int,
            0,
            None,
        ),
        forall|i: int| word_joined_before(text@, i) ==> r != Some(char_offset(text@, i) as usize),
        match r {
            Some(s) => s < column && s < encode_utf8(text@).len() && is_char_boundary(
                encode_utf8(text@),
                s as int,
            ),
            None => true,
        },
{
    let starts = word_bound_offsets(text);
    proof {
        lemma_last_word_start_is_a_start(encode_utf8(text@), starts@, column as int, 0, None);
    }
    word_start_before_in(text, &starts, column)
}

/// As [`word_end_after`], over the given word segmentation `starts` of `text`.
pub fn word_end_after_in(text: &str, starts: &Vec<usize>, column: usize) -> (r: usize)
    requires
        is_segmentation(starts@, encode_utf8(text@)),
    ensures
        r == first_word_end(encode_utf8(text@), starts@, column as int, 0),
        r <= encode_utf8(text@).len(),
        r > column || r == encode_utf8(text@).len(),
        is_char_boundary(encode_utf8(text@), r as int),
{
    let ghost bytes = encode_utf8(text@);
    let mut i: usize = 0;
    while i < starts.len()
        invariant
            i <= starts@.len(),
            is_segmentation(starts@, bytes),
            bytes == encode_utf8(text@),
            first_word_end(bytes, starts@, column as int, 0) == first_word_end(
                bytes,
                starts@,
                column as int,
                i as nat,
            ),
        decreases starts@.len() - i,
    {
        let idx = starts[i];
        let end = piece_end_in(text, starts, i);
        if end > column && !piece_is_blank(text, idx, end) {
            return end;
        }
        i = i + 1;
    }
    proof {
        is_char_boundary_start_end_of_seq(bytes);
    }
    text.as_bytes().len()
}

/// The end of the first word of `text` that ends after byte `column`; the
/// end of the text when there is none.
pub fn word_end_after(text: &str, column: usize) -> (r: usize)
    ensures
        r == first_word_end(encode_utf8(text@), word_bound_starts(text@), column as int, 0),
        forall|i: int| word_break_before(text@, i) && char_offset(text@, i) > column ==> r <= char_offset(text@, i),
        forall|i: int| word_joined_before(text@, i) ==> r != char_offset(text@, i),
        r <= encode_utf8(text@).len(),
        r > column || r == encode_utf8(text@).len(),
        is_char_boundary(encode_utf8(text@), r as int),
{
    let starts = word_bound_offsets(text);
    let total = text.as_bytes().len();
    proof {
        let bytes = encode_utf8(text@);
        assert(total == bytes.len());
        lemma_first_word_end_is_a_bound(bytes, starts@, column as int, 0);
        assert forall|i: int| word_joined_before(text@, i) implies first_word_end(
            bytes,
            starts@,
            column as int,
            0,
        ) != char_offset(text@, i) by {
            lemma_char_offset_inside(text@, i);
        }
        assert forall|i: int| word_break_before(text@, i) && char_offset(text@, i) > column implies first_word_end(
            bytes,
            starts@,
            column as int,
            0,
        ) <= char_offset(text@, i) by {
            lemma_char_offset_inside(text@, i);
            assert(starts@.contains(char_offset(text@, i) as usize));
            let j = choose|j: int| 0 <= j < starts@.len() && starts@[j] == char_offset(text@, i) as usize;
            assert(starts@[0] == 0);
            assert(j > 0);
            lemma_piece_before_letter_end(text@, starts@, i, j);
            lemma_first_word_end_at_most(bytes, starts@, column as int, 0, j - 1);
        }
    }
    word_end_after_in(text, &starts, column)
}

/// The word around byte `column`, from piece `i` on: the first piece that
/// is no white space and whose ends enclose `column`.
pub open spec fn word_range_from(bytes: Seq<u8>, starts: Seq<usize>, column: int, i: nat) -> Option<(int, int)>
    decreases starts.len() - i,
{
    if i >= starts.len() {
        None
    } else if starts[i as int] <= column <= piece_end(bytes, starts, i as int) && !piece_blank(bytes, starts, i as int) {
        Some((starts[i as int] as int, piece_end(bytes, starts, i as int)))
    } else {
        word_range_from(bytes, starts, column, i + 1)
    }
}

/// The word found around a column starts a piece and ends where the next
/// piece starts or at the end of the text.
proof fn lemma_word_range_bounds(bytes: Seq<u8>, starts: Seq<usize>, column: int, k: nat)
    ensures
        word_range_from(bytes, starts, column, k) matches Some((a, e)) ==> (starts.contains(a as usize)
            && 0 <= a && (e == bytes.len() || starts.contains(e as usize))),
    decreases starts.len() - k,
{
    if k < starts.len() {
        assert(starts[k as int] == starts[k as int]);
        if k + 1 < starts.len() {
            assert(starts[k + 1 as int] == starts[k + 1 as int]);
        }
        lemma_word_range_bounds(bytes, starts, column, k + 1);
    }
}

/// As [`word_around`], over the given word segmentation `starts` of `text`.
pub fn word_around_in(text: &str, starts: &Vec<usize>, column: usize) -> (r: Option<(usize, usize)>)
    requires
        is_segmentation(starts@, encode_utf8(text@)),
    ensures
        match word_range_from(encode_utf8(text@), starts@, column as int, 0) {
            Some((a, e)) => r matches Some((ra, re)) && ra == a && re == e,
            None => r is None,
        },
        match r {
            Some((a, e)) => a <= e <= encode_utf8(text@).len() && is_char_boundary(encode_utf8(text@), a as int)
                && is_char_boundary(encode_utf8(text@), e as int),
            None => true,
        },
{
    let ghost bytes = encode_utf8(text@);
    let mut i: usize = 0;
    while i < starts.len()
        invariant
            i <= starts@.len(),
            is_segmentation(starts@, bytes),
            bytes == encode_utf8(text@),
            word_range_from(bytes, starts@, column as int, 0) == word_range_from(
                bytes,
                starts@,
                column as int,
                i as nat,
            ),
        decreases starts@.len() - i,
    {
        let idx = starts[i];
        let end = piece_end_in(text, starts, i);
        if idx <= column && column <= end && !piece_is_blank(text, idx, end) {
            return Some((idx, end));
        }
        i = i + 1;
    }
    None
}

/// The word of `text` around byte `column`, if there is one.
pub fn word_around(text: &str, column: usize) -> (r: Option<(usize, usize)>)
    ensures
        match word_range_from(encode_utf8(text@), word_bound_starts(text@), column as int, 0) {
            Some((a, e)) => r matches Some((ra, re)) && ra == a && re == e,
            None => r is None,
        },
        match r {
            Some((a, e)) => a <= e <= encode_utf8(text@).len() && is_char_boundary(encode_utf8(text@), a as int)
                && is_char_boundary(encode_utf8(text@), e as int),
            None => true,
        },
        forall|i: int|
            word_joined_before(text@, i) ==> (r matches Some((a, e)) ==> a != char_offset(text@, i) && e
                != char_offset(text@, i)),
{
    let starts = word_bound_offsets(text);
    let total = text.as_bytes().len();
    proof {
        let bytes = encode_utf8(text@);
        assert(total == bytes.len());
        lemma_word_range_bounds(bytes, starts@, column as int, 0);
        assert forall|i: int| word_joined_before(text@, i) implies (word_range_from(
            bytes,
            starts@,
            column as int,
            0,
        ) matches Some((a, e)) ==> a != char_offset(text@, i) && e != char_offset(text@, i)) by {
            lemma_char_offset_inside(text@, i);
        }
    }
    word_around_in(text, &starts, column)
}

/// The start of the previous word on the point's visual row; the point
/// itself when no word starts before it.
pub fn previous_word_start(map: &DisplayMap, rope: &Rope, point: DisplayPoint) -> (r: DisplayPoint)
    requires
        fits(map@, rope@),
        (point.row as nat) < total_lines(map@),
    ensures
        r == previous_word_start_spec(map@, rope@, point),
{
    let (row_text, column) = row_text_and_column(map, rope, point);
    match word_start_before(row_text, column) {
        Some(s) => DisplayPoint::new(point.row, s as u32),
        None => point,
    }
}

/// The end of the next word on the point's visual row; the end of the row
/// when no word ends after the point.
pub fn next_word_end(map: &DisplayMap, rope: &Rope, point: DisplayPoint) -> (r: DisplayPoint)
    requires
        fits(map@, rope@),
        (point.row as nat) < total_lines(map@),
    ensures
        r == next_word_end_spec(map@, rope@, point),
{
    let (row_text, column) = row_text_and_column(map, rope, point);
    let end = word_end_after(row_text, column);
    DisplayPoint::new(point.row, end as u32)
}

/// The character boundary before a buffer point (the start stays put).
fn prev_char_boundary(rope: &Rope, point: BufferPoint) -> (r: BufferPoint)
    ensures
        r == offset_to_point(
            rope@,
            floor_boundary(
                rope@,
                if point_to_offset(rope@, point) == 0 {
                    0
                } else {
                    (point_to_offset(rope@, point) - 1) as nat
                },
            ),
        ),
{
    let offset = rope.point_to_offset(point);
    let prev = rope.floor_char_boundary(if offset == 0 {
        0
    } else {
        offset - 1
    });
    rope.offset_to_point(prev)
}

/// The character boundary after a buffer point (the end stays put).
fn next_char_boundary(rope: &Rope, point: BufferPoint) -> (r: BufferPoint)
    ensures
        r == offset_to_point(
            rope@,
            ceil_from(
                rope@,
                if point_to_offset(rope@, point) + 1 <= rope@.len() {
                    (point_to_offset(rope@, point) + 1) as nat
                } else {
                    rope@.len()
                },
            ),
        ),
{
    rope.well_formed_now();
    let offset = rope.point_to_offset(point);
    let next = if offset < rope.len() {
        offset + 1
    } else {
        rope.len()
    };
    let next = rope.ceil_char_boundary(next);
    rope.offset_to_point(next)
}

} // verus!
