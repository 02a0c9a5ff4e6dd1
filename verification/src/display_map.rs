//! Display map: buffer coordinates ↔ display coordinates (soft wrap).
//!
//! Soft wrapping is a mapping layer, not a side effect of layout: selections
//! and motions work in display space, independent of the wrap width. Every
//! buffer row records the byte ranges of its visual rows; an empty list
//! means the row fits on one visual row. A display column is a byte offset
//! within its visual row, so without wrapping the mapping is the identity.

use vstd::prelude::*;

use std::ops::Range;

use crate::point::Point as BufferPoint;

verus! {

/// A position in display space: the visual row after soft wrapping and the
/// byte offset within that visual row.
#[derive(Clone, Copy, Debug, Default, PartialEq, Eq, PartialOrd, Ord, Hash, Structural)]
pub struct DisplayPoint {
    pub row: u32,
    pub column: u32,
}

impl DisplayPoint {
    pub fn new(row: u32, column: u32) -> (r: Self)
        ensures
            r.row == row,
            r.column == column,
    {
        DisplayPoint { row, column }
    }

    pub fn zero() -> (r: Self)
        ensures
            r.row == 0,
            r.column == 0,
    {
        DisplayPoint::new(0, 0)
    }

    /// Lexicographic "strictly before".
    pub open spec fn lt_spec(self, other: Self) -> bool {
        self.row < other.row || (self.row == other.row && self.column < other.column)
    }

    /// Whether `self` comes strictly before `other`.
    pub fn lt(&self, other: &Self) -> (r: bool)
        ensures
            r == self.lt_spec(*other),
    {
        self.row < other.row || (self.row == other.row && self.column < other.column)
    }
}

/// A visual row number.
#[derive(Clone, Copy, Debug, Default, PartialEq, Eq, PartialOrd, Ord, Hash, Structural)]
pub struct DisplayRow(pub u32);

/// The byte ranges of one buffer row's visual rows (empty: not wrapped).
pub type Segments = Seq<(usize, usize)>;

/// The number of visual rows of a buffer row.
pub open spec fn line_count(segs: Segments) -> nat {
    if segs.len() == 0 {
        1
    } else {
        segs.len()
    }
}

/// The first visual row of buffer row `i`.
pub open spec fn display_start(rows: Seq<Segments>, i: nat) -> nat
    decreases i,
{
    if i == 0 {
        0
    } else {
        display_start(rows, (i - 1) as nat) + line_count(rows[i - 1])
    }
}

/// Every visual row's byte range fits a `u32` column.
pub open spec fn columns_fit(segs: Segments) -> bool {
    forall|i: int| 0 <= i < segs.len() ==> #[trigger] segs[i].0 <= u32::MAX && segs[i].1 <= u32::MAX
}

/// The number of visual rows.
pub open spec fn total_lines(rows: Seq<Segments>) -> nat {
    display_start(rows, rows.len())
}

/// The buffer row, from `i` on, whose visual rows hold visual row `d`
/// (the number of rows when `d` is past the end).
pub open spec fn row_holding_from(rows: Seq<Segments>, d: nat, i: nat) -> nat
    decreases rows.len() - i,
{
    if i >= rows.len() {
        rows.len()
    } else if d < display_start(rows, i + 1) {
        i
    } else {
        row_holding_from(rows, d, i + 1)
    }
}

/// The buffer row whose visual rows hold visual row `d`.
pub open spec fn row_holding(rows: Seq<Segments>, d: nat) -> nat {
    row_holding_from(rows, d, 0)
}

/// The first visual row, from `ix` on, that ends after `column`.
pub open spec fn first_ending_after(segs: Segments, column: int, ix: nat) -> nat
    decreases segs.len() - ix,
{
    if ix >= segs.len() {
        segs.len()
    } else if column < segs[ix as int].1 {
        ix
    } else {
        first_ending_after(segs, column, ix + 1)
    }
}

/// Whether locating `column` in `segs` never goes left of a visual row's start.
pub open spec fn locate_ok(segs: Segments, column: int) -> bool {
    segs.len() > 0 ==> {
        let ix = first_ending_after(segs, column, 0);
        if ix < segs.len() {
            segs[ix as int].0 <= column
        } else {
            let last = segs[segs.len() - 1];
            last.0 <= if column < last.1 {
                column
            } else {
                last.1 as int
            }
        }
    }
}

/// A byte column of a buffer row → (visual row within it, offset in that visual row).
pub open spec fn locate(segs: Segments, column: int) -> (int, int) {
    if segs.len() == 0 {
        (0, column)
    } else {
        let ix = first_ending_after(segs, column, 0);
        if ix < segs.len() {
            (ix as int, column - segs[ix as int].0)
        } else {
            let last = segs[segs.len() - 1];
            (
                segs.len() - 1,
                (if column < last.1 {
                    column
                } else {
                    last.1 as int
                }) - last.0,
            )
        }
    }
}

/// The visual rows of a buffer row tile its bytes: the first starts at 0,
/// each one is non-empty and starts where the previous ended.
pub open spec fn tiles(segs: Segments) -> bool {
    &&& segs.len() > 0 ==> segs[0].0 == 0
    &&& forall|i: int| 0 <= i < segs.len() ==> #[trigger] segs[i].0 < segs[i].1
    &&& forall|i: int| 0 <= i < segs.len() - 1 ==> #[trigger] segs[i].1 == segs[i + 1].0
}

/// The buffer row's length that the visual rows cover.
pub open spec fn tiled_len(segs: Segments) -> int {
    segs[segs.len() - 1].1 as int
}

/// A buffer point → its display point.
pub open spec fn buffer_to_display(rows: Seq<Segments>, p: BufferPoint) -> DisplayPoint {
    if (p.row as int) < rows.len() {
        let (ix, column) = locate(rows[p.row as int], p.column as int);
        DisplayPoint { row: (display_start(rows, p.row as nat) + ix) as u32, column: column as u32 }
    } else {
        DisplayPoint { row: total_lines(rows) as u32, column: p.column }
    }
}

/// A display point → its buffer point.
pub open spec fn display_to_buffer(rows: Seq<Segments>, p: DisplayPoint) -> BufferPoint {
    let i = row_holding(rows, p.row as nat);
    if i >= rows.len() {
        BufferPoint { row: rows.len() as u32, column: p.column }
    } else if rows[i as int].len() == 0 {
        BufferPoint { row: i as u32, column: p.column }
    } else {
        let seg = rows[i as int][p.row - display_start(rows, i)];
        BufferPoint { row: i as u32, column: (seg.0 + p.column) as u32 }
    }
}

/// The byte length of a visual row; `None` when its buffer row is not
/// wrapped (the buffer row's own length applies) or there is no such row.
pub open spec fn display_row_len(rows: Seq<Segments>, d: nat) -> Option<u32> {
    let i = row_holding(rows, d);
    if i >= rows.len() || rows[i as int].len() == 0 {
        None
    } else {
        let seg = rows[i as int][d - display_start(rows, i)];
        Some((if seg.1 > seg.0 {
            seg.1 - seg.0
        } else {
            0
        }) as u32)
    }
}

// ---- facts ----

pub proof fn lemma_display_start_mono(rows: Seq<Segments>, i: nat, j: nat)
    requires
        i <= j <= rows.len(),
    ensures
        display_start(rows, i) + (j - i) <= display_start(rows, j),
    decreases j - i,
{
    if i < j {
        lemma_display_start_mono(rows, i, (j - 1) as nat);
    }
}

pub proof fn lemma_row_holding(rows: Seq<Segments>, d: nat, r: nat, i: nat)
    requires
        i <= r < rows.len(),
        display_start(rows, r) <= d < display_start(rows, r + 1),
    ensures
        row_holding_from(rows, d, i) == r,
    decreases r - i,
{
    if i < r {
        lemma_display_start_mono(rows, i + 1, r);
        lemma_row_holding(rows, d, r, i + 1);
    }
}

proof fn lemma_row_holding_past(rows: Seq<Segments>, d: nat, i: nat)
    requires
        i <= rows.len(),
        d >= total_lines(rows),
    ensures
        row_holding_from(rows, d, i) == rows.len(),
    decreases rows.len() - i,
{
    if i < rows.len() {
        lemma_display_start_mono(rows, i + 1, rows.len());
        lemma_row_holding_past(rows, d, i + 1);
    }
}

pub proof fn lemma_row_holding_bounds(rows: Seq<Segments>, d: nat, i: nat)
    requires
        i <= rows.len(),
        display_start(rows, i) <= d,
    ensures
        row_holding_from(rows, d, i) < rows.len() ==> display_start(
            rows,
            row_holding_from(rows, d, i),
        ) <= d < display_start(rows, row_holding_from(rows, d, i) + 1),
        row_holding_from(rows, d, i) >= rows.len() ==> d >= total_lines(rows),
    decreases rows.len() - i,
{
    if i < rows.len() && d >= display_start(rows, i + 1) {
        lemma_row_holding_bounds(rows, d, i + 1);
    }
}

pub proof fn lemma_first_ending_after(segs: Segments, column: int, ix: nat)
    requires
        ix <= segs.len(),
    ensures
        ix <= first_ending_after(segs, column, ix) <= segs.len(),
        first_ending_after(segs, column, ix) < segs.len() ==> column < segs[first_ending_after(
            segs,
            column,
            ix,
        ) as int].1,
        forall|k: int|
            ix <= k < first_ending_after(segs, column, ix) ==> segs[k].1 <= column,
    decreases segs.len() - ix,
{
    if ix < segs.len() && column >= segs[ix as int].1 {
        lemma_first_ending_after(segs, column, ix + 1);
    }
}

/// In a tiling, the visual row found for a column starts at or before it.
pub proof fn lemma_locate_tiled(segs: Segments, column: int)
    requires
        tiles(segs),
        segs.len() > 0,
        0 <= column <= tiled_len(segs),
    ensures
        locate_ok(segs, column),
        ({
            let (ix, off) = locate(segs, column);
            &&& 0 <= ix < segs.len()
            &&& segs[ix].0 + off == column
        }),
{
    lemma_first_ending_after(segs, column, 0);
    let ix = first_ending_after(segs, column, 0);
    if ix < segs.len() && ix > 0 {
        assert(segs[ix - 1].1 <= column);
        assert(segs[ix - 1].1 == segs[ix as int].0);
    }
}

/// Soft wrapping loses no position: a buffer point within its row (within
/// the bytes the visual rows cover, when the row is wrapped) comes back
/// from its display point.
pub proof fn lemma_wrap_round_trip(rows: Seq<Segments>, p: BufferPoint)
    requires
        (p.row as int) < rows.len(),
        total_lines(rows) <= u32::MAX,
        tiles(rows[p.row as int]),
        rows[p.row as int].len() > 0 ==> p.column <= tiled_len(rows[p.row as int]),
    ensures
        locate_ok(rows[p.row as int], p.column as int),
        display_to_buffer(rows, buffer_to_display(rows, p)) == p,
{
    let r = p.row as nat;
    let segs = rows[p.row as int];
    lemma_display_start_mono(rows, r + 1, rows.len());
    if segs.len() > 0 {
        lemma_locate_tiled(segs, p.column as int);
    }
    let (ix, off) = locate(segs, p.column as int);
    let d = display_start(rows, r) + ix;
    lemma_row_holding(rows, d as nat, r, 0);
}

// ---- the map ----

/// One buffer row's visual rows: empty when the row is not wrapped,
/// otherwise the byte range (from the row's start) of each visual row.
struct WrapItem {
    segments: Vec<Range<usize>>,
}

impl View for WrapItem {
    type V = Segments;

    closed spec fn view(&self) -> Segments {
        self.segments@.map_values(|s: Range<usize>| (s.start, s.end))
    }
}

/// The counts that a stretch of buffer rows adds up to.
#[derive(Clone, Copy, Debug, Default, PartialEq, Eq, Structural)]
pub struct WrapSummary {
    buffer_lines: u32,
    display_lines: u32,
}

impl WrapSummary {
    pub closed spec fn buffer_lines_spec(self) -> u32 {
        self.buffer_lines
    }

    pub closed spec fn display_lines_spec(self) -> u32 {
        self.display_lines
    }

    /// The summary of nothing.
    pub fn zero() -> (r: Self)
        ensures
            r.buffer_lines_spec() == 0,
            r.display_lines_spec() == 0,
    {
        WrapSummary { buffer_lines: 0, display_lines: 0 }
    }

    /// The number of buffer rows summed.
    pub fn buffer_lines(&self) -> (r: u32)
        ensures
            r == self.buffer_lines_spec(),
    {
        self.buffer_lines
    }

    /// The number of visual rows summed.
    pub fn display_lines(&self) -> (r: u32)
        ensures
            r == self.display_lines_spec(),
    {
        self.display_lines
    }

    /// Adds the counts of a following stretch.
    pub fn add_summary(&mut self, summary: &Self)
        requires
            old(self).buffer_lines_spec() + summary.buffer_lines_spec() <= u32::MAX,
            old(self).display_lines_spec() + summary.display_lines_spec() <= u32::MAX,
        ensures
            final(self).buffer_lines_spec() == old(self).buffer_lines_spec()
                + summary.buffer_lines_spec(),
            final(self).display_lines_spec() == old(self).display_lines_spec()
                + summary.display_lines_spec(),
    {
        self.buffer_lines = self.buffer_lines + summary.buffer_lines;
        self.display_lines = self.display_lines + summary.display_lines;
    }
}

impl WrapItem {
    /// The number of visual rows: one when not wrapped.
    fn display_line_count(&self) -> (r: u32)
        requires
            self@.len() <= u32::MAX,
        ensures
            r == line_count(self@),
    {
        if self.segments.len() == 0 {
            1
        } else {
            self.segments.len() as u32
        }
    }

    /// The counts of this one buffer row.
    fn summary(&self) -> (r: WrapSummary)
        requires
            self@.len() <= u32::MAX,
        ensures
            r.buffer_lines_spec() == 1,
            r.display_lines_spec() == line_count(self@),
    {
        WrapSummary { buffer_lines: 1, display_lines: self.display_line_count() }
    }

    /// A byte column of the buffer row → (visual row index, offset in it).
    fn locate(&self, column: usize) -> (r: (u32, u32))
        requires
            self@.len() <= u32::MAX,
            locate_ok(self@, column as int),
        ensures
            r.0 == locate(self@, column as int).0 as u32,
            r.1 == locate(self@, column as int).1 as u32,
    {
        if self.segments.len() == 0 {
            return (0, column as u32);
        }
        let mut ix: usize = 0;
        while ix < self.segments.len()
            invariant
                ix <= self.segments@.len(),
                self@.len() == self.segments@.len(),
                self@.len() <= u32::MAX,
                first_ending_after(self@, column as int, 0) == first_ending_after(
                    self@,
                    column as int,
                    ix as nat,
                ),
                locate_ok(self@, column as int),
            decreases self.segments@.len() - ix,
        {
            let segment = &self.segments[ix];
            if column < segment.end {
                return (ix as u32, (column - segment.start) as u32);
            }
            ix = ix + 1;
        }
        let last = self.segments.len() - 1;
        let segment = &self.segments[last];
        let clipped = if column < segment.end {
            column
        } else {
            segment.end
        };
        (last as u32, (clipped - segment.start) as u32)
    }

    /// A copy of this buffer row's visual rows.
    fn copy(&self) -> (r: WrapItem)
        ensures
            r@ == self@,
    {
        let mut segments: Vec<Range<usize>> = Vec::new();
        let mut i: usize = 0;
        while i < self.segments.len()
            invariant
                i <= self.segments@.len(),
                segments@.len() == i,
                forall|k: int|
                    0 <= k < i ==> #[trigger] segments@[k].start == self.segments@[k].start
                        && segments@[k].end == self.segments@[k].end,
            decreases self.segments@.len() - i,
        {
            segments.push(Range { start: self.segments[i].start, end: self.segments[i].end });
            i = i + 1;
        }
        let r = WrapItem { segments };
        proof {
            assert(r@ =~= self@);
        }
        r
    }
}

/// The soft-wrap map of a buffer.
pub struct DisplayMap {
    wraps: Vec<WrapItem>,
    /// The number of buffer rows (an empty buffer counts as one empty row).
    buffer_rows: u32,
}

/// The visual rows of each buffer row.
closed spec fn rows_of(wraps: Seq<WrapItem>) -> Seq<Segments> {
    wraps.map_values(|w: WrapItem| w@)
}

impl View for DisplayMap {
    type V = Seq<Segments>;

    closed spec fn view(&self) -> Seq<Segments> {
        rows_of(self.wraps@)
    }
}

impl DisplayMap {
    #[verifier::type_invariant]
    spec fn inv(self) -> bool {
        &&& self.wraps@.len() == self.buffer_rows
        &&& self.buffer_rows >= 1
        &&& total_lines(rows_of(self.wraps@)) <= u32::MAX
        &&& forall|i: int| 0 <= i < self.wraps@.len() ==> columns_fit(#[trigger] rows_of(self.wraps@)[i])
    }

    /// A map of the right size: at least one row, and few enough visual
    /// rows to number them with `u32`.
    pub open spec fn well_formed(rows: Seq<Segments>) -> bool {
        &&& rows.len() >= 1
        &&& rows.len() <= u32::MAX
        &&& total_lines(rows) <= u32::MAX
        &&& forall|i: int| 0 <= i < rows.len() ==> columns_fit(#[trigger] rows[i])
    }

    /// Every map is well formed.
    pub fn well_formed_now(&self)
        ensures
            DisplayMap::well_formed(self@),
    {
        proof {
            use_type_invariant(self);
        }
    }

    /// A map for `buffer_rows` rows (at least one), none of them wrapped.
    pub fn new(buffer_rows: u32) -> (r: Self)
        ensures
            r@.len() == if buffer_rows == 0 {
                1
            } else {
                buffer_rows
            },
            forall|i: int| 0 <= i < r@.len() ==> #[trigger] r@[i].len() == 0,
    {
        let n = if buffer_rows == 0 {
            1
        } else {
            buffer_rows
        };
        let mut wraps: Vec<WrapItem> = Vec::new();
        let mut i: u32 = 0;
        while i < n
            invariant
                i <= n,
                wraps@.len() == i,
                forall|k: int| 0 <= k < i ==> #[trigger] wraps@[k]@.len() == 0,
                total_lines(rows_of(wraps@)) == i,
            decreases n - i,
        {
            let ghost before = wraps@;
            wraps.push(WrapItem { segments: Vec::new() });
            proof {
                assert(rows_of(wraps@).drop_last() =~= rows_of(before));
                assert(rows_of(wraps@)[i as int] =~= Seq::<(usize, usize)>::empty());
                lemma_display_start_prefix(rows_of(wraps@), rows_of(before), i as nat);
            }
            i = i + 1;
        }
        DisplayMap { wraps, buffer_rows: n }
    }

    /// The number of buffer rows.
    pub fn buffer_rows(&self) -> (r: u32)
        ensures
            r == self@.len(),
    {
        proof {
            use_type_invariant(self);
        }
        self.buffer_rows
    }

    /// The counts of the whole map.
    pub fn summary(&self) -> (r: WrapSummary)
        ensures
            r.buffer_lines_spec() == self@.len(),
            r.display_lines_spec() == total_lines(self@),
    {
        proof {
            use_type_invariant(self);
        }
        let mut sum = WrapSummary::zero();
        let mut i: usize = 0;
        while i < self.wraps.len()
            invariant
                i <= self.wraps@.len() == self.buffer_rows,
                total_lines(rows_of(self.wraps@)) <= u32::MAX,
                sum.buffer_lines == i,
                sum.display_lines == display_start(rows_of(self.wraps@), i as nat),
            decreases self.wraps@.len() - i,
        {
            proof {
                lemma_display_start_mono(rows_of(self.wraps@), (i + 1) as nat, self.wraps@.len());
            }
            let item_sum = self.wraps[i].summary();
            sum.add_summary(&item_sum);
            i = i + 1;
        }
        sum
    }

    /// The last visual row (the number of visual rows minus one).
    pub fn max_display_row(&self) -> (r: u32)
        ensures
            r == if total_lines(self@) == 0 {
                0
            } else {
                total_lines(self@) - 1
            },
    {
        let total = self.summary().display_lines();
        if total == 0 {
            0
        } else {
            total - 1
        }
    }

    /// The first visual row of `buffer_row`, and the wrap of that row (if
    /// the row exists).
    fn seek_buffer_row(&self, buffer_row: u32) -> (r: (u32, Option<usize>))
        ensures
            (buffer_row as int) < self@.len() ==> r.0 == display_start(self@, buffer_row as nat)
                && r.1 == Some(buffer_row as usize),
            (buffer_row as int) >= self@.len() ==> r.0 == total_lines(self@) && r.1 is None,
    {
        proof {
            use_type_invariant(self);
        }
        let n = self.wraps.len();
        let target: usize = if (buffer_row as usize) < n {
            buffer_row as usize
        } else {
            n
        };
        let mut start: u32 = 0;
        let mut i: usize = 0;
        while i < target
            invariant
                i <= target <= self.wraps@.len() == self.buffer_rows,
                total_lines(rows_of(self.wraps@)) <= u32::MAX,
                start == display_start(rows_of(self.wraps@), i as nat),
            decreases target - i,
        {
            proof {
                lemma_display_start_mono(rows_of(self.wraps@), (i + 1) as nat, self.wraps@.len());
            }
            let count = self.wraps[i].display_line_count();
            start = start + count;
            i = i + 1;
        }
        if target < n {
            (start, Some(target))
        } else {
            (start, None)
        }
    }

    /// The buffer row holding visual row `row` and its first visual row.
    fn seek_display_row(&self, row: u32) -> (r: (usize, u32))
        ensures
            r.0 == row_holding(self@, row as nat),
            (r.0 as int) < self@.len() ==> r.1 == display_start(self@, r.0 as nat),
            (r.0 as int) >= self@.len() ==> r.1 == total_lines(self@),
            r.0 <= self@.len(),
    {
        proof {
            use_type_invariant(self);
        }
        let n = self.wraps.len();
        let mut start: u32 = 0;
        let mut i: usize = 0;
        while i < n
            invariant
                i <= n == self.wraps@.len() == self.buffer_rows,
                total_lines(rows_of(self.wraps@)) <= u32::MAX,
                start == display_start(rows_of(self.wraps@), i as nat),
                row_holding(rows_of(self.wraps@), row as nat) == row_holding_from(
                    rows_of(self.wraps@),
                    row as nat,
                    i as nat,
                ),
            decreases n - i,
        {
            proof {
                lemma_display_start_mono(rows_of(self.wraps@), (i + 1) as nat, self.wraps@.len());
            }
            let count = self.wraps[i].display_line_count();
            if (row as u64) < (start as u64) + (count as u64) {
                return (i, start);
            }
            start = start + count;
            i = i + 1;
        }
        (n, start)
    }

    /// Replaces the visual rows of `buffer_row` (the render layer calls
    /// this after measuring); a row past the end changes nothing.
    pub fn set_row_segments(&mut self, buffer_row: u32, segments: Vec<Range<usize>>)
        requires
            (buffer_row as int) < old(self)@.len() ==> total_lines(
                old(self)@.update(
                    buffer_row as int,
                    segments@.map_values(|s: Range<usize>| (s.start, s.end)),
                ),
            ) <= u32::MAX,
            columns_fit(segments@.map_values(|s: Range<usize>| (s.start, s.end))),
        ensures
            (buffer_row as int) < old(self)@.len() ==> final(self)@ == old(self)@.update(
                buffer_row as int,
                segments@.map_values(|s: Range<usize>| (s.start, s.end)),
            ),
            (buffer_row as int) >= old(self)@.len() ==> final(self)@ == old(self)@,
    {
        proof {
            use_type_invariant(&*self);
        }
        if (buffer_row as usize) < self.wraps.len() {
            let ghost before = self.wraps@;
            let item = WrapItem { segments };
            proof {
                assert(item@ =~= segments@.map_values(|s: Range<usize>| (s.start, s.end)));
            }
            proof {
                assert(rows_of(before.update(buffer_row as int, item)) =~= rows_of(before).update(
                    buffer_row as int,
                    item@,
                ));
            }
            let mut whole = DisplayMap::new(1);
            std::mem::swap(self, &mut whole);
            let DisplayMap { mut wraps, buffer_rows } = whole;
            wraps.set(buffer_row as usize, item);
            *self = DisplayMap { wraps, buffer_rows };
        }
    }

    /// The first visual row of `buffer_row` (the number of visual rows when
    /// the row is past the end).
    pub fn display_row_for_buffer_row(&self, buffer_row: u32) -> (r: DisplayRow)
        ensures
            (buffer_row as int) < self@.len() ==> r.0 == display_start(self@, buffer_row as nat),
            (buffer_row as int) >= self@.len() ==> r.0 == total_lines(self@),
    {
        let (start, _) = self.seek_buffer_row(buffer_row);
        DisplayRow(start)
    }

    /// A buffer point (row, byte column) → its display point.
    pub fn buffer_point_to_display_point(&self, point: BufferPoint) -> (r: DisplayPoint)
        requires
            (point.row as int) < self@.len() ==> locate_ok(
                self@[point.row as int],
                point.column as int,
            ),
        ensures
            r == buffer_to_display(self@, point),
    {
        proof {
            use_type_invariant(self);
        }
        let (start, item) = self.seek_buffer_row(point.row);
        match item {
            Some(index) => {
                proof {
                    lemma_display_start_mono(self@, index as nat + 1, self@.len());
                    assert(self.wraps@[index as int]@ == self@[index as int]);
                }
                let (sub_ix, column) = self.wraps[index].locate(point.column as usize);
                proof {
                    assert(self.wraps@[index as int]@ == self@[index as int]);
                    lemma_locate_bounds(self@, point.row as nat, point.column as int);
                }
                DisplayPoint::new(start + sub_ix, column)
            },
            None => DisplayPoint::new(start, point.column),
        }
    }

    /// A display point → its buffer point.
    pub fn display_point_to_buffer_point(&self, point: DisplayPoint) -> (r: BufferPoint)
        ensures
            r == display_to_buffer(self@, point),
    {
        proof {
            use_type_invariant(self);
        }
        let (index, display_start) = self.seek_display_row(point.row);
        if index >= self.wraps.len() {
            return BufferPoint::new(index as u32, point.column);
        }
        proof {
            lemma_row_holding_bounds(self@, point.row as nat, 0);
        }
        let wrap = &self.wraps[index];
        if wrap.segments.len() == 0 {
            return BufferPoint::new(index as u32, point.column);
        }
        let sub_ix = (point.row - display_start) as usize;
        proof {
            assert(wrap@ == self@[index as int]);
            assert(self@[index as int][sub_ix as int].0 == wrap.segments@[sub_ix as int].start);
        }
        let segment = &wrap.segments[sub_ix];
        BufferPoint::new(index as u32, (segment.start as u64 + point.column as u64) as u32)
    }

    /// The byte length of visual row `row`; `None` when its buffer row is
    /// not wrapped (its width is the buffer row's length) or it does not exist.
    pub fn display_row_len(&self, row: u32) -> (r: Option<u32>)
        ensures
            r == display_row_len(self@, row as nat),
    {
        proof {
            use_type_invariant(self);
        }
        let (index, display_start) = self.seek_display_row(row);
        if index >= self.wraps.len() {
            return None;
        }
        proof {
            lemma_row_holding_bounds(self@, row as nat, 0);
        }
        let wrap = &self.wraps[index];
        if wrap.segments.len() == 0 {
            return None;
        }
        let sub_ix = (row - display_start) as usize;
        let segment = &wrap.segments[sub_ix];
        let len = if segment.end > segment.start {
            segment.end - segment.start
        } else {
            0
        };
        Some(len as u32)
    }

    /// A copy of the map.
    fn copy(&self) -> (r: DisplayMap)
        ensures
            r@ == self@,
    {
        proof {
            use_type_invariant(self);
        }
        let mut wraps: Vec<WrapItem> = Vec::new();
        let mut i: usize = 0;
        while i < self.wraps.len()
            invariant
                i <= self.wraps@.len(),
                wraps@.len() == i,
                forall|k: int| 0 <= k < i ==> #[trigger] wraps@[k]@ == self.wraps@[k]@,
            decreases self.wraps@.len() - i,
        {
            wraps.push(self.wraps[i].copy());
            i = i + 1;
        }
        proof {
            assert(rows_of(wraps@) =~= rows_of(self.wraps@));
        }
        DisplayMap { wraps, buffer_rows: self.buffer_rows }
    }

    /// A read-only snapshot of the map, for a render frame or a motion.
    pub fn snapshot(&self) -> (r: DisplaySnapshot)
        ensures
            r@ == self@,
    {
        DisplaySnapshot { map: self.copy() }
    }
}

proof fn lemma_display_start_prefix(rows: Seq<Segments>, prefix: Seq<Segments>, n: nat)
    requires
        n <= prefix.len() < rows.len() || n <= prefix.len() == rows.len() - 1,
        forall|k: int| 0 <= k < prefix.len() ==> rows[k] == prefix[k],
        n == prefix.len(),
    ensures
        display_start(rows, n) == display_start(prefix, n),
        display_start(rows, n + 1) == display_start(prefix, n) + line_count(rows[n as int]),
    decreases n,
{
    lemma_display_start_same(rows, prefix, n);
}

proof fn lemma_display_start_same(a: Seq<Segments>, b: Seq<Segments>, n: nat)
    requires
        n <= a.len(),
        n <= b.len(),
        forall|k: int| 0 <= k < n ==> a[k] == b[k],
    ensures
        display_start(a, n) == display_start(b, n),
    decreases n,
{
    if n > 0 {
        lemma_display_start_same(a, b, (n - 1) as nat);
    }
}

pub proof fn lemma_locate_bounds(rows: Seq<Segments>, r: nat, column: int)
    requires
        r < rows.len(),
        total_lines(rows) <= u32::MAX,
    ensures
        0 <= locate(rows[r as int], column).0 < line_count(rows[r as int]),
        display_start(rows, r) + locate(rows[r as int], column).0 < total_lines(rows),
{
    let segs = rows[r as int];
    if segs.len() > 0 {
        lemma_first_ending_after(segs, column, 0);
    }
    lemma_display_start_mono(rows, r + 1, rows.len());
}

/// A read-only snapshot of a [`DisplayMap`].
pub struct DisplaySnapshot {
    map: DisplayMap,
}

impl View for DisplaySnapshot {
    type V = Seq<Segments>;

    closed spec fn view(&self) -> Seq<Segments> {
        self.map@
    }
}

impl DisplaySnapshot {
    pub fn buffer_point_to_display_point(&self, point: BufferPoint) -> (r: DisplayPoint)
        requires
            (point.row as int) < self@.len() ==> locate_ok(
                self@[point.row as int],
                point.column as int,
            ),
        ensures
            r == buffer_to_display(self@, point),
    {
        self.map.buffer_point_to_display_point(point)
    }

    pub fn display_point_to_buffer_point(&self, point: DisplayPoint) -> (r: BufferPoint)
        ensures
            r == display_to_buffer(self@, point),
    {
        self.map.display_point_to_buffer_point(point)
    }

    pub fn max_display_row(&self) -> (r: u32)
        ensures
            r == if total_lines(self@) == 0 {
                0
            } else {
                total_lines(self@) - 1
            },
    {
        self.map.max_display_row()
    }

    /// The byte length of a visual row; `None` when not wrapped.
    pub fn display_row_len(&self, row: u32) -> (r: Option<u32>)
        ensures
            r == display_row_len(self@, row as nat),
    {
        self.map.display_row_len(row)
    }

    pub fn buffer_rows(&self) -> (r: u32)
        ensures
            r == self@.len(),
    {
        self.map.buffer_rows()
    }
}

} // verus!
