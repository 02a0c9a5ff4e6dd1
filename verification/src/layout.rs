//! The integer side of laying out the editor's rows: how a row is cut into
//! style runs around the composition range, which part of a row the
//! selection covers, and where on a row the caret stands. Offsets are bytes
//! into the whole text; a row is given by the byte where it starts and its
//! length, without its line break.
use std::ops::Range;

use vstd::prelude::*;

use crate::selection::Selection;

verus! {

/// `offset` as a column of the row that starts at `row_start` and holds
/// `row_len` bytes: 0 before the row, `row_len` after it.
pub open spec fn clip_to_row(offset: usize, row_start: usize, row_len: usize) -> usize {
    if offset <= row_start {
        0
    } else if offset - row_start > row_len {
        row_len
    } else {
        (offset - row_start) as usize
    }
}

/// The runs of `runs` that are not empty, in order.
pub open spec fn nonempty_runs(runs: Seq<(usize, bool)>) -> Seq<(usize, bool)>
    decreases runs.len(),
{
    if runs.len() == 0 {
        runs
    } else if runs[0].0 > 0 {
        seq![runs[0]] + nonempty_runs(runs.drop_first())
    } else {
        nonempty_runs(runs.drop_first())
    }
}

/// The style runs of a row, as (length, underlined): where text (not the
/// placeholder) is shown and a composition is under way, the part of the
/// row before the composition, the part inside it (underlined) and the part
/// after it, empty parts left out; otherwise one plain run over the row.
pub open spec fn row_runs_spec(
    marked: Option<Range<usize>>,
    show_placeholder: bool,
    row_start: usize,
    row_len: usize,
) -> Seq<(usize, bool)> {
    match marked {
        Some(m) if !show_placeholder => {
            let a = clip_to_row(m.start, row_start, row_len);
            let b = clip_to_row(m.end, row_start, row_len);
            nonempty_runs(seq![(a, false), ((b - a) as usize, true), ((row_len - b) as usize, false)])
        },
        _ => seq![(row_len, false)],
    }
}

/// `x` clamped to `[lo, hi]`.
pub open spec fn clamp_to(x: usize, lo: usize, hi: usize) -> usize {
    if x < lo {
        lo
    } else if x > hi {
        hi
    } else {
        x
    }
}

/// The columns of the row `row` that the selection highlights, from its
/// start to its end clamped to the row. An empty row that the selection
/// covers whole is highlighted too, with both columns 0; a row that it
/// misses, or only touches, is not.
pub open spec fn selection_span_spec(selection: Selection, row: Range<usize>) -> Option<(usize, usize)> {
    let s = clamp_to(selection.start, row.start, row.end);
    let e = clamp_to(selection.end, row.start, row.end);
    let full_row = selection.start <= row.start && selection.end >= row.end;
    if s < e || (full_row && s == e && selection.start != selection.end) {
        Some(((s - row.start) as usize, (e - row.start) as usize))
    } else {
        None
    }
}

/// The column of the caret on the row `row`: where the selection is empty
/// and its head lies within the row, its end included.
pub open spec fn caret_column_spec(selection: Selection, row: Range<usize>) -> Option<usize> {
    if selection.start == selection.end && row.start <= selection.head_spec() <= row.end {
        Some((selection.head_spec() - row.start) as usize)
    } else {
        None
    }
}

fn clip(offset: usize, row_start: usize, row_len: usize) -> (r: usize)
    ensures
        r == clip_to_row(offset, row_start, row_len),
{
    if offset <= row_start {
        0
    } else if offset - row_start > row_len {
        row_len
    } else {
        offset - row_start
    }
}

/// The style runs of the row of `row_len` bytes that starts at `row_start`
/// (see `row_runs_spec`).
pub fn row_runs(marked: &Option<Range<usize>>, show_placeholder: bool, row_start: usize, row_len: usize) -> (r: Vec<(
    usize,
    bool,
)>)
    requires
        match marked {
            Some(m) => m.start <= m.end,
            None => true,
        },
    ensures
        r@ == row_runs_spec(*marked, show_placeholder, row_start, row_len),
{
    let mut runs: Vec<(usize, bool)> = Vec::new();
    match marked {
        Some(m) if !show_placeholder => {
            let a = clip(m.start, row_start, row_len);
            let b = clip(m.end, row_start, row_len);
            let ghost all = seq![(a, false), ((b - a) as usize, true), ((row_len - b) as usize, false)];
            let ghost tail2 = all.drop_first();
            let ghost tail3 = tail2.drop_first();
            proof {
                assert(nonempty_runs(tail3.drop_first()) =~= Seq::<(usize, bool)>::empty());
                assert(tail3[0] == ((row_len - b) as usize, false));
                assert(tail2[0] == ((b - a) as usize, true));
                assert(all[0] == (a, false));
            }
            let ghost first: Seq<(usize, bool)> = if a > 0 { seq![(a, false)] } else { Seq::empty() };
            let ghost second: Seq<(usize, bool)> = if b - a > 0 { seq![((b - a) as usize, true)] } else { Seq::empty() };
            let ghost third: Seq<(usize, bool)> = if row_len - b > 0 { seq![((row_len - b) as usize, false)] } else { Seq::empty() };
            proof {
                assert(nonempty_runs(tail3) =~= third);
                assert(nonempty_runs(tail2) =~= second + third);
                assert(nonempty_runs(all) =~= first + (second + third));
            }
            if a > 0 {
                runs.push((a, false));
            }
            assert(runs@ =~= first);
            if b - a > 0 {
                runs.push((b - a, true));
            }
            assert(runs@ =~= first + second);
            if row_len - b > 0 {
                runs.push((row_len - b, false));
            }
            assert(runs@ =~= first + (second + third));
        },
        _ => {
            runs.push((row_len, false));
            proof {
                assert(runs@ =~= seq![(row_len, false)]);
            }
        },
    }
    runs
}

/// The columns of the row `row` that `selection` highlights (see
/// `selection_span_spec`).
pub fn selection_span(selection: &Selection, row: &Range<usize>) -> (r: Option<(usize, usize)>)
    requires
        row.start <= row.end,
    ensures
        r == selection_span_spec(*selection, *row),
{
    let s = if selection.start < row.start {
        row.start
    } else if selection.start > row.end {
        row.end
    } else {
        selection.start
    };
    let e = if selection.end < row.start {
        row.start
    } else if selection.end > row.end {
        row.end
    } else {
        selection.end
    };
    let full_row = selection.start <= row.start && selection.end >= row.end;
    if s < e || (full_row && s == e && selection.start != selection.end) {
        Some((s - row.start, e - row.start))
    } else {
        None
    }
}

/// The column of the caret on the row `row` (see `caret_column_spec`).
pub fn caret_column(selection: &Selection, row: &Range<usize>) -> (r: Option<usize>)
    ensures
        r == caret_column_spec(*selection, *row),
{
    let head = selection.head();
    if selection.start == selection.end && row.start <= head && head <= row.end {
        Some(head - row.start)
    } else {
        None
    }
}

} // verus!
