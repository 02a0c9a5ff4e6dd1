//! The editor: a text buffer with one selection, an IME composition range
//! and an undo history, edited through one path (replace the selection,
//! collapse the cursor to the end of the insertion, record the change).
//!
//! Besides the state itself the editor carries, as ghost state, the chain
//! of texts that its undo and redo stacks lead through; the contracts use
//! it to state what undo and redo give back.

use vstd::prelude::*;
use vstd::utf8::*;

use std::ops::Range;

use crate::history::{
    can_splice, history_fits, lemma_single_change_links, lemma_splice_boundaries, redo_replay,
    selection_fits, splice, undo_replay,
};
use crate::history_proofs::{
    future_after_commit, lemma_commit_keeps_history, lemma_record_keeps_history,
    lemma_redo_pop_keeps_history, lemma_undo_pop_keeps_history, past_after_commit, pending_fits,
    texts_after_record,
};
use crate::movement::{
    first_word_end, last_word_start, word_around, word_end_after, word_range_from, word_start_before,
};
use crate::point::{OffsetUtf16, Point};
use crate::rope::{
    lemma_count_mono, lemma_line_start, next_newline,
    floor_boundary, is_floor_boundary, lemma_boundary_shift, lemma_encode_append, lemma_encode_newline,
    lemma_next_newline,    lemma_offset_point_in_row, lemma_row_boundaries, lemma_utf16_offset_from, line_start, max_row,
    offset_of_utf16, offset_to_point, point_to_offset, str_from_utf8, utf16_of_offset, Rope, NEWLINE,
};
use crate::segmentation::{
    char_offset, grapheme_offsets, inside_grapheme, lemma_char_offset_inside, word_break_before,
    word_joined_before, grapheme_starts, is_segmentation, leading_white_space_count,
    lemma_leading_white_space_count,
    leading_white_space_len, word_bound_starts,
};
use crate::selection::{Selection, SelectionGoal};
use crate::undo::{changes_view, is_noop, Change, ChangeView, EditIntent, UndoManager, UndoModel};

verus! {

broadcast use vstd::utf8::group_utf8_lib;

/// The layout mode of an editor.
#[derive(Clone, Copy, Debug, PartialEq, Eq, Structural)]
pub enum EditorMode {
    /// A one-line input: Enter does not break the line (the host decides
    /// what submitting means) and pasted line breaks become spaces.
    SingleLine,
    /// Several lines, the height following the content within bounds.
    AutoHeight { min_rows: usize, max_rows: usize },
    /// Several lines in a fixed number of rows; the content scrolls.
    MultiLine { rows: usize },
}

/// The selection after a composition step that put `inserted` bytes at
/// `start`, giving the text `text`: a caret after the inserted bytes, or,
/// where a UTF-16 range is given, that range converted through the byte
/// offsets of `text` and shifted by `start` (its end the head), each end
/// rounded down to a character boundary within the text.
pub open spec fn composed_selection(
    text: Seq<u8>,
    start: usize,
    inserted: nat,
    selected_utf16: Option<Range<usize>>,
) -> Selection {
    match selected_utf16 {
        Some(r) => Selection::spanning(
            floor_boundary(text, (offset_of_utf16(text, r.end as nat) + start) as nat) as usize,
            floor_boundary(text, (offset_of_utf16(text, r.start as nat) + start) as nat) as usize,
            SelectionGoal::Unset,
        ),
        None => Selection::caret((start + inserted) as usize, SelectionGoal::Unset),
    }
}

/// The rounding of a composed selection acts only where it must: where the
/// given UTF-16 range, converted and shifted, ends on character boundaries
/// within the text, the selection is exactly that range.
pub proof fn lemma_composed_selection_exact(text: Seq<u8>, start: usize, inserted: nat, r: Range<usize>)
    requires
        Rope::well_formed(text),
        offset_of_utf16(text, r.start as nat) + start <= text.len(),
        offset_of_utf16(text, r.end as nat) + start <= text.len(),
        is_char_boundary(text, offset_of_utf16(text, r.start as nat) + start),
        is_char_boundary(text, offset_of_utf16(text, r.end as nat) + start),
    ensures
        composed_selection(text, start, inserted, Some(r)) == Selection::spanning(
            (offset_of_utf16(text, r.end as nat) + start) as usize,
            (offset_of_utf16(text, r.start as nat) + start) as usize,
            SelectionGoal::Unset,
        ),
{
}

/// The byte offset of `units` UTF-16 units into `text`, moved on by
/// `start` bytes and rounded down to a character boundary within the text.
fn shifted_offset(text: &Rope, units: usize, start: usize) -> (r: usize)
    requires
        start <= text@.len(),
    ensures
        r == floor_boundary(text@, (offset_of_utf16(text@, units as nat) + start) as nat),
        r <= text@.len(),
        is_char_boundary(text@, r as int),
{
    let n = text.len();
    let a = text.offset_utf16_to_offset(OffsetUtf16(units));
    let shifted = if a <= n - start {
        a + start
    } else {
        n
    };
    text.floor_char_boundary(shifted)
}

impl EditorMode {
    pub open spec fn is_single_line_spec(self) -> bool {
        self is SingleLine
    }

    pub fn is_single_line(&self) -> (r: bool)
        ensures
            r == self.is_single_line_spec(),
    {
        matches!(self, EditorMode::SingleLine)
    }

    pub fn is_multi_line(&self) -> (r: bool)
        ensures
            r == !self.is_single_line_spec(),
    {
        !self.is_single_line()
    }
}

/// What an editor tells its host.
#[derive(Clone, Copy, Debug, PartialEq, Eq, Structural)]
pub enum EditorEvent {
    /// The content changed.
    Edited,
    /// Enter was pressed where it submits (single line, or multi line with
    /// submit-on-enter).
    Submitted,
    /// The selection moved.
    SelectionsChanged,
    /// The scroll position changed.
    ScrollPositionChanged,
    Focused,
    Blurred,
}

/// The state of an editor, as mathematical values.
pub struct EditorView {
    /// The text, as UTF-8 bytes.
    pub text: Seq<u8>,
    pub selection: Selection,
    /// The range of the IME composition.
    pub marked: Option<Range<usize>>,
    pub history: UndoModel,
    pub mode: EditorMode,
    pub placeholder: Seq<char>,
    pub disabled: bool,
    pub submit_on_enter: bool,
    /// Whether an IME composition (and its undo transaction) is open.
    pub composing: bool,
    /// The texts that the undo stack leads back through (see `history_fits`).
    pub past: Seq<Seq<u8>>,
    /// The texts that the redo stack leads forward through.
    pub future: Seq<Seq<u8>>,
}

/// A range that lies in the text, between characters.
pub open spec fn range_fits(r: Range<usize>, text: Seq<u8>) -> bool {
    &&& r.start <= r.end <= text.len()
    &&& is_char_boundary(text, r.start as int)
    &&& is_char_boundary(text, r.end as int)
}

impl EditorView {
    /// The state every editor is in.
    pub open spec fn wf(self) -> bool {
        &&& Rope::well_formed(self.text)
        &&& selection_fits(self.selection, self.text)
        &&& match self.marked {
            Some(r) => range_fits(r, self.text),
            None => true,
        }
        &&& self.history.wf()
        &&& self.history.open ==> self.composing
        &&& history_fits(self.history, self.text, self.past, self.future)
        &&& pending_fits(self.history, self.text)
    }

    /// The record of replacing `[start, end)` by `new_text`, the selection
    /// becoming `after`.
    pub open spec fn change_at(
        self,
        start: usize,
        end: usize,
        new_text: Seq<char>,
        after: Selection,
    ) -> ChangeView {
        ChangeView {
            old_start: start,
            old_end: end,
            old_text: decode_utf8(self.text.subrange(start as int, end as int)),
            new_start: start,
            new_end: (start + encode_utf8(new_text).len()) as usize,
            new_text,
            before: self.selection,
            after,
        }
    }

    /// The state after `[start, end)` was replaced by `new_text` and the
    /// change recorded with `intent`, the selection becoming `after`.
    pub open spec fn edited(
        self,
        start: usize,
        end: usize,
        new_text: Seq<char>,
        after: Selection,
        intent: EditIntent,
    ) -> EditorView {
        let c = self.change_at(start, end, new_text, after);
        let t = splice(self.text, start as int, end as int, encode_utf8(new_text));
        let h = texts_after_record(self.history, self.past, self.future, c, intent, t);
        EditorView {
            text: t,
            selection: after,
            history: self.history.record(c, intent),
            past: h.0,
            future: h.1,
            ..self
        }
    }

    /// The history texts once an open transaction is committed.
    pub open spec fn committed_past(self) -> Seq<Seq<u8>> {
        past_after_commit(self.history, self.past, self.text)
    }

    pub open spec fn committed_future(self) -> Seq<Seq<u8>> {
        future_after_commit(self.history, self.future, self.text)
    }

    /// The state after undo: the newest transaction (once an open one is
    /// committed) is taken back by replaying its changes backwards, and the
    /// cursor group from before it is restored; the composition ends.
    pub open spec fn undone(self) -> EditorView {
        let (step, m) = self.history.undo_step();
        let p = self.committed_past();
        let f = self.committed_future();
        match step {
            None => EditorView { history: m, past: p, future: f, ..self },
            Some(st) => EditorView {
                text: match undo_replay(self.text, st.changes) {
                    Some(t) => t,
                    None => self.text,
                },
                selection: if st.selections.len() > 0 {
                    st.selections[0]
                } else {
                    self.selection
                },
                marked: None,
                composing: false,
                history: m,
                past: p.drop_last(),
                future: f.push(p[p.len() - 2]),
                ..self
            },
        }
    }

    /// The state after redo: the transaction undone last is applied again by
    /// replaying its changes, and the cursor group from after it is
    /// restored; the composition ends.
    pub open spec fn redone(self) -> EditorView {
        let (step, m) = self.history.redo_step();
        let p = self.committed_past();
        let f = self.committed_future();
        match step {
            None => EditorView { history: m, past: p, future: f, ..self },
            Some(st) => EditorView {
                text: match redo_replay(self.text, st.changes) {
                    Some(t) => t,
                    None => self.text,
                },
                selection: if st.selections.len() > 0 {
                    st.selections[0]
                } else {
                    self.selection
                },
                marked: None,
                composing: false,
                history: m,
                past: p.push(f[f.len() - 2]),
                future: f.drop_last(),
                ..self
            },
        }
    }

    /// An empty editor in `mode`.
    pub open spec fn fresh(mode: EditorMode) -> EditorView {
        EditorView {
            text: Seq::empty(),
            selection: Selection::caret(0, SelectionGoal::Unset),
            marked: None,
            history: UndoModel::empty(),
            mode,
            placeholder: Seq::empty(),
            disabled: false,
            submit_on_enter: false,
            composing: false,
            past: seq![Seq::empty()],
            future: seq![Seq::empty()],
        }
    }

    /// The state after the selection was replaced by `new_text`: the cursor
    /// collapses to the end of the insertion and the composition range is
    /// dropped. A disabled editor stays as it is.
    pub open spec fn replaced_selection(self, new_text: Seq<char>, intent: EditIntent) -> EditorView {
        if self.disabled {
            self
        } else {
            EditorView {
                marked: None,
                ..self.edited(
                    self.selection.start,
                    self.selection.end,
                    new_text,
                    Selection::caret(
                        (self.selection.start + encode_utf8(new_text).len()) as usize,
                        SelectionGoal::Unset,
                    ),
                    intent,
                )
            }
        }
    }

    /// The state once an IME composition ends: its undo transaction is
    /// committed with the current selection as the cursor group after it.
    pub open spec fn composition_ended(self) -> EditorView {
        if self.composing {
            EditorView {
                history: self.history.commit(seq![self.selection]),
                composing: false,
                past: past_after_commit(self.history, self.past, self.text),
                future: future_after_commit(self.history, self.future, self.text),
                ..self
            }
        } else {
            self
        }
    }

    /// The state once an IME composition has started: an undo transaction
    /// opens with the current selection as the cursor group before it.
    pub open spec fn composition_started(self) -> EditorView {
        if self.composing {
            self
        } else {
            EditorView { composing: true, history: self.history.begin(seq![self.selection]), ..self }
        }
    }

    /// The byte range of a UTF-16 range.
    pub open spec fn range_from_utf16(self, r: Range<usize>) -> Range<usize> {
        Range {
            start: offset_of_utf16(self.text, r.start as nat) as usize,
            end: offset_of_utf16(self.text, r.end as nat) as usize,
        }
    }

    /// The byte range that a composition step replaces: the given UTF-16
    /// range, else the composition range, else the selection.
    pub open spec fn mark_target(self, range_utf16: Option<Range<usize>>) -> Range<usize> {
        match range_utf16 {
            Some(r) => self.range_from_utf16(r),
            None => match self.marked {
                Some(m) => m,
                None => Range { start: self.selection.start, end: self.selection.end },
            },
        }
    }

    /// The state after one composition step: the composition starts if it
    /// has not, the target range gets `new_text`, which becomes the
    /// composition range (none when empty); the change is recorded as
    /// atomic. The selection is a caret after the inserted text, or, where
    /// a UTF-16 range is given, that range converted through the new
    /// document's byte offsets and shifted by the start of the composition
    /// (its end the head). A position that this puts past the end of the
    /// text or inside a character is rounded down to a character boundary.
    pub open spec fn composed(
        self,
        range_utf16: Option<Range<usize>>,
        new_text: Seq<char>,
        selected_utf16: Option<Range<usize>>,
    ) -> EditorView {
        let e = self.composition_started();
        let b = e.mark_target(range_utf16);
        let ins = encode_utf8(new_text);
        let t = splice(e.text, b.start as int, b.end as int, ins);
        let marked = if ins.len() > 0 {
            Some(Range { start: b.start, end: (b.start + ins.len()) as usize })
        } else {
            None
        };
        let after = composed_selection(t, b.start, ins.len(), selected_utf16);
        EditorView { marked, ..e.edited(b.start, b.end, new_text, after, EditIntent::Atomic) }
    }

    /// The state with the selection `selection`.
    pub open spec fn with_selection(self, selection: Selection) -> EditorView {
        EditorView { selection, ..self }
    }

    /// The state with the content `text` and a caret at its end; all else
    /// (the composition range, the history) stays.
    pub open spec fn with_content(self, text: Seq<u8>) -> EditorView {
        EditorView {
            text,
            selection: Selection::caret(text.len() as usize, SelectionGoal::Unset),
            past: seq![text],
            future: seq![text],
            ..self
        }
    }

    /// The state with the content `text`, a caret at its end, no
    /// composition range and an empty history.
    pub open spec fn reset_to(self, text: Seq<u8>) -> EditorView {
        EditorView {
            text,
            selection: Selection::caret(text.len() as usize, SelectionGoal::Unset),
            marked: None,
            history: UndoModel::empty(),
            past: seq![text],
            future: seq![text],
            ..self
        }
    }
}

/// An editor's state.
pub struct Editor {
    rope: Rope,
    selection: Selection,
    /// The IME composition range (byte offsets into the text).
    marked_range: Option<Range<usize>>,
    undo_manager: UndoManager,
    mode: EditorMode,
    placeholder: String,
    disabled: bool,
    /// Multi line: whether a bare Enter submits instead of breaking the line.
    submit_on_enter: bool,
    /// Whether an IME composition, bracketed as one undo transaction, is open.
    ime_composing: bool,
    past: Ghost<Seq<Seq<u8>>>,
    future: Ghost<Seq<Seq<u8>>>,
}

impl View for Editor {
    type V = EditorView;

    closed spec fn view(&self) -> EditorView {
        EditorView {
            text: self.rope@,
            selection: self.selection,
            marked: self.marked_range,
            history: self.undo_manager@,
            mode: self.mode,
            placeholder: self.placeholder@,
            disabled: self.disabled,
            submit_on_enter: self.submit_on_enter,
            composing: self.ime_composing,
            past: self.past@,
            future: self.future@,
        }
    }
}

/// The history of a text that nothing was done to fits it.
proof fn lemma_fresh_history(text: Seq<u8>)
    requires
        Rope::well_formed(text),
    ensures
        history_fits(UndoModel::empty(), text, seq![text], seq![text]),
        pending_fits(UndoModel::empty(), text),
{
    lemma_blank_history(UndoModel::empty(), text);
}

/// A history with nothing to undo or redo and no open transaction fits any
/// text.
proof fn lemma_blank_history(m: UndoModel, text: Seq<u8>)
    requires
        Rope::well_formed(text),
        m.undo.len() == 0,
        m.redo.len() == 0,
        m.pending.len() == 0,
        !m.open,
    ensures
        history_fits(m, text, seq![text], seq![text]),
        pending_fits(m, text),
{
    assert(m.pending =~= Seq::<ChangeView>::empty());
    assert(redo_replay(text, Seq::<ChangeView>::empty()) == Some(text));
    assert(Seq::<ChangeView>::empty().reverse() =~= Seq::<ChangeView>::empty());
    assert(undo_replay(text, Seq::<ChangeView>::empty()) == Some(text));
}

/// The bytes `[start, end)` of valid UTF-8, cut at character boundaries,
/// are valid UTF-8 themselves.
proof fn lemma_piece_valid(b: Seq<u8>, start: int, end: int)
    requires
        valid_utf8(b),
        0 <= start <= end <= b.len(),
        is_char_boundary(b, start),
        is_char_boundary(b, end),
    ensures
        valid_utf8(b.subrange(start, end)),
        encode_utf8(decode_utf8(b.subrange(start, end))) == b.subrange(start, end),
{
    valid_utf8_split(b, start);
    let rest = b.subrange(start, b.len() as int);
    lemma_boundary_shift(b, start, end);
    valid_utf8_split(rest, end - start);
    assert(rest.subrange(0, end - start) =~= b.subrange(start, end));
}

/// The first of `starts` after `offset`; `end` when there is none.
pub open spec fn first_start_after(starts: Seq<usize>, offset: int, end: nat) -> nat
    decreases starts.len(),
{
    if starts.len() == 0 {
        end
    } else if starts[0] > offset {
        starts[0] as nat
    } else {
        first_start_after(starts.drop_first(), offset, end)
    }
}

/// The first of `starts` after `offset`; `end` when there is none.
pub fn first_start_after_in(starts: &Vec<usize>, offset: usize, end: usize) -> (r: usize)
    ensures
        r == first_start_after(starts@, offset as int, end as nat),
{
    proof {
        assert(starts@.skip(0) =~= starts@);
    }
    let mut i: usize = 0;
    while i < starts.len()
        invariant
            i <= starts@.len(),
            first_start_after(starts@, offset as int, end as nat) == first_start_after(
                starts@.skip(i as int),
                offset as int,
                end as nat,
            ),
        decreases starts@.len() - i,
    {
        proof {
            assert(starts@.skip(i as int)[0] == starts@[i as int]);
            assert(starts@.skip(i as int).drop_first() =~= starts@.skip(i + 1));
        }
        if starts[i] > offset {
            return starts[i];
        }
        i = i + 1;
    }
    proof {
        assert(starts@.skip(i as int) =~= Seq::<usize>::empty());
    }
    end
}

/// The last of `starts`; 0 when there is none.
pub fn last_start_in(starts: &Vec<usize>) -> (r: usize)
    ensures
        r == (if starts@.len() == 0 {
            0
        } else {
            starts@.last()
        }),
{
    if starts.len() == 0 {
        0
    } else {
        starts[starts.len() - 1]
    }
}

/// The first start after an offset is one of the starts, or the end.
proof fn lemma_first_start_after_is_a_start(starts: Seq<usize>, offset: int, end: nat)
    ensures
        first_start_after(starts, offset, end) == end || starts.contains(
            first_start_after(starts, offset, end) as usize,
        ),
    decreases starts.len(),
{
    if starts.len() > 0 {
        assert(starts[0] == starts[0]);
        if !(starts[0] > offset) {
            lemma_first_start_after_is_a_start(starts.drop_first(), offset, end);
            if starts.drop_first().contains(first_start_after(starts.drop_first(), offset, end) as usize) {
                let k = choose|k: int|
                    0 <= k < starts.drop_first().len() && starts.drop_first()[k] == first_start_after(
                        starts.drop_first(),
                        offset,
                        end,
                    ) as usize;
                assert(starts[k + 1] == starts.drop_first()[k]);
            }
        } else {
            assert(starts[0] == starts[0]);
        }
    }
}

/// The grapheme boundary before `offset`: where the last extended grapheme
/// cluster of the text before it starts (0 when there is none).
pub open spec fn previous_boundary_spec(text: Seq<u8>, offset: int) -> usize {
    let starts = grapheme_starts(decode_utf8(text.subrange(0, offset)));
    if starts.len() == 0 {
        0
    } else {
        starts.last()
    }
}

/// The grapheme boundary after `offset`: where the first extended grapheme
/// cluster that starts after it starts (the end of the text when none does).
pub open spec fn next_boundary_spec(text: Seq<u8>, offset: int) -> nat {
    first_start_after(grapheme_starts(decode_utf8(text)), offset, text.len())
}

/// Where the caret goes when it moves `direction` rows from `head`: the
/// same byte column, clipped to the row's end and to a character boundary;
/// above the first row the start, below the last the end of the text.
pub open spec fn vertical_target(text: Seq<u8>, head: nat, direction: int) -> nat {
    let p = offset_to_point(text, head);
    let row = p.row + direction;
    if row < 0 {
        0
    } else if row > max_row(text) {
        text.len()
    } else {
        floor_boundary(text, point_to_offset(text, Point { row: row as u32, column: p.column }))
    }
}

/// Where the head goes when a selection is stretched `direction` rows: as
/// `vertical_target`, except that above the first row it stays on the
/// first row.
pub open spec fn vertical_select_target(text: Seq<u8>, head: nat, direction: int) -> nat {
    let p = offset_to_point(text, head);
    let row = if p.row + direction < 0 {
        0
    } else {
        p.row + direction
    };
    if row > max_row(text) {
        text.len()
    } else {
        floor_boundary(text, point_to_offset(text, Point { row: row as u32, column: p.column }))
    }
}

/// Vertical motion keeps the byte column: where the head's column, clipped
/// to the end of the target row, falls between two characters, moving or
/// stretching the selection puts the head exactly there; the rounding down
/// acts only where that offset lies inside a character.
pub proof fn lemma_vertical_target_keeps_column(text: Seq<u8>, head: nat, direction: int)
    requires
        Rope::well_formed(text),
        head <= text.len(),
        0 <= offset_to_point(text, head).row + direction <= max_row(text),
        ({
            let p = offset_to_point(text, head);
            let s = line_start(text, (p.row + direction) as nat);
            let e = next_newline(text, s);
            is_char_boundary(text, if s + p.column <= e { s + p.column } else { e as int })
        }),
    ensures
        ({
            let p = offset_to_point(text, head);
            let s = line_start(text, (p.row + direction) as nat);
            let e = next_newline(text, s);
            let column_target = if s + p.column <= e { (s + p.column) as nat } else { e };
            &&& vertical_target(text, head, direction) == column_target
            &&& vertical_select_target(text, head, direction) == column_target
        }),
{
    let p = offset_to_point(text, head);
    let row = (p.row + direction) as nat;
    let s = line_start(text, row);
    lemma_count_mono(text, 0, text.len());
    lemma_line_start(text, row);
    lemma_next_newline(text, s);
    let target = point_to_offset(text, Point { row: row as u32, column: p.column });
    assert(target <= text.len());
    assert(floor_boundary(text, target) == target);
}

/// The white space at the start of the row that holds `head`, up to `head`.
pub open spec fn indent_before(text: Seq<u8>, head: nat) -> Seq<char> {
    let row_start = line_start(text, offset_to_point(text, head).row as nat);
    let line = decode_utf8(text.subrange(row_start as int, head as int));
    line.take(leading_white_space_count(line) as int)
}

/// What a paste inserts: a single-line editor turns line breaks into spaces.
pub open spec fn pasted_text(mode: EditorMode, text: Seq<char>) -> Seq<char> {
    if mode.is_single_line_spec() {
        text.map_values(|c: char| if c == '\n' { ' ' } else { c })
    } else {
        text
    }
}

/// The start of the last word that starts before `offset` (0 when none does).
pub open spec fn previous_word_start_in(text: Seq<u8>, offset: int) -> usize {
    match last_word_start(text, word_bound_starts(decode_utf8(text)), offset, 0, None) {
        Some(s) => s,
        None => 0,
    }
}

/// The end of the first word that ends after `offset` (the end of the text
/// when none does).
pub open spec fn next_word_end_in(text: Seq<u8>, offset: int) -> usize {
    first_word_end(text, word_bound_starts(decode_utf8(text)), offset, 0) as usize
}

/// A line break's byte replaced by a space's; every other byte kept.
pub open spec fn line_break_byte_to_space(b: u8) -> u8 {
    if b == NEWLINE {
        0x20u8
    } else {
        b
    }
}

/// Encoding a character with line breaks turned into spaces turns, in its
/// encoding, the line break's byte into a space's: no other character's
/// encoding holds that byte.
proof fn lemma_encode_scalar_line_break(c: char)
    ensures
        encode_scalar((if c == '\n' { ' ' } else { c }) as u32)
            == encode_scalar(c as u32).map_values(|b: u8| line_break_byte_to_space(b)),
{
    let v = c as u32;
    assert(forall|y: u8| (0x80u8 | y) != 0x0Au8 && (0xC0u8 | y) != 0x0Au8 && (0xE0u8 | y) != 0x0Au8
        && (0xF0u8 | y) != 0x0Au8) by (bit_vector);
    if c == '\n' {
        assert(0x0Au32 & 0x7Fu32 == 0x0Au32) by (bit_vector);
        assert(0x20u32 & 0x7Fu32 == 0x20u32) by (bit_vector);
        assert(encode_scalar(v).map_values(|b: u8| line_break_byte_to_space(b)) =~= encode_scalar(' ' as u32));
    } else {
        if has_width_1_encoding(v) {
            assert(v <= 0x7F ==> v & 0x7Fu32 == v) by (bit_vector);
        }
        assert(encode_scalar(v).map_values(|b: u8| line_break_byte_to_space(b)) =~= encode_scalar(v));
    }
}

/// The encoding of a text with its line breaks turned into spaces is its
/// encoding with each line break's byte turned into a space's.
proof fn lemma_encode_line_breaks_to_spaces(chars: Seq<char>)
    ensures
        encode_utf8(chars.map_values(|c: char| if c == '\n' { ' ' } else { c }))
            == encode_utf8(chars).map_values(|b: u8| line_break_byte_to_space(b)),
    decreases chars.len(),
{
    if chars.len() > 0 {
        let flat = chars.map_values(|c: char| if c == '\n' { ' ' } else { c });
        lemma_encode_line_breaks_to_spaces(chars.drop_first());
        lemma_encode_scalar_line_break(chars[0]);
        assert(flat.drop_first() =~= chars.drop_first().map_values(|c: char| if c == '\n' { ' ' } else { c }));
        let head = encode_scalar(chars[0] as u32);
        let rest = encode_utf8(chars.drop_first());
        assert((head + rest).map_values(|b: u8| line_break_byte_to_space(b)) =~= head.map_values(
            |b: u8| line_break_byte_to_space(b),
        ) + rest.map_values(|b: u8| line_break_byte_to_space(b)));
    }
}

/// `text` with every line break replaced by a space.
fn line_breaks_to_spaces(text: &str) -> (r: String)
    ensures
        r@ == text@.map_values(|c: char| if c == '\n' { ' ' } else { c }),
{
    let src = text.as_bytes();
    let mut bytes: Vec<u8> = Vec::new();
    let mut i: usize = 0;
    while i < src.len()
        invariant
            i <= src@.len(),
            bytes@ == src@.take(i as int).map_values(|b: u8| line_break_byte_to_space(b)),
        decreases src@.len() - i,
    {
        let b = src[i];
        if b == NEWLINE {
            bytes.push(0x20u8);
        } else {
            bytes.push(b);
        }
        proof {
            assert(src@.take(i + 1) =~= src@.take(i as int).push(b));
        }
        i = i + 1;
        proof {
            assert(bytes@ =~= src@.take(i as int).map_values(|b: u8| line_break_byte_to_space(b)));
        }
    }
    proof {
        assert(src@.take(src@.len() as int) =~= src@);
        lemma_encode_line_breaks_to_spaces(text@);
        encode_utf8_valid_utf8(text@.map_values(|c: char| if c == '\n' { ' ' } else { c }));
        encode_utf8_decode_utf8(text@.map_values(|c: char| if c == '\n' { ' ' } else { c }));
    }
    let flat = str_from_utf8(bytes.as_slice());
    flat.to_owned()
}

/// A boundary of a prefix is a boundary of the whole text.
proof fn lemma_prefix_boundary(b: Seq<u8>, n: int, k: int)
    requires
        valid_utf8(b),
        0 <= k <= n <= b.len(),
        is_char_boundary(b, n),
        is_char_boundary(b.subrange(0, n), k),
    ensures
        is_char_boundary(b, k),
{
    valid_utf8_split(b, n);
    if k < n {
        is_char_boundary_iff_not_is_continuation_byte(b.subrange(0, n), k);
        is_char_boundary_iff_not_is_continuation_byte(b, k);
    }
}

/// What `first_start_after` picks in a segmentation is a boundary after `offset`.
proof fn lemma_first_start_after(starts: Seq<usize>, offset: int, b: Seq<u8>, i: int)
    requires
        valid_utf8(b),
        is_segmentation(starts, b),
        0 <= i <= starts.len(),
    ensures
        is_char_boundary(b, first_start_after(starts.skip(i), offset, b.len()) as int),
        first_start_after(starts.skip(i), offset, b.len()) <= b.len(),
        offset < b.len() ==> first_start_after(starts.skip(i), offset, b.len()) > offset,
    decreases starts.len() - i,
{
    is_char_boundary_start_end_of_seq(b);
    let rest = starts.skip(i);
    if rest.len() > 0 {
        assert(rest[0] == starts[i]);
        assert(is_char_boundary(b, starts[i] as int));
        assert(rest.drop_first() =~= starts.skip(i + 1));
        lemma_first_start_after(starts, offset, b, i + 1);
    }
}

/// An edit that the text admits keeps an editor well formed.
pub proof fn lemma_edited_wf(
    e: EditorView,
    start: usize,
    end: usize,
    new_text: Seq<char>,
    after: Selection,
    intent: EditIntent,
    marked: Option<Range<usize>>,
)
    requires
        e.wf(),
        can_splice(e.text, start as int, end as int, encode_utf8(new_text)),
        selection_fits(after, splice(e.text, start as int, end as int, encode_utf8(new_text))),
        match marked {
            Some(r) => range_fits(r, splice(e.text, start as int, end as int, encode_utf8(new_text))),
            None => true,
        },
    ensures
        (EditorView { marked, ..e.edited(start, end, new_text, after, intent) }).wf(),
        Rope::well_formed(splice(e.text, start as int, end as int, encode_utf8(new_text))),
        is_char_boundary(splice(e.text, start as int, end as int, encode_utf8(new_text)), start as int),
        is_char_boundary(
            splice(e.text, start as int, end as int, encode_utf8(new_text)),
            start + encode_utf8(new_text).len(),
        ),
{
    let ins = encode_utf8(new_text);
    let t = splice(e.text, start as int, end as int, ins);
    let c = e.change_at(start, end, new_text, after);
    lemma_splice_boundaries(e.text, start as int, end as int, ins, t);
    lemma_piece_valid(e.text, start as int, end as int);
    if is_noop(c) {
        assert(t =~= e.text);
    }
    lemma_single_change_links(c, e.text, t);
    lemma_record_keeps_history(e.history, e.text, t, e.past, e.future, c, intent);
}

/// An edit that starts a transaction of its own is taken back by one undo:
/// the text and the selection are those from before the edit.
pub proof fn lemma_edit_then_undo(
    e: EditorView,
    start: usize,
    end: usize,
    new_text: Seq<char>,
    intent: EditIntent,
)
    requires
        e.wf(),
        !e.history.open,
        can_splice(e.text, start as int, end as int, encode_utf8(new_text)),
        !is_noop(e.change_at(start, end, new_text, Selection::caret((start + encode_utf8(new_text).len()) as usize, SelectionGoal::Unset))),
        !e.history.can_coalesce(
            seq![e.change_at(start, end, new_text, Selection::caret((start + encode_utf8(new_text).len()) as usize, SelectionGoal::Unset))],
            intent,
        ),
    ensures
        ({
            let after = Selection::caret((start + encode_utf8(new_text).len()) as usize, SelectionGoal::Unset);
            let e1 = EditorView { marked: None, ..e.edited(start, end, new_text, after, intent) };
            &&& e1.wf()
            &&& e1.undone().text == e.text
            &&& e1.undone().selection == e.selection
        }),
{
    let ins = encode_utf8(new_text);
    let t = splice(e.text, start as int, end as int, ins);
    let after = Selection::caret((start + ins.len()) as usize, SelectionGoal::Unset);
    let c = e.change_at(start, end, new_text, after);
    lemma_splice_boundaries(e.text, start as int, end as int, ins, t);
    lemma_edited_wf(e, start, end, new_text, after, intent, None);
    lemma_piece_valid(e.text, start as int, end as int);
    lemma_single_change_links(c, e.text, t);
    let e1 = EditorView { marked: None, ..e.edited(start, end, new_text, after, intent) };
    let m = e1.history;
    assert(m.commit(Seq::empty()) == m);
    assert(m.undo.last().changes == seq![c]);
    assert(seq![c].reverse() =~= seq![c]);
}

/// Undo followed by redo gives back the text.
pub proof fn lemma_undo_then_redo(e: EditorView)
    requires
        e.wf(),
        e.history.undo_step().0 is Some,
    ensures
        e.undone().wf(),
        e.undone().redone().text == e.text,
{
    let p = e.committed_past();
    let f = e.committed_future();
    let c = e.history.commit(Seq::empty());
    lemma_commit_keeps_history(e.history, e.text, e.past, e.future, Seq::empty());
    assert(c.commit(Seq::empty()) == c);
    lemma_undo_pop_keeps_history(c, e.text, p, f);
    let e1 = e.undone();
    let tx = c.undo.last();
    assert(e1.text == p[p.len() - 2]);
    let c1 = e1.history.commit(Seq::empty());
    assert(c1 == e1.history);
    assert(e1.history.redo.last() == tx);
}

/// Redo followed by undo gives back the text.
pub proof fn lemma_redo_then_undo(e: EditorView)
    requires
        e.wf(),
        e.history.redo_step().0 is Some,
    ensures
        e.redone().wf(),
        e.redone().undone().text == e.text,
{
    let p = e.committed_past();
    let f = e.committed_future();
    let c = e.history.commit(Seq::empty());
    lemma_commit_keeps_history(e.history, e.text, e.past, e.future, Seq::empty());
    assert(c.commit(Seq::empty()) == c);
    lemma_redo_pop_keeps_history(c, e.text, p, f);
    let e1 = e.redone();
    let tx = c.redo.last();
    assert(e1.text == f[f.len() - 2]);
    let c1 = e1.history.commit(Seq::empty());
    assert(c1 == e1.history);
    assert(e1.history.undo.last() == tx);
    assert(tx.changes.reverse().reverse() =~= tx.changes);
}

/// Opening a composition keeps an editor well formed.
proof fn lemma_composition_started_wf(e: EditorView)
    requires
        e.wf(),
    ensures
        e.composition_started().wf(),
{
    if !e.composing {
        assert(redo_replay(e.past.last(), Seq::<ChangeView>::empty()) == Some(e.past.last()));
    }
}

/// A composition is one undo step: once it ends, one undo gives back the
/// text from before it began.
pub proof fn lemma_composition_is_one_undo_step(e: EditorView)
    requires
        e.wf(),
        e.history.open,
        e.history.pending.len() > 0,
    ensures
        e.composition_ended().wf(),
        e.composition_ended().undone().text == e.past.last(),
{
    lemma_commit_keeps_history(e.history, e.text, e.past, e.future, seq![e.selection]);
    let e1 = e.composition_ended();
    assert(e1.wf());
    let c = e1.history.commit(Seq::empty());
    assert(c == e1.history);
    let p = e1.committed_past();
    let f = e1.committed_future();
    assert(p == e1.past);
    assert(f == e1.future);
    lemma_undo_pop_keeps_history(c, e1.text, p, f);
    assert(p[p.len() - 2] == e.past.last());
}

/// Replays `changes` backwards: each one's new range gets its old text back.
fn replay_backward(rope: &mut Rope, changes: &Vec<Change>)
    requires
        undo_replay(old(rope)@, changes_view(changes@)) is Some,
    ensures
        Some(final(rope)@) == undo_replay(old(rope)@, changes_view(changes@)),
{
    let ghost target = undo_replay(rope@, changes_view(changes@));
    let mut i: usize = 0;
    assert(changes_view(changes@).skip(0) =~= changes_view(changes@));
    while i < changes.len()
        invariant
            i <= changes@.len(),
            undo_replay(rope@, changes_view(changes@).skip(i as int)) == target,
            target is Some,
        decreases changes@.len() - i,
    {
        let change = &changes[i];
        proof {
            let rest = changes_view(changes@).skip(i as int);
            assert(rest[0] == change@);
            assert(rest.drop_first() =~= changes_view(changes@).skip(i + 1));
        }
        rope.replace(Range { start: change.new_range.start, end: change.new_range.end }, change.old_text.as_str());
        i = i + 1;
    }
    proof {
        assert(changes_view(changes@).skip(i as int) =~= Seq::<ChangeView>::empty());
    }
}

/// Replays `changes` forwards: each one's old range gets its new text.
fn replay_forward(rope: &mut Rope, changes: &Vec<Change>)
    requires
        redo_replay(old(rope)@, changes_view(changes@)) is Some,
    ensures
        Some(final(rope)@) == redo_replay(old(rope)@, changes_view(changes@)),
{
    let ghost target = redo_replay(rope@, changes_view(changes@));
    let mut i: usize = 0;
    assert(changes_view(changes@).skip(0) =~= changes_view(changes@));
    while i < changes.len()
        invariant
            i <= changes@.len(),
            redo_replay(rope@, changes_view(changes@).skip(i as int)) == target,
            target is Some,
        decreases changes@.len() - i,
    {
        let change = &changes[i];
        proof {
            let rest = changes_view(changes@).skip(i as int);
            assert(rest[0] == change@);
            assert(rest.drop_first() =~= changes_view(changes@).skip(i + 1));
        }
        rope.replace(Range { start: change.old_range.start, end: change.old_range.end }, change.new_text.as_str());
        i = i + 1;
    }
    proof {
        assert(changes_view(changes@).skip(i as int) =~= Seq::<ChangeView>::empty());
    }
}

impl Editor {
    pub closed spec fn wf(&self) -> bool {
        self@.wf()
    }

    /// An empty editor in `mode`.
    pub fn new(mode: EditorMode) -> (r: Self)
        ensures
            r.wf(),
            r@ == EditorView::fresh(mode),
    {
        let rope = Rope::new();
        proof {
            lemma_fresh_history(rope@);
            is_char_boundary_start_end_of_seq(rope@);
        }
        let past: Ghost<Seq<Seq<u8>>> = Ghost(Seq::empty().push(rope@));
        let future: Ghost<Seq<Seq<u8>>> = Ghost(Seq::empty().push(rope@));
        Editor {
            rope,
            selection: Selection::default(),
            marked_range: None,
            undo_manager: UndoManager::new(),
            mode,
            placeholder: String::new(),
            disabled: false,
            submit_on_enter: false,
            ime_composing: false,
            past,
            future,
        }
    }

    /// An empty one-line editor.
    pub fn single_line() -> (r: Self)
        ensures
            r.wf(),
            r@ == EditorView::fresh(EditorMode::SingleLine),
    {
        Editor::new(EditorMode::SingleLine)
    }
    // ---- builders ----

    /// The text shown while the editor is empty.
    pub fn placeholder(self, placeholder: &str) -> (r: Self)
        requires
            self.wf(),
        ensures
            r.wf(),
            r@ == (EditorView { placeholder: placeholder@, ..self@ }),
    {
        let mut e = self;
        e.placeholder = placeholder.to_owned();
        e
    }

    pub fn disabled(self, disabled: bool) -> (r: Self)
        requires
            self.wf(),
        ensures
            r.wf(),
            r@ == (EditorView { disabled, ..self@ }),
    {
        let mut e = self;
        e.disabled = disabled;
        e
    }

    /// Multi line: whether a bare Enter submits instead of breaking the line.
    pub fn submit_on_enter(self, submit: bool) -> (r: Self)
        requires
            self.wf(),
        ensures
            r.wf(),
            r@ == (EditorView { submit_on_enter: submit, ..self@ }),
    {
        let mut e = self;
        e.submit_on_enter = submit;
        e
    }

    /// Starts with `value`, the cursor at its end. Meant for a new editor:
    /// it takes an editor with nothing to undo or redo and no open undo
    /// transaction, whose composition range (if any) lies in `value`, and
    /// keeps both.
    pub fn default_value(self, value: &str) -> (r: Self)
        requires
            self.wf(),
            encode_utf8(value@).len() <= u32::MAX,
            self@.history.undo.len() == 0,
            self@.history.redo.len() == 0,
            !self@.history.open,
            match self@.marked {
                Some(m) => range_fits(m, encode_utf8(value@)),
                None => true,
            },
        ensures
            r.wf(),
            r@ == self@.with_content(encode_utf8(value@)),
    {
        let mut e = self;
        e.rope = Rope::from_str(value);
        let end = e.rope.len();
        e.selection = Selection::new(end, end);
        proof {
            lemma_blank_history(e.undo_manager@, e.rope@);
            is_char_boundary_start_end_of_seq(e.rope@);
        }
        e.past = Ghost(Seq::empty().push(e.rope@));
        e.future = Ghost(Seq::empty().push(e.rope@));
        e
    }

    // ---- reading the state ----

    pub fn is_disabled(&self) -> (r: bool)
        ensures
            r == self@.disabled,
    {
        self.disabled
    }

    pub fn mode(&self) -> (r: EditorMode)
        ensures
            r == self@.mode,
    {
        self.mode
    }

    pub fn is_multi_line(&self) -> (r: bool)
        ensures
            r == !self@.mode.is_single_line_spec(),
    {
        self.mode.is_multi_line()
    }

    pub fn placeholder_text(&self) -> (r: &str)
        ensures
            r@ == self@.placeholder,
    {
        self.placeholder.as_str()
    }

    /// The IME composition range, in byte offsets.
    pub fn marked_range(&self) -> (r: Option<Range<usize>>)
        ensures
            r == self@.marked,
    {
        match &self.marked_range {
            Some(r) => Some(Range { start: r.start, end: r.end }),
            None => None,
        }
    }

    /// The content.
    pub fn value(&self) -> (r: String)
        ensures
            encode_utf8(r@) == self@.text,
            r@ == decode_utf8(self@.text),
    {
        self.rope.to_string()
    }

    /// The content.
    pub fn text(&self) -> (r: String)
        ensures
            encode_utf8(r@) == self@.text,
            r@ == decode_utf8(self@.text),
    {
        self.rope.to_string()
    }

    /// The text of `[range.start, range.end)`.
    pub fn text_in_range(&self, range: Range<usize>) -> (r: String)
        requires
            range_fits(range, self@.text),
        ensures
            encode_utf8(r@) == self@.text.subrange(range.start as int, range.end as int),
    {
        self.rope.text_in_range(range)
    }

    pub fn selection(&self) -> (r: Selection)
        ensures
            r == self@.selection,
    {
        self.selection
    }

    // ---- setting the content ----

    /// Sets the content: the cursor goes to the end, the composition range
    /// and the undo history are dropped.
    pub fn set_value(&mut self, value: &str)
        requires
            old(self).wf(),
            encode_utf8(value@).len() <= u32::MAX,
        ensures
            final(self).wf(),
            final(self)@ == old(self)@.reset_to(encode_utf8(value@)),
    {
        self.rope = Rope::from_str(value);
        let end = self.rope.len();
        self.selection = Selection::new(end, end);
        self.marked_range = None;
        self.undo_manager.clear();
        proof {
            lemma_fresh_history(self.rope@);
            is_char_boundary_start_end_of_seq(self.rope@);
            self.past = Ghost(Seq::empty().push(self.rope@));
            self.future = Ghost(Seq::empty().push(self.rope@));
        }
    }

    /// Empties the content (and the history).
    pub fn clear(&mut self)
        requires
            old(self).wf(),
        ensures
            final(self).wf(),
            final(self)@ == old(self)@.reset_to(Seq::empty()),
    {
        proof {
            reveal_strlit("");
            assert(encode_utf8(""@) =~= Seq::<u8>::empty());
        }
        self.set_value("");
    }
    // ---- the one editing path ----

    /// Replaces `range` by `text`, puts the selection at `after` and the
    /// composition range at `marked`, and records the change with `intent`.
    fn record_edit(
        &mut self,
        range: Range<usize>,
        text: &str,
        after: Selection,
        marked: Option<Range<usize>>,
        intent: EditIntent,
    )
        requires
            old(self).wf(),
            can_splice(old(self)@.text, range.start as int, range.end as int, encode_utf8(text@)),
            selection_fits(
                after,
                splice(old(self)@.text, range.start as int, range.end as int, encode_utf8(text@)),
            ),
            match marked {
                Some(r) => range_fits(
                    r,
                    splice(old(self)@.text, range.start as int, range.end as int, encode_utf8(text@)),
                ),
                None => true,
            },
        ensures
            final(self).wf(),
            final(self)@ == (EditorView {
                marked,
                ..old(self)@.edited(range.start, range.end, text@, after, intent)
            }),
    {
        let ghost e = self@;
        proof {
            lemma_edited_wf(e, range.start, range.end, text@, after, intent, marked);
        }
        let old_text = self.rope.text_in_range(Range { start: range.start, end: range.end });
        let before = self.selection;
        self.rope.replace(Range { start: range.start, end: range.end }, text);
        self.selection = after;
        self.marked_range = marked;
        let start = range.start;
        let end = range.end;
        let new_end = start + text.len();
        let change = Change::new(
            Range { start, end },
            old_text.as_str(),
            Range { start, end: new_end },
            text,
            before,
            after,
        );
        proof {
            assert(change@ == e.change_at(range.start, range.end, text@, after));
        }
        self.undo_manager.record_transaction(change, intent);
        proof {
            let c = e.change_at(range.start, range.end, text@, after);
            let t = splice(e.text, range.start as int, range.end as int, encode_utf8(text@));
            let h = texts_after_record(e.history, e.past, e.future, c, intent, t);
            self.past = Ghost(h.0);
            self.future = Ghost(h.1);
        }
    }

    /// Replaces the selection by `text`: the cursor collapses to the end of
    /// the insertion, the composition range is dropped and the change is
    /// recorded with `intent`. A disabled editor ignores it.
    pub fn replace_selections(&mut self, text: &str, intent: EditIntent)
        requires
            old(self).wf(),
            old(self)@.text.len() - (old(self)@.selection.end - old(self)@.selection.start)
                + encode_utf8(text@).len() <= u32::MAX,
        ensures
            final(self).wf(),
            final(self)@ == old(self)@.replaced_selection(text@, intent),
    {
        if self.disabled {
            return;
        }
        let range = self.selection.range();
        let head = range.start + text.len();
        proof {
            let t = splice(self@.text, range.start as int, range.end as int, encode_utf8(text@));
            lemma_splice_boundaries(self@.text, range.start as int, range.end as int, encode_utf8(text@), t);
        }
        let mut after = self.selection;
        after.collapse_to(head, SelectionGoal::Unset);
        self.record_edit(range, text, after, None, intent);
    }
    // ---- undo / redo ----

    /// Takes back the newest transaction; whether there was one.
    pub fn undo(&mut self) -> (r: bool)
        requires
            old(self).wf(),
        ensures
            final(self).wf(),
            final(self)@ == old(self)@.undone(),
            r == (old(self)@.history.undo_step().0 is Some),
            r ==> final(self)@.text == old(self)@.committed_past()[old(self)@.committed_past().len() - 2],
    {
        let ghost e = self@;
        let ghost p = e.committed_past();
        let ghost f = e.committed_future();
        let ghost c = e.history.commit(Seq::empty());
        proof {
            lemma_commit_keeps_history(e.history, e.text, e.past, e.future, Seq::empty());
            assert(c.commit(Seq::empty()) == c);
        }
        let step = match self.undo_manager.undo() {
            Some(step) => step,
            None => {
                proof {
                    self.past = Ghost(p);
                    self.future = Ghost(f);
                }
                return false;
            },
        };
        proof {
            lemma_undo_pop_keeps_history(c, e.text, p, f);
        }
        replay_backward(&mut self.rope, &step.changes);
        if step.selections.len() > 0 {
            self.selection = step.selections[0];
        }
        self.marked_range = None;
        self.ime_composing = false;
        proof {
            self.past = Ghost(p.drop_last());
            self.future = Ghost(f.push(p[p.len() - 2]));
        }
        true
    }

    /// Applies again the transaction undone last; whether there was one.
    pub fn redo(&mut self) -> (r: bool)
        requires
            old(self).wf(),
        ensures
            final(self).wf(),
            final(self)@ == old(self)@.redone(),
            r == (old(self)@.history.redo_step().0 is Some),
            r ==> final(self)@.text == old(self)@.committed_future()[old(self)@.committed_future().len() - 2],
    {
        let ghost e = self@;
        let ghost p = e.committed_past();
        let ghost f = e.committed_future();
        let ghost c = e.history.commit(Seq::empty());
        proof {
            lemma_commit_keeps_history(e.history, e.text, e.past, e.future, Seq::empty());
            assert(c.commit(Seq::empty()) == c);
        }
        let step = match self.undo_manager.redo() {
            Some(step) => step,
            None => {
                proof {
                    self.past = Ghost(p);
                    self.future = Ghost(f);
                }
                return false;
            },
        };
        proof {
            lemma_redo_pop_keeps_history(c, e.text, p, f);
        }
        replay_forward(&mut self.rope, &step.changes);
        if step.selections.len() > 0 {
            self.selection = step.selections[0];
        }
        self.marked_range = None;
        self.ime_composing = false;
        proof {
            self.past = Ghost(p.push(f[f.len() - 2]));
            self.future = Ghost(f.drop_last());
        }
        true
    }
    // ---- grapheme boundaries ----

    /// The grapheme boundary before `offset`, so that a step left never cuts
    /// an emoji or a combining sequence apart.
    pub fn previous_boundary(&self, offset: usize) -> (r: usize)
        requires
            self.wf(),
            offset <= self@.text.len(),
            is_char_boundary(self@.text, offset as int),
        ensures
            r == previous_boundary_spec(self@.text, offset as int),
            r <= offset,
            offset > 0 ==> r < offset,
            is_char_boundary(self@.text, r as int),
            forall|i: int|
                inside_grapheme(decode_utf8(self@.text.subrange(0, offset as int)), i) ==> r != char_offset(
                    decode_utf8(self@.text.subrange(0, offset as int)),
                    i,
                ),
    {
        let head = self.rope.str_in_range(0, offset);
        let starts = grapheme_offsets(head);
        proof {
            assert forall|i: int|
                inside_grapheme(head@, i) && starts@.len() > 0 implies starts@.last() != char_offset(head@, i) by {
                assert(starts@.contains(starts@[starts@.len() - 1]));
            }
            let b = self@.text;
            let prefix = b.subrange(0, offset as int);
            valid_utf8_split(b, offset as int);
            is_char_boundary_start_end_of_seq(b);
            if starts@.len() > 0 {
                let last = starts@.last();
                assert(last == starts@[starts@.len() - 1]);
                assert(is_char_boundary(prefix, last as int));
                lemma_prefix_boundary(b, offset as int, last as int);
            }
        }
        last_start_in(&starts)
    }

    /// The grapheme boundary after `offset` (the end of the text when there
    /// is none).
    pub fn next_boundary(&self, offset: usize) -> (r: usize)
        requires
            self.wf(),
        ensures
            r == next_boundary_spec(self@.text, offset as int),
            r <= self@.text.len(),
            offset < self@.text.len() ==> r > offset,
            is_char_boundary(self@.text, r as int),
            forall|i: int| inside_grapheme(decode_utf8(self@.text), i) ==> r != char_offset(decode_utf8(self@.text), i),
    {
        let text = self.rope.to_string();
        let starts = grapheme_offsets(text.as_str());
        proof {
            lemma_first_start_after_is_a_start(starts@, offset as int, self@.text.len());
            assert forall|i: int| inside_grapheme(decode_utf8(self@.text), i) implies first_start_after(
                starts@,
                offset as int,
                self@.text.len(),
            ) != char_offset(decode_utf8(self@.text), i) by {
                lemma_char_offset_inside(text@, i);
            }
            lemma_first_start_after(starts@, offset as int, self@.text, 0);
            assert(starts@.skip(0) =~= starts@);
        }
        first_start_after_in(&starts, offset, self.rope.len())
    }
    // ---- moving the cursor ----

    /// Collapses a selection to its start, or moves the caret one grapheme left.
    pub fn move_left(&mut self)
        requires
            old(self).wf(),
        ensures
            final(self).wf(),
            final(self)@ == old(self)@.with_selection(
                Selection::caret(
                    if old(self)@.selection.start != old(self)@.selection.end {
                        old(self)@.selection.start
                    } else {
                        previous_boundary_spec(old(self)@.text, old(self)@.selection.head_spec() as int)
                    },
                    SelectionGoal::Unset,
                ),
            ),
    {
        let target = if !self.selection.is_empty() {
            self.selection.range().start
        } else {
            self.previous_boundary(self.selection.head())
        };
        self.selection.collapse_to(target, SelectionGoal::Unset);
    }

    /// Collapses a selection to its end, or moves the caret one grapheme right.
    pub fn move_right(&mut self)
        requires
            old(self).wf(),
        ensures
            final(self).wf(),
            final(self)@ == old(self)@.with_selection(
                Selection::caret(
                    if old(self)@.selection.start != old(self)@.selection.end {
                        old(self)@.selection.end
                    } else {
                        next_boundary_spec(old(self)@.text, old(self)@.selection.head_spec() as int) as usize
                    },
                    SelectionGoal::Unset,
                ),
            ),
    {
        let target = if !self.selection.is_empty() {
            self.selection.range().end
        } else {
            self.next_boundary(self.selection.head())
        };
        self.selection.collapse_to(target, SelectionGoal::Unset);
    }

    /// Moves the caret to the start of the text.
    pub fn home(&mut self)
        requires
            old(self).wf(),
        ensures
            final(self).wf(),
            final(self)@ == old(self)@.with_selection(Selection::caret(0, SelectionGoal::Unset)),
    {
        proof {
            is_char_boundary_start_end_of_seq(self@.text);
        }
        self.selection.collapse_to(0, SelectionGoal::Unset);
    }

    /// Moves the caret to the end of the text.
    pub fn end(&mut self)
        requires
            old(self).wf(),
        ensures
            final(self).wf(),
            final(self)@ == old(self)@.with_selection(
                Selection::caret(old(self)@.text.len() as usize, SelectionGoal::Unset),
            ),
    {
        proof {
            is_char_boundary_start_end_of_seq(self@.text);
        }
        let end = self.rope.len();
        self.selection.collapse_to(end, SelectionGoal::Unset);
    }

    /// Selects the whole text, the head at its end.
    pub fn select_all(&mut self)
        requires
            old(self).wf(),
        ensures
            final(self).wf(),
            final(self)@ == old(self)@.with_selection(
                Selection::spanning(old(self)@.text.len() as usize, 0, SelectionGoal::Unset),
            ),
    {
        proof {
            is_char_boundary_start_end_of_seq(self@.text);
        }
        self.selection = Selection::new(self.rope.len(), 0);
    }

    /// Moves the head one grapheme left, keeping the tail.
    pub fn select_left(&mut self)
        requires
            old(self).wf(),
        ensures
            final(self).wf(),
            final(self)@ == old(self)@.with_selection(
                Selection::spanning(
                    previous_boundary_spec(old(self)@.text, old(self)@.selection.head_spec() as int),
                    old(self)@.selection.tail_spec(),
                    SelectionGoal::Unset,
                ),
            ),
    {
        let target = self.previous_boundary(self.selection.head());
        self.selection.set_head(target, SelectionGoal::Unset);
    }

    /// Moves the head one grapheme right, keeping the tail.
    pub fn select_right(&mut self)
        requires
            old(self).wf(),
        ensures
            final(self).wf(),
            final(self)@ == old(self)@.with_selection(
                Selection::spanning(
                    next_boundary_spec(old(self)@.text, old(self)@.selection.head_spec() as int) as usize,
                    old(self)@.selection.tail_spec(),
                    SelectionGoal::Unset,
                ),
            ),
    {
        let target = self.next_boundary(self.selection.head());
        self.selection.set_head(target, SelectionGoal::Unset);
    }

    // ---- deleting ----

    /// Deletes the selection, or the grapheme before the caret. Returns
    /// whether the caret stood at the start with nothing to delete (the host
    /// may ring the bell); the text is then left alone.
    pub fn backspace(&mut self) -> (r: bool)
        requires
            old(self).wf(),
        ensures
            final(self).wf(),
            ({
                let e = old(self)@;
                let head = e.selection.head_spec();
                let prev = previous_boundary_spec(e.text, head as int);
                let empty = e.selection.start == e.selection.end;
                &&& r == (empty && prev == head)
                &&& r ==> final(self)@ == e
                &&& !r ==> final(self)@ == e.with_selection(
                    if empty {
                        Selection::spanning(prev, head, SelectionGoal::Unset)
                    } else {
                        e.selection
                    },
                ).replaced_selection(Seq::empty(), EditIntent::Backspace)
            }),
            ({
                let e = old(self)@;
                let head = e.selection.head_spec();
                let before = decode_utf8(e.text.subrange(0, head as int));
                e.selection.start == e.selection.end ==> forall|i: int|
                    inside_grapheme(before, i) ==> previous_boundary_spec(e.text, head as int) != char_offset(
                        before,
                        i,
                    )
            }),
    {
        if self.selection.is_empty() {
            let head = self.selection.head();
            let prev = self.previous_boundary(head);
            if prev == head {
                return true;
            }
            self.selection.set_head(prev, SelectionGoal::Unset);
        }
        proof {
            reveal_strlit("");
            assert(""@ =~= Seq::<char>::empty());
            assert(encode_utf8(""@) =~= Seq::<u8>::empty());
        }
        self.replace_selections("", EditIntent::Backspace);
        false
    }

    /// Deletes the selection, or the grapheme after the caret. Returns
    /// whether the caret stood at the end with nothing to delete.
    pub fn delete(&mut self) -> (r: bool)
        requires
            old(self).wf(),
        ensures
            final(self).wf(),
            ({
                let e = old(self)@;
                let head = e.selection.head_spec();
                let next = next_boundary_spec(e.text, head as int) as usize;
                let empty = e.selection.start == e.selection.end;
                &&& r == (empty && next == head)
                &&& r ==> final(self)@ == e
                &&& !r ==> final(self)@ == e.with_selection(
                    if empty {
                        Selection::spanning(next, head, SelectionGoal::Unset)
                    } else {
                        e.selection
                    },
                ).replaced_selection(Seq::empty(), EditIntent::DeleteForward)
            }),
    {
        if self.selection.is_empty() {
            let head = self.selection.head();
            let next = self.next_boundary(head);
            if next == head {
                return true;
            }
            self.selection = Selection::new(next, head);
        }
        proof {
            reveal_strlit("");
            assert(""@ =~= Seq::<char>::empty());
            assert(encode_utf8(""@) =~= Seq::<u8>::empty());
        }
        self.replace_selections("", EditIntent::DeleteForward);
        false
    }
    // ---- vertical motion ----

    fn vertical_target(&self, direction: i32, select: bool) -> (r: usize)
        requires
            self.wf(),
        ensures
            !select ==> r == vertical_target(self@.text, self@.selection.head_spec() as nat, direction as int),
            select ==> r == vertical_select_target(self@.text, self@.selection.head_spec() as nat, direction as int),
            r <= self@.text.len(),
            is_char_boundary(self@.text, r as int),
    {
        self.rope.well_formed_now();
        proof {
            is_char_boundary_start_end_of_seq(self@.text);
        }
        let head = self.selection.head();
        let p = self.rope.offset_to_point(head);
        let mut row: i64 = p.row as i64 + direction as i64;
        if row < 0 {
            if !select {
                return 0;
            }
            row = 0;
        }
        let last = self.rope.max_row();
        if row > last as i64 {
            return self.rope.len();
        }
        let target = self.rope.point_to_offset(Point::new(row as u32, p.column));
        self.rope.floor_char_boundary(target)
    }

    /// Moves the caret `direction` rows down (up when negative), keeping
    /// its byte column where the row is long enough.
    pub fn move_vertical_core(&mut self, direction: i32)
        requires
            old(self).wf(),
        ensures
            final(self).wf(),
            final(self)@ == old(self)@.with_selection(
                Selection::caret(
                    vertical_target(old(self)@.text, old(self)@.selection.head_spec() as nat, direction as int) as usize,
                    SelectionGoal::Unset,
                ),
            ),
    {
        let target = self.vertical_target(direction, false);
        self.selection.collapse_to(target, SelectionGoal::Unset);
    }

    /// Stretches the selection `direction` rows, keeping its tail.
    pub fn select_vertical_core(&mut self, direction: i32)
        requires
            old(self).wf(),
        ensures
            final(self).wf(),
            final(self)@ == old(self)@.with_selection(
                Selection::spanning(
                    vertical_select_target(old(self)@.text, old(self)@.selection.head_spec() as nat, direction as int) as usize,
                    old(self)@.selection.tail_spec(),
                    SelectionGoal::Unset,
                ),
            ),
    {
        let target = self.vertical_target(direction, true);
        self.selection.set_head(target, SelectionGoal::Unset);
    }

    /// One row up; a single-line editor leaves vertical motion to its host.
    pub fn move_up(&mut self)
        requires
            old(self).wf(),
        ensures
            final(self).wf(),
            old(self)@.mode.is_single_line_spec() ==> final(self)@ == old(self)@,
            !old(self)@.mode.is_single_line_spec() ==> final(self)@ == old(self)@.with_selection(
                Selection::caret(
                    vertical_target(old(self)@.text, old(self)@.selection.head_spec() as nat, -1) as usize,
                    SelectionGoal::Unset,
                ),
            ),
    {
        if self.mode.is_single_line() {
            return;
        }
        self.move_vertical_core(-1);
    }

    /// One row down; a single-line editor leaves vertical motion to its host.
    pub fn move_down(&mut self)
        requires
            old(self).wf(),
        ensures
            final(self).wf(),
            old(self)@.mode.is_single_line_spec() ==> final(self)@ == old(self)@,
            !old(self)@.mode.is_single_line_spec() ==> final(self)@ == old(self)@.with_selection(
                Selection::caret(
                    vertical_target(old(self)@.text, old(self)@.selection.head_spec() as nat, 1) as usize,
                    SelectionGoal::Unset,
                ),
            ),
    {
        if self.mode.is_single_line() {
            return;
        }
        self.move_vertical_core(1);
    }

    /// Stretches the selection one row up (not in a single-line editor).
    pub fn select_up(&mut self)
        requires
            old(self).wf(),
        ensures
            final(self).wf(),
            old(self)@.mode.is_single_line_spec() ==> final(self)@ == old(self)@,
            !old(self)@.mode.is_single_line_spec() ==> final(self)@ == old(self)@.with_selection(
                Selection::spanning(
                    vertical_select_target(old(self)@.text, old(self)@.selection.head_spec() as nat, -1) as usize,
                    old(self)@.selection.tail_spec(),
                    SelectionGoal::Unset,
                ),
            ),
    {
        if self.mode.is_single_line() {
            return;
        }
        self.select_vertical_core(-1);
    }

    /// Stretches the selection one row down (not in a single-line editor).
    pub fn select_down(&mut self)
        requires
            old(self).wf(),
        ensures
            final(self).wf(),
            old(self)@.mode.is_single_line_spec() ==> final(self)@ == old(self)@,
            !old(self)@.mode.is_single_line_spec() ==> final(self)@ == old(self)@.with_selection(
                Selection::spanning(
                    vertical_select_target(old(self)@.text, old(self)@.selection.head_spec() as nat, 1) as usize,
                    old(self)@.selection.tail_spec(),
                    SelectionGoal::Unset,
                ),
            ),
    {
        if self.mode.is_single_line() {
            return;
        }
        self.select_vertical_core(1);
    }
    // ---- line breaks, clipboard text ----

    /// Breaks the line at the selection; the new line starts with the white
    /// space that starts the current one (up to the cursor).
    pub fn newline_core(&mut self)
        requires
            old(self).wf(),
            old(self)@.text.len() - (old(self)@.selection.end - old(self)@.selection.start) + 1
                + encode_utf8(indent_before(old(self)@.text, old(self)@.selection.head_spec() as nat)).len()
                <= u32::MAX,
        ensures
            final(self).wf(),
            final(self)@ == old(self)@.replaced_selection(
                seq!['\n'] + indent_before(old(self)@.text, old(self)@.selection.head_spec() as nat),
                EditIntent::Atomic,
            ),
    {
        let ghost b = self@.text;
        let head = self.selection.head();
        let p = self.rope.offset_to_point(head);
        let row_start = self.rope.point_to_offset(Point::new(p.row, 0));
        proof {
            lemma_offset_point_in_row(b, head as nat);
            lemma_row_boundaries(b, p.row as nat);
            lemma_next_newline(b, line_start(b, p.row as nat));
            assert(row_start == line_start(b, p.row as nat));
        }
        let line_head = self.rope.str_in_range(row_start, head);
        let n = leading_white_space_len(line_head);
        let ghost line = line_head@;
        let ghost k = leading_white_space_count(line) as int;
        let ghost indent = line.take(k);
        proof {
            lemma_leading_white_space_count(line);
            assert(line =~= indent + line.skip(k));
            lemma_encode_append(indent, line.skip(k));
            lemma_encode_append(seq!['\n'], indent);
            lemma_encode_newline();
        }
        let src = line_head.as_bytes();
        let mut bytes: Vec<u8> = Vec::new();
        bytes.push(NEWLINE);
        let mut i: usize = 0;
        while i < n
            invariant
                i <= n,
                n == encode_utf8(indent).len(),
                src@ == encode_utf8(indent) + encode_utf8(line.skip(k)),
                bytes@ == seq![NEWLINE] + src@.take(i as int),
            decreases n - i,
        {
            bytes.push(src[i]);
            i = i + 1;
            proof {
                assert(bytes@ =~= seq![NEWLINE] + src@.take(i as int));
            }
        }
        proof {
            assert(src@.take(n as int) =~= encode_utf8(indent));
            assert(bytes@ =~= encode_utf8(seq!['\n'] + indent));
        }
        let text = str_from_utf8(bytes.as_slice());
        proof {
            encode_utf8_decode_utf8(seq!['\n'] + indent);
            assert(text@ == seq!['\n'] + indent);
        }
        self.replace_selections(text, EditIntent::Atomic);
    }

    /// Enter: a single-line editor, or a multi-line one that submits on
    /// Enter, reports a submit and leaves the text alone; otherwise the line
    /// breaks (see [`Editor::newline_core`]). Returns whether it submitted.
    pub fn newline(&mut self) -> (submitted: bool)
        requires
            old(self).wf(),
            old(self)@.text.len() - (old(self)@.selection.end - old(self)@.selection.start) + 1
                + encode_utf8(indent_before(old(self)@.text, old(self)@.selection.head_spec() as nat)).len()
                <= u32::MAX,
        ensures
            final(self).wf(),
            submitted == (old(self)@.mode.is_single_line_spec() || old(self)@.submit_on_enter),
            submitted ==> final(self)@ == old(self)@,
            !submitted ==> final(self)@ == old(self)@.replaced_selection(
                seq!['\n'] + indent_before(old(self)@.text, old(self)@.selection.head_spec() as nat),
                EditIntent::Atomic,
            ),
    {
        if self.mode.is_single_line() || self.submit_on_enter {
            return true;
        }
        self.newline_core();
        false
    }

    /// Pastes `text` over the selection as one atomic edit; a single-line
    /// editor turns its line breaks into spaces.
    pub fn paste(&mut self, text: &str)
        requires
            old(self).wf(),
            old(self)@.text.len() - (old(self)@.selection.end - old(self)@.selection.start)
                + encode_utf8(pasted_text(old(self)@.mode, text@)).len() <= u32::MAX,
        ensures
            final(self).wf(),
            final(self)@ == old(self)@.replaced_selection(
                pasted_text(old(self)@.mode, text@),
                EditIntent::Atomic,
            ),
    {
        if self.mode.is_single_line() {
            let flat = line_breaks_to_spaces(text);
            self.replace_selections(flat.as_str(), EditIntent::Atomic);
        } else {
            self.replace_selections(text, EditIntent::Atomic);
        }
    }

    /// The selected text, for the clipboard (nothing when the selection is empty).
    pub fn copy(&self) -> (r: Option<String>)
        requires
            self.wf(),
        ensures
            self@.selection.start == self@.selection.end ==> r is None,
            self@.selection.start != self@.selection.end ==> (r matches Some(t) && encode_utf8(t@)
                == self@.text.subrange(self@.selection.start as int, self@.selection.end as int)),
    {
        let range = self.selection.range();
        if range.start == range.end {
            None
        } else {
            Some(self.rope.text_in_range(range))
        }
    }

    /// Takes the selected text out, for the clipboard (nothing happens when
    /// the selection is empty).
    pub fn cut(&mut self) -> (r: Option<String>)
        requires
            old(self).wf(),
        ensures
            final(self).wf(),
            old(self)@.selection.start == old(self)@.selection.end ==> r is None && final(self)@ == old(self)@,
            old(self)@.selection.start != old(self)@.selection.end ==> (r matches Some(t) && encode_utf8(t@)
                == old(self)@.text.subrange(old(self)@.selection.start as int, old(self)@.selection.end as int)
                && final(self)@ == old(self)@.replaced_selection(Seq::empty(), EditIntent::Atomic)),
    {
        let range = self.selection.range();
        if range.start == range.end {
            return None;
        }
        let selected = self.rope.text_in_range(range);
        proof {
            reveal_strlit("");
            assert(""@ =~= Seq::<char>::empty());
            assert(encode_utf8(""@) =~= Seq::<u8>::empty());
        }
        self.replace_selections("", EditIntent::Atomic);
        Some(selected)
    }
    // ---- words ----

    /// The start of the last word that starts before `offset` (0 when none
    /// does). Words are the pieces between UAX#29 word boundaries that are
    /// not all white space: a run of CJK is one word, a URL stays whole.
    pub fn previous_word_start_offset(&self, offset: usize) -> (r: usize)
        requires
            self.wf(),
        ensures
            r == previous_word_start_in(self@.text, offset as int),
            r <= self@.text.len(),
            r < offset || r == 0,
            is_char_boundary(self@.text, r as int),
            forall|i: int|
                word_joined_before(decode_utf8(self@.text), i) ==> r != char_offset(decode_utf8(self@.text), i),
    {
        proof {
            is_char_boundary_start_end_of_seq(self@.text);
            assert forall|i: int| word_joined_before(decode_utf8(self@.text), i) implies 0 != char_offset(
                decode_utf8(self@.text),
                i,
            ) by {
                lemma_char_offset_inside(decode_utf8(self@.text), i);
            }
        }
        let text = self.rope.to_string();
        match word_start_before(text.as_str(), offset) {
            Some(s) => s,
            None => 0,
        }
    }

    /// The end of the first word that ends after `offset` (the end of the
    /// text when none does).
    pub fn next_word_end_offset(&self, offset: usize) -> (r: usize)
        requires
            self.wf(),
        ensures
            r == next_word_end_in(self@.text, offset as int),
            r <= self@.text.len(),
            r > offset || r == self@.text.len(),
            is_char_boundary(self@.text, r as int),
            forall|i: int|
                word_break_before(decode_utf8(self@.text), i) && char_offset(decode_utf8(self@.text), i) > offset
                    ==> r <= char_offset(decode_utf8(self@.text), i),
            forall|i: int|
                word_joined_before(decode_utf8(self@.text), i) ==> r != char_offset(decode_utf8(self@.text), i),
    {
        let text = self.rope.to_string();
        word_end_after(text.as_str(), offset)
    }

    /// The word around `offset` (what a double click selects): the first
    /// word whose ends enclose it, or the empty range at `offset`.
    pub fn word_range_at(&self, offset: usize) -> (r: Range<usize>)
        requires
            self.wf(),
        ensures
            match word_range_from(self@.text, word_bound_starts(decode_utf8(self@.text)), offset as int, 0) {
                Some((a, e)) => r.start == a && r.end == e,
                None => r.start == offset && r.end == offset,
            },
            forall|i: int|
                word_joined_before(decode_utf8(self@.text), i) && word_range_from(
                    self@.text,
                    word_bound_starts(decode_utf8(self@.text)),
                    offset as int,
                    0,
                ) is Some ==> r.start != char_offset(decode_utf8(self@.text), i) && r.end != char_offset(
                    decode_utf8(self@.text),
                    i,
                ),
    {
        let text = self.rope.to_string();
        match word_around(text.as_str(), offset) {
            Some((a, e)) => Range { start: a, end: e },
            None => Range { start: offset, end: offset },
        }
    }

    /// Moves the caret to the start of the previous word.
    pub fn move_to_previous_word_start(&mut self)
        requires
            old(self).wf(),
        ensures
            final(self).wf(),
            final(self)@ == old(self)@.with_selection(
                Selection::caret(
                    previous_word_start_in(old(self)@.text, old(self)@.selection.head_spec() as int),
                    SelectionGoal::Unset,
                ),
            ),
    {
        let target = self.previous_word_start_offset(self.selection.head());
        self.selection.collapse_to(target, SelectionGoal::Unset);
    }

    /// Moves the caret to the end of the next word.
    pub fn move_to_next_word_end(&mut self)
        requires
            old(self).wf(),
        ensures
            final(self).wf(),
            final(self)@ == old(self)@.with_selection(
                Selection::caret(
                    next_word_end_in(old(self)@.text, old(self)@.selection.head_spec() as int),
                    SelectionGoal::Unset,
                ),
            ),
    {
        let target = self.next_word_end_offset(self.selection.head());
        self.selection.collapse_to(target, SelectionGoal::Unset);
    }

    /// Deletes from the previous word start to the head (the tail stays
    /// where it is); nothing happens when the head is already there.
    pub fn delete_to_previous_word_start(&mut self)
        requires
            old(self).wf(),
        ensures
            final(self).wf(),
            ({
                let e = old(self)@;
                let head = e.selection.head_spec();
                let target = previous_word_start_in(e.text, head as int);
                &&& target == head ==> final(self)@ == e
                &&& target != head ==> final(self)@ == e.with_selection(
                    Selection::spanning(target, e.selection.tail_spec(), SelectionGoal::Unset),
                ).replaced_selection(Seq::empty(), EditIntent::Atomic)
            }),
    {
        let head = self.selection.head();
        let target = self.previous_word_start_offset(head);
        if target == head {
            return;
        }
        self.selection.set_head(target, SelectionGoal::Unset);
        proof {
            reveal_strlit("");
            assert(""@ =~= Seq::<char>::empty());
            assert(encode_utf8(""@) =~= Seq::<u8>::empty());
        }
        self.replace_selections("", EditIntent::Atomic);
    }

    /// Deletes from the head to the end of the next word; nothing happens
    /// when the head is already there.
    pub fn delete_to_next_word_end(&mut self)
        requires
            old(self).wf(),
        ensures
            final(self).wf(),
            ({
                let e = old(self)@;
                let head = e.selection.head_spec();
                let target = next_word_end_in(e.text, head as int);
                &&& target == head ==> final(self)@ == e
                &&& target != head ==> final(self)@ == e.with_selection(
                    Selection::spanning(target, head, SelectionGoal::Unset),
                ).replaced_selection(Seq::empty(), EditIntent::Atomic)
            }),
    {
        let head = self.selection.head();
        let target = self.next_word_end_offset(head);
        if target == head {
            return;
        }
        self.selection = Selection::new(target, head);
        proof {
            reveal_strlit("");
            assert(""@ =~= Seq::<char>::empty());
            assert(encode_utf8(""@) =~= Seq::<u8>::empty());
        }
        self.replace_selections("", EditIntent::Atomic);
    }
    // ---- UTF-16 offsets (what platform text input speaks) ----

    /// The byte offset where `offset` UTF-16 units are reached.
    pub fn offset_from_utf16(&self, offset: usize) -> (r: usize)
        requires
            self.wf(),
        ensures
            r == offset_of_utf16(self@.text, offset as nat),
            r <= self@.text.len(),
            is_char_boundary(self@.text, r as int),
    {
        self.rope.offset_utf16_to_offset(OffsetUtf16(offset))
    }

    /// The UTF-16 offset of byte offset `offset`.
    pub fn offset_to_utf16(&self, offset: usize) -> (r: usize)
        requires
            self.wf(),
        ensures
            r == utf16_of_offset(self@.text, offset as nat),
    {
        self.rope.offset_to_offset_utf16(offset).0
    }

    pub fn range_to_utf16(&self, range: &Range<usize>) -> (r: Range<usize>)
        requires
            self.wf(),
        ensures
            r.start == utf16_of_offset(self@.text, range.start as nat),
            r.end == utf16_of_offset(self@.text, range.end as nat),
    {
        Range { start: self.offset_to_utf16(range.start), end: self.offset_to_utf16(range.end) }
    }

    pub fn range_from_utf16(&self, range_utf16: &Range<usize>) -> (r: Range<usize>)
        requires
            self.wf(),
        ensures
            r == self@.range_from_utf16(*range_utf16),
            r.end <= self@.text.len(),
            is_char_boundary(self@.text, r.start as int),
            is_char_boundary(self@.text, r.end as int),
            range_utf16.start <= range_utf16.end ==> r.start <= r.end,
    {
        proof {
            if range_utf16.start <= range_utf16.end {
                lemma_utf16_offset_from(self@.text, 0, range_utf16.start as nat, range_utf16.end as nat);
            }
        }
        Range {
            start: self.offset_from_utf16(range_utf16.start),
            end: self.offset_from_utf16(range_utf16.end),
        }
    }

    // ---- platform text input (IME) ----

    /// The text of a UTF-16 range, with the UTF-16 range it actually covers.
    pub fn text_for_range(&self, range_utf16: Range<usize>) -> (r: (String, Range<usize>))
        requires
            self.wf(),
            range_utf16.start <= range_utf16.end,
        ensures
            ({
                let b = self@.range_from_utf16(range_utf16);
                &&& encode_utf8(r.0@) == self@.text.subrange(b.start as int, b.end as int)
                &&& r.1.start == utf16_of_offset(self@.text, b.start as nat)
                &&& r.1.end == utf16_of_offset(self@.text, b.end as nat)
            }),
    {
        let range = self.range_from_utf16(&range_utf16);
        let actual = self.range_to_utf16(&range);
        (self.rope.text_in_range(range), actual)
    }

    /// The selection in UTF-16 offsets, and whether it is reversed.
    pub fn selected_text_range(&self) -> (r: (Range<usize>, bool))
        requires
            self.wf(),
        ensures
            r.0.start == utf16_of_offset(self@.text, self@.selection.start as nat),
            r.0.end == utf16_of_offset(self@.text, self@.selection.end as nat),
            r.1 == self@.selection.reversed,
    {
        let range = self.selection.range();
        (self.range_to_utf16(&range), self.selection.reversed)
    }

    /// The composition range in UTF-16 offsets.
    pub fn marked_text_range(&self) -> (r: Option<Range<usize>>)
        requires
            self.wf(),
        ensures
            match self@.marked {
                Some(m) => r matches Some(u) && u.start == utf16_of_offset(self@.text, m.start as nat)
                    && u.end == utf16_of_offset(self@.text, m.end as nat),
                None => r is None,
            },
    {
        match &self.marked_range {
            Some(range) => Some(self.range_to_utf16(range)),
            None => None,
        }
    }

    /// Ends the composition, if one is open: its undo transaction closes.
    fn end_composition(&mut self)
        requires
            old(self).wf(),
        ensures
            final(self).wf(),
            final(self)@ == old(self)@.composition_ended(),
    {
        if self.ime_composing {
            let ghost e = self@;
            proof {
                lemma_commit_keeps_history(e.history, e.text, e.past, e.future, seq![e.selection]);
            }
            let mut after: Vec<Selection> = Vec::new();
            after.push(self.selection);
            proof {
                assert(after@ =~= seq![e.selection]);
            }
            self.undo_manager.commit_transaction(after);
            self.ime_composing = false;
            proof {
                self.past = Ghost(past_after_commit(e.history, e.past, e.text));
                self.future = Ghost(future_after_commit(e.history, e.future, e.text));
            }
        }
    }

    /// Drops the composition range; the composition ends.
    pub fn unmark_text(&mut self)
        requires
            old(self).wf(),
        ensures
            final(self).wf(),
            final(self)@ == (EditorView { marked: None, ..old(self)@ }).composition_ended(),
    {
        self.marked_range = None;
        self.end_composition();
    }

    /// Commits text from the platform: replaces the given UTF-16 range (or,
    /// without one, the selection, as typing outside a composition) and
    /// ends the composition. A disabled editor ignores it.
    pub fn replace_text_in_range(&mut self, range_utf16: Option<Range<usize>>, new_text: &str)
        requires
            old(self).wf(),
            match range_utf16 {
                Some(r) => r.start <= r.end && ({
                    let b = old(self)@.range_from_utf16(r);
                    old(self)@.text.len() - (b.end - b.start) + encode_utf8(new_text@).len() <= u32::MAX
                }),
                None => old(self)@.text.len() - (old(self)@.selection.end - old(self)@.selection.start)
                    + encode_utf8(new_text@).len() <= u32::MAX,
            },
        ensures
            final(self).wf(),
            old(self)@.disabled ==> final(self)@ == old(self)@,
            !old(self)@.disabled ==> final(self)@ == (match range_utf16 {
                Some(r) => {
                    let b = old(self)@.range_from_utf16(r);
                    EditorView {
                        marked: None,
                        ..old(self)@.edited(
                            b.start,
                            b.end,
                            new_text@,
                            Selection::caret(
                                (b.start + encode_utf8(new_text@).len()) as usize,
                                SelectionGoal::Unset,
                            ),
                            EditIntent::Atomic,
                        )
                    }
                },
                None => old(self)@.replaced_selection(
                    new_text@,
                    if old(self)@.composing {
                        EditIntent::Atomic
                    } else {
                        EditIntent::Typing
                    },
                ),
            }).composition_ended(),
    {
        if self.disabled {
            return;
        }
        match range_utf16 {
            Some(r) => {
                let range = self.range_from_utf16(&r);
                let head = range.start + new_text.len();
                proof {
                    let t = splice(self@.text, range.start as int, range.end as int, encode_utf8(new_text@));
                    lemma_splice_boundaries(self@.text, range.start as int, range.end as int, encode_utf8(new_text@), t);
                }
                self.record_edit(range, new_text, Selection::new(head, head), None, EditIntent::Atomic);
            },
            None => {
                let intent = if self.ime_composing {
                    EditIntent::Atomic
                } else {
                    EditIntent::Typing
                };
                self.replace_selections(new_text, intent);
            },
        }
        self.end_composition();
    }
    /// The selection that a composition step leaves when `new_text`
    /// replaces `range` (see `composed_selection`).
    fn selection_after_composing(
        &self,
        range: &Range<usize>,
        new_text: &str,
        selected_utf16: &Option<Range<usize>>,
    ) -> (r: Selection)
        requires
            self.wf(),
            can_splice(self@.text, range.start as int, range.end as int, encode_utf8(new_text@)),
        ensures
            r == composed_selection(
                splice(self@.text, range.start as int, range.end as int, encode_utf8(new_text@)),
                range.start,
                encode_utf8(new_text@).len(),
                *selected_utf16,
            ),
            selection_fits(r, splice(self@.text, range.start as int, range.end as int, encode_utf8(new_text@))),
    {
        let ghost ins = encode_utf8(new_text@);
        let ghost t = splice(self@.text, range.start as int, range.end as int, ins);
        proof {
            lemma_splice_boundaries(self@.text, range.start as int, range.end as int, ins, t);
        }
        match selected_utf16 {
            Some(r) => {
                let whole = self.rope.to_string();
                let mut preview = Rope::from_str(whole.as_str());
                preview.replace(Range { start: range.start, end: range.end }, new_text);
                assert(preview@ =~= t);
                let tail = shifted_offset(&preview, r.start, range.start);
                let head = shifted_offset(&preview, r.end, range.start);
                Selection::new(head, tail)
            },
            None => {
                let end = range.start + new_text.len();
                Selection::new(end, end)
            },
        }
    }

    /// One step of an IME composition: replaces the given UTF-16 range (else
    /// the composition range, else the selection) by `new_text` and marks it
    /// as the composition. The selection becomes `new_selected_range_utf16`,
    /// converted through the new document's offsets and shifted by the start
    /// of the composition, rounded down to character boundaries within the
    /// text (see `EditorView::composed`); without it, a caret after the new
    /// text. The first step opens
    /// an undo transaction that the composition's end commits, so that the
    /// whole composition is one undo step. A disabled editor ignores it.
    pub fn replace_and_mark_text_in_range(
        &mut self,
        range_utf16: Option<Range<usize>>,
        new_text: &str,
        new_selected_range_utf16: Option<Range<usize>>,
    )
        requires
            old(self).wf(),
            match range_utf16 {
                Some(r) => r.start <= r.end,
                None => true,
            },
            ({
                let b = old(self)@.mark_target(range_utf16);
                old(self)@.text.len() - (b.end - b.start) + encode_utf8(new_text@).len() <= u32::MAX
            }),
        ensures
            final(self).wf(),
            old(self)@.disabled ==> final(self)@ == old(self)@,
            !old(self)@.disabled ==> final(self)@ == old(self)@.composed(
                range_utf16,
                new_text@,
                new_selected_range_utf16,
            ),
    {
        if self.disabled {
            return;
        }
        if !self.ime_composing {
            let ghost e = self@;
            proof {
                lemma_composition_started_wf(e);
            }
            let mut before: Vec<Selection> = Vec::new();
            before.push(self.selection);
            proof {
                assert(before@ =~= seq![e.selection]);
            }
            self.undo_manager.begin_transaction(before);
            self.ime_composing = true;
        }
        let range = match range_utf16 {
            Some(r) => self.range_from_utf16(&r),
            None => match &self.marked_range {
                Some(m) => Range { start: m.start, end: m.end },
                None => self.selection.range(),
            },
        };
        let ghost e = self@;
        let ghost ins = encode_utf8(new_text@);
        let ghost t = splice(e.text, range.start as int, range.end as int, ins);
        proof {
            lemma_splice_boundaries(e.text, range.start as int, range.end as int, ins, t);
        }
        let start = range.start;
        let len = new_text.len();
        let marked = if len > 0 {
            Some(Range { start, end: start + len })
        } else {
            None
        };
        let after = self.selection_after_composing(&range, new_text, &new_selected_range_utf16);
        self.record_edit(range, new_text, after, marked, EditIntent::Atomic);
    }
}

} // verus!
