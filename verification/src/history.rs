//! What a recorded history means for the text: replaying changes forwards
//! (redo) and backwards (undo), and the chain of texts that the undo and
//! redo stacks lead through.

use vstd::prelude::*;
use vstd::utf8::*;

use crate::rope::Rope;
use crate::selection::Selection;
use crate::undo::{ChangeView, TransactionView, UndoModel};

verus! {

broadcast use vstd::utf8::group_utf8_lib;

/// `text` with the bytes `[start, end)` replaced by `insert`.
pub open spec fn splice(text: Seq<u8>, start: int, end: int, insert: Seq<u8>) -> Seq<u8> {
    text.subrange(0, start) + insert + text.subrange(end, text.len() as int)
}

/// Whether `[start, end)` can be replaced by `insert` in `text`: it lies in
/// the text, between characters, and the result stays addressable.
pub open spec fn can_splice(text: Seq<u8>, start: int, end: int, insert: Seq<u8>) -> bool {
    &&& 0 <= start <= end <= text.len()
    &&& is_char_boundary(text, start)
    &&& is_char_boundary(text, end)
    &&& text.len() - (end - start) + insert.len() <= u32::MAX
}

/// Applies the changes in order, each replacing its old range by its new text.
pub open spec fn redo_replay(text: Seq<u8>, changes: Seq<ChangeView>) -> Option<Seq<u8>>
    decreases changes.len(),
{
    if changes.len() == 0 {
        Some(text)
    } else {
        let c = changes[0];
        let insert = encode_utf8(c.new_text);
        if can_splice(text, c.old_start as int, c.old_end as int, insert) {
            redo_replay(splice(text, c.old_start as int, c.old_end as int, insert), changes.drop_first())
        } else {
            None
        }
    }
}

/// Applies the changes in order, each replacing its new range by its old text.
pub open spec fn undo_replay(text: Seq<u8>, changes: Seq<ChangeView>) -> Option<Seq<u8>>
    decreases changes.len(),
{
    if changes.len() == 0 {
        Some(text)
    } else {
        let c = changes[0];
        let insert = encode_utf8(c.old_text);
        if can_splice(text, c.new_start as int, c.new_end as int, insert) {
            undo_replay(splice(text, c.new_start as int, c.new_end as int, insert), changes.drop_first())
        } else {
            None
        }
    }
}

/// A selection whose ends lie in the text, between characters.
pub open spec fn selection_fits(s: Selection, text: Seq<u8>) -> bool {
    &&& s.start <= s.end <= text.len()
    &&& is_char_boundary(text, s.start as int)
    &&& is_char_boundary(text, s.end as int)
}

/// `changes` lead from `from` to `to`, and back again in reverse.
pub open spec fn changes_link(changes: Seq<ChangeView>, from: Seq<u8>, to: Seq<u8>) -> bool {
    &&& redo_replay(from, changes) == Some(to)
    &&& undo_replay(to, changes.reverse()) == Some(from)
}

/// A transaction leads from `from` to `to` (and back), and its cursor
/// groups start with a selection that fits the text on its side.
pub open spec fn transaction_links(tx: TransactionView, from: Seq<u8>, to: Seq<u8>) -> bool {
    &&& tx.changes.len() > 0
    &&& changes_link(tx.changes, from, to)
    &&& tx.before.len() > 0
    &&& selection_fits(tx.before[0], from)
    &&& tx.after.len() > 0
    &&& selection_fits(tx.after[0], to)
}

/// The texts that the history passes through.
///
/// `past[j]` is the text before undo transaction `j` and `past[j + 1]` the
/// text after it; the last of them is the text without the changes of an
/// open explicit transaction. `future[i + 1]` is the text before redo
/// transaction `i` and `future[i]` the text after it, so redo leads from
/// the last of `past` (which is also the last of `future`) back down.
pub open spec fn history_fits(
    m: UndoModel,
    text: Seq<u8>,
    past: Seq<Seq<u8>>,
    future: Seq<Seq<u8>>,
) -> bool {
    &&& past.len() == m.undo.len() + 1
    &&& future.len() == m.redo.len() + 1
    &&& future.last() == past.last()
    &&& forall|j: int| 0 <= j < m.undo.len() ==> transaction_links(#[trigger] m.undo[j], past[j], past[j + 1])
    &&& forall|i: int| 0 <= i < m.redo.len() ==> transaction_links(#[trigger] m.redo[i], future[i + 1], future[i])
    &&& changes_link(m.pending, past.last(), text)
    &&& m.open ==> m.pending_before.len() > 0 && selection_fits(m.pending_before[0], past.last())
    &&& forall|j: int| 0 <= j < past.len() ==> Rope::well_formed(#[trigger] past[j])
    &&& forall|i: int| 0 <= i < future.len() ==> Rope::well_formed(#[trigger] future[i])
}

// ---- facts ----

pub proof fn lemma_redo_replay_append(text: Seq<u8>, a: Seq<ChangeView>, b: Seq<ChangeView>)
    ensures
        redo_replay(text, a + b) == match redo_replay(text, a) {
            Some(u) => redo_replay(u, b),
            None => None,
        },
    decreases a.len(),
{
    if a.len() == 0 {
        assert(a + b =~= b);
    } else {
        assert((a + b).drop_first() =~= a.drop_first() + b);
        let c = a[0];
        let insert = encode_utf8(c.new_text);
        if can_splice(text, c.old_start as int, c.old_end as int, insert) {
            lemma_redo_replay_append(
                splice(text, c.old_start as int, c.old_end as int, insert),
                a.drop_first(),
                b,
            );
        }
    }
}

pub proof fn lemma_undo_replay_append(text: Seq<u8>, a: Seq<ChangeView>, b: Seq<ChangeView>)
    ensures
        undo_replay(text, a + b) == match undo_replay(text, a) {
            Some(u) => undo_replay(u, b),
            None => None,
        },
    decreases a.len(),
{
    if a.len() == 0 {
        assert(a + b =~= b);
    } else {
        assert((a + b).drop_first() =~= a.drop_first() + b);
        let c = a[0];
        let insert = encode_utf8(c.old_text);
        if can_splice(text, c.new_start as int, c.new_end as int, insert) {
            lemma_undo_replay_append(
                splice(text, c.new_start as int, c.new_end as int, insert),
                a.drop_first(),
                b,
            );
        }
    }
}

/// Chained links compose: changes from `a` to `b` followed by changes from
/// `b` to `c` lead from `a` to `c`, and back.
pub proof fn lemma_changes_link_append(
    x: Seq<ChangeView>,
    y: Seq<ChangeView>,
    a: Seq<u8>,
    b: Seq<u8>,
    c: Seq<u8>,
)
    requires
        changes_link(x, a, b),
        changes_link(y, b, c),
    ensures
        changes_link(x + y, a, c),
{
    lemma_redo_replay_append(a, x, y);
    assert((x + y).reverse() =~= y.reverse() + x.reverse());
    lemma_undo_replay_append(c, y.reverse(), x.reverse());
}

/// One replacement, recorded with the text it replaced and the text it put
/// in at the same start, links the text before and after it.
pub proof fn lemma_single_change_links(
    c: ChangeView,
    before: Seq<u8>,
    after: Seq<u8>,
)
    requires
        Rope::well_formed(before),
        Rope::well_formed(after),
        can_splice(before, c.old_start as int, c.old_end as int, encode_utf8(c.new_text)),
        after == splice(before, c.old_start as int, c.old_end as int, encode_utf8(c.new_text)),
        encode_utf8(c.old_text) == before.subrange(c.old_start as int, c.old_end as int),
        c.new_start == c.old_start,
        c.new_end == c.old_start + encode_utf8(c.new_text).len(),
    ensures
        changes_link(seq![c], before, after),
{
    let s = c.old_start as int;
    let e = c.old_end as int;
    let ins = encode_utf8(c.new_text);
    let old = encode_utf8(c.old_text);
    assert(seq![c].drop_first() =~= Seq::<ChangeView>::empty());
    assert(seq![c].reverse() =~= seq![c]);
    assert(after.subrange(0, s) =~= before.subrange(0, s));
    assert(after.subrange(s, s + ins.len()) =~= ins);
    assert(after.subrange(s + ins.len(), after.len() as int) =~= before.subrange(e, before.len() as int));
    lemma_splice_boundaries(before, s, e, ins, after);
    assert(splice(after, s, s + ins.len(), old) =~= before);
    assert(redo_replay(after, Seq::<ChangeView>::empty()) == Some(after));
    assert(redo_replay(before, seq![c]) == Some(after));
    assert(can_splice(after, c.new_start as int, c.new_end as int, old));
    assert(undo_replay(before, Seq::<ChangeView>::empty()) == Some(before));
    assert(undo_replay(after, seq![c]) == Some(before));
}

/// In a splice of valid UTF-8, the edges of the inserted text are
/// character boundaries of the result.
pub proof fn lemma_splice_boundaries(before: Seq<u8>, s: int, e: int, ins: Seq<u8>, after: Seq<u8>)
    requires
        valid_utf8(before),
        valid_utf8(ins),
        0 <= s <= e <= before.len(),
        is_char_boundary(before, s),
        is_char_boundary(before, e),
        after == splice(before, s, e, ins),
    ensures
        valid_utf8(after),
        is_char_boundary(after, s),
        is_char_boundary(after, s + ins.len()),
{
    valid_utf8_split(before, s);
    valid_utf8_split(before, e);
    let head = before.subrange(0, s);
    let tail = before.subrange(e, before.len() as int);
    valid_utf8_concat(head, ins);
    valid_utf8_concat(head + ins, tail);
    valid_utf8_concat(ins, tail);
    lemma_boundary_at_join(head, ins + tail);
    assert(head + (ins + tail) =~= after);
    lemma_boundary_at_join(head + ins, tail);
    assert((head + ins) + tail =~= after);
}

/// Where two valid UTF-8 texts are joined, there is a character boundary.
pub proof fn lemma_boundary_at_join(a: Seq<u8>, b: Seq<u8>)
    requires
        valid_utf8(a),
        valid_utf8(b),
    ensures
        valid_utf8(a + b),
        is_char_boundary(a + b, a.len() as int),
    decreases a.len(),
{
    valid_utf8_concat(a, b);
    if a.len() == 0 {
        assert(a + b =~= b);
        is_char_boundary_start_end_of_seq(b);
    } else {
        let l = length_of_first_scalar(a);
        let pa = pop_first_scalar(a);
        assert(pa.len() < a.len()) by {
            assert(l >= 1);
        }
        lemma_boundary_at_join(pa, b);
        assert(take_first_scalar(a + b) =~= take_first_scalar(a));
        assert(pop_first_scalar(a + b) =~= pa + b);
        reveal_with_fuel(is_char_boundary, 2);
    }
}

} // verus!
