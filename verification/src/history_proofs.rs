//! How each operation of the undo history keeps the chain of texts that
//! [`history_fits`] describes.

use vstd::prelude::*;
use vstd::utf8::*;

use crate::history::{
    changes_link, history_fits, lemma_changes_link_append, selection_fits, transaction_links,
    undo_replay, redo_replay,
};
use crate::rope::Rope;
use crate::selection::Selection;
use crate::undo::{
    group_or, is_noop, ChangeView, EditIntent, TransactionView, UndoModel,
    MAX_UNDO_TRANSACTIONS,
};

verus! {

broadcast use vstd::utf8::group_utf8_lib;

/// The pending changes of an open transaction end at a selection that fits
/// the current text (the cursor stands where the last change left it).
pub open spec fn pending_fits(m: UndoModel, text: Seq<u8>) -> bool {
    m.pending.len() > 0 ==> selection_fits(m.pending.last().after, text)
}

/// The history after a transaction of `changes` was pushed.
pub open spec fn past_after_push(m: UndoModel, past: Seq<Seq<u8>>, changes: Seq<ChangeView>, intent: EditIntent, text: Seq<u8>) -> Seq<Seq<u8>> {
    if m.can_coalesce(changes, intent) {
        past.drop_last().push(text)
    } else if m.undo.len() >= MAX_UNDO_TRANSACTIONS {
        past.drop_first().push(text)
    } else {
        past.push(text)
    }
}

/// Pushing a transaction that leads from the last text of the history to
/// `text` keeps the history fitting `text`.
pub proof fn lemma_push_keeps_history(
    m: UndoModel,
    past: Seq<Seq<u8>>,
    future: Seq<Seq<u8>>,
    changes: Seq<ChangeView>,
    intent: EditIntent,
    before: Option<Seq<Selection>>,
    after: Option<Seq<Selection>>,
    text: Seq<u8>,
)
    requires
        m.wf(),
        history_fits(m, past.last(), past, future),
        !m.open,
        m.pending.len() == 0,
        changes.len() > 0,
        changes_link(changes, past.last(), text),
        Rope::well_formed(text),
        selection_fits(group_or(before, changes[0].before)[0], past.last()),
        selection_fits(group_or(after, changes.last().after)[0], text),
        !m.can_coalesce(changes, intent) || selection_fits(changes.last().after, text),
    ensures
        history_fits(
            m.push(changes, intent, before, after),
            text,
            past_after_push(m, past, changes, intent, text),
            seq![text],
        ),
{
    let m2 = m.push(changes, intent, before, after);
    let p2 = past_after_push(m, past, changes, intent, text);
    let k = m.undo.len() as int;
    assert(redo_replay(text, Seq::<ChangeView>::empty()) == Some(text));
    assert(Seq::<ChangeView>::empty().reverse() =~= Seq::<ChangeView>::empty());
    assert(undo_replay(text, Seq::<ChangeView>::empty()) == Some(text));
    if m.can_coalesce(changes, intent) {
        let last = m.undo.last();
        assert(transaction_links(m.undo[k - 1], past[k - 1], past[k]));
        lemma_changes_link_append(last.changes, changes, past[k - 1], past[k], text);
        assert forall|j: int| 0 <= j < m2.undo.len() implies transaction_links(
            #[trigger] m2.undo[j],
            p2[j],
            p2[j + 1],
        ) by {
            if j < k - 1 {
                assert(transaction_links(m.undo[j], past[j], past[j + 1]));
            }
        }
        assert forall|j: int| 0 <= j < p2.len() implies Rope::well_formed(#[trigger] p2[j]) by {
            if j < k {
                assert(Rope::well_formed(past[j]));
            }
        }
    } else if k >= MAX_UNDO_TRANSACTIONS {
        assert forall|j: int| 0 <= j < m2.undo.len() implies transaction_links(
            #[trigger] m2.undo[j],
            p2[j],
            p2[j + 1],
        ) by {
            if j < k - 1 {
                assert(transaction_links(m.undo[j + 1], past[j + 1], past[j + 2]));
            }
        }
        assert forall|j: int| 0 <= j < p2.len() implies Rope::well_formed(#[trigger] p2[j]) by {
            if j < k {
                assert(Rope::well_formed(past[j + 1]));
            }
        }
    } else {
        assert forall|j: int| 0 <= j < m2.undo.len() implies transaction_links(
            #[trigger] m2.undo[j],
            p2[j],
            p2[j + 1],
        ) by {
            if j < k {
                assert(transaction_links(m.undo[j], past[j], past[j + 1]));
            }
        }
        assert forall|j: int| 0 <= j < p2.len() implies Rope::well_formed(#[trigger] p2[j]) by {
            if j < k + 1 {
                assert(Rope::well_formed(past[j]));
            }
        }
    }
}

/// The history after an open transaction is committed.
pub open spec fn past_after_commit(m: UndoModel, past: Seq<Seq<u8>>, text: Seq<u8>) -> Seq<Seq<u8>> {
    if !m.open || m.pending.len() == 0 {
        past
    } else {
        past_after_push(
            UndoModel { open: false, pending: Seq::empty(), pending_before: Seq::empty(), ..m },
            past,
            m.pending,
            EditIntent::Atomic,
            text,
        )
    }
}

pub open spec fn future_after_commit(m: UndoModel, future: Seq<Seq<u8>>, text: Seq<u8>) -> Seq<Seq<u8>> {
    if !m.open || m.pending.len() == 0 {
        future
    } else {
        seq![text]
    }
}

/// Committing an open transaction keeps the history fitting the text.
pub proof fn lemma_commit_keeps_history(
    m: UndoModel,
    text: Seq<u8>,
    past: Seq<Seq<u8>>,
    future: Seq<Seq<u8>>,
    after: Seq<Selection>,
)
    requires
        m.wf(),
        history_fits(m, text, past, future),
        pending_fits(m, text),
        Rope::well_formed(text),
        after.len() > 0 ==> selection_fits(after[0], text),
    ensures
        history_fits(
            m.commit(after),
            text,
            past_after_commit(m, past, text),
            future_after_commit(m, future, text),
        ),
        m.commit(after).pending.len() == 0,
        !m.commit(after).open,
        past_after_commit(m, past, text).last() == text,
{
    assert(redo_replay(past.last(), Seq::<ChangeView>::empty()) == Some(past.last()));
    if !m.open {
        assert(m.pending.len() == 0);
    } else if m.pending.len() == 0 {
    } else {
        let closed = UndoModel { open: false, pending: Seq::empty(), pending_before: Seq::empty(), ..m };
        assert(redo_replay(past.last(), Seq::<ChangeView>::empty()) == Some(past.last()));
        assert(Seq::<ChangeView>::empty().reverse() =~= Seq::<ChangeView>::empty());
        assert(undo_replay(past.last(), Seq::<ChangeView>::empty()) == Some(past.last()));
        assert(history_fits(closed, past.last(), past, future));
        lemma_push_keeps_history(
            closed,
            past,
            future,
            m.pending,
            EditIntent::Atomic,
            Some(m.pending_before),
            Some(after),
            text,
        );
    }
}

/// The texts of a history after one edit, which led to `text`, was recorded.
pub open spec fn texts_after_record(
    m: UndoModel,
    past: Seq<Seq<u8>>,
    future: Seq<Seq<u8>>,
    change: ChangeView,
    intent: EditIntent,
    text: Seq<u8>,
) -> (Seq<Seq<u8>>, Seq<Seq<u8>>) {
    if is_noop(change) {
        (past_after_commit(m, past, text), future_after_commit(m, future, text))
    } else if m.open {
        (past, future)
    } else {
        (past_after_push(m, past, seq![change], intent, text), seq![text])
    }
}

/// Recording one edit, which led from `before_text` to `text`, keeps the
/// history fitting the text.
pub proof fn lemma_record_keeps_history(
    m: UndoModel,
    before_text: Seq<u8>,
    text: Seq<u8>,
    past: Seq<Seq<u8>>,
    future: Seq<Seq<u8>>,
    change: ChangeView,
    intent: EditIntent,
)
    requires
        m.wf(),
        history_fits(m, before_text, past, future),
        pending_fits(m, before_text),
        Rope::well_formed(before_text),
        Rope::well_formed(text),
        changes_link(seq![change], before_text, text),
        selection_fits(change.before, before_text),
        selection_fits(change.after, text),
        is_noop(change) ==> text == before_text,
    ensures
        ({
            let r = texts_after_record(m, past, future, change, intent, text);
            &&& history_fits(m.record(change, intent), text, r.0, r.1)
            &&& pending_fits(m.record(change, intent), text)
            &&& !m.record(change, intent).open ==> r.0.last() == text
        }),
{
    if is_noop(change) {
        lemma_commit_keeps_history(m, text, past, future, Seq::empty());
    } else if m.open {
        lemma_changes_link_append(m.pending, seq![change], past.last(), before_text, text);
        assert(m.pending.push(change) =~= m.pending + seq![change]);
    } else {
        assert(m.pending.len() == 0);
        assert(redo_replay(past.last(), Seq::<ChangeView>::empty()) == Some(past.last()));
        assert(past.last() == before_text);
        lemma_push_keeps_history(m, past, future, seq![change], intent, None, None, text);
    }
}

/// Taking back the newest transaction leads to the text before it.
pub proof fn lemma_undo_pop_keeps_history(
    c: UndoModel,
    text: Seq<u8>,
    past: Seq<Seq<u8>>,
    future: Seq<Seq<u8>>,
)
    requires
        c.wf(),
        history_fits(c, text, past, future),
        !c.open,
        c.pending.len() == 0,
        c.undo.len() > 0,
    ensures
        past.last() == text,
        transaction_links(c.undo.last(), past[past.len() - 2], text),
        history_fits(c.undo_step().1, past[past.len() - 2], past.drop_last(), future.push(past[past.len() - 2])),
{
    let k = c.undo.len() as int;
    assert(redo_replay(past.last(), Seq::<ChangeView>::empty()) == Some(past.last()));
    assert(transaction_links(c.undo[k - 1], past[k - 1], past[k]));
    let m2 = c.undo_step().1;
    let p2 = past.drop_last();
    let f2 = future.push(past[k - 1]);
    assert(c.commit(Seq::empty()) == c);
    assert(redo_replay(p2.last(), Seq::<ChangeView>::empty()) == Some(p2.last()));
    assert(Seq::<ChangeView>::empty().reverse() =~= Seq::<ChangeView>::empty());
    assert(undo_replay(p2.last(), Seq::<ChangeView>::empty()) == Some(p2.last()));
    assert forall|j: int| 0 <= j < m2.undo.len() implies transaction_links(
        #[trigger] m2.undo[j],
        p2[j],
        p2[j + 1],
    ) by {
        assert(transaction_links(c.undo[j], past[j], past[j + 1]));
    }
    assert forall|i: int| 0 <= i < m2.redo.len() implies transaction_links(
        #[trigger] m2.redo[i],
        f2[i + 1],
        f2[i],
    ) by {
        if i < c.redo.len() {
            assert(transaction_links(c.redo[i], future[i + 1], future[i]));
        }
    }
    assert forall|j: int| 0 <= j < p2.len() implies Rope::well_formed(#[trigger] p2[j]) by {
        assert(Rope::well_formed(past[j]));
    }
    assert forall|i: int| 0 <= i < f2.len() implies Rope::well_formed(#[trigger] f2[i]) by {
        if i < future.len() {
            assert(Rope::well_formed(future[i]));
        } else {
            assert(Rope::well_formed(past[k - 1]));
        }
    }
}

/// Applying again the transaction undone last leads to the text after it.
pub proof fn lemma_redo_pop_keeps_history(
    c: UndoModel,
    text: Seq<u8>,
    past: Seq<Seq<u8>>,
    future: Seq<Seq<u8>>,
)
    requires
        c.wf(),
        history_fits(c, text, past, future),
        !c.open,
        c.pending.len() == 0,
        c.redo.len() > 0,
    ensures
        future.last() == text,
        transaction_links(c.redo.last(), text, future[future.len() - 2]),
        history_fits(c.redo_step().1, future[future.len() - 2], past.push(future[future.len() - 2]), future.drop_last()),
{
    let r = c.redo.len() as int;
    assert(redo_replay(past.last(), Seq::<ChangeView>::empty()) == Some(past.last()));
    assert(transaction_links(c.redo[r - 1], future[r], future[r - 1]));
    let m2 = c.redo_step().1;
    let p2 = past.push(future[r - 1]);
    let f2 = future.drop_last();
    assert(c.commit(Seq::empty()) == c);
    assert(redo_replay(p2.last(), Seq::<ChangeView>::empty()) == Some(p2.last()));
    assert(Seq::<ChangeView>::empty().reverse() =~= Seq::<ChangeView>::empty());
    assert(undo_replay(p2.last(), Seq::<ChangeView>::empty()) == Some(p2.last()));
    assert forall|j: int| 0 <= j < m2.undo.len() implies transaction_links(
        #[trigger] m2.undo[j],
        p2[j],
        p2[j + 1],
    ) by {
        if j < c.undo.len() {
            assert(transaction_links(c.undo[j], past[j], past[j + 1]));
        }
    }
    assert forall|i: int| 0 <= i < m2.redo.len() implies transaction_links(
        #[trigger] m2.redo[i],
        f2[i + 1],
        f2[i],
    ) by {
        assert(transaction_links(c.redo[i], future[i + 1], future[i]));
    }
    assert forall|j: int| 0 <= j < p2.len() implies Rope::well_formed(#[trigger] p2[j]) by {
        if j < past.len() {
            assert(Rope::well_formed(past[j]));
        } else {
            assert(Rope::well_formed(future[r - 1]));
        }
    }
    assert forall|i: int| 0 <= i < f2.len() implies Rope::well_formed(#[trigger] f2[i]) by {
        assert(Rope::well_formed(future[i]));
    }
}

} // verus!
