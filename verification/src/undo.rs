//! Undo/redo history: transactions with intent-driven coalescing.
//!
//! Consecutive edits of the same kind (typing, backspacing, deleting
//! forward) merge into one transaction, so one undo takes back the whole
//! run. IME composition and multi-cursor edits are bracketed explicitly by
//! [`UndoManager::begin_transaction`] / [`UndoManager::commit_transaction`]
//! and form one atomic transaction. Every transaction carries the cursor
//! group from before and after it, which undo and redo restore together
//! with the text.

use vstd::prelude::*;

use std::ops::Range;

use crate::selection::Selection;

verus! {

/// The most transactions the history keeps; the oldest one is dropped first.
pub const MAX_UNDO_TRANSACTIONS: usize = 1000;

/// A coalescing transaction stops growing once it holds this many changes.
pub const MAX_CHANGES_PER_TRANSACTION: usize = 1000;

/// The kind of an edit, which decides whether it can join the previous one.
#[derive(Clone, Copy, Debug, PartialEq, Eq, Structural)]
pub enum EditIntent {
    /// Typing: joins pure insertions that continue where the last one ended
    /// and hold no line break.
    Typing,
    /// Backspacing: joins pure deletions that end where the last one began.
    Backspace,
    /// Deleting forward: joins pure deletions at the same position.
    DeleteForward,
    /// Atomic (IME commit, paste, newline, ...): never joins.
    Atomic,
}

/// The complete record of one text replacement.
#[derive(Debug)]
pub struct Change {
    /// The byte range that was replaced.
    pub old_range: Range<usize>,
    pub old_text: String,
    /// The byte range that the new text occupies.
    pub new_range: Range<usize>,
    pub new_text: String,
    /// The selection before the edit.
    pub selection_before: Selection,
    /// The selection after the edit.
    pub selection_after: Selection,
}

/// What a [`Change`] records, as mathematical values.
pub struct ChangeView {
    pub old_start: usize,
    pub old_end: usize,
    pub old_text: Seq<char>,
    pub new_start: usize,
    pub new_end: usize,
    pub new_text: Seq<char>,
    pub before: Selection,
    pub after: Selection,
}

impl View for Change {
    type V = ChangeView;

    open spec fn view(&self) -> ChangeView {
        ChangeView {
            old_start: self.old_range.start,
            old_end: self.old_range.end,
            old_text: self.old_text@,
            new_start: self.new_range.start,
            new_end: self.new_range.end,
            new_text: self.new_text@,
            before: self.selection_before,
            after: self.selection_after,
        }
    }
}

/// The views of a list of changes.
pub open spec fn changes_view(changes: Seq<Change>) -> Seq<ChangeView> {
    changes.map_values(|c: Change| c@)
}

impl Change {
    pub fn new(
        old_range: Range<usize>,
        old_text: &str,
        new_range: Range<usize>,
        new_text: &str,
        selection_before: Selection,
        selection_after: Selection,
    ) -> (r: Self)
        ensures
            r@ == (ChangeView {
                old_start: old_range.start,
                old_end: old_range.end,
                old_text: old_text@,
                new_start: new_range.start,
                new_end: new_range.end,
                new_text: new_text@,
                before: selection_before,
                after: selection_after,
            }),
    {
        Change {
            old_range,
            old_text: old_text.to_owned(),
            new_range,
            new_text: new_text.to_owned(),
            selection_before,
            selection_after,
        }
    }
}

impl Clone for Change {
    fn clone(&self) -> (r: Self)
        ensures
            r@ == self@,
    {
        Change {
            old_range: Range { start: self.old_range.start, end: self.old_range.end },
            old_text: self.old_text.clone(),
            new_range: Range { start: self.new_range.start, end: self.new_range.end },
            new_text: self.new_text.clone(),
            selection_before: self.selection_before,
            selection_after: self.selection_after,
        }
    }
}

/// Whether a text holds a line break (`\n` or `\r`).
pub open spec fn has_line_break(text: Seq<char>) -> bool {
    exists|k: int| 0 <= k < text.len() && (text[k] == '\n' || text[k] == '\r')
}

/// Whether `current`, an edit of kind `intent`, continues `previous` closely
/// enough to join its transaction.
pub open spec fn is_adjacent_spec(intent: EditIntent, previous: ChangeView, current: ChangeView) -> bool {
    match intent {
        EditIntent::Typing => {
            &&& previous.old_start >= previous.old_end
            &&& current.old_start >= current.old_end
            &&& !has_line_break(previous.new_text)
            &&& !has_line_break(current.new_text)
            &&& previous.new_end == current.old_start
        },
        EditIntent::Backspace => {
            &&& previous.new_text.len() == 0
            &&& current.new_text.len() == 0
            &&& current.old_end == previous.old_start
        },
        EditIntent::DeleteForward => {
            &&& previous.new_text.len() == 0
            &&& current.new_text.len() == 0
            &&& current.old_start == previous.old_start
        },
        EditIntent::Atomic => false,
    }
}

/// Which edits join the one before them: typing joins pure insertions that
/// hold no line break and continue where the previous one ended; backspacing
/// joins pure deletions that end where the previous one began; deleting
/// forward joins pure deletions at the same place; atomic edits join nothing.
pub proof fn lemma_adjacency(intent: EditIntent, previous: Change, current: Change)
    ensures
        is_adjacent_spec(intent, previous@, current@) == match intent {
            EditIntent::Typing => {
                &&& previous.old_range.start >= previous.old_range.end
                &&& current.old_range.start >= current.old_range.end
                &&& !(exists|k: int| 0 <= k < previous.new_text@.len() && (previous.new_text@[k] == '\n' || previous.new_text@[k] == '\r'))
                &&& !(exists|k: int| 0 <= k < current.new_text@.len() && (current.new_text@[k] == '\n' || current.new_text@[k] == '\r'))
                &&& previous.new_range.end == current.old_range.start
            },
            EditIntent::Backspace => {
                &&& previous.new_text@.len() == 0
                &&& current.new_text@.len() == 0
                &&& current.old_range.end == previous.old_range.start
            },
            EditIntent::DeleteForward => {
                &&& previous.new_text@.len() == 0
                &&& current.new_text@.len() == 0
                &&& current.old_range.start == previous.old_range.start
            },
            EditIntent::Atomic => false,
        },
{
}

/// An edit that replaces a range by the same text at the same place.
pub open spec fn is_noop(c: ChangeView) -> bool {
    c.old_start == c.new_start && c.old_end == c.new_end && c.old_text == c.new_text
}

struct UndoTransaction {
    intent: EditIntent,
    changes: Vec<Change>,
    /// The cursor group before the transaction.
    selections_before: Vec<Selection>,
    /// The cursor group after the transaction.
    selections_after: Vec<Selection>,
}

/// One transaction of the history, as mathematical values.
pub struct TransactionView {
    pub intent: EditIntent,
    pub changes: Seq<ChangeView>,
    pub before: Seq<Selection>,
    pub after: Seq<Selection>,
}

impl View for UndoTransaction {
    type V = TransactionView;

    closed spec fn view(&self) -> TransactionView {
        TransactionView {
            intent: self.intent,
            changes: changes_view(self.changes@),
            before: self.selections_before@,
            after: self.selections_after@,
        }
    }
}

/// The unit that undo and redo replay: the changes, in the order in which
/// they are to be applied, and the cursor group to restore afterwards
/// (empty: leave the cursors alone).
#[derive(Debug)]
pub struct UndoStep {
    pub changes: Vec<Change>,
    pub selections: Vec<Selection>,
}

/// An [`UndoStep`] as mathematical values.
pub struct StepView {
    pub changes: Seq<ChangeView>,
    pub selections: Seq<Selection>,
}

impl View for UndoStep {
    type V = StepView;

    open spec fn view(&self) -> StepView {
        StepView { changes: changes_view(self.changes@), selections: self.selections@ }
    }
}

/// The state of the history, as mathematical values.
pub struct UndoModel {
    /// Transactions that undo can take back, oldest first.
    pub undo: Seq<TransactionView>,
    /// Transactions that redo can apply again, the next one last.
    pub redo: Seq<TransactionView>,
    /// Whether an explicit transaction is open.
    pub open: bool,
    /// Changes collected by the open explicit transaction.
    pub pending: Seq<ChangeView>,
    /// The cursor group given when the explicit transaction opened.
    pub pending_before: Seq<Selection>,
    /// Whether the next edit must start a new transaction.
    pub boundary: bool,
}

/// The cursor group a transaction records: the one given, unless it is
/// missing or empty, in which case the single selection of the edge change.
pub open spec fn group_or(given: Option<Seq<Selection>>, fallback: Selection) -> Seq<Selection> {
    match given {
        Some(g) => if g.len() > 0 {
            g
        } else {
            seq![fallback]
        },
        None => seq![fallback],
    }
}

impl UndoModel {
    pub open spec fn empty() -> UndoModel {
        UndoModel {
            undo: Seq::empty(),
            redo: Seq::empty(),
            open: false,
            pending: Seq::empty(),
            pending_before: Seq::empty(),
            boundary: false,
        }
    }

    /// The history keeps at most [`MAX_UNDO_TRANSACTIONS`] transactions,
    /// counting those that redo can bring back.
    /// Changes wait only inside an open explicit transaction.
    pub open spec fn wf(self) -> bool {
        &&& self.undo.len() + self.redo.len() <= MAX_UNDO_TRANSACTIONS
        &&& !self.open ==> self.pending.len() == 0
    }

    /// Whether `changes` (of kind `intent`) join the newest transaction.
    pub open spec fn can_coalesce(self, changes: Seq<ChangeView>, intent: EditIntent) -> bool {
        &&& !self.boundary
        &&& intent != EditIntent::Atomic
        &&& self.undo.len() > 0
        &&& self.undo.last().intent == intent
        &&& self.undo.last().changes.len() < MAX_CHANGES_PER_TRANSACTION
        &&& self.undo.last().changes.len() > 0
        &&& is_adjacent_spec(intent, self.undo.last().changes.last(), changes[0])
    }

    /// Adds a transaction made of `changes` (at least one); redo history is lost.
    pub open spec fn push(
        self,
        changes: Seq<ChangeView>,
        intent: EditIntent,
        before: Option<Seq<Selection>>,
        after: Option<Seq<Selection>>,
    ) -> UndoModel {
        if changes.len() == 0 {
            self
        } else if self.can_coalesce(changes, intent) {
            let last = self.undo.last();
            let merged = TransactionView {
                intent: last.intent,
                changes: last.changes + changes,
                before: last.before,
                after: seq![changes.last().after],
            };
            UndoModel { undo: self.undo.drop_last().push(merged), redo: Seq::empty(), ..self }
        } else {
            let kept = if self.undo.len() >= MAX_UNDO_TRANSACTIONS {
                self.undo.drop_first()
            } else {
                self.undo
            };
            let tx = TransactionView {
                intent,
                changes,
                before: group_or(before, changes[0].before),
                after: group_or(after, changes.last().after),
            };
            UndoModel {
                undo: kept.push(tx),
                redo: Seq::empty(),
                boundary: intent == EditIntent::Atomic,
                ..self
            }
        }
    }

    /// Closes the open explicit transaction, recording `after` as its
    /// final cursor group; the collected changes become one atomic transaction.
    pub open spec fn commit(self, after: Seq<Selection>) -> UndoModel {
        if !self.open {
            self
        } else if self.pending.len() == 0 {
            UndoModel { open: false, ..self }
        } else {
            UndoModel {
                open: false,
                pending: Seq::empty(),
                pending_before: Seq::empty(),
                ..self
            }.push(self.pending, EditIntent::Atomic, Some(self.pending_before), Some(after))
        }
    }

    /// Opens an explicit transaction (no effect when one is open).
    pub open spec fn begin(self, before: Seq<Selection>) -> UndoModel {
        if self.open {
            self
        } else {
            UndoModel { open: true, pending_before: before, ..self }
        }
    }

    /// Ends the current run: the next edit starts a new transaction.
    pub open spec fn break_coalescing(self) -> UndoModel {
        UndoModel { boundary: true, ..self.commit(Seq::empty()) }
    }

    /// Records one edit.
    pub open spec fn record(self, change: ChangeView, intent: EditIntent) -> UndoModel {
        if is_noop(change) {
            self.break_coalescing()
        } else if self.open {
            UndoModel { pending: self.pending.push(change), ..self }
        } else {
            self.push(seq![change], intent, None, None)
        }
    }

    /// Takes back the newest transaction: its changes in reverse order and
    /// the cursor group from before it.
    pub open spec fn undo_step(self) -> (Option<StepView>, UndoModel) {
        let m = self.commit(Seq::empty());
        if m.undo.len() == 0 {
            (None, m)
        } else {
            let tx = m.undo.last();
            (
                Some(StepView { changes: tx.changes.reverse(), selections: tx.before }),
                UndoModel { undo: m.undo.drop_last(), redo: m.redo.push(tx), boundary: true, ..m },
            )
        }
    }

    /// Applies again the transaction undone last: its changes in order and
    /// the cursor group from after it.
    pub open spec fn redo_step(self) -> (Option<StepView>, UndoModel) {
        let m = self.commit(Seq::empty());
        if m.redo.len() == 0 {
            (None, m)
        } else {
            let tx = m.redo.last();
            (
                Some(StepView { changes: tx.changes, selections: tx.after }),
                UndoModel { undo: m.undo.push(tx), redo: m.redo.drop_last(), boundary: true, ..m },
            )
        }
    }
}

/// Coordinates undo and redo.
///
/// Every edit makes a transaction; compatible neighbouring transactions
/// merge until an explicit boundary
/// ([`UndoManager::break_transaction_coalescing`]: a cursor move, a newline,
/// an IME commit).
pub struct UndoManager {
    undo_transactions: Vec<UndoTransaction>,
    redo_transactions: Vec<UndoTransaction>,
    transaction_open: bool,
    pending_changes: Vec<Change>,
    pending_selections_before: Vec<Selection>,
    coalescing_boundary: bool,
}

/// The views of a list of transactions.
closed spec fn transactions_view(txs: Seq<UndoTransaction>) -> Seq<TransactionView> {
    txs.map_values(|t: UndoTransaction| t@)
}

impl View for UndoManager {
    type V = UndoModel;

    closed spec fn view(&self) -> UndoModel {
        UndoModel {
            undo: transactions_view(self.undo_transactions@),
            redo: transactions_view(self.redo_transactions@),
            open: self.transaction_open,
            pending: changes_view(self.pending_changes@),
            pending_before: self.pending_selections_before@,
            boundary: self.coalescing_boundary,
        }
    }
}

fn copy_selections(v: &Vec<Selection>) -> (r: Vec<Selection>)
    ensures
        r@ == v@,
{
    let mut r: Vec<Selection> = Vec::new();
    let mut i: usize = 0;
    while i < v.len()
        invariant
            i <= v@.len(),
            r@ == v@.take(i as int),
        decreases v@.len() - i,
    {
        r.push(v[i]);
        i = i + 1;
        proof {
            assert(r@ =~= v@.take(i as int));
        }
    }
    proof {
        assert(v@.take(v@.len() as int) =~= v@);
    }
    r
}

fn clone_changes(v: &Vec<Change>) -> (r: Vec<Change>)
    ensures
        changes_view(r@) == changes_view(v@),
{
    let mut r: Vec<Change> = Vec::new();
    let mut i: usize = 0;
    while i < v.len()
        invariant
            i <= v@.len(),
            r@.len() == i,
            forall|k: int| 0 <= k < i ==> #[trigger] r@[k]@ == v@[k]@,
        decreases v@.len() - i,
    {
        r.push(v[i].clone());
        i = i + 1;
    }
    proof {
        assert(changes_view(r@) =~= changes_view(v@));
    }
    r
}

fn reversed_changes(v: &Vec<Change>) -> (r: Vec<Change>)
    ensures
        changes_view(r@) == changes_view(v@).reverse(),
{
    let mut r: Vec<Change> = Vec::new();
    let mut i: usize = v.len();
    while i > 0
        invariant
            i <= v@.len(),
            r@.len() == v@.len() - i,
            forall|k: int| 0 <= k < r@.len() ==> #[trigger] r@[k]@ == v@[v@.len() - 1 - k]@,
        decreases i,
    {
        i = i - 1;
        r.push(v[i].clone());
    }
    proof {
        assert(changes_view(r@) =~= changes_view(v@).reverse());
    }
    r
}

/// Whether a text holds a line break (`\n` or `\r`).
fn contains_line_break(text: &String) -> (r: bool)
    ensures
        r == has_line_break(text@),
{
    let mut found = false;
    for c in iter: text.as_str().chars()
        invariant
            iter.seq() == text@,
            found ==> has_line_break(text@),
            !found ==> forall|k: int|
                0 <= k < iter.index() ==> text@[k] != '\n' && text@[k] != '\r',
    {
        if c == '\n' || c == '\r' {
            found = true;
        }
    }
    found
}

fn is_adjacent(intent: EditIntent, previous: &Change, current: &Change) -> (r: bool)
    ensures
        r == is_adjacent_spec(intent, previous@, current@),
{
    match intent {
        EditIntent::Typing => {
            previous.old_range.start >= previous.old_range.end && current.old_range.start
                >= current.old_range.end && !contains_line_break(&previous.new_text)
                && !contains_line_break(&current.new_text) && previous.new_range.end
                == current.old_range.start
        },
        EditIntent::Backspace => {
            previous.new_text.as_str().is_empty() && current.new_text.as_str().is_empty()
                && current.old_range.end == previous.old_range.start
        },
        EditIntent::DeleteForward => {
            previous.new_text.as_str().is_empty() && current.new_text.as_str().is_empty()
                && current.old_range.start == previous.old_range.start
        },
        EditIntent::Atomic => false,
    }
}

impl UndoManager {
    pub fn new() -> (r: Self)
        ensures
            r@ == UndoModel::empty(),
    {
        let r = UndoManager {
            undo_transactions: Vec::new(),
            redo_transactions: Vec::new(),
            transaction_open: false,
            pending_changes: Vec::new(),
            pending_selections_before: Vec::new(),
            coalescing_boundary: false,
        };
        proof {
            assert(r@.undo =~= Seq::<TransactionView>::empty());
            assert(r@.redo =~= Seq::<TransactionView>::empty());
            assert(r@.pending =~= Seq::<ChangeView>::empty());
        }
        r
    }

    /// Records one edit. While an explicit transaction is open the edit is
    /// only collected; an edit that changes nothing only ends the current run.
    pub fn record_transaction(&mut self, change: Change, intent: EditIntent)
        requires
            old(self)@.wf(),
        ensures
            final(self)@ == old(self)@.record(change@, intent),
            final(self)@.wf(),
    {
        let same_text = change.old_text == change.new_text;
        if change.old_range.start == change.new_range.start && change.old_range.end
            == change.new_range.end && same_text {
            self.break_transaction_coalescing();
            return;
        }
        if self.transaction_open {
            let ghost before = self.pending_changes@;
            self.pending_changes.push(change);
            proof {
                assert(changes_view(self.pending_changes@) =~= changes_view(before).push(
                    change@,
                ));
            }
            return;
        }
        let mut changes: Vec<Change> = Vec::new();
        changes.push(change);
        proof {
            assert(changes_view(changes@) =~= seq![change@]);
        }
        self.push_transaction(changes, intent, None, None);
    }

    /// Opens an explicit transaction and records the cursor group before it.
    ///
    /// All edits until the commit become one transaction (one undo step):
    /// an IME composition gives a chain of replacements at one place, a
    /// multi-cursor edit one change per cursor.
    pub fn begin_transaction(&mut self, selections_before: Vec<Selection>)
        requires
            old(self)@.wf(),
        ensures
            final(self)@ == old(self)@.begin(selections_before@),
            final(self)@.wf(),
    {
        if self.transaction_open {
            return;
        }
        self.transaction_open = true;
        self.pending_selections_before = selections_before;
    }

    /// Closes the explicit transaction and records the cursor group after
    /// it; the collected changes become one atomic transaction.
    pub fn commit_transaction(&mut self, selections_after: Vec<Selection>)
        requires
            old(self)@.wf(),
        ensures
            final(self)@ == old(self)@.commit(selections_after@),
            final(self)@.wf(),
    {
        if !self.transaction_open {
            return;
        }
        self.transaction_open = false;
        if self.pending_changes.len() == 0 {
            return;
        }
        let mut changes: Vec<Change> = Vec::new();
        std::mem::swap(&mut changes, &mut self.pending_changes);
        let mut selections_before: Vec<Selection> = Vec::new();
        std::mem::swap(&mut selections_before, &mut self.pending_selections_before);
        proof {
            assert(changes_view(self.pending_changes@) =~= Seq::<ChangeView>::empty());
        }
        self.push_transaction(
            changes,
            EditIntent::Atomic,
            Some(selections_before),
            Some(selections_after),
        );
    }

    fn push_transaction(
        &mut self,
        changes: Vec<Change>,
        intent: EditIntent,
        selections_before: Option<Vec<Selection>>,
        selections_after: Option<Vec<Selection>>,
    )
        requires
            old(self)@.wf(),
        ensures
            final(self)@ == old(self)@.push(
                changes_view(changes@),
                intent,
                match selections_before {
                    Some(v) => Some(v@),
                    None => None,
                },
                match selections_after {
                    Some(v) => Some(v@),
                    None => None,
                },
            ),
            final(self)@.wf(),
    {
        let ghost m = self@;
        let ghost cv = changes_view(changes@);
        if changes.len() == 0 {
            return;
        }
        let first_before = changes[0].selection_before;
        let last_after = changes[changes.len() - 1].selection_after;
        self.redo_transactions = Vec::new();
        let n = self.undo_transactions.len();
        let mut can_coalesce = false;
        if !self.coalescing_boundary && intent != EditIntent::Atomic && n > 0 {
            let previous = &self.undo_transactions[n - 1];
            let k = previous.changes.len();
            if previous.intent == intent && k < MAX_CHANGES_PER_TRANSACTION && k > 0 {
                can_coalesce = is_adjacent(intent, &previous.changes[k - 1], &changes[0]);
            }
        }
        proof {
            assert(transactions_view(self.redo_transactions@) =~= Seq::<TransactionView>::empty());
            if n > 0 {
                assert(m.undo.last() == self.undo_transactions@[n - 1]@);
            }
        }
        if can_coalesce {
            let mut previous = self.undo_transactions.pop().unwrap();
            let ghost prev_changes = previous.changes@;
            let mut moved = changes;
            previous.changes.append(&mut moved);
            let mut after: Vec<Selection> = Vec::new();
            after.push(last_after);
            previous.selections_after = after;
            let ghost popped = self.undo_transactions@;
            self.undo_transactions.push(previous);
            proof {
                assert(changes_view(previous.changes@) =~= changes_view(prev_changes) + cv);
                assert(transactions_view(popped) =~= m.undo.drop_last());
                assert(transactions_view(self.undo_transactions@) =~= transactions_view(
                    popped,
                ).push(previous@));
            }
            return;
        }
        if self.undo_transactions.len() >= MAX_UNDO_TRANSACTIONS {
            let ghost before_remove = self.undo_transactions@;
            self.undo_transactions.remove(0);
            proof {
                assert(transactions_view(self.undo_transactions@) =~= transactions_view(
                    before_remove,
                ).drop_first());
            }
        }
        let before = match selections_before {
            Some(v) => if v.len() > 0 {
                v
            } else {
                let mut d: Vec<Selection> = Vec::new();
                d.push(first_before);
                d
            },
            None => {
                let mut d: Vec<Selection> = Vec::new();
                d.push(first_before);
                d
            },
        };
        let after = match selections_after {
            Some(v) => if v.len() > 0 {
                v
            } else {
                let mut d: Vec<Selection> = Vec::new();
                d.push(last_after);
                d
            },
            None => {
                let mut d: Vec<Selection> = Vec::new();
                d.push(last_after);
                d
            },
        };
        let tx = UndoTransaction {
            intent,
            changes,
            selections_before: before,
            selections_after: after,
        };
        let ghost kept = self.undo_transactions@;
        self.undo_transactions.push(tx);
        self.coalescing_boundary = intent == EditIntent::Atomic;
        proof {
            assert(before@ =~= group_or(
                match selections_before {
                    Some(v) => Some(v@),
                    None => None,
                },
                cv[0].before,
            ));
            assert(after@ =~= group_or(
                match selections_after {
                    Some(v) => Some(v@),
                    None => None,
                },
                cv.last().after,
            ));
            assert(transactions_view(self.undo_transactions@) =~= transactions_view(kept).push(
                tx@,
            ));
        }
    }

    /// Ends the current run: after a cursor move the next keystroke must
    /// not join the previous run of typing.
    pub fn break_transaction_coalescing(&mut self)
        requires
            old(self)@.wf(),
        ensures
            final(self)@ == old(self)@.break_coalescing(),
            final(self)@.wf(),
    {
        self.commit_transaction(Vec::new());
        self.coalescing_boundary = true;
    }

    /// Forgets the whole history.
    pub fn clear(&mut self)
        ensures
            final(self)@ == UndoModel::empty(),
    {
        self.undo_transactions.clear();
        self.redo_transactions.clear();
        self.transaction_open = false;
        self.pending_changes.clear();
        self.pending_selections_before.clear();
        self.coalescing_boundary = false;
        proof {
            assert(self@.undo =~= Seq::<TransactionView>::empty());
            assert(self@.redo =~= Seq::<TransactionView>::empty());
            assert(self@.pending =~= Seq::<ChangeView>::empty());
            assert(self@.pending_before =~= Seq::<Selection>::empty());
        }
    }

    /// Takes back one transaction: its changes in reverse order (replay them
    /// from first to last) and the cursor group from before it.
    pub fn undo(&mut self) -> (r: Option<UndoStep>)
        requires
            old(self)@.wf(),
        ensures
            ({
                let (step, m) = old(self)@.undo_step();
                &&& final(self)@ == m
                &&& match r {
                    Some(s) => step == Some(s@),
                    None => step is None,
                }
            }),
            final(self)@.wf(),
    {
        self.commit_transaction(Vec::new());
        let ghost m = self@;
        let transaction = match self.undo_transactions.pop() {
            Some(t) => t,
            None => return None,
        };
        let step = UndoStep {
            changes: reversed_changes(&transaction.changes),
            selections: copy_selections(&transaction.selections_before),
        };
        let ghost popped = self.undo_transactions@;
        let ghost redo_before = self.redo_transactions@;
        self.redo_transactions.push(transaction);
        self.coalescing_boundary = true;
        proof {
            assert(transactions_view(popped) =~= m.undo.drop_last());
            assert(transactions_view(self.redo_transactions@) =~= transactions_view(
                redo_before,
            ).push(transaction@));
        }
        Some(step)
    }

    /// Applies again the transaction undone last: its changes in order and
    /// the cursor group from after it.
    pub fn redo(&mut self) -> (r: Option<UndoStep>)
        requires
            old(self)@.wf(),
        ensures
            ({
                let (step, m) = old(self)@.redo_step();
                &&& final(self)@ == m
                &&& match r {
                    Some(s) => step == Some(s@),
                    None => step is None,
                }
            }),
            final(self)@.wf(),
    {
        self.commit_transaction(Vec::new());
        let ghost m = self@;
        let transaction = match self.redo_transactions.pop() {
            Some(t) => t,
            None => return None,
        };
        let step = UndoStep {
            changes: clone_changes(&transaction.changes),
            selections: copy_selections(&transaction.selections_after),
        };
        let ghost popped = self.redo_transactions@;
        let ghost undo_before = self.undo_transactions@;
        self.undo_transactions.push(transaction);
        self.coalescing_boundary = true;
        proof {
            assert(transactions_view(popped) =~= m.redo.drop_last());
            assert(transactions_view(self.undo_transactions@) =~= transactions_view(
                undo_before,
            ).push(transaction@));
        }
        Some(step)
    }
}

/// Records the edits `changes`, in order, all of kind `intent`.
pub open spec fn record_all(m: UndoModel, changes: Seq<ChangeView>, intent: EditIntent) -> UndoModel
    decreases changes.len(),
{
    if changes.len() == 0 {
        m
    } else {
        record_all(m.record(changes[0], intent), changes.drop_first(), intent)
    }
}

/// Undo followed by redo gives back the undone transaction: redo replays
/// exactly the changes that undo took back, in the opposite order, restores
/// the cursor group from after the transaction, and leaves both stacks as
/// they were (once any open explicit transaction is committed).
pub proof fn lemma_undo_then_redo(m: UndoModel)
    requires
        m.wf(),
    ensures
        ({
            let (s1, m1) = m.undo_step();
            let c = m.commit(Seq::empty());
            s1 is Some ==> {
                let (s2, m2) = m1.redo_step();
                &&& s2 is Some
                &&& s2->0.changes == s1->0.changes.reverse()
                &&& s2->0.selections == c.undo.last().after
                &&& s1->0.selections == c.undo.last().before
                &&& m2.undo == c.undo
                &&& m2.redo == c.redo
            }
        }),
{
    let (s1, m1) = m.undo_step();
    let c = m.commit(Seq::empty());
    if s1 is Some {
        let tx = c.undo.last();
        assert(tx.changes.reverse().reverse() =~= tx.changes);
        assert(m1.commit(Seq::empty()) == m1);
        assert(m1.redo.drop_last() =~= c.redo);
        assert(m1.undo.push(tx) =~= c.undo);
    }
}

/// Redo followed by undo gives back the state before the redo.
pub proof fn lemma_redo_then_undo(m: UndoModel)
    requires
        m.wf(),
    ensures
        ({
            let (s1, m1) = m.redo_step();
            let c = m.commit(Seq::empty());
            s1 is Some ==> {
                let (s2, m2) = m1.undo_step();
                &&& s2 is Some
                &&& s2->0.changes == s1->0.changes.reverse()
                &&& m2.undo == c.undo
                &&& m2.redo == c.redo
            }
        }),
{
    let (s1, m1) = m.redo_step();
    let c = m.commit(Seq::empty());
    if s1 is Some {
        assert(m1.commit(Seq::empty()) == m1);
        assert(m1.undo.drop_last() =~= c.undo);
        assert(m1.redo.push(c.redo.last()) =~= c.redo);
    }
}

/// A new edit outside an explicit transaction discards what redo could
/// have brought back.
pub proof fn lemma_new_edit_clears_redo(m: UndoModel, change: ChangeView, intent: EditIntent)
    requires
        m.wf(),
        !m.open,
        !is_noop(change),
    ensures
        m.record(change, intent).redo.len() == 0,
{
}

/// With nothing recorded, there is nothing to undo or redo.
pub proof fn lemma_empty_history(m: UndoModel)
    requires
        m == UndoModel::empty(),
    ensures
        m.undo_step().0 is None,
        m.redo_step().0 is None,
{
}

/// Every operation keeps the history within its limits.
pub proof fn lemma_operations_keep_limits(
    m: UndoModel,
    change: ChangeView,
    intent: EditIntent,
    group: Seq<Selection>,
)
    requires
        m.wf(),
    ensures
        m.record(change, intent).wf(),
        m.begin(group).wf(),
        m.commit(group).wf(),
        m.break_coalescing().wf(),
        m.undo_step().1.wf(),
        m.redo_step().1.wf(),
{
}

proof fn lemma_record_all_open(m: UndoModel, changes: Seq<ChangeView>, intent: EditIntent)
    requires
        m.open,
        forall|i: int| 0 <= i < changes.len() ==> !is_noop(#[trigger] changes[i]),
    ensures
        record_all(m, changes, intent) == (UndoModel { pending: m.pending + changes, ..m }),
    decreases changes.len(),
{
    if changes.len() == 0 {
        assert(m.pending + changes =~= m.pending);
    } else {
        let m1 = m.record(changes[0], intent);
        assert(forall|i: int|
            0 <= i < changes.drop_first().len() ==> #[trigger] changes.drop_first()[i] == changes[i
                + 1]);
        lemma_record_all_open(m1, changes.drop_first(), intent);
        assert(m.pending.push(changes[0]) + changes.drop_first() =~= m.pending + changes);
    }
}

/// An explicit transaction is one undo step: whatever edits happen between
/// opening and committing it, they become a single atomic transaction that
/// holds all of them in order, with the cursor groups given at the two ends,
/// and one undo takes all of them back, newest first.
pub proof fn lemma_explicit_transaction_is_one_step(
    m: UndoModel,
    before: Seq<Selection>,
    changes: Seq<ChangeView>,
    intent: EditIntent,
    after: Seq<Selection>,
)
    requires
        m.wf(),
        !m.open,
        changes.len() > 0,
        forall|i: int| 0 <= i < changes.len() ==> !is_noop(#[trigger] changes[i]),
    ensures
        ({
            let done = record_all(m.begin(before), changes, intent).commit(after);
            let tx = TransactionView {
                intent: EditIntent::Atomic,
                changes,
                before: group_or(Some(before), changes[0].before),
                after: group_or(Some(after), changes.last().after),
            };
            &&& done.undo.last() == tx
            &&& done.undo.len() > 0
            &&& done.redo.len() == 0
            &&& done.undo_step().0 == Some(
                StepView { changes: changes.reverse(), selections: tx.before },
            )
        }),
{
    let opened = m.begin(before);
    lemma_record_all_open(opened, changes, intent);
    assert(opened.pending + changes =~= changes);
}

} // verus!
