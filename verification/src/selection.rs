//! Selections over byte offsets, with a goal column for vertical motion.
//!
//! A selection covers the half-open range `[start, end)`. Its *head* is the
//! end that moves under the keyboard; its *tail* stays put. `reversed` is
//! set when the head is at `start`. The goal records the column that
//! up/down motion tries to keep, so that the cursor does not drift when it
//! passes through shorter lines; every horizontal motion clears it.

use vstd::prelude::*;

use std::ops::Range;

verus! {

/// The column that vertical motion tries to keep.
#[derive(Copy, Clone, Debug, PartialEq, Eq, Structural)]
pub enum SelectionGoal {
    /// No column to keep.
    Unset,
    /// The column to keep while moving up or down.
    HorizontalPosition(u32),
}

impl Default for SelectionGoal {
    fn default() -> (r: Self)
        ensures
            r == SelectionGoal::Unset,
    {
        SelectionGoal::Unset
    }
}

/// A selection over the half-open byte range `[start, end)`.
#[derive(Copy, Clone, Debug, PartialEq, Eq, Structural)]
pub struct Selection {
    pub start: usize,
    pub end: usize,
    pub reversed: bool,
    pub goal: SelectionGoal,
}

impl Selection {
    /// The end that the keyboard moves.
    pub open spec fn head_spec(self) -> usize {
        if self.reversed {
            self.start
        } else {
            self.end
        }
    }

    /// The end that stays put while the head moves.
    pub open spec fn tail_spec(self) -> usize {
        if self.reversed {
            self.end
        } else {
            self.start
        }
    }

    /// The selection from `tail` to `head`: reversed exactly when the head
    /// comes before the tail.
    pub open spec fn spanning(head: usize, tail: usize, goal: SelectionGoal) -> Selection {
        if head < tail {
            Selection { start: head, end: tail, reversed: true, goal }
        } else {
            Selection { start: tail, end: head, reversed: false, goal }
        }
    }

    /// A collapsed selection at `point`.
    pub open spec fn caret(point: usize, goal: SelectionGoal) -> Selection {
        Selection { start: point, end: point, reversed: false, goal }
    }

    /// The half-open range of the selection.
    pub fn range(&self) -> (r: Range<usize>)
        ensures
            r.start == self.start,
            r.end == self.end,
    {
        Range { start: self.start, end: self.end }
    }

    /// The end where the cursor stands.
    pub fn head(&self) -> (r: usize)
        ensures
            r == self.head_spec(),
    {
        if self.reversed {
            self.start
        } else {
            self.end
        }
    }

    /// The end where the selection was started.
    pub fn tail(&self) -> (r: usize)
        ensures
            r == self.tail_spec(),
    {
        if self.reversed {
            self.end
        } else {
            self.start
        }
    }

    /// Collapses the selection to one point.
    pub fn collapse_to(&mut self, point: usize, new_goal: SelectionGoal)
        ensures
            *final(self) == Selection::caret(point, new_goal),
    {
        self.start = point;
        self.end = point;
        self.goal = new_goal;
        self.reversed = false;
    }

    /// The same selection with another goal.
    pub fn with_goal(self, goal: SelectionGoal) -> (r: Self)
        ensures
            r == (Selection { goal, ..self }),
    {
        let mut s = self;
        s.goal = goal;
        s
    }

    /// The selection from `tail` to `head`, with no goal.
    pub fn new(head: usize, tail: usize) -> (r: Self)
        ensures
            r == Selection::spanning(head, tail, SelectionGoal::Unset),
            r.head_spec() == head,
            r.tail_spec() == tail,
            r.start <= r.end,
    {
        let mut selection = Selection {
            start: tail,
            end: head,
            reversed: false,
            goal: SelectionGoal::Unset,
        };
        selection.set_head_tail(head, tail, SelectionGoal::Unset);
        selection
    }

    pub fn is_empty(&self) -> (r: bool)
        ensures
            r == (self.start == self.end),
    {
        self.start == self.end
    }

    /// Moves the head to `head`, keeping the tail; the selection turns
    /// around when the head passes the tail.
    pub fn set_head(&mut self, head: usize, new_goal: SelectionGoal)
        ensures
            *final(self) == Selection::spanning(head, old(self).tail_spec(), new_goal),
    {
        if head < self.tail() {
            if !self.reversed {
                self.end = self.start;
                self.reversed = true;
            }
            self.start = head;
        } else {
            if self.reversed {
                self.start = self.end;
                self.reversed = false;
            }
            self.end = head;
        }
        self.goal = new_goal;
    }

    /// Moves the tail to `tail`, keeping the head.
    pub fn set_tail(&mut self, tail: usize, new_goal: SelectionGoal)
        ensures
            *final(self) == Selection::spanning(old(self).head_spec(), tail, new_goal),
    {
        if tail <= self.head() {
            if self.reversed {
                self.end = self.start;
                self.reversed = false;
            }
            self.start = tail;
        } else {
            if !self.reversed {
                self.start = self.end;
                self.reversed = true;
            }
            self.end = tail;
        }
        self.goal = new_goal;
    }

    /// Sets both ends; the selection is reversed when the head comes first.
    pub fn set_head_tail(&mut self, head: usize, tail: usize, new_goal: SelectionGoal)
        ensures
            *final(self) == Selection::spanning(head, tail, new_goal),
    {
        if head < tail {
            self.reversed = true;
            self.start = head;
            self.end = tail;
        } else {
            self.reversed = false;
            self.start = tail;
            self.end = head;
        }
        self.goal = new_goal;
    }
}

impl Default for Selection {
    fn default() -> (r: Self)
        ensures
            r == Selection::caret(0, SelectionGoal::Unset),
    {
        Selection { start: 0, end: 0, reversed: false, goal: SelectionGoal::Unset }
    }
}

impl From<Range<usize>> for Selection {
    fn from(range: Range<usize>) -> (r: Self) {
        Selection { start: range.start, end: range.end, reversed: false, goal: SelectionGoal::Unset }
    }
}

impl vstd::std_specs::convert::FromSpecImpl<Range<usize>> for Selection {
    open spec fn obeys_from_spec() -> bool {
        true
    }

    open spec fn from_spec(range: Range<usize>) -> Selection {
        Selection { start: range.start, end: range.end, reversed: false, goal: SelectionGoal::Unset }
    }
}

impl<'a> From<&'a Selection> for Range<usize> {
    fn from(selection: &'a Selection) -> (r: Self) {
        Range { start: selection.start, end: selection.end }
    }
}

impl<'a> vstd::std_specs::convert::FromSpecImpl<&'a Selection> for Range<usize> {
    open spec fn obeys_from_spec() -> bool {
        true
    }

    open spec fn from_spec(selection: &'a Selection) -> Range<usize> {
        Range { start: selection.start, end: selection.end }
    }
}

/// Whatever the selection was, moving its head leaves the head exactly
/// where it was put and the tail where it was; the range stays ordered.
pub proof fn lemma_set_head_keeps_tail(s: Selection, head: usize, goal: SelectionGoal)
    ensures
        Selection::spanning(head, s.tail_spec(), goal).head_spec() == head,
        Selection::spanning(head, s.tail_spec(), goal).tail_spec() == s.tail_spec(),
        Selection::spanning(head, s.tail_spec(), goal).start
            <= Selection::spanning(head, s.tail_spec(), goal).end,
{
}

/// Moving the tail leaves the head where it was and the tail where it was put.
pub proof fn lemma_set_tail_keeps_head(s: Selection, tail: usize, goal: SelectionGoal)
    ensures
        Selection::spanning(s.head_spec(), tail, goal).head_spec() == s.head_spec(),
        Selection::spanning(s.head_spec(), tail, goal).tail_spec() == tail,
{
}

/// A selection is empty exactly when its head and tail meet; a collapsed
/// selection is never reversed.
pub proof fn lemma_spanning_empty(head: usize, tail: usize, goal: SelectionGoal)
    ensures
        (Selection::spanning(head, tail, goal).start == Selection::spanning(head, tail, goal).end)
            <==> head == tail,
        head == tail ==> !Selection::spanning(head, tail, goal).reversed,
{
}

} // verus!
