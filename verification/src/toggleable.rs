//! Two- and three-state selection for toggleable elements.

use vstd::prelude::*;

verus! {

/// An element that is visually distinct in two opposing states,
/// like a checkbox or a switch.
pub trait Toggleable: Sized {
    /// Sets whether the element is selected.
    fn toggle_state(self, selected: bool) -> Self;
}

/// The selection status of an element: unselected, indeterminate or selected.
#[derive(Debug, PartialEq, Eq, Hash, Clone, Copy, Structural)]
pub enum ToggleState {
    /// The element is not selected.
    Unselected,
    /// The selection state of the element is indeterminate.
    Indeterminate,
    /// The element is selected.
    Selected,
}

impl ToggleState {
    /// The state after one toggle: selected becomes unselected, and both
    /// unselected and indeterminate become selected.
    pub open spec fn inverse_spec(self) -> ToggleState {
        match self {
            ToggleState::Selected => ToggleState::Unselected,
            _ => ToggleState::Selected,
        }
    }

    /// The state that describes a group of items from whether any and
    /// whether all of them are checked.
    pub open spec fn from_any_and_all_spec(any_checked: bool, all_checked: bool) -> ToggleState {
        if any_checked && all_checked {
            ToggleState::Selected
        } else if !any_checked && !all_checked {
            ToggleState::Unselected
        } else {
            ToggleState::Indeterminate
        }
    }

    /// Returns the inverse of the current selection status.
    ///
    /// Indeterminate states become selected if inverted.
    pub fn inverse(&self) -> (r: Self)
        ensures
            r == self.inverse_spec(),
    {
        match self {
            ToggleState::Unselected | ToggleState::Indeterminate => ToggleState::Selected,
            ToggleState::Selected => ToggleState::Unselected,
        }
    }

    /// Creates a `ToggleState` from the given `any_checked` and `all_checked` flags.
    pub fn from_any_and_all(any_checked: bool, all_checked: bool) -> (r: Self)
        ensures
            r == Self::from_any_and_all_spec(any_checked, all_checked),
    {
        match (any_checked, all_checked) {
            (true, true) => ToggleState::Selected,
            (false, false) => ToggleState::Unselected,
            _ => ToggleState::Indeterminate,
        }
    }

    /// Returns whether this toggle state is selected.
    pub fn selected(&self) -> (r: bool)
        ensures
            r == (*self == ToggleState::Selected),
    {
        match self {
            ToggleState::Indeterminate | ToggleState::Unselected => false,
            ToggleState::Selected => true,
        }
    }
}

impl Default for ToggleState {
    fn default() -> (r: Self)
        ensures
            r == ToggleState::Unselected,
    {
        ToggleState::Unselected
    }
}

impl From<bool> for ToggleState {
    fn from(selected: bool) -> (r: Self) {
        if selected {
            ToggleState::Selected
        } else {
            ToggleState::Unselected
        }
    }
}

impl vstd::std_specs::convert::FromSpecImpl<bool> for ToggleState {
    open spec fn obeys_from_spec() -> bool {
        true
    }

    open spec fn from_spec(selected: bool) -> ToggleState {
        if selected {
            ToggleState::Selected
        } else {
            ToggleState::Unselected
        }
    }
}

impl From<Option<bool>> for ToggleState {
    fn from(selected: Option<bool>) -> (r: Self) {
        match selected {
            Some(true) => ToggleState::Selected,
            Some(false) => ToggleState::Unselected,
            None => ToggleState::Indeterminate,
        }
    }
}

impl vstd::std_specs::convert::FromSpecImpl<Option<bool>> for ToggleState {
    open spec fn obeys_from_spec() -> bool {
        true
    }

    open spec fn from_spec(selected: Option<bool>) -> ToggleState {
        match selected {
            Some(true) => ToggleState::Selected,
            Some(false) => ToggleState::Unselected,
            None => ToggleState::Indeterminate,
        }
    }
}

/// Inverting twice is the identity on decided states; an indeterminate
/// state settles on selected after the first inversion.
pub proof fn lemma_inverse_twice(s: ToggleState)
    ensures
        s != ToggleState::Indeterminate ==> s.inverse_spec().inverse_spec() == s,
        s == ToggleState::Indeterminate ==> s.inverse_spec().inverse_spec()
            == ToggleState::Unselected,
        s.inverse_spec() != ToggleState::Indeterminate,
{
}

/// A group described by one flag for "any" and one for "all" is
/// indeterminate exactly when the two flags disagree, and the state of a
/// single checked flag agrees with the conversion from that flag.
pub proof fn lemma_from_any_and_all_agrees_with_from_bool(b: bool)
    ensures
        ToggleState::from_any_and_all_spec(b, b)
            == <ToggleState as vstd::std_specs::convert::FromSpec<bool>>::from_spec(b),
        ToggleState::from_any_and_all_spec(b, !b) == ToggleState::Indeterminate,
{
}

} // verus!
