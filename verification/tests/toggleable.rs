use gpui_kit::toggleable::ToggleState;

#[test]
fn inverse_flips_states() {
    assert_eq!(ToggleState::Selected.inverse(), ToggleState::Unselected);
    assert_eq!(ToggleState::Unselected.inverse(), ToggleState::Selected);
    assert_eq!(ToggleState::Indeterminate.inverse(), ToggleState::Selected);
}

#[test]
fn from_any_and_all_covers_three_states() {
    assert_eq!(ToggleState::from_any_and_all(true, true), ToggleState::Selected);
    assert_eq!(ToggleState::from_any_and_all(false, false), ToggleState::Unselected);
    assert_eq!(ToggleState::from_any_and_all(true, false), ToggleState::Indeterminate);
}

#[test]
fn selected_is_only_true_for_selected() {
    assert!(ToggleState::Selected.selected());
    assert!(!ToggleState::Unselected.selected());
    assert!(!ToggleState::Indeterminate.selected());
}

#[test]
fn from_bool_and_option() {
    assert_eq!(ToggleState::from(true), ToggleState::Selected);
    assert_eq!(ToggleState::from(false), ToggleState::Unselected);
    assert_eq!(ToggleState::from(Some(true)), ToggleState::Selected);
    assert_eq!(ToggleState::from(Some(false)), ToggleState::Unselected);
    assert_eq!(ToggleState::from(None), ToggleState::Indeterminate, "None means indeterminate");
}

#[test]
fn inverse_twice_is_identity_for_definite_states() {
    for state in [ToggleState::Selected, ToggleState::Unselected] {
        assert_eq!(state.inverse().inverse(), state);
    }
    // the indeterminate state does not come back: it becomes selected, then unselected
    assert_eq!(ToggleState::Indeterminate.inverse().inverse(), ToggleState::Unselected);
}

#[test]
fn from_any_and_all_agrees_with_from_bool_when_consistent() {
    for checked in [false, true] {
        assert_eq!(ToggleState::from_any_and_all(checked, checked), ToggleState::from(checked));
    }
    // an inconsistent pair reads as indeterminate
    assert_eq!(ToggleState::from_any_and_all(false, true), ToggleState::Indeterminate);
}

#[test]
fn default_state_is_unselected() {
    assert_eq!(ToggleState::default(), ToggleState::Unselected);
}
