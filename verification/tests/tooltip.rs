use gpui_kit::tooltip::{TooltipAction, TooltipEvent, TooltipState};

fn run(events: &[TooltipEvent]) -> (TooltipState, Vec<TooltipAction>) {
    let mut state = TooltipState::new();
    let mut actions = Vec::new();
    for event in events {
        let (next, action) = state.step(*event);
        state = next;
        actions.push(action);
    }
    (state, actions)
}

#[test]
fn hover_then_delay_shows_the_tip() {
    let (state, actions) = run(&[TooltipEvent::MouseMove { hovered: true }, TooltipEvent::DelayElapsed]);
    assert_eq!(actions, vec![TooltipAction::StartTimer, TooltipAction::Show]);
    assert_eq!(state, TooltipState { hovered: true, timer_active: false, shown: true });
}

#[test]
fn leaving_before_the_delay_shows_nothing() {
    let (state, actions) = run(&[
        TooltipEvent::MouseMove { hovered: true },
        TooltipEvent::MouseMove { hovered: false },
        TooltipEvent::DelayElapsed,
    ]);
    assert_eq!(actions, vec![TooltipAction::StartTimer, TooltipAction::Nothing, TooltipAction::Nothing]);
    assert!(!state.shown);
    assert!(!state.timer_active);
}

#[test]
fn a_running_delay_is_not_started_again() {
    let (_, actions) = run(&[
        TooltipEvent::MouseMove { hovered: true },
        TooltipEvent::MouseMove { hovered: false },
        TooltipEvent::MouseMove { hovered: true },
        TooltipEvent::MouseMove { hovered: true },
    ]);
    assert_eq!(
        actions,
        vec![TooltipAction::StartTimer, TooltipAction::Nothing, TooltipAction::Nothing, TooltipAction::Nothing]
    );
}

#[test]
fn leaving_a_shown_tip_hides_it() {
    let shown = [TooltipEvent::MouseMove { hovered: true }, TooltipEvent::DelayElapsed];
    for last in [TooltipEvent::MouseMove { hovered: false }, TooltipEvent::MouseDown, TooltipEvent::MouseExit] {
        let mut events = shown.to_vec();
        events.push(last);
        let (state, actions) = run(&events);
        assert_eq!(actions[2], TooltipAction::Hide);
        assert!(!state.shown);
    }
}

#[test]
fn pressing_with_no_tip_does_nothing() {
    let (state, actions) = run(&[TooltipEvent::MouseDown]);
    assert_eq!(actions, vec![TooltipAction::Nothing]);
    assert_eq!(state, TooltipState::new());
}

#[test]
fn leaving_the_window_stops_the_delay() {
    let (state, actions) = run(&[TooltipEvent::MouseMove { hovered: true }, TooltipEvent::MouseExit]);
    assert_eq!(actions, vec![TooltipAction::StartTimer, TooltipAction::Nothing]);
    assert_eq!(state, TooltipState::new());
}
