//! When a hover tooltip shows and hides. Hovering over the host starts a
//! delay (one at a time); if the pointer is still over the host when the
//! delay has elapsed, the tip shows. Leaving the host, pressing a mouse
//! button or the pointer leaving the window hides it at once.
//!
//! The host runs the timers and paints; the decisions are a step function
//! from the current state and an event to the next state and what the host
//! must do.

use vstd::prelude::*;

verus! {

/// What a tooltip host remembers between events.
#[derive(Debug, Clone, Copy, PartialEq, Eq, Structural)]
pub struct TooltipState {
    /// Whether the pointer was over the host at the last event.
    pub hovered: bool,
    /// Whether a hover delay is running.
    pub timer_active: bool,
    /// Whether the tip is showing.
    pub shown: bool,
}

/// What happens to a tooltip host.
#[derive(Debug, Clone, Copy, PartialEq, Eq, Structural)]
pub enum TooltipEvent {
    /// The pointer moved; `hovered` says whether it is over the host now.
    MouseMove { hovered: bool },
    /// The hover delay started earlier has elapsed.
    DelayElapsed,
    /// A mouse button went down anywhere.
    MouseDown,
    /// The pointer left the window.
    MouseExit,
}

/// What the host must do after an event.
#[derive(Debug, Clone, Copy, PartialEq, Eq, Structural)]
pub enum TooltipAction {
    /// Nothing.
    Nothing,
    /// Start the hover delay.
    StartTimer,
    /// Build the tip, show it and repaint.
    Show,
    /// Drop the tip and repaint.
    Hide,
}

/// The state with the tip hidden, and `Hide` when it was showing.
pub open spec fn hidden(s: TooltipState) -> (TooltipState, TooltipAction) {
    if s.shown {
        (TooltipState { shown: false, ..s }, TooltipAction::Hide)
    } else {
        (s, TooltipAction::Nothing)
    }
}

/// The next state and the host's action after `event`.
pub open spec fn tooltip_step(s: TooltipState, event: TooltipEvent) -> (TooltipState, TooltipAction) {
    match event {
        TooltipEvent::MouseMove { hovered } => {
            let moved = TooltipState { hovered, ..s };
            if hovered == s.hovered {
                (moved, TooltipAction::Nothing)
            } else if !hovered {
                hidden(moved)
            } else if s.timer_active {
                (moved, TooltipAction::Nothing)
            } else {
                (TooltipState { timer_active: true, ..moved }, TooltipAction::StartTimer)
            }
        },
        TooltipEvent::DelayElapsed => {
            if !s.hovered {
                (TooltipState { timer_active: false, ..s }, TooltipAction::Nothing)
            } else {
                (TooltipState { timer_active: false, shown: true, ..s }, TooltipAction::Show)
            }
        },
        TooltipEvent::MouseDown => hidden(s),
        TooltipEvent::MouseExit => hidden(TooltipState { hovered: false, timer_active: false, ..s }),
    }
}

/// A tip shows only while the pointer is over its host.
pub open spec fn consistent(s: TooltipState) -> bool {
    s.shown ==> s.hovered
}

impl TooltipState {
    /// A host that has seen no event: not hovered, no delay, no tip.
    pub fn new() -> (r: TooltipState)
        ensures
            r == (TooltipState { hovered: false, timer_active: false, shown: false }),
            consistent(r),
    {
        TooltipState { hovered: false, timer_active: false, shown: false }
    }

    /// Takes `event` and says what the host must do.
    pub fn step(self, event: TooltipEvent) -> (r: (TooltipState, TooltipAction))
        ensures
            r == tooltip_step(self, event),
    {
        let s = self;
        match event {
            TooltipEvent::MouseMove { hovered } => {
                let moved = TooltipState { hovered, ..s };
                if hovered == s.hovered {
                    (moved, TooltipAction::Nothing)
                } else if !hovered {
                    hide_tip(moved)
                } else if s.timer_active {
                    (moved, TooltipAction::Nothing)
                } else {
                    (TooltipState { timer_active: true, ..moved }, TooltipAction::StartTimer)
                }
            },
            TooltipEvent::DelayElapsed => {
                if !s.hovered {
                    (TooltipState { timer_active: false, ..s }, TooltipAction::Nothing)
                } else {
                    (TooltipState { timer_active: false, shown: true, ..s }, TooltipAction::Show)
                }
            },
            TooltipEvent::MouseDown => hide_tip(s),
            TooltipEvent::MouseExit => hide_tip(TooltipState { hovered: false, timer_active: false, ..s }),
        }
    }
}

fn hide_tip(s: TooltipState) -> (r: (TooltipState, TooltipAction))
    ensures
        r == hidden(s),
{
    if s.shown {
        (TooltipState { shown: false, ..s }, TooltipAction::Hide)
    } else {
        (s, TooltipAction::Nothing)
    }
}

/// Every step keeps a tip only over its host: from a state where the tip
/// shows only while hovered, no event leads to a tip showing unhovered.
pub proof fn lemma_step_keeps_consistent(s: TooltipState, event: TooltipEvent)
    requires
        consistent(s),
    ensures
        consistent(tooltip_step(s, event).0),
{
}

/// One hover delay at a time: a delay starts only when none is running,
/// and the tip is built only when a delay elapses over the host.
pub proof fn lemma_one_timer_at_a_time(s: TooltipState, event: TooltipEvent)
    ensures
        tooltip_step(s, event).1 == TooltipAction::StartTimer ==> (!s.timer_active
            && tooltip_step(s, event).0.timer_active),
        tooltip_step(s, event).1 == TooltipAction::Show ==> (event == TooltipEvent::DelayElapsed && s.hovered),
{
}

/// A pointer move that does not change whether the pointer is over the
/// host changes nothing and asks nothing of the host.
pub proof fn lemma_move_within_changes_nothing(s: TooltipState)
    ensures
        tooltip_step(s, TooltipEvent::MouseMove { hovered: s.hovered }) == (s, TooltipAction::Nothing),
{
}

/// When the host is asked to act: a hover delay starts exactly when the
/// pointer enters the host and no delay is running; the tip is built
/// exactly when a delay elapses with the pointer over the host; it is
/// dropped exactly when it shows and the pointer leaves the host, a button
/// is pressed or the pointer leaves the window.
pub proof fn lemma_when_the_host_acts(s: TooltipState, event: TooltipEvent)
    ensures
        (tooltip_step(s, event).1 == TooltipAction::StartTimer) == (event == (TooltipEvent::MouseMove {
            hovered: true,
        }) && !s.hovered && !s.timer_active),
        (tooltip_step(s, event).1 == TooltipAction::Show) == (event == TooltipEvent::DelayElapsed
            && s.hovered),
        (tooltip_step(s, event).1 == TooltipAction::Hide) == (s.shown && (event == (TooltipEvent::MouseMove {
            hovered: false,
        }) && s.hovered || event == TooltipEvent::MouseDown || event == TooltipEvent::MouseExit)),
        tooltip_step(s, event).1 == TooltipAction::StartTimer ==> tooltip_step(s, event).0.timer_active,
        tooltip_step(s, event).1 == TooltipAction::Show ==> tooltip_step(s, event).0.shown,
{
}

/// What each event does to the state: whether the pointer is over the host
/// follows the pointer's moves and is lost when it leaves the window; a
/// delay runs from its start until it elapses or the pointer leaves the
/// window; the tip shows from `Show` until `Hide`.
pub proof fn lemma_state_follows_events(s: TooltipState, event: TooltipEvent)
    ensures
        tooltip_step(s, event).0.hovered == match event {
            TooltipEvent::MouseMove { hovered } => hovered,
            TooltipEvent::MouseExit => false,
            _ => s.hovered,
        },
        tooltip_step(s, event).0.timer_active == match event {
            TooltipEvent::DelayElapsed | TooltipEvent::MouseExit => false,
            _ => s.timer_active || tooltip_step(s, event).1 == TooltipAction::StartTimer,
        },
        tooltip_step(s, event).0.shown == (tooltip_step(s, event).1 == TooltipAction::Show || s.shown
            && tooltip_step(s, event).1 != TooltipAction::Hide),
{
}

/// Leaving the host, pressing a button or leaving the window never leaves
/// the tip showing: a showing tip is hidden at once.
pub proof fn lemma_leaving_hides(s: TooltipState, event: TooltipEvent)
    requires
        consistent(s),
        event == (TooltipEvent::MouseMove { hovered: false }) || event == TooltipEvent::MouseDown
            || event == TooltipEvent::MouseExit,
    ensures
        !tooltip_step(s, event).0.shown,
        tooltip_step(s, event).1 == (if s.shown {
            TooltipAction::Hide
        } else {
            TooltipAction::Nothing
        }),
{
}

} // verus!
