//! The interactive controls of a running scan: `p` pauses and resumes, `q`
//! quits, `+` (or `=`) and `-` change the number of concurrent requests.
use vstd::prelude::*;

verus! {

/// How many concurrent requests one key press adds or removes.
pub const THREAD_STEP: usize = 10;

/// What the keyboard controls of a scan.
#[derive(Debug, Clone, Copy, PartialEq, Eq, Structural)]
pub struct ControlState {
    pub paused: bool,
    pub quit: bool,
    pub threads: usize,
}

/// What the scan does about a key press, besides taking the new state.
#[derive(Debug, Clone, Copy, PartialEq, Eq, Structural)]
pub enum ControlAction {
    /// The key changes nothing.
    Nothing,
    /// The scan is now paused.
    Paused,
    /// The scan runs again.
    Resumed,
    /// The scan finishes its requests in flight and stops; no more keys are
    /// read.
    Quit,
    /// The thread count went up from `from` to `to`; as many request slots
    /// are added.
    ThreadsRaised { from: usize, to: usize },
    /// The thread count went down from `from` to `to`; slots already given
    /// out are not taken back.
    ThreadsLowered { from: usize, to: usize },
}

/// The state after a key press, and what to do about it.
pub open spec fn control_step(s: ControlState, key: char) -> (ControlState, ControlAction) {
    if key == 'p' {
        (
            ControlState { paused: !s.paused, ..s },
            if s.paused {
                ControlAction::Resumed
            } else {
                ControlAction::Paused
            },
        )
    } else if key == 'q' {
        (ControlState { quit: true, ..s }, ControlAction::Quit)
    } else if key == '+' || key == '=' {
        let to = (s.threads + THREAD_STEP) as usize;
        (ControlState { threads: to, ..s }, ControlAction::ThreadsRaised { from: s.threads, to })
    } else if key == '-' && s.threads > THREAD_STEP {
        let to = (s.threads - THREAD_STEP) as usize;
        (ControlState { threads: to, ..s }, ControlAction::ThreadsLowered { from: s.threads, to })
    } else {
        (s, ControlAction::Nothing)
    }
}

/// Handles one key press of the scan's keyboard controls.
pub fn on_key(s: ControlState, key: char) -> (r: (ControlState, ControlAction))
    requires
        key == '+' || key == '=' ==> s.threads + THREAD_STEP <= usize::MAX,
    ensures
        r == control_step(s, key),
{
    if key == 'p' {
        let action = if s.paused {
            ControlAction::Resumed
        } else {
            ControlAction::Paused
        };
        (ControlState { paused: !s.paused, quit: s.quit, threads: s.threads }, action)
    } else if key == 'q' {
        (ControlState { paused: s.paused, quit: true, threads: s.threads }, ControlAction::Quit)
    } else if key == '+' || key == '=' {
        let to = s.threads + THREAD_STEP;
        (
            ControlState { paused: s.paused, quit: s.quit, threads: to },
            ControlAction::ThreadsRaised { from: s.threads, to },
        )
    } else if key == '-' && s.threads > THREAD_STEP {
        let to = s.threads - THREAD_STEP;
        (
            ControlState { paused: s.paused, quit: s.quit, threads: to },
            ControlAction::ThreadsLowered { from: s.threads, to },
        )
    } else {
        (s, ControlAction::Nothing)
    }
}

/// Pressing `p` twice leaves the scan as it was.
pub proof fn pause_twice_is_identity(s: ControlState)
    ensures
        control_step(control_step(s, 'p').0, 'p').0 == s,
{
}

/// Raising a positive thread count and lowering it again gives the count
/// back.
pub proof fn raise_then_lower_is_identity(s: ControlState)
    requires
        s.threads > 0,
        s.threads + THREAD_STEP <= usize::MAX,
    ensures
        control_step(control_step(s, '+').0, '-').0 == s,
{
}

/// A key press never brings a positive thread count down to zero.
pub proof fn threads_stay_positive(s: ControlState, key: char)
    requires
        s.threads > 0,
        key == '+' || key == '=' ==> s.threads + THREAD_STEP <= usize::MAX,
    ensures
        control_step(s, key).0.threads > 0,
{
}

} // verus!
