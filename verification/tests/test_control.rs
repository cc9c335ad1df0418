use flood::control::{on_key, ControlAction, ControlState, THREAD_STEP};

fn state(paused: bool, threads: usize) -> ControlState {
    ControlState { paused, quit: false, threads }
}

#[test]
fn p_toggles_pause() {
    let (s, a) = on_key(state(false, 50), 'p');
    assert!(s.paused);
    assert_eq!(a, ControlAction::Paused);
    let (s, a) = on_key(s, 'p');
    assert!(!s.paused);
    assert_eq!(a, ControlAction::Resumed);
    assert_eq!(s, state(false, 50));
}

#[test]
fn q_quits() {
    let (s, a) = on_key(state(true, 50), 'q');
    assert!(s.quit);
    assert!(s.paused);
    assert_eq!(a, ControlAction::Quit);
}

#[test]
fn plus_and_equals_raise_threads() {
    let (s, a) = on_key(state(false, 50), '+');
    assert_eq!(s.threads, 60);
    assert_eq!(a, ControlAction::ThreadsRaised { from: 50, to: 60 });
    let (s, a) = on_key(s, '=');
    assert_eq!(s.threads, 70);
    assert_eq!(a, ControlAction::ThreadsRaised { from: 60, to: 70 });
}

#[test]
fn minus_lowers_threads_above_the_step_only() {
    let (s, a) = on_key(state(false, 25), '-');
    assert_eq!(s.threads, 15);
    assert_eq!(a, ControlAction::ThreadsLowered { from: 25, to: 15 });
    let (s, a) = on_key(s, '-');
    assert_eq!(s.threads, 5);
    assert_eq!(a, ControlAction::ThreadsLowered { from: 15, to: 5 });
    let (s, a) = on_key(s, '-');
    assert_eq!(s.threads, 5);
    assert_eq!(a, ControlAction::Nothing);
    let (s, a) = on_key(state(false, THREAD_STEP), '-');
    assert_eq!(s.threads, THREAD_STEP);
    assert_eq!(a, ControlAction::Nothing);
}

#[test]
fn other_keys_change_nothing() {
    for k in ['x', 'P', 'Q', ' ', '0'] {
        let (s, a) = on_key(state(true, 40), k);
        assert_eq!(s, state(true, 40));
        assert_eq!(a, ControlAction::Nothing);
    }
}

#[test]
fn raise_then_lower_gives_the_count_back() {
    let start = state(false, 7);
    let (s, _) = on_key(start, '+');
    let (s, _) = on_key(s, '-');
    assert_eq!(s, start);
}
