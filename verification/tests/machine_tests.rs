use annoying_journal::machine::{PromptState, Session};

#[test]
fn new_session_is_idle() {
    let s = Session::new();
    assert_eq!(s.state, PromptState::Idle);
}

#[test]
fn tick_shows_window_and_activates() {
    let mut s = Session::new();
    let show = s.handle_tick();
    assert!(show);
    assert_eq!(s.state, PromptState::Active);
}

#[test]
fn repeated_ticks_show_at_most_one_window() {
    // A zero interval ticks as fast as schedulable; however many ticks
    // arrive, only the first one shows a window.
    let mut s = Session::new();
    let mut shows = 0;
    for _ in 0..1000 {
        if s.handle_tick() {
            shows += 1;
        }
        assert_eq!(s.state, PromptState::Active);
    }
    assert_eq!(shows, 1);
}

#[test]
fn successful_submit_rearms() {
    let mut s = Session::new();
    s.handle_tick();
    assert_eq!(s.state, PromptState::Active);
    let clear_and_hide = s.handle_submit_outcome(true);
    assert!(clear_and_hide);
    assert_eq!(s.state, PromptState::Idle);
    // The next tick may pop the window up again.
    assert!(s.handle_tick());
}

#[test]
fn failed_submit_stays_active() {
    // An unwritable journal directory fails the append: the state stays
    // `Active` and the shell is told not to clear the editor.
    let mut s = Session::new();
    s.handle_tick();
    let clear_and_hide = s.handle_submit_outcome(false);
    assert!(!clear_and_hide);
    assert_eq!(s.state, PromptState::Active);
}

#[test]
fn submit_from_idle_is_idempotent() {
    // A submission without a preceding tick still ends in `Idle`.
    let mut s = Session::new();
    let clear_and_hide = s.handle_submit_outcome(true);
    assert!(clear_and_hide);
    assert_eq!(s.state, PromptState::Idle);
}
