use controll::handoff::{HandoffSession, HandoffState, HANDOFF_TIMEOUT_MS};

#[test]
fn accepted_path() {
    let mut s = HandoffSession::new();
    assert_eq!(s.state, HandoffState::Idle);
    s.start(100);
    assert_eq!(s.state, HandoffState::RequestSent { sent_at: 100 });
    s.on_response(true);
    assert_eq!(s.state, HandoffState::Accepted);
    s.reset();
    assert_eq!(s.state, HandoffState::Idle);
}

#[test]
fn declined_path() {
    let mut s = HandoffSession::new();
    s.start(100);
    s.on_response(false);
    assert_eq!(s.state, HandoffState::Declined);
    s.reset();
    assert_eq!(s.state, HandoffState::Idle);
}

#[test]
fn silence_ends_in_abandoned() {
    let mut s = HandoffSession::new();
    s.start(100);
    s.check_timeout(100 + HANDOFF_TIMEOUT_MS);
    assert_eq!(s.state, HandoffState::RequestSent { sent_at: 100 });
    s.check_timeout(101 + HANDOFF_TIMEOUT_MS);
    assert_eq!(s.state, HandoffState::Abandoned);
    s.reset();
    assert_eq!(s.state, HandoffState::Idle);
}

#[test]
fn stray_answer_changes_nothing() {
    let mut s = HandoffSession::new();
    s.on_response(true);
    assert_eq!(s.state, HandoffState::Idle);
    s.start(5);
    s.on_response(false);
    s.on_response(true);
    assert_eq!(s.state, HandoffState::Declined);
}
