use echo_core::control::{
    listener_step, make_read_buffer, stop_transition, truncate_frame, AcceptEvent,
    ListenerAction, POLL_INTERVAL_MS, READ_BUFFER_LEN,
};

#[test]
fn stop_signals_once_and_is_idempotent() {
    // stopping a running server clears the flag and reports a signal sent.
    let (flag, signalled) = stop_transition(true);
    assert!(!flag);
    assert!(signalled);
    // a second stop is a safe no-op: still stopped, no signal.
    let (flag, signalled) = stop_transition(flag);
    assert!(!flag);
    assert!(!signalled);
}

#[test]
fn listener_exits_exactly_when_stopped() {
    assert!(matches!(listener_step(false, AcceptEvent::Accepted), ListenerAction::Exit));
    assert!(matches!(listener_step(false, AcceptEvent::WouldBlock), ListenerAction::Exit));
    assert!(matches!(listener_step(false, AcceptEvent::Failed), ListenerAction::Exit));
    assert!(!matches!(listener_step(true, AcceptEvent::Failed), ListenerAction::Exit));
}

#[test]
fn listener_spawns_a_handler_per_accepted_connection() {
    assert!(matches!(listener_step(true, AcceptEvent::Accepted), ListenerAction::SpawnHandler));
}

#[test]
fn listener_retries_when_no_connection_is_pending() {
    assert!(matches!(listener_step(true, AcceptEvent::WouldBlock), ListenerAction::RetryLater));
}

#[test]
fn listener_survives_a_failed_accept() {
    assert!(matches!(
        listener_step(true, AcceptEvent::Failed),
        ListenerAction::ContinueAccepting
    ));
}

#[test]
fn poll_interval_is_ten_milliseconds() {
    assert_eq!(POLL_INTERVAL_MS, 10);
}

#[test]
fn read_buffer_is_fresh_and_full_sized() {
    let buf = make_read_buffer();
    assert_eq!(buf.len(), READ_BUFFER_LEN);
    assert_eq!(READ_BUFFER_LEN, 512);
    assert!(buf.iter().all(|b| *b == 0));
}

#[test]
fn truncate_frame_keeps_the_bytes_one_read_returned() {
    let mut buf = vec![1u8, 2, 3, 4, 5];
    truncate_frame(&mut buf, 2);
    assert_eq!(buf, vec![1u8, 2]);
    let mut empty = vec![9u8];
    truncate_frame(&mut empty, 0);
    assert_eq!(empty, Vec::<u8>::new());
}
