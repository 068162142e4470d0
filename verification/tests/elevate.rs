use trim_finder::commands::elevate::{
    handshake_matches, new_nonce, takeover_pending, takeover_writer_gone, Probe,
    HANDSHAKE_TIMEOUT_MS, PHASE_READY, PHASE_RELEASED, PHASE_REQUESTED, RELAUNCH_FLAG,
    TAKEOVER_TIMEOUT_MS,
};

#[test]
fn handshake_needs_the_very_nonce() {
    assert!(handshake_matches("a1b2", "ready", "a1b2", "ready"));
    assert!(!handshake_matches("other", "ready", "a1b2", "ready"));
    assert!(!handshake_matches("a1b2", "requested", "a1b2", "ready"));
    assert!(!handshake_matches("a1b2", "released", "a1b2", "ready"));
}

#[test]
fn writer_that_is_oneself_or_has_no_pid_is_no_successor() {
    assert!(takeover_writer_gone(0, 4321, Probe::Running));
    assert!(takeover_writer_gone(4321, 4321, Probe::Running));
}

#[test]
fn missing_pid_is_gone_and_denied_access_is_not() {
    assert!(takeover_writer_gone(u32::MAX, 4321, Probe::Missing));
    assert!(!takeover_writer_gone(u32::MAX, 4321, Probe::Denied));
}

#[test]
fn nonce_differs_and_is_hexadecimal_of_fixed_length() {
    let a = new_nonce(0x0123_4567_89ab_cdef);
    let b = new_nonce(0x0123_4567_89ab_cdee);
    assert_eq!(a.len(), 16);
    assert!(a.chars().all(|c| c.is_ascii_hexdigit()));
    assert_ne!(a, b, "同一次进程内两次 nonce 相同则可预测");
}

#[test]
fn flag_may_stand_alone_or_with_a_value() {
    assert!(RELAUNCH_FLAG.starts_with("--"));
    assert!(format!("{RELAUNCH_FLAG}=abc").starts_with(&format!("{RELAUNCH_FLAG}=")));
    assert!(!RELAUNCH_FLAG.contains(' '));
}

#[test]
fn takeover_needs_all_three_conditions() {
    assert!(takeover_pending(Some("n1"), true, Some(("n1", PHASE_REQUESTED))));
    assert!(!takeover_pending(Some("n1"), true, None));
    assert!(!takeover_pending(Some("n1"), true, Some(("n2", PHASE_REQUESTED))));
    assert!(!takeover_pending(Some("n1"), true, Some(("n1", PHASE_READY))));
    assert!(!takeover_pending(Some("n1"), true, Some(("n1", PHASE_RELEASED))));
    assert!(!takeover_pending(Some("n1"), false, Some(("n1", PHASE_REQUESTED))));
    assert!(!takeover_pending(None, true, Some(("n1", PHASE_REQUESTED))));
}

#[test]
fn timeouts_are_as_agreed() {
    assert_eq!(HANDSHAKE_TIMEOUT_MS, 20_000);
    assert_eq!(TAKEOVER_TIMEOUT_MS, 15_000);
}
