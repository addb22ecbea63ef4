use imap_session::frame::FrameReader;
use imap_session::store::{matches_pattern, MailStore};

#[test]
fn frame_reader_waits_for_complete_line() {
    let mut r = FrameReader::new();
    r.push(b"a1 NOOP");
    assert!(r.take_line().is_none());
    r.push(b"\r\n");
    assert_eq!(r.take_line(), Some(b"a1 NOOP".to_vec()));
    assert!(r.take_line().is_none());
}

#[test]
fn frame_reader_splits_batched_lines() {
    let mut r = FrameReader::new();
    r.push(b"one\r\ntwo\r\nthr");
    assert_eq!(r.take_line(), Some(b"one".to_vec()));
    assert_eq!(r.take_line(), Some(b"two".to_vec()));
    assert!(r.take_line().is_none());
    r.push(b"ee\r\n");
    assert_eq!(r.take_line(), Some(b"three".to_vec()));
}

#[test]
fn frame_reader_yields_empty_line() {
    let mut r = FrameReader::new();
    r.push(b"\r\nx\r\n");
    assert_eq!(r.take_line(), Some(b"".to_vec()));
    assert_eq!(r.take_line(), Some(b"x".to_vec()));
}

#[test]
fn frame_reader_never_appends_missing_terminator() {
    let mut r = FrameReader::new();
    r.push(b"a1 LOGOUT");
    assert!(r.take_line().is_none(), "a partial line must stay buffered, not be forced closed");
    assert!(r.take_line().is_none());
}

#[test]
fn glob_star_crosses_delimiter() {
    assert!(matches_pattern(b"*", b"Mail/deep/leaf"));
    assert!(matches_pattern(b"Mail/*", b"Mail/deep/leaf"));
    assert!(matches_pattern(b"*leaf", b"Mail/deep/leaf"));
    assert!(!matches_pattern(b"Mail/*", b"Other/deep"));
}

#[test]
fn glob_percent_stops_at_delimiter() {
    assert!(matches_pattern(b"%", b"inbox"));
    assert!(!matches_pattern(b"%", b"Mail/foo"));
    assert!(matches_pattern(b"Mail/%", b"Mail/foo"));
    assert!(!matches_pattern(b"Mail/%", b"Mail/foo/bar"));
}

#[test]
fn glob_literals_match_exactly() {
    assert!(matches_pattern(b"inbox", b"inbox"));
    assert!(!matches_pattern(b"inbox", b"inbox2"));
    assert!(!matches_pattern(b"inbox", b"inbo"));
}

#[test]
fn store_credentials_exact_match_only() {
    let mut store = MailStore::new();
    store.add_user(b"alice".to_vec(), b"secret".to_vec());
    assert!(store.verify_login(b"alice", b"secret"));
    assert!(!store.verify_login(b"alice", b"Secret"));
    assert!(!store.verify_login(b"bob", b"secret"));
    assert!(!store.verify_login(b"alice", b""));
}
