use imap_session::dispatch::{dispatch, CommandOutcome};
use imap_session::error::DecodeError;
use imap_session::parse::decode;
use imap_session::session::{Session, SessionState};
use imap_session::store::{MailStore, MailboxInfo};

fn test_store() -> MailStore {
    let mut store = MailStore::new();
    store.add_mailbox(MailboxInfo {
        name: b"inbox".to_vec(),
        noselect: false,
        exists: 23,
        recent: 23,
        unseen: 12,
        uid_validity: 3857529045,
        uid_next: 4392,
    });
    store.add_mailbox(MailboxInfo {
        name: b"Mail/foo".to_vec(),
        noselect: true,
        exists: 0,
        recent: 0,
        unseen: 0,
        uid_validity: 1,
        uid_next: 1,
    });
    store.add_user(b"alice".to_vec(), b"secret".to_vec());
    store
}

fn run(session: &mut Session, store: &MailStore, line: &[u8]) -> (Vec<u8>, CommandOutcome) {
    let cmd = decode(line).expect("line must decode");
    let reply = dispatch(session, store, &cmd);
    (reply.bytes, reply.outcome)
}

#[test]
fn illegal_command_is_bad_and_state_unchanged() {
    let store = test_store();
    let mut session = Session::new();
    let (bytes, outcome) = run(&mut session, &store, b"a1 SELECT inbox");
    assert_eq!(bytes, b"a1 BAD SELECT\r\n".to_vec());
    assert_eq!(outcome, CommandOutcome::Continue);
    assert_eq!(session.state, SessionState::NotAuthenticated);
    assert!(session.selected_mailbox.is_none());
}

#[test]
fn fetch_before_select_is_bad() {
    let store = test_store();
    let mut session = Session::new();
    run(&mut session, &store, b"a1 LOGIN alice secret");
    let (bytes, _) = run(&mut session, &store, b"a2 FETCH 1 FLAGS");
    assert_eq!(bytes, b"a2 BAD FETCH\r\n".to_vec());
    assert_eq!(session.state, SessionState::Authenticated);
}

#[test]
fn login_good_credentials_authenticates() {
    let store = test_store();
    let mut session = Session::new();
    let (bytes, outcome) = run(&mut session, &store, b"a1 LOGIN alice secret");
    assert_eq!(bytes, b"a1 OK LOGIN completed\r\n".to_vec());
    assert_eq!(outcome, CommandOutcome::Continue);
    assert_eq!(session.state, SessionState::Authenticated);
    assert!(session.selected_mailbox.is_none());
}

#[test]
fn login_bad_credentials_is_no_and_state_unchanged() {
    let store = test_store();
    let mut session = Session::new();
    let (bytes, _) = run(&mut session, &store, b"a1 LOGIN alice wrong");
    assert_eq!(bytes, b"a1 NO LOGIN\r\n".to_vec());
    assert_eq!(session.state, SessionState::NotAuthenticated);
}

#[test]
fn second_login_is_rejected_not_reaccepted() {
    let store = test_store();
    let mut session = Session::new();
    run(&mut session, &store, b"a1 LOGIN alice secret");
    let (bytes, _) = run(&mut session, &store, b"a2 LOGIN alice secret");
    assert_eq!(bytes, b"a2 BAD LOGIN\r\n".to_vec());
    assert_eq!(session.state, SessionState::Authenticated);
}

#[test]
fn password_never_echoed() {
    let store = test_store();
    let mut session = Session::new();
    let (ok_bytes, _) = run(&mut session, &store, b"a1 LOGIN alice secret");
    let mut session2 = Session::new();
    let (no_bytes, _) = run(&mut session2, &store, b"a2 LOGIN alice hunter2");
    let contains = |haystack: &[u8], needle: &[u8]| {
        haystack.windows(needle.len()).any(|w| w == needle)
    };
    assert!(!contains(&ok_bytes, b"secret"));
    assert!(!contains(&no_bytes, b"hunter2"));
}

#[test]
fn select_existing_mailbox() {
    let store = test_store();
    let mut session = Session::new();
    run(&mut session, &store, b"a1 LOGIN alice secret");
    let (bytes, _) = run(&mut session, &store, b"a2 SELECT inbox");
    let expected = b"* 23 EXISTS\r\n\
* 23 RECENT\r\n\
* OK [UNSEEN 12] Message 12 is first unseen\r\n\
* OK [UIDVALIDITY 3857529045] UIDs valid\r\n\
* OK [UIDNEXT 4392] Predicted next UID\r\n\
* OK [PERMANENTFLAGS (\\Answered \\Flagged \\Deleted \\Seen \\Draft)] Limited\r\n\
a2 OK [READ-WRITE] SELECT completed\r\n";
    assert_eq!(bytes, expected.to_vec());
    assert_eq!(session.state, SessionState::Selected);
    assert_eq!(session.selected_mailbox, Some(b"inbox".to_vec()));
}

#[test]
fn select_replaces_prior_selection_atomically() {
    let store = test_store();
    let mut session = Session::new();
    run(&mut session, &store, b"a1 LOGIN alice secret");
    run(&mut session, &store, b"a2 SELECT inbox");
    run(&mut session, &store, b"a3 SELECT Mail/foo");
    assert_eq!(session.state, SessionState::Selected);
    assert_eq!(session.selected_mailbox, Some(b"Mail/foo".to_vec()));
}

#[test]
fn select_missing_mailbox_is_no_and_unchanged() {
    let store = test_store();
    let mut session = Session::new();
    run(&mut session, &store, b"a1 LOGIN alice secret");
    run(&mut session, &store, b"a2 SELECT inbox");
    let (bytes, _) = run(&mut session, &store, b"a3 SELECT nosuch");
    assert_eq!(bytes, b"a3 NO SELECT\r\n".to_vec());
    assert_eq!(session.state, SessionState::Selected);
    assert_eq!(session.selected_mailbox, Some(b"inbox".to_vec()));
}

#[test]
fn capability_lists_extensions() {
    let store = test_store();
    let mut session = Session::new();
    let (bytes, _) = run(&mut session, &store, b"a1 CAPABILITY");
    assert_eq!(
        bytes,
        b"* CAPABILITY IMAP4rev1 STARTTLS\r\na1 OK CAPABILITY completed\r\n".to_vec()
    );
}

#[test]
fn list_matches_wildcards() {
    let store = test_store();
    let mut session = Session::new();
    run(&mut session, &store, b"a1 LOGIN alice secret");
    let (bytes, _) = run(&mut session, &store, b"a2 LIST \"\" *");
    let expected = b"* LIST () \"/\" \"inbox\"\r\n\
* LIST (\\Noselect) \"/\" \"Mail/foo\"\r\n\
a2 OK LIST completed\r\n";
    assert_eq!(bytes, expected.to_vec());
    let (bytes, _) = run(&mut session, &store, b"a3 LIST \"\" %");
    let expected = b"* LIST () \"/\" \"inbox\"\r\na3 OK LIST completed\r\n";
    assert_eq!(bytes, expected.to_vec(), "% must not cross the / delimiter");
}

#[test]
fn noop_emits_counts_when_selected() {
    let store = test_store();
    let mut session = Session::new();
    run(&mut session, &store, b"a1 LOGIN alice secret");
    let (bytes, _) = run(&mut session, &store, b"a2 NOOP");
    assert_eq!(bytes, b"a2 OK NOOP completed\r\n".to_vec());
    run(&mut session, &store, b"a3 SELECT inbox");
    let (bytes, _) = run(&mut session, &store, b"a4 NOOP");
    assert_eq!(
        bytes,
        b"* 23 EXISTS\r\n* 23 RECENT\r\na4 OK NOOP completed\r\n".to_vec()
    );
}

#[test]
fn logout_terminates_from_any_state() {
    let store = test_store();
    let mut session = Session::new();
    let (bytes, outcome) = run(&mut session, &store, b"a1 LOGOUT");
    assert_eq!(
        bytes,
        b"* BYE IMAP4rev1 Server logging out\r\na1 OK LOGOUT completed\r\n".to_vec()
    );
    assert_eq!(outcome, CommandOutcome::Terminate);
    assert_eq!(session.state, SessionState::NotAuthenticated);
    assert!(session.selected_mailbox.is_none());
}

#[test]
fn search_all_lists_every_message_ascending() {
    let mut store = MailStore::new();
    store.add_mailbox(MailboxInfo {
        name: b"box".to_vec(),
        noselect: false,
        exists: 3,
        recent: 0,
        unseen: 0,
        uid_validity: 1,
        uid_next: 9,
    });
    store.add_user(b"u".to_vec(), b"p".to_vec());
    let mut session = Session::new();
    run(&mut session, &store, b"a1 LOGIN u p");
    run(&mut session, &store, b"a2 SELECT box");
    let (bytes, _) = run(&mut session, &store, b"a3 SEARCH ALL");
    assert_eq!(bytes, b"* SEARCH 1 2 3\r\na3 OK SEARCH completed\r\n".to_vec());
    let (bytes, _) = run(&mut session, &store, b"a4 SEARCH UNSEEN");
    assert_eq!(bytes, b"* SEARCH\r\na4 OK SEARCH completed\r\n".to_vec());
    let (bytes, _) = run(&mut session, &store, b"a5 UID SEARCH ALL");
    assert_eq!(
        bytes,
        b"* SEARCH 1 2 3 4 5 6 7 8\r\na5 OK SEARCH completed\r\n".to_vec(),
        "UID SEARCH ranges over UIDs up to UIDNEXT-1"
    );
}

#[test]
fn recognized_unsupported_command_is_bad_by_name() {
    let store = test_store();
    let mut session = Session::new();
    run(&mut session, &store, b"a1 LOGIN alice secret");
    run(&mut session, &store, b"a2 SELECT inbox");
    let (bytes, outcome) = run(&mut session, &store, b"a3 STORE 1 +FLAGS (\\Seen)");
    assert_eq!(bytes, b"a3 BAD STORE\r\n".to_vec());
    assert_eq!(outcome, CommandOutcome::Continue);
    assert_eq!(session.state, SessionState::Selected);
    let (bytes, _) = run(&mut session, &store, b"a4 close");
    assert_eq!(bytes, b"a4 BAD CLOSE\r\n".to_vec(), "the name is echoed upper-cased");
    let (bytes, _) = run(&mut session, &store, b"a5 NOOP");
    assert!(bytes.ends_with(b"a5 OK NOOP completed\r\n"), "the session must carry on");
}

#[test]
fn werror_message_names_the_failure() {
    let e: imap_session::error::WError = DecodeError::BadTag.into();
    assert_eq!(e.message(), "malformed tag");
    assert_eq!(
        imap_session::error::WError(DecodeError::UnknownCommand).message(),
        "unknown command"
    );
    assert_eq!(
        imap_session::error::WError(DecodeError::BadArguments).message(),
        "malformed arguments"
    );
}

#[test]
fn default_ports() {
    assert_eq!(imap_session::default_imap_port(), 143);
    assert_eq!(imap_session::default_smtp_port(), 25);
}
