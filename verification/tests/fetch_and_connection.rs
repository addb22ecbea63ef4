use imap_session::command::{Command, CommandBody};
use imap_session::dispatch::{dispatch, CommandOutcome};
use imap_session::encode::encode_command_line;
use imap_session::engine::process_line;
use imap_session::engine::{ConnStatus, Connection};
use imap_session::error::DecodeError;
use imap_session::parse::decode;
use imap_session::respond::greeting;
use imap_session::session::{Session, SessionState};
use imap_session::store::{MailStore, MailboxInfo};

fn fetch_store() -> MailStore {
    let mut store = MailStore::new();
    store.add_mailbox(MailboxInfo {
        name: b"box".to_vec(),
        noselect: false,
        exists: 5,
        recent: 1,
        unseen: 2,
        uid_validity: 77,
        uid_next: 9,
    });
    store.add_user(b"alice".to_vec(), b"secret".to_vec());
    store
}

fn selected_session(store: &MailStore) -> Session {
    let mut session = Session::new();
    let login = decode(b"p1 LOGIN alice secret").unwrap();
    dispatch(&mut session, store, &login);
    let select = decode(b"p2 SELECT box").unwrap();
    dispatch(&mut session, store, &select);
    assert_eq!(session.state, SessionState::Selected);
    session
}

fn run(session: &mut Session, store: &MailStore, line: &[u8]) -> Vec<u8> {
    let cmd = decode(line).expect("line must decode");
    dispatch(session, store, &cmd).bytes
}

#[test]
fn fetch_range_one_line_per_integer_ascending() {
    let store = fetch_store();
    let mut session = selected_session(&store);
    let bytes = run(&mut session, &store, b"a1 FETCH 2:4 RFC822.SIZE");
    let expected = b"* 2 FETCH (RFC822.SIZE 1337)\r\n\
* 3 FETCH (RFC822.SIZE 1337)\r\n\
* 4 FETCH (RFC822.SIZE 1337)\r\n\
a1 OK FETCH completed\r\n";
    assert_eq!(bytes, expected.to_vec());
}

#[test]
fn fetch_reversed_range_is_inclusive_both_ends() {
    let store = fetch_store();
    let mut session = selected_session(&store);
    let bytes = run(&mut session, &store, b"a1 FETCH 4:2 UID");
    let expected = b"* 2 FETCH (UID 2)\r\n\
* 3 FETCH (UID 3)\r\n\
* 4 FETCH (UID 4)\r\n\
a1 OK FETCH completed\r\n";
    assert_eq!(bytes, expected.to_vec());
}

#[test]
fn fetch_star_resolves_to_highest_sequence() {
    let store = fetch_store();
    let mut session = selected_session(&store);
    let bytes = run(&mut session, &store, b"a1 FETCH * UID");
    assert_eq!(
        bytes,
        b"* 5 FETCH (UID 5)\r\na1 OK FETCH completed\r\n".to_vec()
    );
}

#[test]
fn uid_fetch_star_resolves_to_highest_uid() {
    let store = fetch_store();
    let mut session = selected_session(&store);
    let bytes = run(&mut session, &store, b"a1 UID FETCH * UID");
    assert_eq!(
        bytes,
        b"* 8 FETCH (UID 8)\r\na1 OK FETCH completed\r\n".to_vec(),
        "UIDNEXT is 9, so the highest UID is 8"
    );
}

#[test]
fn fetch_range_bounded_by_mailbox_size() {
    let store = fetch_store();
    let mut session = selected_session(&store);
    let bytes = run(&mut session, &store, b"a1 FETCH 4:99 UID");
    assert_eq!(
        bytes,
        b"* 4 FETCH (UID 4)\r\n* 5 FETCH (UID 5)\r\na1 OK FETCH completed\r\n".to_vec()
    );
}

#[test]
fn fetch_items_in_requested_order() {
    let store = fetch_store();
    let mut session = selected_session(&store);
    let bytes = run(&mut session, &store, b"a1 FETCH 1 (UID FLAGS)");
    assert_eq!(
        bytes,
        b"* 1 FETCH (UID 1 FLAGS ())\r\na1 OK FETCH completed\r\n".to_vec()
    );
    let bytes = run(&mut session, &store, b"a2 FETCH 1 (FLAGS UID)");
    assert_eq!(
        bytes,
        b"* 1 FETCH (FLAGS () UID 1)\r\na2 OK FETCH completed\r\n".to_vec()
    );
}

#[test]
fn fetch_envelope_echoes_sequence_number() {
    let store = fetch_store();
    let mut session = selected_session(&store);
    let bytes = run(&mut session, &store, b"a1 FETCH 3 ENVELOPE");
    let expected = b"* 3 FETCH (ENVELOPE (\"Mon, 7 Feb 1994 21:52:25 -0800\" \"Imaple is cool!\" \
((\"Joe Q. Public\" NIL \"john.q.public\" \"example.com\")) \
((\"Joe Q. Public\" NIL \"john.q.public\" \"example.com\")) NIL \
((\"Robin Syihab\" NIL \"robin\" \"nu.id\")) NIL NIL NIL \"3\"))\r\n\
a1 OK FETCH completed\r\n";
    assert_eq!(bytes, expected.to_vec());
}

#[test]
fn fetch_macro_all_resolves_to_item_set() {
    let store = fetch_store();
    let mut session = selected_session(&store);
    let bytes = run(&mut session, &store, b"a1 FETCH 5 FAST");
    let expected = b"* 5 FETCH (FLAGS () INTERNALDATE \"07-Feb-1994 21:52:25 -0800\" \
RFC822.SIZE 1337)\r\na1 OK FETCH completed\r\n";
    assert_eq!(bytes, expected.to_vec());
}

#[test]
fn fetch_unsupported_item_fails_explicitly() {
    let store = fetch_store();
    let mut session = selected_session(&store);
    let bytes = run(&mut session, &store, b"a1 FETCH 1 BODY");
    assert_eq!(bytes, b"a1 BAD FETCH\r\n".to_vec());
    let bytes = run(&mut session, &store, b"a2 FETCH 1 FULL");
    assert_eq!(
        bytes,
        b"a2 BAD FETCH\r\n".to_vec(),
        "FULL resolves to an item set containing BODY, which is not resolvable here"
    );
}

#[test]
fn process_line_reports_decode_failure() {
    let store = fetch_store();
    let mut session = Session::new();
    let reply = process_line(&mut session, &store, b"a1 NOOP").unwrap();
    assert_eq!(reply.bytes, b"a1 OK NOOP completed\r\n".to_vec());
    assert_eq!(reply.outcome, CommandOutcome::Continue);
    let reply = process_line(&mut session, &store, b"").unwrap();
    assert_eq!(reply.bytes, Vec::<u8>::new());
    assert_eq!(reply.outcome, CommandOutcome::NoOp);
    let err = process_line(&mut session, &store, b"+ NOOP").unwrap_err();
    assert_eq!(err.0, DecodeError::BadTag);
    assert_eq!(session.state, SessionState::NotAuthenticated);
}

#[test]
fn encode_command_line_appends_terminator() {
    let cmd = Command { tag: b"a1".to_vec(), body: CommandBody::Logout };
    assert_eq!(encode_command_line(&cmd), b"a1 LOGOUT\r\n".to_vec());
}

#[test]
fn greeting_line_bytes() {
    assert_eq!(greeting(), b"* OK IMAP4rev1 server ready\r\n".to_vec());
}

#[test]
fn connection_noop_when_authenticated_ends_with_ok() {
    let store = fetch_store();
    let mut conn = Connection::new();
    let first = conn.on_bytes(&store, b"a0 LOGIN alice secret\r\n");
    assert_eq!(first.status, ConnStatus::Open);
    let out = conn.on_bytes(&store, b"a1 NOOP\r\n");
    assert_eq!(out.status, ConnStatus::Open);
    assert!(out.bytes.ends_with(b"a1 OK NOOP completed\r\n"));
}

#[test]
fn connection_logout_says_bye_and_closes() {
    let store = fetch_store();
    let mut conn = Connection::new();
    let out = conn.on_bytes(&store, b"a1 LOGOUT\r\n");
    assert_eq!(
        out.bytes,
        b"* BYE IMAP4rev1 Server logging out\r\na1 OK LOGOUT completed\r\n".to_vec()
    );
    assert_eq!(out.status, ConnStatus::Closed);
}

#[test]
fn connection_select_before_login_is_bad() {
    let store = fetch_store();
    let mut conn = Connection::new();
    let out = conn.on_bytes(&store, b"a1 SELECT inbox\r\n");
    assert_eq!(out.bytes, b"a1 BAD SELECT\r\n".to_vec());
    assert_eq!(out.status, ConnStatus::Open);
    let next = conn.on_bytes(&store, b"a2 LOGIN alice secret\r\n");
    assert_eq!(
        next.bytes,
        b"a2 OK LOGIN completed\r\n".to_vec(),
        "the session must still be in the NotAuthenticated state"
    );
}

#[test]
fn connection_reassembles_split_command() {
    let store = fetch_store();
    let mut conn = Connection::new();
    let first = conn.on_bytes(&store, b"a1 NO");
    assert_eq!(first.bytes, Vec::<u8>::new());
    assert_eq!(first.status, ConnStatus::Open);
    let second = conn.on_bytes(&store, b"OP\r\n");
    assert_eq!(second.bytes, b"a1 OK NOOP completed\r\n".to_vec());
    assert_eq!(second.status, ConnStatus::Open);
}

#[test]
fn connection_processes_batched_lines_in_order() {
    let store = fetch_store();
    let mut conn = Connection::new();
    let out = conn.on_bytes(&store, b"a1 LOGIN alice secret\r\na2 NOOP\r\n");
    assert_eq!(
        out.bytes,
        b"a1 OK LOGIN completed\r\na2 OK NOOP completed\r\n".to_vec()
    );
    assert_eq!(out.status, ConnStatus::Open);
}

#[test]
fn connection_skips_empty_lines() {
    let store = fetch_store();
    let mut conn = Connection::new();
    let out = conn.on_bytes(&store, b"\r\na1 NOOP\r\n");
    assert_eq!(out.bytes, b"a1 OK NOOP completed\r\n".to_vec());
    assert_eq!(out.status, ConnStatus::Open);
}

#[test]
fn connection_decode_failure_is_fatal() {
    let store = fetch_store();
    let mut conn = Connection::new();
    let out = conn.on_bytes(&store, b"a1 NOOP\r\n+bad tag\r\na9 NOOP\r\n");
    assert_eq!(out.bytes, b"a1 OK NOOP completed\r\n".to_vec());
    assert_eq!(out.status, ConnStatus::Failed(DecodeError::BadTag));
}
