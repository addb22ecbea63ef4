//! The dispatcher: holds every decoded command against the state table,
//! routes the legal ones to their handler, and returns the wire reply and
//! the connection outcome; and the handlers themselves, one per supported
//! command.
use vstd::prelude::*;

verus! {

use crate::command::{
    BodyView, Command, CommandBody, CommandView, FetchAttr, FetchItems, FetchItemsView, FetchMacro,
    SeqEntry, Sequence,
};
use crate::parse::{token_upper_eq, upper_seq};
use crate::respond::{
    append_bad, append_counts, append_fetch_line, append_list_line, append_no, append_ok_completed,
    append_select_lines, append_select_ok, bad_line, bye_line, capability_line, exists_line,
    fetch_line, list_line, no_line, ok_completed_line, recent_line, select_lines, select_ok_line,
};
use crate::session::{legal, legal_in, session_wf, Session, SessionState, SessionView};
use crate::store::{
    find_mb, glob_match, has_cred, matches_pattern, MailStore, MailboxInfoView, StoreView,
};
use crate::text::{append_str, append_u32, bytes_of, clone_bytes, crlf, dec_digits};

/// What the connection loop does after a command: carry on, ignore an
/// empty line, or close the connection.
#[derive(Clone, Copy, Debug, PartialEq, Eq, Structural)]
pub enum CommandOutcome {
    Continue,
    NoOp,
    Terminate,
}

/// One command's reply: the bytes to write and the outcome.
#[derive(Debug)]
pub struct Reply {
    pub bytes: Vec<u8>,
    pub outcome: CommandOutcome,
}

/// The canonical name of a command variant, as failure lines echo it.
pub open spec fn verb_name(b: BodyView) -> Seq<u8> {
    match b {
        BodyView::Noop => bytes_of("NOOP"),
        BodyView::Capability => bytes_of("CAPABILITY"),
        BodyView::Logout => bytes_of("LOGOUT"),
        BodyView::Login { .. } => bytes_of("LOGIN"),
        BodyView::List { .. } => bytes_of("LIST"),
        BodyView::Select { .. } => bytes_of("SELECT"),
        BodyView::Search { .. } => bytes_of("SEARCH"),
        BodyView::Fetch { .. } => bytes_of("FETCH"),
        BodyView::Unsupported { verb } => verb,
    }
}

/// The number a sequence-set address resolves to: itself, or the
/// mailbox's highest number for `*`.
pub open spec fn entry_val(e: SeqEntry, max: u32) -> u32 {
    match e {
        SeqEntry::Num(k) => k,
        SeqEntry::Star => max,
    }
}

/// Whether one sequence-set element covers message number `n`; a range is
/// inclusive on both ends, whichever way round it is written.
pub open spec fn elem_covers(e: Sequence, n: u32, max: u32) -> bool {
    match e {
        Sequence::Single(a) => entry_val(a, max) == n,
        Sequence::Range(a, b) => {
            let x = entry_val(a, max);
            let y = entry_val(b, max);
            (x <= n && n <= y) || (y <= n && n <= x)
        },
    }
}

/// Whether any element of the sequence set covers `n`.
pub open spec fn set_covers(s: Seq<Sequence>, n: u32, max: u32) -> bool {
    exists|i: int| 0 <= i < s.len() && elem_covers(#[trigger] s[i], n, max)
}

/// The item list a FETCH request stands for, with the macros resolved to
/// their defined item sets.
pub open spec fn resolve_attrs(it: FetchItemsView) -> Seq<FetchAttr> {
    match it {
        FetchItemsView::Macros(FetchMacro::All) => seq![
            FetchAttr::Flags,
            FetchAttr::InternalDate,
            FetchAttr::Rfc822Size,
            FetchAttr::Envelope,
        ],
        FetchItemsView::Macros(FetchMacro::Fast) => seq![
            FetchAttr::Flags,
            FetchAttr::InternalDate,
            FetchAttr::Rfc822Size,
        ],
        FetchItemsView::Macros(FetchMacro::Full) => seq![
            FetchAttr::Flags,
            FetchAttr::InternalDate,
            FetchAttr::Rfc822Size,
            FetchAttr::Envelope,
            FetchAttr::Body,
        ],
        FetchItemsView::Names(l) => l,
    }
}

/// The item kinds this server resolves.
pub open spec fn attr_supported(a: FetchAttr) -> bool {
    match a {
        FetchAttr::Envelope => true,
        FetchAttr::Flags => true,
        FetchAttr::InternalDate => true,
        FetchAttr::Rfc822Size => true,
        FetchAttr::Uid => true,
        _ => false,
    }
}

/// Every requested item kind is one this server resolves.
pub open spec fn all_supported(l: Seq<FetchAttr>) -> bool {
    forall|i: int| 0 <= i < l.len() ==> attr_supported(#[trigger] l[i])
}

/// The highest number in use in the mailbox: its message count, or, under
/// a UID command, its highest assigned UID.
pub open spec fn fetch_bound(mb: MailboxInfoView, uid: bool) -> u32 {
    if uid {
        if mb.uid_next > 0 {
            (mb.uid_next - 1) as u32
        } else {
            0
        }
    } else {
        mb.exists
    }
}

/// The untagged FETCH lines for the covered numbers among `1..=k`, in
/// ascending order.
pub open spec fn fetch_lines_upto(set: Seq<Sequence>, attrs: Seq<FetchAttr>, max: u32, k: int) -> Seq<
    u8,
>
    decreases k,
{
    if k <= 0 {
        Seq::empty()
    } else {
        fetch_lines_upto(set, attrs, max, k - 1) + (if set_covers(set, k as u32, max) {
            fetch_line(k as u32, attrs)
        } else {
            Seq::empty()
        })
    }
}

/// The ` <n>` renderings of the numbers `1..=k`, in ascending order.
pub open spec fn search_hits(k: int) -> Seq<u8>
    decreases k,
{
    if k <= 0 {
        Seq::empty()
    } else {
        search_hits(k - 1) + seq![32u8] + dec_digits(k as nat)
    }
}

/// The untagged SEARCH result line: `ALL` matches every message, any
/// other criteria none (a placeholder pending a real backend).
pub open spec fn search_line_for(criteria: Seq<u8>, max: u32) -> Seq<u8> {
    bytes_of("* SEARCH") + (if upper_seq(criteria) == bytes_of("ALL") {
        search_hits(max as int)
    } else {
        Seq::empty()
    }) + crlf()
}

/// The untagged LIST lines for the mailboxes among the first `k` whose
/// name matches the pattern, in the store's order.
pub open spec fn list_lines_upto(ms: Seq<MailboxInfoView>, pat: Seq<u8>, k: int) -> Seq<u8>
    decreases k,
{
    if k <= 0 {
        Seq::empty()
    } else {
        list_lines_upto(ms, pat, k - 1) + (if glob_match(pat, ms[k - 1].name) {
            list_line(ms[k - 1])
        } else {
            Seq::empty()
        })
    }
}

/// The mailbox the session has selected, if the store still holds it.
pub open spec fn sel_mb(s: SessionView, st: StoreView) -> Option<MailboxInfoView> {
    match s.selected {
        Some(name) => find_mb(st.mailboxes, name),
        None => None,
    }
}

/// The untagged status lines NOOP emits: the selected mailbox's counts,
/// or nothing outside the Selected state.
pub open spec fn noop_status(s: SessionView, st: StoreView) -> Seq<u8> {
    match sel_mb(s, st) {
        Some(mb) => exists_line(mb.exists) + recent_line(mb.recent),
        None => Seq::empty(),
    }
}

/// The session state after a command: LOGIN with accepted credentials
/// authenticates, SELECT of a held mailbox selects it (replacing any
/// prior selection atomically), LOGOUT clears the session, everything
/// else — and every illegal or failed command — leaves the state
/// unchanged.
pub open spec fn spec_next_state(s: SessionView, st: StoreView, c: CommandView) -> SessionView {
    if !legal_in(s.state, c.body) {
        s
    } else {
        match c.body {
            BodyView::Login { username, password } => if has_cred(st, username, password) {
                SessionView { state: SessionState::Authenticated, selected: None }
            } else {
                s
            },
            BodyView::Select { mailbox } => if find_mb(st.mailboxes, mailbox) is Some {
                SessionView { state: SessionState::Selected, selected: Some(mailbox) }
            } else {
                s
            },
            BodyView::Logout => SessionView {
                state: SessionState::NotAuthenticated,
                selected: None,
            },
            _ => s,
        }
    }
}

/// The outcome of a command: a legal LOGOUT closes the connection,
/// everything else carries on.
pub open spec fn spec_outcome(s: SessionView, c: CommandView) -> CommandOutcome {
    if legal_in(s.state, c.body) && c.body is Logout {
        CommandOutcome::Terminate
    } else {
        CommandOutcome::Continue
    }
}

/// The full wire reply to a command: a tagged BAD for a command illegal
/// in the current state, otherwise the handler's untagged lines and one
/// tagged completion.
pub open spec fn spec_reply(s: SessionView, st: StoreView, c: CommandView) -> Seq<u8> {
    if !legal_in(s.state, c.body) {
        bad_line(c.tag, verb_name(c.body))
    } else {
        match c.body {
            BodyView::Noop => noop_status(s, st) + ok_completed_line(c.tag, bytes_of("NOOP")),
            BodyView::Capability => capability_line() + ok_completed_line(
                c.tag,
                bytes_of("CAPABILITY"),
            ),
            BodyView::Logout => bye_line() + ok_completed_line(c.tag, bytes_of("LOGOUT")),
            BodyView::Login { username, password } => if has_cred(st, username, password) {
                ok_completed_line(c.tag, bytes_of("LOGIN"))
            } else {
                no_line(c.tag, bytes_of("LOGIN"))
            },
            BodyView::List { reference, wildcard } => list_lines_upto(
                st.mailboxes,
                reference + wildcard,
                st.mailboxes.len() as int,
            ) + ok_completed_line(c.tag, bytes_of("LIST")),
            BodyView::Select { mailbox } => match find_mb(st.mailboxes, mailbox) {
                Some(mb) => select_lines(mb) + select_ok_line(c.tag),
                None => no_line(c.tag, bytes_of("SELECT")),
            },
            BodyView::Search { charset, criteria, uid } => match sel_mb(s, st) {
                Some(mb) => search_line_for(criteria, fetch_bound(mb, uid)) + ok_completed_line(
                    c.tag,
                    bytes_of("SEARCH"),
                ),
                None => no_line(c.tag, bytes_of("SEARCH")),
            },
            BodyView::Fetch { seq_set, items, uid } => match sel_mb(s, st) {
                Some(mb) => if all_supported(resolve_attrs(items)) {
                    fetch_lines_upto(
                        seq_set,
                        resolve_attrs(items),
                        fetch_bound(mb, uid),
                        fetch_bound(mb, uid) as int,
                    ) + ok_completed_line(c.tag, bytes_of("FETCH"))
                } else {
                    bad_line(c.tag, bytes_of("FETCH"))
                },
                None => no_line(c.tag, bytes_of("FETCH")),
            },
            BodyView::Unsupported { verb } => bad_line(c.tag, verb),
        }
    }
}

/// Appends the tagged BAD line that names the command.
fn append_bad_for(out: &mut Vec<u8>, tag: &[u8], b: &CommandBody)
    ensures
        final(out)@ == old(out)@ + bad_line(tag@, verb_name(b@)),
{
    match b {
        CommandBody::Noop => append_bad(out, tag, "NOOP"),
        CommandBody::Capability => append_bad(out, tag, "CAPABILITY"),
        CommandBody::Logout => append_bad(out, tag, "LOGOUT"),
        CommandBody::Login { .. } => append_bad(out, tag, "LOGIN"),
        CommandBody::List { .. } => append_bad(out, tag, "LIST"),
        CommandBody::Select { .. } => append_bad(out, tag, "SELECT"),
        CommandBody::Search { .. } => append_bad(out, tag, "SEARCH"),
        CommandBody::Fetch { .. } => append_bad(out, tag, "FETCH"),
        CommandBody::Unsupported { verb } => crate::respond::append_bad_name(
            out,
            tag,
            verb.as_slice(),
        ),
    }
}

/// Decides `entry_val`.
fn entry_val_x(e: SeqEntry, max: u32) -> (r: u32)
    ensures
        r == entry_val(e, max),
{
    match e {
        SeqEntry::Num(k) => k,
        SeqEntry::Star => max,
    }
}

/// Decides `elem_covers`.
fn elem_covers_x(e: Sequence, n: u32, max: u32) -> (r: bool)
    ensures
        r == elem_covers(e, n, max),
{
    match e {
        Sequence::Single(a) => entry_val_x(a, max) == n,
        Sequence::Range(a, b) => {
            let x = entry_val_x(a, max);
            let y = entry_val_x(b, max);
            (x <= n && n <= y) || (y <= n && n <= x)
        },
    }
}

/// Decides `set_covers`.
fn set_covers_x(v: &Vec<Sequence>, n: u32, max: u32) -> (r: bool)
    ensures
        r == set_covers(v@, n, max),
{
    let mut i: usize = 0;
    while i < v.len()
        invariant
            i <= v@.len(),
            forall|j: int| 0 <= j < i ==> !elem_covers(#[trigger] v@[j], n, max),
        decreases v@.len() - i,
    {
        if elem_covers_x(v[i], n, max) {
            return true;
        }
        i = i + 1;
    }
    false
}

/// Resolves a FETCH item request to its item list.
fn resolve_attrs_x(it: &FetchItems) -> (r: Vec<FetchAttr>)
    ensures
        r@ == resolve_attrs(it@),
{
    let mut v: Vec<FetchAttr> = Vec::new();
    match it {
        FetchItems::Macros(FetchMacro::All) => {
            v.push(FetchAttr::Flags);
            v.push(FetchAttr::InternalDate);
            v.push(FetchAttr::Rfc822Size);
            v.push(FetchAttr::Envelope);
            proof {
                assert(v@ =~= resolve_attrs(it@));
            }
        },
        FetchItems::Macros(FetchMacro::Fast) => {
            v.push(FetchAttr::Flags);
            v.push(FetchAttr::InternalDate);
            v.push(FetchAttr::Rfc822Size);
            proof {
                assert(v@ =~= resolve_attrs(it@));
            }
        },
        FetchItems::Macros(FetchMacro::Full) => {
            v.push(FetchAttr::Flags);
            v.push(FetchAttr::InternalDate);
            v.push(FetchAttr::Rfc822Size);
            v.push(FetchAttr::Envelope);
            v.push(FetchAttr::Body);
            proof {
                assert(v@ =~= resolve_attrs(it@));
            }
        },
        FetchItems::Names(l) => {
            let mut i: usize = 0;
            while i < l.len()
                invariant
                    i <= l@.len(),
                    v@ == l@.subrange(0, i as int),
                decreases l@.len() - i,
            {
                v.push(l[i]);
                proof {
                    assert(l@.subrange(0, i + 1) =~= l@.subrange(0, i as int).push(l@[i as int]));
                }
                i = i + 1;
            }
            proof {
                assert(l@.subrange(0, l@.len() as int) =~= l@);
            }
        },
    }
    v
}

/// Decides `all_supported`.
fn all_supported_x(l: &Vec<FetchAttr>) -> (r: bool)
    ensures
        r == all_supported(l@),
{
    let mut i: usize = 0;
    while i < l.len()
        invariant
            i <= l@.len(),
            forall|j: int| 0 <= j < i ==> attr_supported(#[trigger] l@[j]),
        decreases l@.len() - i,
    {
        let ok = match l[i] {
            FetchAttr::Envelope => true,
            FetchAttr::Flags => true,
            FetchAttr::InternalDate => true,
            FetchAttr::Rfc822Size => true,
            FetchAttr::Uid => true,
            _ => false,
        };
        if !ok {
            return false;
        }
        i = i + 1;
    }
    true
}

/// NOOP: emits the selected mailbox's pending counts, if any, and
/// completes OK; never changes state.
pub fn handle_noop(session: &Session, store: &MailStore, tag: &[u8]) -> (out: Vec<u8>)
    ensures
        out@ == noop_status(session@, store@) + ok_completed_line(tag@, bytes_of("NOOP")),
{
    let mut out: Vec<u8> = Vec::new();
    match &session.selected_mailbox {
        Some(name) => match store.lookup_mailbox(name.as_slice()) {
            Some(i) => {
                let mb = &store.mailboxes[i];
                append_counts(&mut out, mb.exists, mb.recent);
            },
            None => (),
        },
        None => (),
    }
    append_ok_completed(&mut out, tag, "NOOP");
    proof {
        assert(out@ =~= noop_status(session@, store@) + ok_completed_line(tag@, bytes_of("NOOP")));
    }
    out
}

/// CAPABILITY: one untagged capability list, then OK.
pub fn handle_capability(tag: &[u8]) -> (out: Vec<u8>)
    ensures
        out@ == capability_line() + ok_completed_line(tag@, bytes_of("CAPABILITY")),
{
    let mut out: Vec<u8> = Vec::new();
    append_str(&mut out, "* CAPABILITY IMAP4rev1 STARTTLS");
    crate::text::append_crlf(&mut out);
    append_ok_completed(&mut out, tag, "CAPABILITY");
    proof {
        assert(out@ =~= capability_line() + ok_completed_line(tag@, bytes_of("CAPABILITY")));
    }
    out
}

/// LOGOUT: an untagged BYE, OK, and the session cleared.
pub fn handle_logout(session: &mut Session, tag: &[u8]) -> (out: Vec<u8>)
    ensures
        final(session)@.state is NotAuthenticated && final(session)@.selected is None,
        out@ == bye_line() + ok_completed_line(tag@, bytes_of("LOGOUT")),
{
    session.state = SessionState::NotAuthenticated;
    session.selected_mailbox = None;
    let mut out: Vec<u8> = Vec::new();
    append_str(&mut out, "* BYE IMAP4rev1 Server logging out");
    crate::text::append_crlf(&mut out);
    append_ok_completed(&mut out, tag, "LOGOUT");
    proof {
        assert(out@ =~= bye_line() + ok_completed_line(tag@, bytes_of("LOGOUT")));
    }
    out
}

/// LOGIN: on accepted credentials, authenticates and completes OK; on
/// rejected ones, completes NO and changes nothing. The password is never
/// echoed.
pub fn handle_login(
    session: &mut Session,
    store: &MailStore,
    tag: &[u8],
    username: &[u8],
    password: &[u8],
) -> (out: Vec<u8>)
    ensures
        has_cred(store@, username@, password@) ==> final(session)@ == (SessionView {
            state: SessionState::Authenticated,
            selected: None,
        }) && out@ == ok_completed_line(tag@, bytes_of("LOGIN")),
        !has_cred(store@, username@, password@) ==> final(session)@ == old(session)@ && out@
            == no_line(tag@, bytes_of("LOGIN")),
{
    let mut out: Vec<u8> = Vec::new();
    if store.verify_login(username, password) {
        session.state = SessionState::Authenticated;
        session.selected_mailbox = None;
        append_ok_completed(&mut out, tag, "LOGIN");
    } else {
        append_no(&mut out, tag, "LOGIN");
    }
    out
}

/// SELECT: on a held mailbox, emits its status lines, selects it
/// (clearing any prior selection in the same step) and completes OK
/// tagged `[READ-WRITE]`; on an unknown mailbox, completes NO and changes
/// nothing.
pub fn handle_select(
    session: &mut Session,
    store: &MailStore,
    tag: &[u8],
    mailbox: &[u8],
) -> (out: Vec<u8>)
    ensures
        find_mb(store@.mailboxes, mailbox@) matches Some(mb) ==> final(session)@ == (SessionView {
            state: SessionState::Selected,
            selected: Some(mailbox@),
        }) && out@ == select_lines(mb) + select_ok_line(tag@),
        find_mb(store@.mailboxes, mailbox@) is None ==> final(session)@ == old(session)@ && out@
            == no_line(tag@, bytes_of("SELECT")),
{
    let mut out: Vec<u8> = Vec::new();
    match store.lookup_mailbox(mailbox) {
        Some(i) => {
            let mb = &store.mailboxes[i];
            append_select_lines(&mut out, mb);
            append_select_ok(&mut out, tag);
            session.state = SessionState::Selected;
            session.selected_mailbox = Some(clone_bytes(mailbox));
        },
        None => {
            append_no(&mut out, tag, "SELECT");
        },
    }
    out
}

/// LIST: one untagged LIST line per mailbox matching the concatenation
/// of reference and pattern, in store order, then OK.
pub fn handle_list(
    store: &MailStore,
    tag: &[u8],
    reference: &[u8],
    wildcard: &[u8],
) -> (out: Vec<u8>)
    ensures
        out@ == list_lines_upto(
            store@.mailboxes,
            reference@ + wildcard@,
            store@.mailboxes.len() as int,
        ) + ok_completed_line(tag@, bytes_of("LIST")),
{
    let mut pat = clone_bytes(reference);
    crate::text::append_bytes(&mut pat, wildcard);
    let mut out: Vec<u8> = Vec::new();
    let n = store.mailboxes.len();
    let mut i: usize = 0;
    while i < n
        invariant
            i <= n,
            n == store@.mailboxes.len(),
            n == store.mailboxes@.len(),
            pat@ == reference@ + wildcard@,
            out@ == list_lines_upto(store@.mailboxes, pat@, i as int),
        decreases n - i,
    {
        let mb = &store.mailboxes[i];
        if matches_pattern(pat.as_slice(), mb.name.as_slice()) {
            append_list_line(&mut out, mb);
        }
        i = i + 1;
    }
    append_ok_completed(&mut out, tag, "LIST");
    out
}

/// SEARCH: one untagged result line evaluated against the selected
/// mailbox, then OK; NO if the selected mailbox is no longer held.
pub fn handle_search(
    session: &Session,
    store: &MailStore,
    tag: &[u8],
    criteria: &[u8],
    uid: bool,
) -> (out: Vec<u8>)
    requires
        session@.selected is Some,
    ensures
        out@ == (match sel_mb(session@, store@) {
            Some(mb) => search_line_for(criteria@, fetch_bound(mb, uid)) + ok_completed_line(
                tag@,
                bytes_of("SEARCH"),
            ),
            None => no_line(tag@, bytes_of("SEARCH")),
        }),
{
    let mut out: Vec<u8> = Vec::new();
    let name = match &session.selected_mailbox {
        Some(name) => name,
        None => {
            proof {
                assert(false);
            }
            return out;
        },
    };
    match store.lookup_mailbox(name.as_slice()) {
        None => {
            append_no(&mut out, tag, "SEARCH");
        },
        Some(ix) => {
            let mb = &store.mailboxes[ix];
            let max = if uid {
                if mb.uid_next > 0 {
                    mb.uid_next - 1
                } else {
                    0
                }
            } else {
                mb.exists
            };
            append_str(&mut out, "* SEARCH");
            proof {
                assert(criteria@.subrange(0, criteria@.len() as int) =~= criteria@);
            }
            if token_upper_eq(criteria, 0, criteria.len(), "ALL") {
                let mut k: u64 = 1;
                while k <= max as u64
                    invariant
                        1 <= k <= max as u64 + 1,
                        out@ == bytes_of("* SEARCH") + search_hits(k - 1),
                    decreases max as u64 - k + 1,
                {
                    out.push(32);
                    append_u32(&mut out, k as u32);
                    proof {
                        assert((bytes_of("* SEARCH") + search_hits(k - 1)).push(32u8) + dec_digits(
                            k as nat,
                        ) =~= bytes_of("* SEARCH") + search_hits(k as int));
                    }
                    k = k + 1;
                }
            }
            crate::text::append_crlf(&mut out);
            append_ok_completed(&mut out, tag, "SEARCH");
            proof {
                assert(out@ =~= search_line_for(criteria@, fetch_bound(mb@, uid))
                    + ok_completed_line(tag@, bytes_of("SEARCH")));
            }
        },
    }
    out
}

/// FETCH: one untagged FETCH line, in ascending order, for every message
/// number the sequence set covers within the mailbox's bound, carrying
/// exactly the requested items; BAD when an item kind is not resolvable,
/// NO if the selected mailbox is no longer held.
pub fn handle_fetch(
    session: &Session,
    store: &MailStore,
    tag: &[u8],
    seq_set: &Vec<Sequence>,
    items: &FetchItems,
    uid: bool,
) -> (out: Vec<u8>)
    requires
        session@.selected is Some,
    ensures
        out@ == (match sel_mb(session@, store@) {
            Some(mb) => if all_supported(resolve_attrs(items@)) {
                fetch_lines_upto(
                    seq_set@,
                    resolve_attrs(items@),
                    fetch_bound(mb, uid),
                    fetch_bound(mb, uid) as int,
                ) + ok_completed_line(tag@, bytes_of("FETCH"))
            } else {
                bad_line(tag@, bytes_of("FETCH"))
            },
            None => no_line(tag@, bytes_of("FETCH")),
        }),
{
    let mut out: Vec<u8> = Vec::new();
    let name = match &session.selected_mailbox {
        Some(name) => name,
        None => {
            proof {
                assert(false);
            }
            return out;
        },
    };
    match store.lookup_mailbox(name.as_slice()) {
        None => {
            append_no(&mut out, tag, "FETCH");
        },
        Some(ix) => {
            let mb = &store.mailboxes[ix];
            let attrs = resolve_attrs_x(items);
            if !all_supported_x(&attrs) {
                append_bad(&mut out, tag, "FETCH");
            } else {
                let max = if uid {
                    if mb.uid_next > 0 {
                        mb.uid_next - 1
                    } else {
                        0
                    }
                } else {
                    mb.exists
                };
                let mut k: u64 = 1;
                while k <= max as u64
                    invariant
                        1 <= k <= max as u64 + 1,
                        attrs@ == resolve_attrs(items@),
                        out@ == fetch_lines_upto(seq_set@, attrs@, max, k - 1),
                    decreases max as u64 - k + 1,
                {
                    if set_covers_x(seq_set, k as u32, max) {
                        append_fetch_line(&mut out, k as u32, &attrs);
                    }
                    proof {
                        assert(out@ =~= fetch_lines_upto(seq_set@, attrs@, max, k as int));
                    }
                    k = k + 1;
                }
                append_ok_completed(&mut out, tag, "FETCH");
            }
        },
    }
    out
}

/// Holds the command against the state table; a command illegal in the
/// current state is answered with a tagged BAD and the state is left
/// unchanged, a legal one is routed to its handler. Returns the wire
/// reply and the connection outcome.
pub fn dispatch(session: &mut Session, store: &MailStore, cmd: &Command) -> (r: Reply)
    requires
        session_wf(old(session)@),
    ensures
        session_wf(final(session)@),
        final(session)@ == spec_next_state(old(session)@, store@, cmd@),
        r.bytes@ == spec_reply(old(session)@, store@, cmd@),
        r.outcome == spec_outcome(old(session)@, cmd@),
{
    if !legal(session.state, &cmd.body) {
        let mut out: Vec<u8> = Vec::new();
        append_bad_for(&mut out, cmd.tag.as_slice(), &cmd.body);
        return Reply { bytes: out, outcome: CommandOutcome::Continue };
    }
    match &cmd.body {
        CommandBody::Noop => {
            let out = handle_noop(session, store, cmd.tag.as_slice());
            Reply { bytes: out, outcome: CommandOutcome::Continue }
        },
        CommandBody::Capability => {
            let out = handle_capability(cmd.tag.as_slice());
            Reply { bytes: out, outcome: CommandOutcome::Continue }
        },
        CommandBody::Logout => {
            let out = handle_logout(session, cmd.tag.as_slice());
            Reply { bytes: out, outcome: CommandOutcome::Terminate }
        },
        CommandBody::Login { username, password } => {
            let out = handle_login(
                session,
                store,
                cmd.tag.as_slice(),
                username.as_slice(),
                password.as_slice(),
            );
            Reply { bytes: out, outcome: CommandOutcome::Continue }
        },
        CommandBody::Select { mailbox } => {
            let out = handle_select(session, store, cmd.tag.as_slice(), mailbox.as_slice());
            Reply { bytes: out, outcome: CommandOutcome::Continue }
        },
        CommandBody::List { reference, wildcard } => {
            let out = handle_list(store, cmd.tag.as_slice(), reference.as_slice(),
                wildcard.as_slice());
            Reply { bytes: out, outcome: CommandOutcome::Continue }
        },
        CommandBody::Search { charset, criteria, uid } => {
            let out = handle_search(session, store, cmd.tag.as_slice(), criteria.as_slice(), *uid);
            Reply { bytes: out, outcome: CommandOutcome::Continue }
        },
        CommandBody::Fetch { seq_set, items, uid } => {
            let out = handle_fetch(session, store, cmd.tag.as_slice(), seq_set, items, *uid);
            Reply { bytes: out, outcome: CommandOutcome::Continue }
        },
        CommandBody::Unsupported { .. } => {
            proof {
                assert(false);
            }
            Reply { bytes: Vec::new(), outcome: CommandOutcome::Continue }
        },
    }
}

/// A command illegal in the session's current state earns a tagged BAD
/// completion naming the command, and the session state is unchanged.
pub proof fn lemma_illegal_rejected(s: SessionView, st: StoreView, c: CommandView)
    requires
        !legal_in(s.state, c.body),
    ensures
        spec_next_state(s, st, c) == s,
        spec_reply(s, st, c) == bad_line(c.tag, verb_name(c.body)),
        spec_outcome(s, c) == CommandOutcome::Continue,
{
}

/// LOGIN with accepted credentials authenticates exactly once: it moves
/// the session from NotAuthenticated to Authenticated, and a second
/// LOGIN, now illegal in the Authenticated state, is rejected with a
/// tagged BAD and changes nothing.
pub proof fn lemma_login_once(s: SessionView, st: StoreView, c1: CommandView, c2: CommandView)
    requires
        s.state is NotAuthenticated,
        c1.body matches BodyView::Login { username, password } && has_cred(st, username, password),
        c2.body is Login,
    ensures
        spec_next_state(s, st, c1) == (SessionView {
            state: SessionState::Authenticated,
            selected: None,
        }),
        spec_reply(s, st, c1) == ok_completed_line(c1.tag, crate::text::bytes_of("LOGIN")),
        !legal_in(spec_next_state(s, st, c1).state, c2.body),
        spec_next_state(spec_next_state(s, st, c1), st, c2) == spec_next_state(s, st, c1),
        spec_reply(spec_next_state(s, st, c1), st, c2) == bad_line(c2.tag, verb_name(c2.body)),
{
}

/// SELECT of a held mailbox replaces any prior selection and sets the
/// new one in the same step; SELECT of an unknown mailbox completes NO
/// and leaves both the state and the selected mailbox unchanged.
pub proof fn lemma_select_atomic(s: SessionView, st: StoreView, c: CommandView)
    requires
        session_wf(s),
        s.state is Authenticated || s.state is Selected,
        c.body is Select,
    ensures
        c.body matches BodyView::Select { mailbox } ==> if find_mb(st.mailboxes, mailbox) is Some {
            spec_next_state(s, st, c) == (SessionView {
                state: SessionState::Selected,
                selected: Some(mailbox),
            })
        } else {
            spec_next_state(s, st, c) == s && spec_reply(s, st, c) == no_line(
                c.tag,
                crate::text::bytes_of("SELECT"),
            )
        },
        session_wf(spec_next_state(s, st, c)),
{
}

/// A FETCH range `a:b` addresses exactly the integers between its
/// endpoints, inclusive on both ends; the reply's FETCH lines then come
/// one per covered integer within the mailbox's bound, ascending, by the
/// shape of `fetch_lines_upto`.
pub proof fn lemma_range_covers(a: u32, b: u32, n: u32, max: u32)
    ensures
        set_covers(
            seq![Sequence::Range(SeqEntry::Num(a), SeqEntry::Num(b))],
            n,
            max,
        ) == ((a <= n && n <= b) || (b <= n && n <= a)),
{
    let s = seq![Sequence::Range(SeqEntry::Num(a), SeqEntry::Num(b))];
    if (a <= n && n <= b) || (b <= n && n <= a) {
        assert(elem_covers(s[0], n, max));
    }
}

/// A sequence-set `*` stands for the mailbox's current highest number,
/// never for a literal asterisk: it covers exactly that number.
pub proof fn lemma_star_resolves(n: u32, max: u32)
    ensures
        entry_val(SeqEntry::Star, max) == max,
        set_covers(seq![Sequence::Single(SeqEntry::Star)], n, max) == (n == max),
{
    let s = seq![Sequence::Single(SeqEntry::Star)];
    if n == max {
        assert(elem_covers(s[0], n, max));
    }
}

} // verus!
