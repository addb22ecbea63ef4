//! The response encoder: every status line, tagged completion and data
//! line the server emits, defined as byte-sequence spec functions and
//! rendered by proved builders.
use vstd::prelude::*;

verus! {

use crate::command::FetchAttr;
use crate::store::MailboxInfoView;
use crate::text::{append_str, append_u32, bytes_of, crlf, dec_digits};

/// The greeting written when a connection opens.
pub open spec fn greeting_line() -> Seq<u8> {
    bytes_of("* OK IMAP4rev1 server ready") + crlf()
}

/// A tagged `OK <name> completed` line.
pub open spec fn ok_completed_line(tag: Seq<u8>, name: Seq<u8>) -> Seq<u8> {
    tag + bytes_of(" OK ") + name + bytes_of(" completed") + crlf()
}

/// A tagged `NO <name>` failure line.
pub open spec fn no_line(tag: Seq<u8>, name: Seq<u8>) -> Seq<u8> {
    tag + bytes_of(" NO ") + name + crlf()
}

/// A tagged `BAD <name>` rejection line.
pub open spec fn bad_line(tag: Seq<u8>, name: Seq<u8>) -> Seq<u8> {
    tag + bytes_of(" BAD ") + name + crlf()
}

/// The untagged CAPABILITY data line.
pub open spec fn capability_line() -> Seq<u8> {
    bytes_of("* CAPABILITY IMAP4rev1 STARTTLS") + crlf()
}

/// The untagged BYE line LOGOUT emits.
pub open spec fn bye_line() -> Seq<u8> {
    bytes_of("* BYE IMAP4rev1 Server logging out") + crlf()
}

/// The untagged EXISTS count line.
pub open spec fn exists_line(n: u32) -> Seq<u8> {
    bytes_of("* ") + dec_digits(n as nat) + bytes_of(" EXISTS") + crlf()
}

/// The untagged RECENT count line.
pub open spec fn recent_line(n: u32) -> Seq<u8> {
    bytes_of("* ") + dec_digits(n as nat) + bytes_of(" RECENT") + crlf()
}

/// The untagged UNSEEN status line SELECT emits.
pub open spec fn unseen_line(n: u32) -> Seq<u8> {
    bytes_of("* OK [UNSEEN ") + dec_digits(n as nat) + bytes_of("] Message ") + dec_digits(n as nat)
        + bytes_of(" is first unseen") + crlf()
}

/// The untagged UIDVALIDITY status line SELECT emits.
pub open spec fn uid_validity_line(n: u32) -> Seq<u8> {
    bytes_of("* OK [UIDVALIDITY ") + dec_digits(n as nat) + bytes_of("] UIDs valid") + crlf()
}

/// The untagged UIDNEXT status line SELECT emits.
pub open spec fn uid_next_line(n: u32) -> Seq<u8> {
    bytes_of("* OK [UIDNEXT ") + dec_digits(n as nat) + bytes_of("] Predicted next UID") + crlf()
}

/// The untagged PERMANENTFLAGS status line SELECT emits.
pub open spec fn permanent_flags_line() -> Seq<u8> {
    bytes_of("* OK [PERMANENTFLAGS (\\Answered \\Flagged \\Deleted \\Seen \\Draft)] Limited")
        + crlf()
}

/// The tagged completion of a successful SELECT.
pub open spec fn select_ok_line(tag: Seq<u8>) -> Seq<u8> {
    tag + bytes_of(" OK [READ-WRITE] SELECT completed") + crlf()
}

/// The untagged status lines of a successful SELECT, in order.
pub open spec fn select_lines(mb: MailboxInfoView) -> Seq<u8> {
    exists_line(mb.exists) + recent_line(mb.recent) + unseen_line(mb.unseen) + uid_validity_line(
        mb.uid_validity,
    ) + uid_next_line(mb.uid_next) + permanent_flags_line()
}

/// One untagged LIST data line: attributes, the `/` delimiter, and the
/// quoted mailbox name.
pub open spec fn list_line(mb: MailboxInfoView) -> Seq<u8> {
    bytes_of("* LIST ") + (if mb.noselect {
        bytes_of("(\\Noselect) ")
    } else {
        bytes_of("() ")
    }) + bytes_of("\"/\" \"") + mb.name + bytes_of("\"") + crlf()
}

/// The synthetic envelope data item of message `n`: fixed fields, with
/// the message id echoing the sequence number.
pub open spec fn envelope_data(n: u32) -> Seq<u8> {
    bytes_of(
        "ENVELOPE (\"Mon, 7 Feb 1994 21:52:25 -0800\" \"Imaple is cool!\" ((\"Joe Q. Public\" NIL \"john.q.public\" \"example.com\")) ((\"Joe Q. Public\" NIL \"john.q.public\" \"example.com\")) NIL ((\"Robin Syihab\" NIL \"robin\" \"nu.id\")) NIL NIL NIL \"",
    ) + dec_digits(n as nat) + bytes_of("\")")
}

/// One FETCH data item of message `n`; empty for the item kinds this
/// server does not resolve, which the dispatcher rejects beforehand.
pub open spec fn item_data(a: FetchAttr, n: u32) -> Seq<u8> {
    match a {
        FetchAttr::Envelope => envelope_data(n),
        FetchAttr::Flags => bytes_of("FLAGS ()"),
        FetchAttr::InternalDate => bytes_of("INTERNALDATE \"07-Feb-1994 21:52:25 -0800\""),
        FetchAttr::Rfc822Size => bytes_of("RFC822.SIZE 1337"),
        FetchAttr::Uid => bytes_of("UID ") + dec_digits(n as nat),
        _ => Seq::empty(),
    }
}

/// The space-joined FETCH data items of message `n`, in requested order.
pub open spec fn items_data(l: Seq<FetchAttr>, n: u32) -> Seq<u8>
    decreases l.len(),
{
    if l.len() == 0 {
        Seq::empty()
    } else if l.len() == 1 {
        item_data(l[0], n)
    } else {
        item_data(l[0], n) + seq![32u8] + items_data(l.drop_first(), n)
    }
}

/// One untagged FETCH data line for message `n`.
pub open spec fn fetch_line(n: u32, l: Seq<FetchAttr>) -> Seq<u8> {
    bytes_of("* ") + dec_digits(n as nat) + bytes_of(" FETCH (") + items_data(l, n) + bytes_of(")")
        + crlf()
}

/// Writes the greeting.
pub fn greeting() -> (r: Vec<u8>)
    ensures
        r@ == greeting_line(),
{
    let mut out: Vec<u8> = Vec::new();
    append_str(&mut out, "* OK IMAP4rev1 server ready");
    crate::text::append_crlf(&mut out);
    proof {
        assert(out@ =~= greeting_line());
    }
    out
}

/// Appends a tagged `OK <name> completed` line.
pub fn append_ok_completed(out: &mut Vec<u8>, tag: &[u8], name: &str)
    ensures
        final(out)@ == old(out)@ + ok_completed_line(tag@, bytes_of(name)),
{
    crate::text::append_bytes(out, tag);
    append_str(out, " OK ");
    append_str(out, name);
    append_str(out, " completed");
    crate::text::append_crlf(out);
    proof {
        assert(final(out)@ =~= old(out)@ + ok_completed_line(tag@, bytes_of(name)));
    }
}

/// Appends a tagged `NO <name>` line.
pub fn append_no(out: &mut Vec<u8>, tag: &[u8], name: &str)
    ensures
        final(out)@ == old(out)@ + no_line(tag@, bytes_of(name)),
{
    crate::text::append_bytes(out, tag);
    append_str(out, " NO ");
    append_str(out, name);
    crate::text::append_crlf(out);
    proof {
        assert(final(out)@ =~= old(out)@ + no_line(tag@, bytes_of(name)));
    }
}

/// Appends a tagged `BAD <name>` line.
pub fn append_bad(out: &mut Vec<u8>, tag: &[u8], name: &str)
    ensures
        final(out)@ == old(out)@ + bad_line(tag@, bytes_of(name)),
{
    crate::text::append_bytes(out, tag);
    append_str(out, " BAD ");
    append_str(out, name);
    crate::text::append_crlf(out);
    proof {
        assert(final(out)@ =~= old(out)@ + bad_line(tag@, bytes_of(name)));
    }
}

/// Appends a tagged `BAD <name>` line for a name held as bytes.
pub fn append_bad_name(out: &mut Vec<u8>, tag: &[u8], name: &[u8])
    ensures
        final(out)@ == old(out)@ + bad_line(tag@, name@),
{
    crate::text::append_bytes(out, tag);
    append_str(out, " BAD ");
    crate::text::append_bytes(out, name);
    crate::text::append_crlf(out);
    proof {
        assert(final(out)@ =~= old(out)@ + bad_line(tag@, name@));
    }
}

/// Appends the untagged EXISTS and RECENT count lines.
pub fn append_counts(out: &mut Vec<u8>, exists: u32, recent: u32)
    ensures
        final(out)@ == old(out)@ + exists_line(exists) + recent_line(recent),
{
    append_str(out, "* ");
    append_u32(out, exists);
    append_str(out, " EXISTS");
    crate::text::append_crlf(out);
    append_str(out, "* ");
    append_u32(out, recent);
    append_str(out, " RECENT");
    crate::text::append_crlf(out);
    proof {
        assert(final(out)@ =~= old(out)@ + exists_line(exists) + recent_line(recent));
    }
}

/// Appends every untagged status line of a successful SELECT.
pub fn append_select_lines(out: &mut Vec<u8>, mb: &crate::store::MailboxInfo)
    ensures
        final(out)@ == old(out)@ + select_lines(mb@),
{
    append_counts(out, mb.exists, mb.recent);
    append_str(out, "* OK [UNSEEN ");
    append_u32(out, mb.unseen);
    append_str(out, "] Message ");
    append_u32(out, mb.unseen);
    append_str(out, " is first unseen");
    crate::text::append_crlf(out);
    append_str(out, "* OK [UIDVALIDITY ");
    append_u32(out, mb.uid_validity);
    append_str(out, "] UIDs valid");
    crate::text::append_crlf(out);
    append_str(out, "* OK [UIDNEXT ");
    append_u32(out, mb.uid_next);
    append_str(out, "] Predicted next UID");
    crate::text::append_crlf(out);
    append_str(
        out,
        "* OK [PERMANENTFLAGS (\\Answered \\Flagged \\Deleted \\Seen \\Draft)] Limited",
    );
    crate::text::append_crlf(out);
    proof {
        assert(final(out)@ =~= old(out)@ + select_lines(mb@));
    }
}

/// Appends the tagged completion of a successful SELECT.
pub fn append_select_ok(out: &mut Vec<u8>, tag: &[u8])
    ensures
        final(out)@ == old(out)@ + select_ok_line(tag@),
{
    crate::text::append_bytes(out, tag);
    append_str(out, " OK [READ-WRITE] SELECT completed");
    crate::text::append_crlf(out);
    proof {
        assert(final(out)@ =~= old(out)@ + select_ok_line(tag@));
    }
}

/// Appends one untagged LIST data line.
pub fn append_list_line(out: &mut Vec<u8>, mb: &crate::store::MailboxInfo)
    ensures
        final(out)@ == old(out)@ + list_line(mb@),
{
    append_str(out, "* LIST ");
    if mb.noselect {
        append_str(out, "(\\Noselect) ");
    } else {
        append_str(out, "() ");
    }
    append_str(out, "\"/\" \"");
    crate::text::append_bytes(out, mb.name.as_slice());
    append_str(out, "\"");
    crate::text::append_crlf(out);
    proof {
        assert(final(out)@ =~= old(out)@ + list_line(mb@));
    }
}

/// Appends one FETCH data item of message `n`.
fn append_item_data(out: &mut Vec<u8>, a: FetchAttr, n: u32)
    ensures
        final(out)@ == old(out)@ + item_data(a, n),
{
    match a {
        FetchAttr::Envelope => {
            append_str(
                out,
                "ENVELOPE (\"Mon, 7 Feb 1994 21:52:25 -0800\" \"Imaple is cool!\" ((\"Joe Q. Public\" NIL \"john.q.public\" \"example.com\")) ((\"Joe Q. Public\" NIL \"john.q.public\" \"example.com\")) NIL ((\"Robin Syihab\" NIL \"robin\" \"nu.id\")) NIL NIL NIL \"",
            );
            append_u32(out, n);
            append_str(out, "\")");
            proof {
                assert(final(out)@ =~= old(out)@ + envelope_data(n));
            }
        },
        FetchAttr::Flags => append_str(out, "FLAGS ()"),
        FetchAttr::InternalDate => append_str(
            out,
            "INTERNALDATE \"07-Feb-1994 21:52:25 -0800\"",
        ),
        FetchAttr::Rfc822Size => append_str(out, "RFC822.SIZE 1337"),
        FetchAttr::Uid => {
            append_str(out, "UID ");
            append_u32(out, n);
            proof {
                assert(final(out)@ =~= old(out)@ + item_data(a, n));
            }
        },
        _ => (),
    }
    proof {
        assert(final(out)@ =~= old(out)@ + item_data(a, n));
    }
}

/// Appends the space-joined FETCH data items from index `i`.
fn append_items_data_from(out: &mut Vec<u8>, l: &Vec<FetchAttr>, i: usize, n: u32)
    requires
        i <= l@.len(),
    ensures
        final(out)@ == old(out)@ + items_data(l@.subrange(i as int, l@.len() as int), n),
    decreases l@.len() - i,
{
    let ghost w = l@.subrange(i as int, l@.len() as int);
    if i == l.len() {
        proof {
            assert(old(out)@ + items_data(w, n) =~= old(out)@);
        }
    } else if i + 1 == l.len() {
        append_item_data(out, l[i], n);
        proof {
            assert(w.len() == 1 && w[0] == l@[i as int]);
        }
    } else {
        append_item_data(out, l[i], n);
        out.push(32);
        append_items_data_from(out, l, i + 1, n);
        proof {
            assert(w[0] == l@[i as int] && w.len() >= 2);
            assert(w.drop_first() =~= l@.subrange(i + 1, l@.len() as int));
            assert((old(out)@ + item_data(l@[i as int], n)).push(32u8) =~= old(out)@ + item_data(
                l@[i as int],
                n,
            ) + seq![32u8]);
            assert(old(out)@ + item_data(l@[i as int], n) + seq![32u8] + items_data(
                w.drop_first(),
                n,
            ) =~= old(out)@ + (item_data(w[0], n) + seq![32u8] + items_data(w.drop_first(), n)));
        }
    }
}

/// Appends one untagged FETCH data line for message `n`.
pub fn append_fetch_line(out: &mut Vec<u8>, n: u32, l: &Vec<FetchAttr>)
    ensures
        final(out)@ == old(out)@ + fetch_line(n, l@),
{
    append_str(out, "* ");
    append_u32(out, n);
    append_str(out, " FETCH (");
    append_items_data_from(out, l, 0, n);
    append_str(out, ")");
    crate::text::append_crlf(out);
    proof {
        assert(l@.subrange(0, l@.len() as int) =~= l@);
        assert(final(out)@ =~= old(out)@ + fetch_line(n, l@));
    }
}

} // verus!
