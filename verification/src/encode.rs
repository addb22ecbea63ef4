//! The command encoder: renders a typed command back into one wire line
//! (without its CRLF), in the canonical form the decoder accepts.
use vstd::prelude::*;

verus! {

use crate::command::{
    valid_tag, BodyView, Command, CommandBody, CommandView, FetchAttr, FetchItems, FetchItemsView,
    FetchMacro, SeqEntry, Sequence,
};
use crate::parse::{
    all_quoted_bytes, all_token_bytes, head_token, upper_seq, valid_criteria,
};
use crate::text::{append_bytes, append_crlf, append_str, append_u32, bytes_of, dec_digits};

/// An astring value this encoder can carry: a bare atom, or anything a
/// quoted string may hold.
pub open spec fn astring_encodable(v: Seq<u8>) -> bool {
    (v.len() > 0 && all_token_bytes(v, false)) || all_quoted_bytes(v)
}

/// A LIST pattern this encoder can carry.
pub open spec fn list_encodable(v: Seq<u8>) -> bool {
    (v.len() > 0 && all_token_bytes(v, true)) || all_quoted_bytes(v)
}

/// The canonical encoding of an astring: bare when it is a valid atom,
/// quoted otherwise.
pub open spec fn enc_astring(v: Seq<u8>) -> Seq<u8> {
    if v.len() > 0 && all_token_bytes(v, false) {
        v
    } else {
        seq![34u8] + v + seq![34u8]
    }
}

/// The canonical encoding of a LIST pattern.
pub open spec fn enc_list_token(v: Seq<u8>) -> Seq<u8> {
    if v.len() > 0 && all_token_bytes(v, true) {
        v
    } else {
        seq![34u8] + v + seq![34u8]
    }
}

/// The encoding of one sequence-set address.
pub open spec fn enc_entry(e: SeqEntry) -> Seq<u8> {
    match e {
        SeqEntry::Num(n) => dec_digits(n as nat),
        SeqEntry::Star => seq![42u8],
    }
}

/// The encoding of one sequence-set element.
pub open spec fn enc_elem(e: Sequence) -> Seq<u8> {
    match e {
        Sequence::Single(a) => enc_entry(a),
        Sequence::Range(a, b) => enc_entry(a) + seq![58u8] + enc_entry(b),
    }
}

/// The comma-joined encoding of a sequence set.
pub open spec fn enc_seq_set(s: Seq<Sequence>) -> Seq<u8>
    decreases s.len(),
{
    if s.len() == 0 {
        Seq::empty()
    } else if s.len() == 1 {
        enc_elem(s[0])
    } else {
        enc_elem(s[0]) + seq![44u8] + enc_seq_set(s.drop_first())
    }
}

/// The canonical (upper-case) name of a FETCH item.
pub open spec fn attr_name(a: FetchAttr) -> Seq<u8> {
    match a {
        FetchAttr::Envelope => bytes_of("ENVELOPE"),
        FetchAttr::Flags => bytes_of("FLAGS"),
        FetchAttr::InternalDate => bytes_of("INTERNALDATE"),
        FetchAttr::Rfc822 => bytes_of("RFC822"),
        FetchAttr::Rfc822Header => bytes_of("RFC822.HEADER"),
        FetchAttr::Rfc822Size => bytes_of("RFC822.SIZE"),
        FetchAttr::Rfc822Text => bytes_of("RFC822.TEXT"),
        FetchAttr::Body => bytes_of("BODY"),
        FetchAttr::BodyStructure => bytes_of("BODYSTRUCTURE"),
        FetchAttr::Uid => bytes_of("UID"),
    }
}

/// The space-joined encoding of a FETCH item list.
pub open spec fn enc_attr_list(l: Seq<FetchAttr>) -> Seq<u8>
    decreases l.len(),
{
    if l.len() == 0 {
        Seq::empty()
    } else if l.len() == 1 {
        attr_name(l[0])
    } else {
        attr_name(l[0]) + seq![32u8] + enc_attr_list(l.drop_first())
    }
}

/// The encoding of a FETCH item request.
pub open spec fn enc_items(it: FetchItemsView) -> Seq<u8> {
    match it {
        FetchItemsView::Macros(FetchMacro::All) => bytes_of("ALL"),
        FetchItemsView::Macros(FetchMacro::Fast) => bytes_of("FAST"),
        FetchItemsView::Macros(FetchMacro::Full) => bytes_of("FULL"),
        FetchItemsView::Names(l) => if l.len() == 1 {
            attr_name(l[0])
        } else {
            seq![40u8] + enc_attr_list(l) + seq![41u8]
        },
    }
}

/// The encoding of a command body.
pub open spec fn enc_body(b: BodyView) -> Seq<u8> {
    match b {
        BodyView::Noop => bytes_of("NOOP"),
        BodyView::Capability => bytes_of("CAPABILITY"),
        BodyView::Logout => bytes_of("LOGOUT"),
        BodyView::Login { username, password } => bytes_of("LOGIN ") + enc_astring(username) + seq![
            32u8,
        ] + enc_astring(password),
        BodyView::Select { mailbox } => bytes_of("SELECT ") + enc_astring(mailbox),
        BodyView::List { reference, wildcard } => bytes_of("LIST ") + enc_astring(reference)
            + seq![32u8] + enc_list_token(wildcard),
        BodyView::Search { charset, criteria, uid } => (if uid {
            bytes_of("UID ")
        } else {
            Seq::empty()
        }) + bytes_of("SEARCH ") + (match charset {
            Some(cs) => bytes_of("CHARSET ") + cs + seq![32u8],
            None => Seq::empty(),
        }) + criteria,
        BodyView::Fetch { seq_set, items, uid } => (if uid {
            bytes_of("UID ")
        } else {
            Seq::empty()
        }) + bytes_of("FETCH ") + enc_seq_set(seq_set) + seq![32u8] + enc_items(items),
        BodyView::Unsupported { .. } => Seq::empty(),
    }
}

/// The encoding of a whole command line, without its CRLF.
pub open spec fn enc_command(c: CommandView) -> Seq<u8> {
    c.tag + seq![32u8] + enc_body(c.body)
}

/// A command value the canonical encoding round-trips: a well-formed tag
/// and arguments the grammar can carry.
pub open spec fn valid_command(c: CommandView) -> bool {
    &&& valid_tag(c.tag)
    &&& match c.body {
        BodyView::Noop => true,
        BodyView::Capability => true,
        BodyView::Logout => true,
        BodyView::Login { username, password } => astring_encodable(username)
            && astring_encodable(password),
        BodyView::Select { mailbox } => astring_encodable(mailbox),
        BodyView::List { reference, wildcard } => astring_encodable(reference) && list_encodable(
            wildcard,
        ),
        BodyView::Search { charset, criteria, uid } => {
            &&& valid_criteria(criteria)
            &&& match charset {
                Some(cs) => cs.len() > 0 && all_token_bytes(cs, false),
                None => upper_seq(head_token(criteria)) != bytes_of("CHARSET"),
            }
        },
        BodyView::Fetch { seq_set, items, uid } => {
            &&& seq_set.len() > 0
            &&& forall|i: int| 0 <= i < seq_set.len() ==> valid_elem(#[trigger] seq_set[i])
            &&& match items {
                FetchItemsView::Macros(_) => true,
                FetchItemsView::Names(l) => l.len() > 0,
            }
        },
        BodyView::Unsupported { .. } => false,
    }
}

/// A sequence-set element whose numbers are nonzero, as the grammar
/// demands.
pub open spec fn valid_elem(e: Sequence) -> bool {
    match e {
        Sequence::Single(a) => valid_entry(a),
        Sequence::Range(a, b) => valid_entry(a) && valid_entry(b),
    }
}

/// A sequence-set address whose number, if any, is nonzero.
pub open spec fn valid_entry(e: SeqEntry) -> bool {
    match e {
        SeqEntry::Num(n) => n > 0,
        SeqEntry::Star => true,
    }
}

/// Appends the canonical astring encoding of `v`.
fn append_astring(out: &mut Vec<u8>, v: &Vec<u8>, wild: bool)
    ensures
        final(out)@ == old(out)@ + (if wild {
            enc_list_token(v@)
        } else {
            enc_astring(v@)
        }),
{
    let bare = if v.len() == 0 {
        false
    } else {
        let mut ok = true;
        let mut i: usize = 0;
        while i < v.len()
            invariant
                i <= v@.len(),
                ok == (forall|j: int|
                    0 <= j < i ==> (if wild {
                        crate::command::is_list_byte(#[trigger] v@[j])
                    } else {
                        crate::command::is_atom_byte(v@[j])
                    })),
            decreases v@.len() - i,
        {
            let b = v[i];
            let this_ok = if wild {
                33 <= b && b <= 126 && b != 40 && b != 41 && b != 123 && b != 34 && b != 92
            } else {
                33 <= b && b <= 126 && b != 40 && b != 41 && b != 123 && b != 37 && b != 42 && b
                    != 34 && b != 92 && b != 93
            };
            ok = ok && this_ok;
            i = i + 1;
        }
        ok
    };
    if bare {
        append_bytes(out, v.as_slice());
    } else {
        out.push(34);
        append_bytes(out, v.as_slice());
        out.push(34);
        proof {
            assert(old(out)@.push(34u8) + v@ =~= old(out)@ + (seq![34u8] + v@));
            assert((old(out)@ + (seq![34u8] + v@)).push(34u8) =~= old(out)@ + (seq![34u8] + v@
                + seq![34u8]));
        }
    }
}

/// Appends the encoding of one sequence-set address.
fn append_entry(out: &mut Vec<u8>, e: SeqEntry)
    ensures
        final(out)@ == old(out)@ + enc_entry(e),
{
    match e {
        SeqEntry::Num(n) => append_u32(out, n),
        SeqEntry::Star => {
            out.push(42);
            proof {
                assert(old(out)@.push(42u8) =~= old(out)@ + seq![42u8]);
            }
        },
    }
}

/// Appends the encoding of one sequence-set element.
fn append_elem(out: &mut Vec<u8>, e: Sequence)
    ensures
        final(out)@ == old(out)@ + enc_elem(e),
{
    match e {
        Sequence::Single(a) => append_entry(out, a),
        Sequence::Range(a, b) => {
            append_entry(out, a);
            out.push(58);
            append_entry(out, b);
            proof {
                assert(old(out)@ + enc_entry(a) + seq![58u8] + enc_entry(b) =~= old(out)@ + (
                enc_entry(a) + seq![58u8] + enc_entry(b)));
                assert((old(out)@ + enc_entry(a)).push(58u8) =~= old(out)@ + enc_entry(a) + seq![
                    58u8,
                ]);
            }
        },
    }
}

/// Appends the comma-joined encoding of the sequence set from index `i`.
fn append_seq_set_from(out: &mut Vec<u8>, v: &Vec<Sequence>, i: usize)
    requires
        i <= v@.len(),
    ensures
        final(out)@ == old(out)@ + enc_seq_set(v@.subrange(i as int, v@.len() as int)),
    decreases v@.len() - i,
{
    let ghost w = v@.subrange(i as int, v@.len() as int);
    if i == v.len() {
        proof {
            assert(old(out)@ + enc_seq_set(w) =~= old(out)@);
        }
    } else if i + 1 == v.len() {
        append_elem(out, v[i]);
        proof {
            assert(w.len() == 1 && w[0] == v@[i as int]);
        }
    } else {
        append_elem(out, v[i]);
        out.push(44);
        append_seq_set_from(out, v, i + 1);
        proof {
            assert(w[0] == v@[i as int] && w.len() >= 2);
            assert(w.drop_first() =~= v@.subrange(i + 1, v@.len() as int));
            assert((old(out)@ + enc_elem(v@[i as int])).push(44u8) =~= old(out)@ + enc_elem(
                v@[i as int],
            ) + seq![44u8]);
            assert(old(out)@ + enc_elem(v@[i as int]) + seq![44u8] + enc_seq_set(w.drop_first())
                =~= old(out)@ + (enc_elem(w[0]) + seq![44u8] + enc_seq_set(w.drop_first())));
        }
    }
}

/// Appends the canonical name of a FETCH item.
fn append_attr(out: &mut Vec<u8>, a: FetchAttr)
    ensures
        final(out)@ == old(out)@ + attr_name(a),
{
    match a {
        FetchAttr::Envelope => append_str(out, "ENVELOPE"),
        FetchAttr::Flags => append_str(out, "FLAGS"),
        FetchAttr::InternalDate => append_str(out, "INTERNALDATE"),
        FetchAttr::Rfc822 => append_str(out, "RFC822"),
        FetchAttr::Rfc822Header => append_str(out, "RFC822.HEADER"),
        FetchAttr::Rfc822Size => append_str(out, "RFC822.SIZE"),
        FetchAttr::Rfc822Text => append_str(out, "RFC822.TEXT"),
        FetchAttr::Body => append_str(out, "BODY"),
        FetchAttr::BodyStructure => append_str(out, "BODYSTRUCTURE"),
        FetchAttr::Uid => append_str(out, "UID"),
    }
}

/// Appends the space-joined encoding of the item list from index `i`.
fn append_attr_list_from(out: &mut Vec<u8>, v: &Vec<FetchAttr>, i: usize)
    requires
        i <= v@.len(),
    ensures
        final(out)@ == old(out)@ + enc_attr_list(v@.subrange(i as int, v@.len() as int)),
    decreases v@.len() - i,
{
    let ghost w = v@.subrange(i as int, v@.len() as int);
    if i == v.len() {
        proof {
            assert(old(out)@ + enc_attr_list(w) =~= old(out)@);
        }
    } else if i + 1 == v.len() {
        append_attr(out, v[i]);
        proof {
            assert(w.len() == 1 && w[0] == v@[i as int]);
        }
    } else {
        append_attr(out, v[i]);
        out.push(32);
        append_attr_list_from(out, v, i + 1);
        proof {
            assert(w[0] == v@[i as int] && w.len() >= 2);
            assert(w.drop_first() =~= v@.subrange(i + 1, v@.len() as int));
            assert((old(out)@ + attr_name(v@[i as int])).push(32u8) =~= old(out)@ + attr_name(
                v@[i as int],
            ) + seq![32u8]);
            assert(old(out)@ + attr_name(v@[i as int]) + seq![32u8] + enc_attr_list(w.drop_first())
                =~= old(out)@ + (attr_name(w[0]) + seq![32u8] + enc_attr_list(w.drop_first())));
        }
    }
}

/// Appends the encoding of a FETCH item request.
fn append_items(out: &mut Vec<u8>, it: &FetchItems)
    ensures
        final(out)@ == old(out)@ + enc_items(it@),
{
    match it {
        FetchItems::Macros(FetchMacro::All) => append_str(out, "ALL"),
        FetchItems::Macros(FetchMacro::Fast) => append_str(out, "FAST"),
        FetchItems::Macros(FetchMacro::Full) => append_str(out, "FULL"),
        FetchItems::Names(l) => {
            if l.len() == 1 {
                append_attr(out, l[0]);
                proof {
                    assert(l@.subrange(0, l@.len() as int) =~= l@);
                }
            } else {
                out.push(40);
                append_attr_list_from(out, l, 0);
                out.push(41);
                proof {
                    assert(l@.subrange(0, l@.len() as int) =~= l@);
                    assert(old(out)@.push(40u8) =~= old(out)@ + seq![40u8]);
                    assert((old(out)@ + seq![40u8] + enc_attr_list(l@)).push(41u8) =~= old(out)@ + (
                    seq![40u8] + enc_attr_list(l@) + seq![41u8]));
                }
            }
        },
    }
}

/// Renders a command as one wire line without its CRLF, exactly as
/// `enc_command`.
pub fn encode_command(c: &Command) -> (r: Vec<u8>)
    ensures
        r@ == enc_command(c@),
{
    let mut out: Vec<u8> = Vec::new();
    append_bytes(&mut out, c.tag.as_slice());
    out.push(32);
    proof {
        assert(out@ =~= c.tag@ + seq![32u8]);
    }
    match &c.body {
        CommandBody::Noop => append_str(&mut out, "NOOP"),
        CommandBody::Capability => append_str(&mut out, "CAPABILITY"),
        CommandBody::Logout => append_str(&mut out, "LOGOUT"),
        CommandBody::Login { username, password } => {
            append_str(&mut out, "LOGIN ");
            append_astring(&mut out, username, false);
            out.push(32);
            append_astring(&mut out, password, false);
            proof {
                assert((c.tag@ + seq![32u8] + bytes_of("LOGIN ") + enc_astring(username@)).push(
                    32u8,
                ) =~= c.tag@ + seq![32u8] + bytes_of("LOGIN ") + enc_astring(username@) + seq![
                    32u8,
                ]);
            }
        },
        CommandBody::Select { mailbox } => {
            append_str(&mut out, "SELECT ");
            append_astring(&mut out, mailbox, false);
        },
        CommandBody::List { reference, wildcard } => {
            append_str(&mut out, "LIST ");
            append_astring(&mut out, reference, false);
            out.push(32);
            append_astring(&mut out, wildcard, true);
            proof {
                assert((c.tag@ + seq![32u8] + bytes_of("LIST ") + enc_astring(reference@)).push(
                    32u8,
                ) =~= c.tag@ + seq![32u8] + bytes_of("LIST ") + enc_astring(reference@) + seq![
                    32u8,
                ]);
            }
        },
        CommandBody::Search { charset, criteria, uid } => {
            if *uid {
                append_str(&mut out, "UID ");
            }
            append_str(&mut out, "SEARCH ");
            match charset {
                Some(cs) => {
                    append_str(&mut out, "CHARSET ");
                    append_bytes(&mut out, cs.as_slice());
                    out.push(32);
                },
                None => (),
            }
            append_bytes(&mut out, criteria.as_slice());
        },
        CommandBody::Fetch { seq_set, items, uid } => {
            if *uid {
                append_str(&mut out, "UID ");
            }
            append_str(&mut out, "FETCH ");
            append_seq_set_from(&mut out, seq_set, 0);
            out.push(32);
            append_items(&mut out, items);
            proof {
                assert(seq_set@.subrange(0, seq_set@.len() as int) =~= seq_set@);
            }
        },
        CommandBody::Unsupported { .. } => (),
    }
    proof {
        assert(out@ =~= enc_command(c@));
    }
    out
}

/// Renders a command as a full wire line, CRLF included.
pub fn encode_command_line(c: &Command) -> (r: Vec<u8>)
    ensures
        r@ == enc_command(c@) + crate::text::crlf(),
{
    let mut out = encode_command(c);
    append_crlf(&mut out);
    out
}

} // verus!
