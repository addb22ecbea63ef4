//! The command decoder: the supported IMAP4rev1 command grammar, written as
//! spec functions over byte sequences, and an executable decoder proved to
//! follow them exactly.
use vstd::prelude::*;

verus! {

use crate::command::{
    is_atom_byte, Command, CommandBody, is_digit, is_list_byte, is_quoted_byte, is_text_byte, valid_tag, BodyView,
    CommandView, FetchAttr, FetchItems, FetchItemsView, FetchMacro, SeqEntry, Sequence,
};
use crate::error::DecodeError;
use crate::text::bytes_of;

/// The index of the first occurrence of `b` in `s`, or -1 if none.
pub open spec fn first_of(s: Seq<u8>, b: u8) -> int
    decreases s.len(),
{
    if s.len() == 0 {
        -1
    } else if s[0] == b {
        0
    } else {
        let r = first_of(s.drop_first(), b);
        if r < 0 {
            -1
        } else {
            r + 1
        }
    }
}

/// `first_of` names the least index holding `b`.
pub proof fn lemma_first_of(s: Seq<u8>, b: u8)
    ensures
        first_of(s, b) >= 0 ==> {
            &&& first_of(s, b) < s.len()
            &&& s[first_of(s, b)] == b
            &&& forall|j: int| 0 <= j < first_of(s, b) ==> #[trigger] s[j] != b
        },
        first_of(s, b) < 0 ==> forall|j: int| 0 <= j < s.len() ==> #[trigger] s[j] != b,
    decreases s.len(),
{
    if s.len() == 0 {
    } else if s[0] == b {
    } else {
        let t = s.drop_first();
        lemma_first_of(t, b);
        if first_of(t, b) >= 0 {
            assert forall|j: int| 0 <= j < first_of(s, b) implies #[trigger] s[j] != b by {
                if j > 0 {
                    assert(t[j - 1] == s[j]);
                }
            }
        } else {
            assert forall|j: int| 0 <= j < s.len() implies #[trigger] s[j] != b by {
                if j > 0 {
                    assert(t[j - 1] == s[j]);
                }
            }
        }
    }
}

/// If `i` is an occurrence of `b` with none before it, it is the first.
pub proof fn lemma_first_of_is(s: Seq<u8>, b: u8, i: int)
    requires
        0 <= i < s.len(),
        s[i] == b,
        forall|j: int| 0 <= j < i ==> #[trigger] s[j] != b,
    ensures
        first_of(s, b) == i,
{
    lemma_first_of(s, b);
    if first_of(s, b) < 0 {
        assert(s[i] != b);
    } else if first_of(s, b) < i {
        assert(s[first_of(s, b)] != b);
    } else if first_of(s, b) > i {
        assert(s[i] != b);
    }
}

/// If `b` does not occur, `first_of` is negative.
pub proof fn lemma_first_of_none(s: Seq<u8>, b: u8)
    requires
        forall|j: int| 0 <= j < s.len() ==> #[trigger] s[j] != b,
    ensures
        first_of(s, b) < 0,
{
    lemma_first_of(s, b);
    if first_of(s, b) >= 0 {
        assert(s[first_of(s, b)] != b);
    }
}

/// The bytes before the first space, or all of `s` when it has none.
pub open spec fn head_token(s: Seq<u8>) -> Seq<u8> {
    if first_of(s, 32) < 0 {
        s
    } else {
        s.subrange(0, first_of(s, 32))
    }
}

/// The bytes after the first space, or `None` when `s` has none.
pub open spec fn rest_after(s: Seq<u8>) -> Option<Seq<u8>> {
    if first_of(s, 32) < 0 {
        None
    } else {
        Some(s.subrange(first_of(s, 32) + 1, s.len() as int))
    }
}

/// ASCII upper-casing of one byte.
pub open spec fn upper(b: u8) -> u8 {
    if 97 <= b <= 122 {
        (b - 32) as u8
    } else {
        b
    }
}

/// ASCII upper-casing of a byte sequence.
pub open spec fn upper_seq(s: Seq<u8>) -> Seq<u8> {
    s.map_values(|b: u8| upper(b))
}

/// Every byte of `s` may stand in an atom (or, with `wild`, a LIST pattern).
pub open spec fn all_token_bytes(s: Seq<u8>, wild: bool) -> bool {
    forall|i: int|
        0 <= i < s.len() ==> (if wild {
            is_list_byte(#[trigger] s[i])
        } else {
            is_atom_byte(s[i])
        })
}

/// Every byte of `s` may stand inside a quoted string.
pub open spec fn all_quoted_bytes(s: Seq<u8>) -> bool {
    forall|i: int| 0 <= i < s.len() ==> is_quoted_byte(#[trigger] s[i])
}

/// Every byte of `s` is a decimal digit.
pub open spec fn all_digits(s: Seq<u8>) -> bool {
    forall|i: int| 0 <= i < s.len() ==> is_digit(#[trigger] s[i])
}

/// Acceptable SEARCH criteria: nonempty printable text.
pub open spec fn valid_criteria(s: Seq<u8>) -> bool {
    s.len() > 0 && forall|i: int| 0 <= i < s.len() ==> is_text_byte(#[trigger] s[i])
}

/// One astring argument at the head of `t`: a quoted string (no escapes)
/// or a bare atom; yields the value and everything after it, which is
/// either empty or begins with the separating space.
pub open spec fn parse_astring(t: Seq<u8>, wild: bool) -> Option<(Seq<u8>, Seq<u8>)> {
    if t.len() == 0 {
        None
    } else if t[0] == 34 {
        let j = first_of(t.subrange(1, t.len() as int), 34);
        if j < 0 {
            None
        } else {
            let v = t.subrange(1, 1 + j);
            if all_quoted_bytes(v) {
                Some((v, t.subrange(j + 2, t.len() as int)))
            } else {
                None
            }
        }
    } else {
        let tok = head_token(t);
        if tok.len() > 0 && all_token_bytes(tok, wild) {
            Some((tok, t.subrange(tok.len() as int, t.len() as int)))
        } else {
            None
        }
    }
}

/// The numeric value of a digit string, most significant digit first.
pub open spec fn digits_val(s: Seq<u8>) -> int
    decreases s.len(),
{
    if s.len() == 0 {
        0
    } else {
        digits_val(s.drop_last()) * 10 + (s.last() - 48)
    }
}

/// A nonzero decimal number without a superfluous leading zero, in `u32`
/// range.
pub open spec fn spec_parse_num(s: Seq<u8>) -> Option<u32> {
    if s.len() > 0 && all_digits(s) && (s.len() == 1 || s[0] != 48) && 0 < digits_val(s)
        && digits_val(s) <= u32::MAX {
        Some(digits_val(s) as u32)
    } else {
        None
    }
}

/// A single sequence-set address: `*` or a nonzero number.
pub open spec fn spec_parse_entry(s: Seq<u8>) -> Option<SeqEntry> {
    if s.len() == 1 && s[0] == 42 {
        Some(SeqEntry::Star)
    } else {
        match spec_parse_num(s) {
            Some(n) => Some(SeqEntry::Num(n)),
            None => None,
        }
    }
}

/// A sequence-set element: an address, or a colon-separated inclusive range.
pub open spec fn spec_parse_seq_elem(s: Seq<u8>) -> Option<Sequence> {
    let i = first_of(s, 58);
    if i < 0 {
        match spec_parse_entry(s) {
            Some(e) => Some(Sequence::Single(e)),
            None => None,
        }
    } else {
        match spec_parse_entry(s.subrange(0, i)) {
            Some(a) => match spec_parse_entry(s.subrange(i + 1, s.len() as int)) {
                Some(b) => Some(Sequence::Range(a, b)),
                None => None,
            },
            None => None,
        }
    }
}

/// A comma-separated, nonempty sequence set.
pub open spec fn spec_parse_seq_set(s: Seq<u8>) -> Option<Seq<Sequence>>
    decreases s.len(),
    via spec_parse_seq_set_decreases
{
    if s.len() == 0 {
        None
    } else {
        let i = first_of(s, 44);
        if i < 0 {
            match spec_parse_seq_elem(s) {
                Some(e) => Some(seq![e]),
                None => None,
            }
        } else {
            match spec_parse_seq_elem(s.subrange(0, i)) {
                Some(e) => match spec_parse_seq_set(s.subrange(i + 1, s.len() as int)) {
                    Some(r) => Some(seq![e] + r),
                    None => None,
                },
                None => None,
            }
        }
    }
}

#[via_fn]
proof fn spec_parse_seq_set_decreases(s: Seq<u8>) {
    lemma_first_of(s, 44);
}

/// One FETCH item name, matched case-insensitively.
pub open spec fn spec_attr(s: Seq<u8>) -> Option<FetchAttr> {
    let u = upper_seq(s);
    if u == bytes_of("ENVELOPE") {
        Some(FetchAttr::Envelope)
    } else if u == bytes_of("FLAGS") {
        Some(FetchAttr::Flags)
    } else if u == bytes_of("INTERNALDATE") {
        Some(FetchAttr::InternalDate)
    } else if u == bytes_of("RFC822") {
        Some(FetchAttr::Rfc822)
    } else if u == bytes_of("RFC822.HEADER") {
        Some(FetchAttr::Rfc822Header)
    } else if u == bytes_of("RFC822.SIZE") {
        Some(FetchAttr::Rfc822Size)
    } else if u == bytes_of("RFC822.TEXT") {
        Some(FetchAttr::Rfc822Text)
    } else if u == bytes_of("BODY") {
        Some(FetchAttr::Body)
    } else if u == bytes_of("BODYSTRUCTURE") {
        Some(FetchAttr::BodyStructure)
    } else if u == bytes_of("UID") {
        Some(FetchAttr::Uid)
    } else {
        None
    }
}

/// A space-separated, nonempty list of FETCH item names.
pub open spec fn spec_parse_attr_list(s: Seq<u8>) -> Option<Seq<FetchAttr>>
    decreases s.len(),
    via spec_parse_attr_list_decreases
{
    if s.len() == 0 {
        None
    } else {
        let i = first_of(s, 32);
        if i < 0 {
            match spec_attr(s) {
                Some(a) => Some(seq![a]),
                None => None,
            }
        } else {
            match spec_attr(s.subrange(0, i)) {
                Some(a) => match spec_parse_attr_list(s.subrange(i + 1, s.len() as int)) {
                    Some(r) => Some(seq![a] + r),
                    None => None,
                },
                None => None,
            }
        }
    }
}

#[via_fn]
proof fn spec_parse_attr_list_decreases(s: Seq<u8>) {
    lemma_first_of(s, 32);
}

/// What a FETCH asks for: a macro name, one item name, or a parenthesized
/// item list.
pub open spec fn spec_parse_items(s: Seq<u8>) -> Option<FetchItemsView> {
    if s.len() == 0 {
        None
    } else if s[0] == 40 {
        if s.len() >= 2 && s.last() == 41 {
            match spec_parse_attr_list(s.subrange(1, s.len() - 1)) {
                Some(l) => Some(FetchItemsView::Names(l)),
                None => None,
            }
        } else {
            None
        }
    } else {
        let u = upper_seq(s);
        if u == bytes_of("ALL") {
            Some(FetchItemsView::Macros(FetchMacro::All))
        } else if u == bytes_of("FAST") {
            Some(FetchItemsView::Macros(FetchMacro::Fast))
        } else if u == bytes_of("FULL") {
            Some(FetchItemsView::Macros(FetchMacro::Full))
        } else {
            match spec_attr(s) {
                Some(a) => Some(FetchItemsView::Names(seq![a])),
                None => None,
            }
        }
    }
}

/// LOGIN's arguments: two astrings.
pub open spec fn spec_parse_login(after: Option<Seq<u8>>) -> Result<BodyView, DecodeError> {
    match after {
        None => Err(DecodeError::BadArguments),
        Some(args) => match parse_astring(args, false) {
            None => Err(DecodeError::BadArguments),
            Some((u, r1)) => if r1.len() > 0 && r1[0] == 32 {
                match parse_astring(r1.drop_first(), false) {
                    None => Err(DecodeError::BadArguments),
                    Some((p, r2)) => if r2.len() == 0 {
                        Ok(BodyView::Login { username: u, password: p })
                    } else {
                        Err(DecodeError::BadArguments)
                    },
                }
            } else {
                Err(DecodeError::BadArguments)
            },
        },
    }
}

/// SELECT's argument: one astring naming the mailbox.
pub open spec fn spec_parse_select(after: Option<Seq<u8>>) -> Result<BodyView, DecodeError> {
    match after {
        None => Err(DecodeError::BadArguments),
        Some(args) => match parse_astring(args, false) {
            None => Err(DecodeError::BadArguments),
            Some((m, r)) => if r.len() == 0 {
                Ok(BodyView::Select { mailbox: m })
            } else {
                Err(DecodeError::BadArguments)
            },
        },
    }
}

/// LIST's arguments: a reference astring and a pattern that may hold
/// wildcards.
pub open spec fn spec_parse_list(after: Option<Seq<u8>>) -> Result<BodyView, DecodeError> {
    match after {
        None => Err(DecodeError::BadArguments),
        Some(args) => match parse_astring(args, false) {
            None => Err(DecodeError::BadArguments),
            Some((rf, r1)) => if r1.len() > 0 && r1[0] == 32 {
                match parse_astring(r1.drop_first(), true) {
                    None => Err(DecodeError::BadArguments),
                    Some((w, r2)) => if r2.len() == 0 {
                        Ok(BodyView::List { reference: rf, wildcard: w })
                    } else {
                        Err(DecodeError::BadArguments)
                    },
                }
            } else {
                Err(DecodeError::BadArguments)
            },
        },
    }
}

/// SEARCH's arguments: an optional `CHARSET` name, then the raw criteria.
pub open spec fn spec_parse_search(after: Option<Seq<u8>>, uid: bool) -> Result<
    BodyView,
    DecodeError,
> {
    match after {
        None => Err(DecodeError::BadArguments),
        Some(args) => if upper_seq(head_token(args)) == bytes_of("CHARSET") {
            match rest_after(args) {
                None => Err(DecodeError::BadArguments),
                Some(r1) => {
                    let cs = head_token(r1);
                    if cs.len() > 0 && all_token_bytes(cs, false) {
                        match rest_after(r1) {
                            None => Err(DecodeError::BadArguments),
                            Some(crit) => if valid_criteria(crit) {
                                Ok(
                                    BodyView::Search {
                                        charset: Some(cs),
                                        criteria: crit,
                                        uid: uid,
                                    },
                                )
                            } else {
                                Err(DecodeError::BadArguments)
                            },
                        }
                    } else {
                        Err(DecodeError::BadArguments)
                    }
                },
            }
        } else if valid_criteria(args) {
            Ok(BodyView::Search { charset: None, criteria: args, uid: uid })
        } else {
            Err(DecodeError::BadArguments)
        },
    }
}

/// FETCH's arguments: a sequence set and the requested items.
pub open spec fn spec_parse_fetch(after: Option<Seq<u8>>, uid: bool) -> Result<
    BodyView,
    DecodeError,
> {
    match after {
        None => Err(DecodeError::BadArguments),
        Some(args) => match spec_parse_seq_set(head_token(args)) {
            None => Err(DecodeError::BadArguments),
            Some(set) => match rest_after(args) {
                None => Err(DecodeError::BadArguments),
                Some(items_part) => match spec_parse_items(items_part) {
                    None => Err(DecodeError::BadArguments),
                    Some(items) => Ok(BodyView::Fetch { seq_set: set, items: items, uid: uid }),
                },
            },
        },
    }
}

/// The body of a command line after the tag; `uid` notes a preceding `UID`
/// prefix, which only FETCH and SEARCH accept.
pub open spec fn spec_decode_body(rest: Seq<u8>, uid: bool) -> Result<BodyView, DecodeError>
    decreases rest.len(),
    via spec_decode_body_decreases
{
    let verb = upper_seq(head_token(rest));
    let after = rest_after(rest);
    if verb == bytes_of("NOOP") {
        if uid {
            Err(DecodeError::UnknownCommand)
        } else if after is None {
            Ok(BodyView::Noop)
        } else {
            Err(DecodeError::BadArguments)
        }
    } else if verb == bytes_of("CAPABILITY") {
        if uid {
            Err(DecodeError::UnknownCommand)
        } else if after is None {
            Ok(BodyView::Capability)
        } else {
            Err(DecodeError::BadArguments)
        }
    } else if verb == bytes_of("LOGOUT") {
        if uid {
            Err(DecodeError::UnknownCommand)
        } else if after is None {
            Ok(BodyView::Logout)
        } else {
            Err(DecodeError::BadArguments)
        }
    } else if verb == bytes_of("UID") {
        if uid {
            Err(DecodeError::UnknownCommand)
        } else {
            match after {
                None => Err(DecodeError::UnknownCommand),
                Some(r2) => if first_of(rest, 32) >= 0 {
                    spec_decode_body(r2, true)
                } else {
                    Err(DecodeError::UnknownCommand)
                },
            }
        }
    } else if verb == bytes_of("LOGIN") {
        if uid {
            Err(DecodeError::UnknownCommand)
        } else {
            spec_parse_login(after)
        }
    } else if verb == bytes_of("SELECT") {
        if uid {
            Err(DecodeError::UnknownCommand)
        } else {
            spec_parse_select(after)
        }
    } else if verb == bytes_of("LIST") {
        if uid {
            Err(DecodeError::UnknownCommand)
        } else {
            spec_parse_list(after)
        }
    } else if verb == bytes_of("SEARCH") {
        spec_parse_search(after, uid)
    } else if verb == bytes_of("FETCH") {
        spec_parse_fetch(after, uid)
    } else if recognized_unsupported(verb) {
        Ok(BodyView::Unsupported { verb: verb })
    } else {
        Err(DecodeError::UnknownCommand)
    }
}

#[via_fn]
proof fn spec_decode_body_decreases(rest: Seq<u8>, uid: bool) {
    lemma_first_of(rest, 32);
}

/// A verb of the base protocol this server recognizes but does not
/// implement; such a command earns a tagged BAD naming it, rather than a
/// decode failure.
pub open spec fn recognized_unsupported(v: Seq<u8>) -> bool {
    ||| v == bytes_of("AUTHENTICATE")
    ||| v == bytes_of("STARTTLS")
    ||| v == bytes_of("EXAMINE")
    ||| v == bytes_of("CREATE")
    ||| v == bytes_of("DELETE")
    ||| v == bytes_of("RENAME")
    ||| v == bytes_of("SUBSCRIBE")
    ||| v == bytes_of("UNSUBSCRIBE")
    ||| v == bytes_of("LSUB")
    ||| v == bytes_of("STATUS")
    ||| v == bytes_of("APPEND")
    ||| v == bytes_of("CHECK")
    ||| v == bytes_of("CLOSE")
    ||| v == bytes_of("EXPUNGE")
    ||| v == bytes_of("STORE")
    ||| v == bytes_of("COPY")
}

/// A whole command line (without its CRLF): tag, verb and arguments.
pub open spec fn spec_decode(line: Seq<u8>) -> Result<CommandView, DecodeError> {
    let tag = head_token(line);
    if !valid_tag(tag) {
        Err(DecodeError::BadTag)
    } else {
        match rest_after(line) {
            None => Err(DecodeError::UnknownCommand),
            Some(rest) => match spec_decode_body(rest, false) {
                Ok(b) => Ok(CommandView { tag: tag, body: b }),
                Err(e) => Err(e),
            },
        }
    }
}

/// True exactly when `b` may stand in a tag.
fn is_tag_b(b: u8) -> (r: bool)
    ensures
        r == crate::command::is_tag_byte(b),
{
    is_atom_b(b) && b != 43 || b == 93 && b != 43
}

/// True exactly when `b` may stand in an atom.
fn is_atom_b(b: u8) -> (r: bool)
    ensures
        r == is_atom_byte(b),
{
    33 <= b && b <= 126 && b != 40 && b != 41 && b != 123 && b != 37 && b != 42 && b != 34 && b
        != 92 && b != 93
}

/// True exactly when `b` may stand inside a quoted string.
fn is_quoted_b(b: u8) -> (r: bool)
    ensures
        r == is_quoted_byte(b),
{
    (b == 32 || 33 <= b && b <= 126) && b != 34 && b != 92
}

/// True exactly when `b` may stand in a LIST pattern.
fn is_list_b(b: u8) -> (r: bool)
    ensures
        r == is_list_byte(b),
{
    is_atom_b(b) || b == 37 || b == 42 || b == 93
}

/// True exactly when `b` is printable text.
fn is_text_b(b: u8) -> (r: bool)
    ensures
        r == is_text_byte(b),
{
    b == 32 || 33 <= b && b <= 126
}

/// ASCII upper-casing of one byte.
fn upper_b(b: u8) -> (r: u8)
    ensures
        r == upper(b),
{
    if 97 <= b && b <= 122 {
        b - 32
    } else {
        b
    }
}

/// Finds the first occurrence of `b` in `s[from..to]`, reported against
/// `first_of` on that window.
fn find_in(s: &[u8], from: usize, to: usize, b: u8) -> (r: Option<usize>)
    requires
        from <= to <= s@.len(),
    ensures
        match r {
            Some(i) => from <= i < to && first_of(s@.subrange(from as int, to as int), b) == i
                - from,
            None => first_of(s@.subrange(from as int, to as int), b) < 0,
        },
{
    let ghost w = s@.subrange(from as int, to as int);
    let mut i: usize = from;
    while i < to
        invariant
            from <= i <= to <= s@.len(),
            w == s@.subrange(from as int, to as int),
            forall|j: int| from <= j < i ==> #[trigger] s@[j] != b,
        decreases to - i,
    {
        if s[i] == b {
            proof {
                assert(w[i - from] == b);
                assert forall|j: int| 0 <= j < i - from implies #[trigger] w[j] != b by {
                    assert(w[j] == s@[from + j]);
                }
                lemma_first_of_is(w, b, i - from);
            }
            return Some(i);
        }
        i = i + 1;
    }
    proof {
        assert forall|j: int| 0 <= j < w.len() implies #[trigger] w[j] != b by {
            assert(w[j] == s@[from + j]);
        }
        lemma_first_of_none(w, b);
    }
    None
}

/// Compares the upper-cased window `s[from..to]` against the bytes of
/// `name`.
pub(crate) fn token_upper_eq(s: &[u8], from: usize, to: usize, name: &str) -> (r: bool)
    requires
        from <= to <= s@.len(),
    ensures
        r == (upper_seq(s@.subrange(from as int, to as int)) == bytes_of(name)),
{
    let ghost w = s@.subrange(from as int, to as int);
    let nb = name.as_bytes();
    if to - from != nb.len() {
        proof {
            assert(upper_seq(w).len() == w.len());
        }
        return false;
    }
    let n = nb.len();
    let mut i: usize = 0;
    while i < n
        invariant
            from + n <= to + n,
            to <= s@.len(),
            to - from == n,
            i <= n,
            n == nb@.len(),
            nb@ == bytes_of(name),
            w == s@.subrange(from as int, to as int),
            forall|j: int| 0 <= j < i ==> upper_seq(w)[j] == #[trigger] nb@[j],
        decreases n - i,
    {
        let c = upper_b(s[from + i]);
        if c != nb[i] {
            proof {
                assert(w[i as int] == s@[from + i]);
                assert(upper_seq(w)[i as int] == upper(w[i as int]));
            }
            return false;
        }
        proof {
            assert(w[i as int] == s@[from + i]);
            assert(upper_seq(w)[i as int] == upper(w[i as int]));
        }
        i = i + 1;
    }
    proof {
        assert(upper_seq(w) =~= nb@);
    }
    true
}

/// Copies `s[from..to]` into a fresh vector.
fn copy_range(s: &[u8], from: usize, to: usize) -> (r: Vec<u8>)
    requires
        from <= to <= s@.len(),
    ensures
        r@ == s@.subrange(from as int, to as int),
{
    let mut v: Vec<u8> = Vec::new();
    let mut i: usize = from;
    proof {
        assert(v@ =~= s@.subrange(from as int, from as int));
    }
    while i < to
        invariant
            from <= i <= to <= s@.len(),
            v@ == s@.subrange(from as int, i as int),
        decreases to - i,
    {
        v.push(s[i]);
        proof {
            assert(s@.subrange(from as int, i + 1) =~= s@.subrange(from as int, i as int).push(
                s@[i as int],
            ));
        }
        i = i + 1;
    }
    v
}

/// Checks that every byte of the window may stand in an atom (or LIST
/// pattern).
fn all_token_in(s: &[u8], from: usize, to: usize, wild: bool) -> (r: bool)
    requires
        from <= to <= s@.len(),
    ensures
        r == all_token_bytes(s@.subrange(from as int, to as int), wild),
{
    let ghost w = s@.subrange(from as int, to as int);
    let mut i: usize = from;
    while i < to
        invariant
            from <= i <= to <= s@.len(),
            w == s@.subrange(from as int, to as int),
            forall|j: int|
                0 <= j < i - from ==> (if wild {
                    is_list_byte(#[trigger] w[j])
                } else {
                    is_atom_byte(w[j])
                }),
        decreases to - i,
    {
        let ok = if wild {
            is_list_b(s[i])
        } else {
            is_atom_b(s[i])
        };
        if !ok {
            proof {
                assert(w[i - from] == s@[i as int]);
            }
            return false;
        }
        proof {
            assert(w[i - from] == s@[i as int]);
        }
        i = i + 1;
    }
    true
}

/// Checks that every byte of the window may stand inside a quoted string.
fn all_quoted_in(s: &[u8], from: usize, to: usize) -> (r: bool)
    requires
        from <= to <= s@.len(),
    ensures
        r == all_quoted_bytes(s@.subrange(from as int, to as int)),
{
    let ghost w = s@.subrange(from as int, to as int);
    let mut i: usize = from;
    while i < to
        invariant
            from <= i <= to <= s@.len(),
            w == s@.subrange(from as int, to as int),
            forall|j: int| 0 <= j < i - from ==> is_quoted_byte(#[trigger] w[j]),
        decreases to - i,
    {
        if !is_quoted_b(s[i]) {
            proof {
                assert(w[i - from] == s@[i as int]);
            }
            return false;
        }
        proof {
            assert(w[i - from] == s@[i as int]);
        }
        i = i + 1;
    }
    true
}

/// Checks that the window is nonempty printable text.
fn valid_criteria_in(s: &[u8], from: usize, to: usize) -> (r: bool)
    requires
        from <= to <= s@.len(),
    ensures
        r == valid_criteria(s@.subrange(from as int, to as int)),
{
    let ghost w = s@.subrange(from as int, to as int);
    if from == to {
        return false;
    }
    let mut i: usize = from;
    while i < to
        invariant
            from <= i <= to <= s@.len(),
            from < to,
            w == s@.subrange(from as int, to as int),
            forall|j: int| 0 <= j < i - from ==> is_text_byte(#[trigger] w[j]),
        decreases to - i,
    {
        if !is_text_b(s[i]) {
            proof {
                assert(w[i - from] == s@[i as int]);
            }
            return false;
        }
        proof {
            assert(w[i - from] == s@[i as int]);
        }
        i = i + 1;
    }
    true
}

/// Checks that the window is a well-formed tag.
fn valid_tag_in(s: &[u8], from: usize, to: usize) -> (r: bool)
    requires
        from <= to <= s@.len(),
    ensures
        r == valid_tag(s@.subrange(from as int, to as int)),
{
    let ghost w = s@.subrange(from as int, to as int);
    if from == to {
        return false;
    }
    let mut i: usize = from;
    while i < to
        invariant
            from <= i <= to <= s@.len(),
            from < to,
            w == s@.subrange(from as int, to as int),
            forall|j: int| 0 <= j < i - from ==> crate::command::is_tag_byte(#[trigger] w[j]),
        decreases to - i,
    {
        if !is_tag_b(s[i]) {
            proof {
                assert(w[i - from] == s@[i as int]);
            }
            return false;
        }
        proof {
            assert(w[i - from] == s@[i as int]);
        }
        i = i + 1;
    }
    true
}

/// With every byte a digit, the value of a digit string is nonnegative.
proof fn lemma_digits_val_nonneg(s: Seq<u8>)
    requires
        all_digits(s),
    ensures
        digits_val(s) >= 0,
    decreases s.len(),
{
    if s.len() > 0 {
        assert(all_digits(s.drop_last())) by {
            assert(forall|j: int| 0 <= j < s.len() - 1 ==> #[trigger] s.drop_last()[j] == s[j]);
        }
        lemma_digits_val_nonneg(s.drop_last());
    }
}

/// The value of a digit string is at least the value of any of its
/// prefixes.
proof fn lemma_digits_prefix_le(s: Seq<u8>, k: int)
    requires
        all_digits(s),
        0 <= k <= s.len(),
    ensures
        digits_val(s.subrange(0, k)) <= digits_val(s),
    decreases s.len() - k,
{
    if k == s.len() {
        assert(s.subrange(0, k) =~= s);
    } else {
        lemma_digits_prefix_le(s, k + 1);
        let p = s.subrange(0, k);
        let q = s.subrange(0, k + 1);
        assert(q.drop_last() =~= p);
        assert(all_digits(p)) by {
            assert(forall|j: int| 0 <= j < k ==> #[trigger] p[j] == s[j]);
        }
        lemma_digits_val_nonneg(p);
        assert(digits_val(q) == digits_val(p) * 10 + (q.last() - 48));
        assert(digits_val(p) * 10 >= digits_val(p));
    }
}

/// Reads the window as a decimal number, exactly as `spec_parse_num`.
fn parse_num_at(s: &[u8], from: usize, to: usize) -> (r: Option<u32>)
    requires
        from <= to <= s@.len(),
    ensures
        r == spec_parse_num(s@.subrange(from as int, to as int)),
{
    let ghost w = s@.subrange(from as int, to as int);
    if from == to {
        return None;
    }
    if to - from > 1 && s[from] == 48 {
        return None;
    }
    let mut acc: u64 = 0;
    let mut i: usize = from;
    proof {
        assert(w.subrange(0, 0) =~= Seq::<u8>::empty());
    }
    while i < to
        invariant
            from <= i <= to <= s@.len(),
            w == s@.subrange(from as int, to as int),
            forall|j: int| 0 <= j < i - from ==> is_digit(#[trigger] w[j]),
            acc == digits_val(w.subrange(0, i - from)),
            acc <= u32::MAX,
        decreases to - i,
    {
        let b = s[i];
        if !(48 <= b && b <= 57) {
            proof {
                assert(w[i - from] == s@[i as int]);
            }
            return None;
        }
        proof {
            assert(w[i - from] == s@[i as int]);
            let p = w.subrange(0, i - from);
            let q = w.subrange(0, i - from + 1);
            assert(q.drop_last() =~= p);
            assert(q.last() == w[i - from]);
        }
        acc = acc * 10 + (b - 48) as u64;
        i = i + 1;
        if acc > 0xffff_ffff {
            proof {
                assert(all_digits(w.subrange(0, i - from))) by {
                    assert(forall|j: int|
                        0 <= j < i - from ==> #[trigger] w.subrange(0, i - from)[j] == w[j]);
                }
                if all_digits(w) {
                    lemma_digits_prefix_le(w, i - from);
                }
            }
            return None;
        }
    }
    proof {
        assert(w.subrange(0, to - from) =~= w);
    }
    if acc == 0 {
        return None;
    }
    Some(acc as u32)
}

/// Reads the window as a sequence-set address.
fn parse_entry_at(s: &[u8], from: usize, to: usize) -> (r: Option<SeqEntry>)
    requires
        from <= to <= s@.len(),
    ensures
        r == spec_parse_entry(s@.subrange(from as int, to as int)),
{
    if to - from == 1 && s[from] == 42 {
        return Some(SeqEntry::Star);
    }
    match parse_num_at(s, from, to) {
        Some(n) => Some(SeqEntry::Num(n)),
        None => None,
    }
}

/// Reads the window as a sequence-set element.
fn parse_seq_elem_at(s: &[u8], from: usize, to: usize) -> (r: Option<Sequence>)
    requires
        from <= to <= s@.len(),
    ensures
        r == spec_parse_seq_elem(s@.subrange(from as int, to as int)),
{
    let ghost w = s@.subrange(from as int, to as int);
    match find_in(s, from, to, 58) {
        None => {
            match parse_entry_at(s, from, to) {
                Some(e) => Some(Sequence::Single(e)),
                None => None,
            }
        },
        Some(i) => {
            proof {
                assert(w.subrange(0, i - from) =~= s@.subrange(from as int, i as int));
                assert(w.subrange(i - from + 1, w.len() as int) =~= s@.subrange(
                    i + 1,
                    to as int,
                ));
            }
            match parse_entry_at(s, from, i) {
                Some(a) => match parse_entry_at(s, i + 1, to) {
                    Some(b) => Some(Sequence::Range(a, b)),
                    None => None,
                },
                None => None,
            }
        },
    }
}

/// Reads the window as a comma-separated sequence set.
fn parse_seq_set_at(s: &[u8], from: usize, to: usize) -> (r: Option<Vec<Sequence>>)
    requires
        from <= to <= s@.len(),
    ensures
        match r {
            Some(v) => spec_parse_seq_set(s@.subrange(from as int, to as int)) == Some(v@),
            None => spec_parse_seq_set(s@.subrange(from as int, to as int)) is None,
        },
    decreases to - from,
{
    let ghost w = s@.subrange(from as int, to as int);
    if from == to {
        return None;
    }
    match find_in(s, from, to, 44) {
        None => {
            match parse_seq_elem_at(s, from, to) {
                Some(e) => {
                    let mut v: Vec<Sequence> = Vec::new();
                    v.push(e);
                    proof {
                        assert(v@ =~= seq![e]);
                    }
                    Some(v)
                },
                None => None,
            }
        },
        Some(i) => {
            proof {
                assert(w.subrange(0, i - from) =~= s@.subrange(from as int, i as int));
                assert(w.subrange(i - from + 1, w.len() as int) =~= s@.subrange(
                    i + 1,
                    to as int,
                ));
            }
            match parse_seq_elem_at(s, from, i) {
                Some(e) => match parse_seq_set_at(s, i + 1, to) {
                    Some(rest) => {
                        let mut v: Vec<Sequence> = Vec::new();
                        v.push(e);
                        let mut rest = rest;
                        v.append(&mut rest);
                        proof {
                            assert(v@ =~= seq![e] + spec_parse_seq_set(
                                w.subrange(i - from + 1, w.len() as int),
                            ).unwrap());
                        }
                        Some(v)
                    },
                    None => None,
                },
                None => None,
            }
        },
    }
}

/// Reads the window as one FETCH item name.
fn parse_attr_at(s: &[u8], from: usize, to: usize) -> (r: Option<FetchAttr>)
    requires
        from <= to <= s@.len(),
    ensures
        r == spec_attr(s@.subrange(from as int, to as int)),
{
    if token_upper_eq(s, from, to, "ENVELOPE") {
        Some(FetchAttr::Envelope)
    } else if token_upper_eq(s, from, to, "FLAGS") {
        Some(FetchAttr::Flags)
    } else if token_upper_eq(s, from, to, "INTERNALDATE") {
        Some(FetchAttr::InternalDate)
    } else if token_upper_eq(s, from, to, "RFC822") {
        Some(FetchAttr::Rfc822)
    } else if token_upper_eq(s, from, to, "RFC822.HEADER") {
        Some(FetchAttr::Rfc822Header)
    } else if token_upper_eq(s, from, to, "RFC822.SIZE") {
        Some(FetchAttr::Rfc822Size)
    } else if token_upper_eq(s, from, to, "RFC822.TEXT") {
        Some(FetchAttr::Rfc822Text)
    } else if token_upper_eq(s, from, to, "BODY") {
        Some(FetchAttr::Body)
    } else if token_upper_eq(s, from, to, "BODYSTRUCTURE") {
        Some(FetchAttr::BodyStructure)
    } else if token_upper_eq(s, from, to, "UID") {
        Some(FetchAttr::Uid)
    } else {
        None
    }
}

/// Reads the window as a space-separated FETCH item list.
fn parse_attr_list_at(s: &[u8], from: usize, to: usize) -> (r: Option<Vec<FetchAttr>>)
    requires
        from <= to <= s@.len(),
    ensures
        match r {
            Some(v) => spec_parse_attr_list(s@.subrange(from as int, to as int)) == Some(v@),
            None => spec_parse_attr_list(s@.subrange(from as int, to as int)) is None,
        },
    decreases to - from,
{
    let ghost w = s@.subrange(from as int, to as int);
    if from == to {
        return None;
    }
    match find_in(s, from, to, 32) {
        None => {
            match parse_attr_at(s, from, to) {
                Some(a) => {
                    let mut v: Vec<FetchAttr> = Vec::new();
                    v.push(a);
                    proof {
                        assert(v@ =~= seq![a]);
                    }
                    Some(v)
                },
                None => None,
            }
        },
        Some(i) => {
            proof {
                assert(w.subrange(0, i - from) =~= s@.subrange(from as int, i as int));
                assert(w.subrange(i - from + 1, w.len() as int) =~= s@.subrange(
                    i + 1,
                    to as int,
                ));
            }
            match parse_attr_at(s, from, i) {
                Some(a) => match parse_attr_list_at(s, i + 1, to) {
                    Some(rest) => {
                        let mut v: Vec<FetchAttr> = Vec::new();
                        v.push(a);
                        let mut rest = rest;
                        v.append(&mut rest);
                        proof {
                            assert(v@ =~= seq![a] + spec_parse_attr_list(
                                w.subrange(i - from + 1, w.len() as int),
                            ).unwrap());
                        }
                        Some(v)
                    },
                    None => None,
                },
                None => None,
            }
        },
    }
}

/// Reads the window as a FETCH item request: macro, one name, or a list.
fn parse_items_at(s: &[u8], from: usize, to: usize) -> (r: Option<FetchItems>)
    requires
        from <= to <= s@.len(),
    ensures
        match r {
            Some(it) => spec_parse_items(s@.subrange(from as int, to as int)) == Some(it@),
            None => spec_parse_items(s@.subrange(from as int, to as int)) is None,
        },
{
    let ghost w = s@.subrange(from as int, to as int);
    if from == to {
        return None;
    }
    if s[from] == 40 {
        if to - from >= 2 && s[to - 1] == 41 {
            proof {
                assert(w.last() == s@[to - 1]);
                assert(w.subrange(1, w.len() - 1) =~= s@.subrange(from + 1, to - 1));
            }
            match parse_attr_list_at(s, from + 1, to - 1) {
                Some(l) => Some(FetchItems::Names(l)),
                None => None,
            }
        } else {
            proof {
                if to - from >= 2 {
                    assert(w.last() == s@[to - 1]);
                }
            }
            None
        }
    } else if token_upper_eq(s, from, to, "ALL") {
        Some(FetchItems::Macros(FetchMacro::All))
    } else if token_upper_eq(s, from, to, "FAST") {
        Some(FetchItems::Macros(FetchMacro::Fast))
    } else if token_upper_eq(s, from, to, "FULL") {
        Some(FetchItems::Macros(FetchMacro::Full))
    } else {
        match parse_attr_at(s, from, to) {
            Some(a) => {
                let mut v: Vec<FetchAttr> = Vec::new();
                v.push(a);
                proof {
                    assert(v@ =~= seq![a]);
                }
                Some(FetchItems::Names(v))
            },
            None => None,
        }
    }
}

/// Reads one astring at `pos`, returning its value and the offset of what
/// follows it.
fn parse_astring_at(s: &[u8], pos: usize, wild: bool) -> (r: Option<(Vec<u8>, usize)>)
    requires
        pos <= s@.len(),
    ensures
        match r {
            Some(v) => pos <= v.1 <= s@.len() && parse_astring(
                s@.subrange(pos as int, s@.len() as int),
                wild,
            ) == Some((v.0@, s@.subrange(v.1 as int, s@.len() as int))),
            None => parse_astring(s@.subrange(pos as int, s@.len() as int), wild) is None,
        },
{
    let ghost t = s@.subrange(pos as int, s@.len() as int);
    let n = s.len();
    if pos == n {
        return None;
    }
    if s[pos] == 34 {
        proof {
            assert(t.subrange(1, t.len() as int) =~= s@.subrange(pos + 1, n as int));
        }
        match find_in(s, pos + 1, n, 34) {
            None => None,
            Some(j) => {
                proof {
                    assert(t.subrange(1, 1 + (j - (pos + 1))) =~= s@.subrange(pos + 1, j as int));
                }
                if all_quoted_in(s, pos + 1, j) {
                    let v = copy_range(s, pos + 1, j);
                    proof {
                        assert(t.subrange(j - (pos + 1) + 2, t.len() as int) =~= s@.subrange(
                            j + 1,
                            n as int,
                        ));
                    }
                    Some((v, j + 1))
                } else {
                    None
                }
            },
        }
    } else {
        let end = match find_in(s, pos, n, 32) {
            Some(i) => i,
            None => n,
        };
        proof {
            assert(head_token(t) =~= s@.subrange(pos as int, end as int));
        }
        if end == pos {
            proof {
                assert(head_token(t).len() == 0);
            }
            return None;
        }
        if all_token_in(s, pos, end, wild) {
            let v = copy_range(s, pos, end);
            proof {
                assert(t.subrange(
                    head_token(t).len() as int,
                    t.len() as int,
                ) =~= s@.subrange(end as int, n as int));
            }
            Some((v, end))
        } else {
            None
        }
    }
}

/// Copies the window upper-cased.
fn upper_copy(s: &[u8], from: usize, to: usize) -> (r: Vec<u8>)
    requires
        from <= to <= s@.len(),
    ensures
        r@ == upper_seq(s@.subrange(from as int, to as int)),
{
    let ghost w = s@.subrange(from as int, to as int);
    let mut v: Vec<u8> = Vec::new();
    let mut i: usize = from;
    proof {
        assert(v@ =~= upper_seq(w).subrange(0, 0));
    }
    while i < to
        invariant
            from <= i <= to <= s@.len(),
            w == s@.subrange(from as int, to as int),
            v@ == upper_seq(w).subrange(0, i - from),
        decreases to - i,
    {
        v.push(upper_b(s[i]));
        proof {
            assert(w[i - from] == s@[i as int]);
            assert(upper_seq(w)[i - from] == upper(w[i - from]));
            assert(upper_seq(w).subrange(0, i - from + 1) =~= upper_seq(w).subrange(
                0,
                i - from,
            ).push(upper_seq(w)[i - from]));
        }
        i = i + 1;
    }
    proof {
        assert(upper_seq(w).subrange(0, to - from) =~= upper_seq(w));
    }
    v
}

/// Recognizes a verb this server knows of but does not implement,
/// returning its canonical upper-case bytes.
fn unsupported_verb_at(s: &[u8], from: usize, to: usize) -> (r: Option<Vec<u8>>)
    requires
        from <= to <= s@.len(),
    ensures
        ({
            let verb = upper_seq(s@.subrange(from as int, to as int));
            match r {
                Some(v) => recognized_unsupported(verb) && v@ == verb,
                None => !recognized_unsupported(verb),
            }
        }),
{
    let hit = token_upper_eq(s, from, to, "AUTHENTICATE") || token_upper_eq(s, from, to, "STARTTLS")
        || token_upper_eq(s, from, to, "EXAMINE") || token_upper_eq(s, from, to, "CREATE")
        || token_upper_eq(s, from, to, "DELETE") || token_upper_eq(s, from, to, "RENAME")
        || token_upper_eq(s, from, to, "SUBSCRIBE") || token_upper_eq(s, from, to, "UNSUBSCRIBE")
        || token_upper_eq(s, from, to, "LSUB") || token_upper_eq(s, from, to, "STATUS")
        || token_upper_eq(s, from, to, "APPEND") || token_upper_eq(s, from, to, "CHECK")
        || token_upper_eq(s, from, to, "CLOSE") || token_upper_eq(s, from, to, "EXPUNGE")
        || token_upper_eq(s, from, to, "STORE") || token_upper_eq(s, from, to, "COPY");
    if hit {
        Some(upper_copy(s, from, to))
    } else {
        None
    }
}

/// Decodes the command body beginning at `pos`, exactly as
/// `spec_decode_body` on the corresponding suffix.
#[verifier::rlimit(100)]
#[verifier::spinoff_prover]
fn decode_body_at(line: &[u8], pos: usize, uid: bool) -> (r: Result<CommandBody, DecodeError>)
    requires
        pos <= line@.len(),
    ensures
        ({
            let rest = line@.subrange(pos as int, line@.len() as int);
            match r {
                Ok(b) => spec_decode_body(rest, uid) == Ok::<BodyView, DecodeError>(b@),
                Err(e) => spec_decode_body(rest, uid) == Err::<BodyView, DecodeError>(e),
            }
        }),
    decreases line@.len() - pos,
{
    let ghost rest = line@.subrange(pos as int, line@.len() as int);
    let n = line.len();
    let vend_opt = find_in(line, pos, n, 32);
    let vend = match vend_opt {
        Some(i) => i,
        None => n,
    };
    proof {
        assert(head_token(rest) =~= line@.subrange(pos as int, vend as int));
        if vend_opt is Some {
            assert(rest_after(rest) == Some(line@.subrange(vend + 1, n as int))) by {
                assert(rest.subrange(first_of(rest, 32) + 1, rest.len() as int) =~= line@.subrange(
                    vend + 1,
                    n as int,
                ));
            }
        }
    }
    if token_upper_eq(line, pos, vend, "NOOP") {
        if uid {
            Err(DecodeError::UnknownCommand)
        } else if vend_opt.is_none() {
            Ok(CommandBody::Noop)
        } else {
            Err(DecodeError::BadArguments)
        }
    } else if token_upper_eq(line, pos, vend, "CAPABILITY") {
        if uid {
            Err(DecodeError::UnknownCommand)
        } else if vend_opt.is_none() {
            Ok(CommandBody::Capability)
        } else {
            Err(DecodeError::BadArguments)
        }
    } else if token_upper_eq(line, pos, vend, "LOGOUT") {
        if uid {
            Err(DecodeError::UnknownCommand)
        } else if vend_opt.is_none() {
            Ok(CommandBody::Logout)
        } else {
            Err(DecodeError::BadArguments)
        }
    } else if token_upper_eq(line, pos, vend, "UID") {
        if uid {
            Err(DecodeError::UnknownCommand)
        } else {
            match vend_opt {
                None => Err(DecodeError::UnknownCommand),
                Some(_) => decode_body_at(line, vend + 1, true),
            }
        }
    } else if token_upper_eq(line, pos, vend, "LOGIN") {
        if uid {
            Err(DecodeError::UnknownCommand)
        } else if vend_opt.is_none() {
            Err(DecodeError::BadArguments)
        } else {
            let apos = vend + 1;
            let ghost args = line@.subrange(apos as int, n as int);
            match parse_astring_at(line, apos, false) {
                None => Err(DecodeError::BadArguments),
                Some(ua) => {
                    let (u, p1) = ua;
                    let ghost r1 = line@.subrange(p1 as int, n as int);
                    if p1 < n && line[p1] == 32 {
                        proof {
                            assert(r1.drop_first() =~= line@.subrange(p1 + 1, n as int));
                        }
                        match parse_astring_at(line, p1 + 1, false) {
                            None => Err(DecodeError::BadArguments),
                            Some(pa) => {
                                let (p, p2) = pa;
                                if p2 == n {
                                    Ok(CommandBody::Login { username: u, password: p })
                                } else {
                                    Err(DecodeError::BadArguments)
                                }
                            },
                        }
                    } else {
                        Err(DecodeError::BadArguments)
                    }
                },
            }
        }
    } else if token_upper_eq(line, pos, vend, "SELECT") {
        if uid {
            Err(DecodeError::UnknownCommand)
        } else if vend_opt.is_none() {
            Err(DecodeError::BadArguments)
        } else {
            let apos = vend + 1;
            match parse_astring_at(line, apos, false) {
                None => Err(DecodeError::BadArguments),
                Some(ma) => {
                    let (m, p1) = ma;
                    if p1 == n {
                        Ok(CommandBody::Select { mailbox: m })
                    } else {
                        Err(DecodeError::BadArguments)
                    }
                },
            }
        }
    } else if token_upper_eq(line, pos, vend, "LIST") {
        if uid {
            Err(DecodeError::UnknownCommand)
        } else if vend_opt.is_none() {
            Err(DecodeError::BadArguments)
        } else {
            let apos = vend + 1;
            match parse_astring_at(line, apos, false) {
                None => Err(DecodeError::BadArguments),
                Some(ra) => {
                    let (rf, p1) = ra;
                    let ghost r1 = line@.subrange(p1 as int, n as int);
                    if p1 < n && line[p1] == 32 {
                        proof {
                            assert(r1.drop_first() =~= line@.subrange(p1 + 1, n as int));
                        }
                        match parse_astring_at(line, p1 + 1, true) {
                            None => Err(DecodeError::BadArguments),
                            Some(wa) => {
                                let (w, p2) = wa;
                                if p2 == n {
                                    Ok(CommandBody::List { reference: rf, wildcard: w })
                                } else {
                                    Err(DecodeError::BadArguments)
                                }
                            },
                        }
                    } else {
                        Err(DecodeError::BadArguments)
                    }
                },
            }
        }
    } else if token_upper_eq(line, pos, vend, "SEARCH") {
        if vend_opt.is_none() {
            Err(DecodeError::BadArguments)
        } else {
            let apos = vend + 1;
            let ghost args = line@.subrange(apos as int, n as int);
            let cend_opt = find_in(line, apos, n, 32);
            let hend = match cend_opt {
                Some(i) => i,
                None => n,
            };
            proof {
                assert(head_token(args) =~= line@.subrange(apos as int, hend as int));
                if cend_opt is Some {
                    assert(args.subrange(first_of(args, 32) + 1, args.len() as int)
                        =~= line@.subrange(hend + 1, n as int));
                }
            }
            if token_upper_eq(line, apos, hend, "CHARSET") {
                match cend_opt {
                    None => Err(DecodeError::BadArguments),
                    Some(ci) => {
                        let ghost r1 = line@.subrange(ci + 1, n as int);
                        let dend_opt = find_in(line, ci + 1, n, 32);
                        let dend = match dend_opt {
                            Some(i) => i,
                            None => n,
                        };
                        proof {
                            assert(head_token(r1) =~= line@.subrange(ci + 1, dend as int));
                            if dend_opt is Some {
                                assert(r1.subrange(first_of(r1, 32) + 1, r1.len() as int)
                                    =~= line@.subrange(dend + 1, n as int));
                            }
                        }
                        if dend > ci + 1 && all_token_in(line, ci + 1, dend, false) {
                            match dend_opt {
                                None => Err(DecodeError::BadArguments),
                                Some(di) => {
                                    if valid_criteria_in(line, di + 1, n) {
                                        let cs = copy_range(line, ci + 1, dend);
                                        let crit = copy_range(line, di + 1, n);
                                        Ok(
                                            CommandBody::Search {
                                                charset: Some(cs),
                                                criteria: crit,
                                                uid: uid,
                                            },
                                        )
                                    } else {
                                        Err(DecodeError::BadArguments)
                                    }
                                },
                            }
                        } else {
                            Err(DecodeError::BadArguments)
                        }
                    },
                }
            } else if valid_criteria_in(line, apos, n) {
                let crit = copy_range(line, apos, n);
                Ok(CommandBody::Search { charset: None, criteria: crit, uid: uid })
            } else {
                Err(DecodeError::BadArguments)
            }
        }
    } else if token_upper_eq(line, pos, vend, "FETCH") {
        if vend_opt.is_none() {
            Err(DecodeError::BadArguments)
        } else {
            let apos = vend + 1;
            let ghost args = line@.subrange(apos as int, n as int);
            let send_opt = find_in(line, apos, n, 32);
            let send = match send_opt {
                Some(i) => i,
                None => n,
            };
            proof {
                assert(head_token(args) =~= line@.subrange(apos as int, send as int));
                if send_opt is Some {
                    assert(args.subrange(first_of(args, 32) + 1, args.len() as int)
                        =~= line@.subrange(send + 1, n as int));
                }
            }
            match parse_seq_set_at(line, apos, send) {
                None => Err(DecodeError::BadArguments),
                Some(set) => match send_opt {
                    None => Err(DecodeError::BadArguments),
                    Some(si) => match parse_items_at(line, si + 1, n) {
                        None => Err(DecodeError::BadArguments),
                        Some(items) => Ok(
                            CommandBody::Fetch { seq_set: set, items: items, uid: uid },
                        ),
                    },
                },
            }
        }
    } else {
        match unsupported_verb_at(line, pos, vend) {
            Some(v) => Ok(CommandBody::Unsupported { verb: v }),
            None => Err(DecodeError::UnknownCommand),
        }
    }
}

/// Decodes one command line (without its CRLF), exactly as `spec_decode`.
pub fn decode(line: &[u8]) -> (r: Result<Command, DecodeError>)
    ensures
        match r {
            Ok(c) => spec_decode(line@) == Ok::<CommandView, DecodeError>(c@),
            Err(e) => spec_decode(line@) == Err::<CommandView, DecodeError>(e),
        },
{
    let n = line.len();
    let tend_opt = find_in(line, 0, n, 32);
    let tend = match tend_opt {
        Some(i) => i,
        None => n,
    };
    proof {
        assert(line@.subrange(0, n as int) =~= line@);
        assert(head_token(line@) =~= line@.subrange(0, tend as int));
    }
    if !valid_tag_in(line, 0, tend) {
        return Err(DecodeError::BadTag);
    }
    match tend_opt {
        None => Err(DecodeError::UnknownCommand),
        Some(ti) => {
            proof {
                assert(line@.subrange(first_of(line@, 32) + 1, line@.len() as int)
                    =~= line@.subrange(ti + 1, n as int));
            }
            match decode_body_at(line, ti + 1, false) {
                Ok(b) => {
                    let tag = copy_range(line, 0, tend);
                    Ok(Command { tag: tag, body: b })
                },
                Err(e) => Err(e),
            }
        },
    }
}

} // verus!
