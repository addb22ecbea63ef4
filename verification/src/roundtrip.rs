//! The decoder inverts the encoder: a well-formed command, rendered by
//! `enc_command`, decodes back to itself, tag, variant and arguments
//! alike.
use vstd::prelude::*;

verus! {

use crate::command::{
    is_atom_byte, is_tag_byte, valid_tag, BodyView, CommandView, FetchAttr, FetchItemsView,
    FetchMacro, SeqEntry, Sequence,
};
use crate::encode::{
    astring_encodable, attr_name, enc_astring, enc_attr_list, enc_body, enc_command, enc_entry,
    enc_elem, enc_items, enc_list_token, enc_seq_set, list_encodable, valid_command, valid_elem,
    valid_entry,
};
use crate::error::DecodeError;
use crate::parse::{
    all_digits, all_quoted_bytes, all_token_bytes, digits_val, first_of, head_token,
    lemma_first_of_is, lemma_first_of_none, parse_astring, rest_after, spec_attr, spec_decode,
    spec_decode_body, spec_parse_entry, spec_parse_items, spec_parse_num, spec_parse_seq_elem,
    spec_parse_seq_set, spec_parse_attr_list, upper, upper_seq, valid_criteria,
};
use crate::text::{bytes_of, dec_digits};

/// A sequence with no lower-case letter is its own upper-casing.
proof fn lemma_upper_fixed(s: Seq<u8>)
    requires
        forall|i: int| 0 <= i < s.len() ==> !(97 <= #[trigger] s[i] <= 122),
    ensures
        upper_seq(s) == s,
{
    assert(upper_seq(s) =~= s);
}

/// The facts the round-trip needs of one keyword literal: its length,
/// that it is its own upper-casing, and that it holds no space and does
/// not open with a parenthesis or quote.
spec fn keyword_ready(s: Seq<u8>) -> bool {
    &&& upper_seq(s) == s
    &&& first_of(s, 32) < 0
    &&& forall|i: int| 0 <= i < s.len() ==> #[trigger] s[i] != 32
    &&& s.len() > 0 ==> s[0] != 40 && s[0] != 34
}

/// Establishes `keyword_ready` for the bytes of an upper-case ASCII
/// keyword.
proof fn lemma_keyword_ready(s: &str)
    requires
        vstd::string::is_ascii(s),
        forall|i: int| 0 <= i < s@.len() ==> 45 <= (#[trigger] s@[i]) as u8 <= 90,
    ensures
        keyword_ready(bytes_of(s)),
        bytes_of(s).len() == s@.len(),
{
    broadcast use vstd::string::is_ascii_spec_bytes;

    let b = bytes_of(s);
    assert(b =~= Seq::new(s@.len(), |i: int| s@[i] as u8));
    assert(forall|i: int| 0 <= i < b.len() ==> 45 <= #[trigger] b[i] <= 90);
    lemma_upper_fixed(b);
    lemma_first_of_none(b, 32);
}

/// `keyword_ready` for the nine verbs and the item keywords.
proof fn lemma_keywords()
    ensures
        keyword_ready(bytes_of("NOOP")) && bytes_of("NOOP").len() == 4,
        keyword_ready(bytes_of("CAPABILITY")) && bytes_of("CAPABILITY").len() == 10,
        keyword_ready(bytes_of("LOGOUT")) && bytes_of("LOGOUT").len() == 6,
        keyword_ready(bytes_of("UID")) && bytes_of("UID").len() == 3,
        keyword_ready(bytes_of("LOGIN")) && bytes_of("LOGIN").len() == 5,
        keyword_ready(bytes_of("SELECT")) && bytes_of("SELECT").len() == 6,
        keyword_ready(bytes_of("LIST")) && bytes_of("LIST").len() == 4,
        keyword_ready(bytes_of("SEARCH")) && bytes_of("SEARCH").len() == 6,
        keyword_ready(bytes_of("FETCH")) && bytes_of("FETCH").len() == 5,
        keyword_ready(bytes_of("CHARSET")) && bytes_of("CHARSET").len() == 7,
        bytes_of("SELECT")[0] != bytes_of("LOGOUT")[0],
        bytes_of("SEARCH")[0] != bytes_of("LOGOUT")[0],
        bytes_of("SEARCH")[2] != bytes_of("SELECT")[2],
        bytes_of("LIST")[0] != bytes_of("NOOP")[0],
        bytes_of("FETCH")[0] != bytes_of("LOGIN")[0],
{
    reveal_strlit("NOOP");
    reveal_strlit("CAPABILITY");
    reveal_strlit("LOGOUT");
    reveal_strlit("UID");
    reveal_strlit("LOGIN");
    reveal_strlit("SELECT");
    reveal_strlit("LIST");
    reveal_strlit("SEARCH");
    reveal_strlit("FETCH");
    reveal_strlit("CHARSET");
    broadcast use vstd::string::is_ascii_spec_bytes;

    lemma_keyword_ready("NOOP");
    lemma_keyword_ready("CAPABILITY");
    lemma_keyword_ready("LOGOUT");
    lemma_keyword_ready("UID");
    lemma_keyword_ready("LOGIN");
    lemma_keyword_ready("SELECT");
    lemma_keyword_ready("LIST");
    lemma_keyword_ready("SEARCH");
    lemma_keyword_ready("FETCH");
    lemma_keyword_ready("CHARSET");
    assert(vstd::string::is_ascii("SELECT") && vstd::string::is_ascii("LOGOUT")
        && vstd::string::is_ascii("SEARCH") && vstd::string::is_ascii("LIST")
        && vstd::string::is_ascii("NOOP") && vstd::string::is_ascii("FETCH")
        && vstd::string::is_ascii("LOGIN"));
    assert(bytes_of("SELECT") =~= Seq::new("SELECT"@.len(), |i: int| "SELECT"@[i] as u8));
    assert(bytes_of("LOGOUT") =~= Seq::new("LOGOUT"@.len(), |i: int| "LOGOUT"@[i] as u8));
    assert(bytes_of("SEARCH") =~= Seq::new("SEARCH"@.len(), |i: int| "SEARCH"@[i] as u8));
    assert(bytes_of("LIST") =~= Seq::new("LIST"@.len(), |i: int| "LIST"@[i] as u8));
    assert(bytes_of("NOOP") =~= Seq::new("NOOP"@.len(), |i: int| "NOOP"@[i] as u8));
    assert(bytes_of("FETCH") =~= Seq::new("FETCH"@.len(), |i: int| "FETCH"@[i] as u8));
    assert(bytes_of("LOGIN") =~= Seq::new("LOGIN"@.len(), |i: int| "LOGIN"@[i] as u8));
    assert(bytes_of("SELECT")[0] == 'S' as u8 && bytes_of("LOGOUT")[0] == 'L' as u8);
    assert(bytes_of("SEARCH")[0] == 'S' as u8 && bytes_of("SEARCH")[2] == 'A' as u8);
    assert(bytes_of("SELECT")[2] == 'L' as u8);
    assert(bytes_of("LIST")[0] == 'L' as u8 && bytes_of("NOOP")[0] == 'N' as u8);
    assert(bytes_of("FETCH")[0] == 'F' as u8 && bytes_of("LOGIN")[0] == 'L' as u8);
}

/// Splitting at the separating space: with no space in `a`, the head
/// token of `a SP t` is `a` and the rest is `t`.
proof fn lemma_split_sp(a: Seq<u8>, t: Seq<u8>)
    requires
        forall|i: int| 0 <= i < a.len() ==> #[trigger] a[i] != 32,
    ensures
        head_token(a + seq![32u8] + t) == a,
        rest_after(a + seq![32u8] + t) == Some(t),
{
    let s = a + seq![32u8] + t;
    assert(s[a.len() as int] == 32);
    assert(forall|j: int| 0 <= j < a.len() ==> #[trigger] s[j] == a[j]);
    lemma_first_of_is(s, 32, a.len() as int);
    assert(head_token(s) =~= a);
    assert(s.subrange(a.len() as int + 1, s.len() as int) =~= t);
}

/// A token with no space is the whole head, with nothing after it.
proof fn lemma_whole_token(a: Seq<u8>)
    requires
        forall|i: int| 0 <= i < a.len() ==> #[trigger] a[i] != 32,
    ensures
        head_token(a) == a,
        rest_after(a) is None,
{
    lemma_first_of_none(a, 32);
}

/// A well-formed tag holds no space.
proof fn lemma_tag_no_sp(s: Seq<u8>)
    requires
        valid_tag(s),
    ensures
        forall|i: int| 0 <= i < s.len() ==> #[trigger] s[i] != 32,
{
    assert forall|i: int| 0 <= i < s.len() implies #[trigger] s[i] != 32 by {
        assert(is_tag_byte(s[i]));
    }
}

/// The verb keywords followed by their separating space, split off the
/// literal that carries both.
proof fn lemma_kw_spaces()
    ensures
        bytes_of("LOGIN ") == bytes_of("LOGIN") + seq![32u8],
        bytes_of("SELECT ") == bytes_of("SELECT") + seq![32u8],
        bytes_of("LIST ") == bytes_of("LIST") + seq![32u8],
        bytes_of("SEARCH ") == bytes_of("SEARCH") + seq![32u8],
        bytes_of("FETCH ") == bytes_of("FETCH") + seq![32u8],
        bytes_of("UID ") == bytes_of("UID") + seq![32u8],
        bytes_of("CHARSET ") == bytes_of("CHARSET") + seq![32u8],
{
    reveal_strlit("LOGIN ");
    reveal_strlit("LOGIN");
    reveal_strlit("SELECT ");
    reveal_strlit("SELECT");
    reveal_strlit("LIST ");
    reveal_strlit("LIST");
    reveal_strlit("SEARCH ");
    reveal_strlit("SEARCH");
    reveal_strlit("FETCH ");
    reveal_strlit("FETCH");
    reveal_strlit("UID ");
    reveal_strlit("UID");
    reveal_strlit("CHARSET ");
    reveal_strlit("CHARSET");
    broadcast use vstd::string::is_ascii_spec_bytes;

    assert(vstd::string::is_ascii("LOGIN ") && vstd::string::is_ascii("LOGIN")
        && vstd::string::is_ascii("SELECT ") && vstd::string::is_ascii("SELECT")
        && vstd::string::is_ascii("LIST ") && vstd::string::is_ascii("LIST")
        && vstd::string::is_ascii("SEARCH ") && vstd::string::is_ascii("SEARCH")
        && vstd::string::is_ascii("FETCH ") && vstd::string::is_ascii("FETCH")
        && vstd::string::is_ascii("UID ") && vstd::string::is_ascii("UID")
        && vstd::string::is_ascii("CHARSET ") && vstd::string::is_ascii("CHARSET"));
    assert(bytes_of("LOGIN ") =~= bytes_of("LOGIN") + seq![32u8]);
    assert(bytes_of("SELECT ") =~= bytes_of("SELECT") + seq![32u8]);
    assert(bytes_of("LIST ") =~= bytes_of("LIST") + seq![32u8]);
    assert(bytes_of("SEARCH ") =~= bytes_of("SEARCH") + seq![32u8]);
    assert(bytes_of("FETCH ") =~= bytes_of("FETCH") + seq![32u8]);
    assert(bytes_of("UID ") =~= bytes_of("UID") + seq![32u8]);
    assert(bytes_of("CHARSET ") =~= bytes_of("CHARSET") + seq![32u8]);
}

/// An encodable astring, rendered canonically and followed by nothing or
/// by a space-led remainder, parses back to its value and that remainder.
proof fn lemma_astring_roundtrip(v: Seq<u8>, tail: Seq<u8>, wild: bool)
    requires
        if wild {
            list_encodable(v)
        } else {
            astring_encodable(v)
        },
        tail.len() == 0 || tail[0] == 32,
    ensures
        parse_astring(
            (if wild {
                enc_list_token(v)
            } else {
                enc_astring(v)
            }) + tail,
            wild,
        ) == Some((v, tail)),
{
    let e = if wild {
        enc_list_token(v)
    } else {
        enc_astring(v)
    };
    let s = e + tail;
    if v.len() > 0 && all_token_bytes(v, wild) {
        assert(e == v);
        assert(s[0] != 34 && s[0] != 32) by {
            assert(s[0] == v[0]);
            if wild {
                assert(crate::command::is_list_byte(v[0]));
            } else {
                assert(is_atom_byte(v[0]));
            }
        }
        if tail.len() == 0 {
            assert forall|i: int| 0 <= i < s.len() implies #[trigger] s[i] != 32 by {
                assert(s[i] == v[i]);
                if wild {
                    assert(crate::command::is_list_byte(v[i]));
                } else {
                    assert(is_atom_byte(v[i]));
                }
            }
            lemma_first_of_none(s, 32);
            assert(head_token(s) == s);
            assert(s =~= v + tail);
            assert(s == v);
            assert(s.subrange(v.len() as int, s.len() as int) =~= tail);
        } else {
            assert(s[v.len() as int] == 32);
            assert forall|j: int| 0 <= j < v.len() implies #[trigger] s[j] != 32 by {
                assert(s[j] == v[j]);
                if wild {
                    assert(crate::command::is_list_byte(v[j]));
                } else {
                    assert(is_atom_byte(v[j]));
                }
            }
            lemma_first_of_is(s, 32, v.len() as int);
            assert(head_token(s) =~= v);
            assert(s.subrange(v.len() as int, s.len() as int) =~= tail);
        }
    } else {
        assert(all_quoted_bytes(v));
        assert(e == seq![34u8] + v + seq![34u8]);
        assert(s[0] == 34);
        let s1 = s.subrange(1, s.len() as int);
        assert(s1[v.len() as int] == 34);
        assert forall|j: int| 0 <= j < v.len() implies #[trigger] s1[j] != 34 by {
            assert(s1[j] == v[j]);
            assert(crate::command::is_quoted_byte(v[j]));
        }
        lemma_first_of_is(s1, 34, v.len() as int);
        assert(s.subrange(1, 1 + v.len() as int) =~= v);
        assert(s.subrange(v.len() as int + 2, s.len() as int) =~= tail);
    }
}

/// Decimal renderings hold only digits, and the leading digit of a
/// nonzero number is not zero.
proof fn lemma_dec_digits_shape(n: nat)
    ensures
        dec_digits(n).len() >= 1,
        all_digits(dec_digits(n)),
        forall|i: int| 0 <= i < dec_digits(n).len() ==> 48 <= #[trigger] dec_digits(n)[i] <= 57,
        n > 0 ==> dec_digits(n)[0] != 48,
    decreases n,
{
    if n < 10 {
    } else {
        assert(n / 10 < n && n / 10 > 0) by (nonlinear_arith)
            requires
                n >= 10,
        ;
        lemma_dec_digits_shape(n / 10);
        let d = dec_digits(n);
        let p = dec_digits(n / 10);
        assert(d == p.push((48 + n % 10) as u8));
        assert(forall|i: int| 0 <= i < p.len() ==> #[trigger] d[i] == p[i]);
        assert(d[d.len() - 1] == (48 + n % 10) as u8);
        assert(n % 10 < 10);
    }
}

/// A decimal rendering reads back as its number.
proof fn lemma_dec_digits_value(n: nat)
    ensures
        digits_val(dec_digits(n)) == n,
    decreases n,
{
    if n < 10 {
        let d = dec_digits(n);
        assert(d.drop_last() =~= Seq::<u8>::empty());
        assert(digits_val(Seq::<u8>::empty()) == 0);
        assert(digits_val(d) == (48 + n) - 48);
    } else {
        assert(n / 10 < n) by (nonlinear_arith)
            requires
                n >= 10,
        ;
        lemma_dec_digits_value(n / 10);
        let d = dec_digits(n);
        let p = dec_digits(n / 10);
        assert(d == p.push((48 + n % 10) as u8));
        assert(d.drop_last() =~= p);
        assert(digits_val(d) == digits_val(p) * 10 + ((48 + n % 10) - 48));
        assert(n == (n / 10) * 10 + n % 10);
    }
}

/// A nonzero number in range round-trips through its decimal rendering.
proof fn lemma_num_roundtrip(n: u32)
    requires
        n > 0,
    ensures
        spec_parse_num(dec_digits(n as nat)) == Some(n),
{
    lemma_dec_digits_shape(n as nat);
    lemma_dec_digits_value(n as nat);
}

/// The bytes of a rendered sequence-set address: digits or the asterisk,
/// never a separator.
proof fn lemma_entry_bytes(e: SeqEntry)
    ensures
        forall|i: int|
            0 <= i < enc_entry(e).len() ==> (48 <= #[trigger] enc_entry(e)[i] <= 57 || enc_entry(
                e,
            )[i] == 42),
        enc_entry(e).len() >= 1,
{
    match e {
        SeqEntry::Num(n) => {
            lemma_dec_digits_shape(n as nat);
        },
        SeqEntry::Star => {},
    }
}

/// A rendered address parses back to itself.
proof fn lemma_entry_roundtrip(e: SeqEntry)
    requires
        valid_entry(e),
    ensures
        spec_parse_entry(enc_entry(e)) == Some(e),
{
    match e {
        SeqEntry::Num(n) => {
            lemma_dec_digits_shape(n as nat);
            lemma_num_roundtrip(n);
            assert(enc_entry(e)[0] != 42);
        },
        SeqEntry::Star => {},
    }
}

/// The bytes of a rendered sequence-set element: digits, asterisk or the
/// range colon, never a comma or space.
proof fn lemma_elem_bytes(e: Sequence)
    ensures
        forall|i: int|
            0 <= i < enc_elem(e).len() ==> (48 <= #[trigger] enc_elem(e)[i] <= 58 || enc_elem(
                e,
            )[i] == 42),
        enc_elem(e).len() >= 1,
{
    match e {
        Sequence::Single(a) => {
            lemma_entry_bytes(a);
        },
        Sequence::Range(a, b) => {
            lemma_entry_bytes(a);
            lemma_entry_bytes(b);
            let s = enc_entry(a) + seq![58u8] + enc_entry(b);
            assert(enc_elem(e) == s);
            assert forall|i: int| 0 <= i < s.len() implies (48 <= #[trigger] s[i] <= 58 || s[i]
                == 42) by {
                if i < enc_entry(a).len() {
                    assert(s[i] == enc_entry(a)[i]);
                } else if i == enc_entry(a).len() {
                } else {
                    assert(s[i] == enc_entry(b)[i - enc_entry(a).len() - 1]);
                }
            }
        },
    }
}

/// A rendered element parses back to itself.
proof fn lemma_elem_roundtrip(e: Sequence)
    requires
        valid_elem(e),
    ensures
        spec_parse_seq_elem(enc_elem(e)) == Some(e),
{
    match e {
        Sequence::Single(a) => {
            lemma_entry_bytes(a);
            lemma_entry_roundtrip(a);
            assert forall|i: int| 0 <= i < enc_elem(e).len() implies #[trigger] enc_elem(e)[i]
                != 58 by {
                assert(enc_elem(e)[i] == enc_entry(a)[i]);
            }
            lemma_first_of_none(enc_elem(e), 58);
        },
        Sequence::Range(a, b) => {
            lemma_entry_bytes(a);
            lemma_entry_bytes(b);
            lemma_entry_roundtrip(a);
            lemma_entry_roundtrip(b);
            let ea = enc_entry(a);
            let eb = enc_entry(b);
            let s = ea + seq![58u8] + eb;
            assert(enc_elem(e) == s);
            assert(s[ea.len() as int] == 58);
            assert forall|j: int| 0 <= j < ea.len() implies #[trigger] s[j] != 58 by {
                assert(s[j] == ea[j]);
            }
            lemma_first_of_is(s, 58, ea.len() as int);
            assert(s.subrange(0, ea.len() as int) =~= ea);
            assert(s.subrange(ea.len() as int + 1, s.len() as int) =~= eb);
        },
    }
}

/// A rendered sequence set parses back to itself.
proof fn lemma_seq_set_roundtrip(s: Seq<Sequence>)
    requires
        s.len() > 0,
        forall|i: int| 0 <= i < s.len() ==> valid_elem(#[trigger] s[i]),
    ensures
        spec_parse_seq_set(enc_seq_set(s)) == Some(s),
    decreases s.len(),
{
    let e = enc_seq_set(s);
    if s.len() == 1 {
        lemma_elem_bytes(s[0]);
        lemma_elem_roundtrip(s[0]);
        assert(e == enc_elem(s[0]));
        assert forall|i: int| 0 <= i < e.len() implies #[trigger] e[i] != 44 by {
            assert(48 <= e[i] <= 58 || e[i] == 42);
        }
        lemma_first_of_none(e, 44);
        assert(seq![s[0]] =~= s);
    } else {
        lemma_elem_bytes(s[0]);
        lemma_elem_roundtrip(s[0]);
        assert(forall|i: int| 0 <= i < s.drop_first().len() ==> valid_elem(#[trigger] s.drop_first()[i]));
        lemma_seq_set_roundtrip(s.drop_first());
        let e0 = enc_elem(s[0]);
        let er = enc_seq_set(s.drop_first());
        assert(e == e0 + seq![44u8] + er);
        assert(e[e0.len() as int] == 44);
        assert forall|j: int| 0 <= j < e0.len() implies #[trigger] e[j] != 44 by {
            assert(e[j] == e0[j]);
            assert(48 <= e0[j] <= 58 || e0[j] == 42);
        }
        lemma_first_of_is(e, 44, e0.len() as int);
        assert(e.subrange(0, e0.len() as int) =~= e0);
        assert(e.subrange(e0.len() as int + 1, e.len() as int) =~= er);
        assert(seq![s[0]] + s.drop_first() =~= s);
    }
}

/// A rendered sequence set holds no space.
proof fn lemma_seq_set_no_sp(s: Seq<Sequence>)
    ensures
        forall|i: int| 0 <= i < enc_seq_set(s).len() ==> #[trigger] enc_seq_set(s)[i] != 32,
    decreases s.len(),
{
    let e = enc_seq_set(s);
    if s.len() == 0 {
    } else if s.len() == 1 {
        lemma_elem_bytes(s[0]);
        assert forall|i: int| 0 <= i < e.len() implies #[trigger] e[i] != 32 by {
            assert(48 <= enc_elem(s[0])[i] <= 58 || enc_elem(s[0])[i] == 42);
        }
    } else {
        lemma_elem_bytes(s[0]);
        lemma_seq_set_no_sp(s.drop_first());
        let e0 = enc_elem(s[0]);
        let er = enc_seq_set(s.drop_first());
        assert(e == e0 + seq![44u8] + er);
        assert forall|i: int| 0 <= i < e.len() implies #[trigger] e[i] != 32 by {
            if i < e0.len() {
                assert(e[i] == e0[i]);
                assert(48 <= e0[i] <= 58 || e0[i] == 42);
            } else if i == e0.len() {
            } else {
                assert(e[i] == er[i - e0.len() - 1]);
            }
        }
    }
}

/// `keyword_ready` for the item names and macros, with the index facts
/// that tell the same-length ones apart.
proof fn lemma_item_keywords()
    ensures
        keyword_ready(bytes_of("ENVELOPE")) && bytes_of("ENVELOPE").len() == 8,
        keyword_ready(bytes_of("FLAGS")) && bytes_of("FLAGS").len() == 5,
        keyword_ready(bytes_of("INTERNALDATE")) && bytes_of("INTERNALDATE").len() == 12,
        keyword_ready(bytes_of("RFC822")) && bytes_of("RFC822").len() == 6,
        keyword_ready(bytes_of("RFC822.HEADER")) && bytes_of("RFC822.HEADER").len() == 13,
        keyword_ready(bytes_of("RFC822.SIZE")) && bytes_of("RFC822.SIZE").len() == 11,
        keyword_ready(bytes_of("RFC822.TEXT")) && bytes_of("RFC822.TEXT").len() == 11,
        keyword_ready(bytes_of("BODY")) && bytes_of("BODY").len() == 4,
        keyword_ready(bytes_of("BODYSTRUCTURE")) && bytes_of("BODYSTRUCTURE").len() == 13,
        keyword_ready(bytes_of("UID")) && bytes_of("UID").len() == 3,
        keyword_ready(bytes_of("ALL")) && bytes_of("ALL").len() == 3,
        keyword_ready(bytes_of("FAST")) && bytes_of("FAST").len() == 4,
        keyword_ready(bytes_of("FULL")) && bytes_of("FULL").len() == 4,
        bytes_of("RFC822.SIZE")[7] != bytes_of("RFC822.TEXT")[7],
        bytes_of("RFC822.HEADER")[0] != bytes_of("BODYSTRUCTURE")[0],
        bytes_of("FAST")[1] != bytes_of("FULL")[1],
        bytes_of("UID")[0] != bytes_of("ALL")[0],
        bytes_of("BODY")[0] != bytes_of("FAST")[0],
        bytes_of("BODY")[0] != bytes_of("FULL")[0],
{
    reveal_strlit("ENVELOPE");
    reveal_strlit("FLAGS");
    reveal_strlit("INTERNALDATE");
    reveal_strlit("RFC822");
    reveal_strlit("RFC822.HEADER");
    reveal_strlit("RFC822.SIZE");
    reveal_strlit("RFC822.TEXT");
    reveal_strlit("BODY");
    reveal_strlit("BODYSTRUCTURE");
    reveal_strlit("UID");
    reveal_strlit("ALL");
    reveal_strlit("FAST");
    reveal_strlit("FULL");
    broadcast use vstd::string::is_ascii_spec_bytes;

    lemma_keyword_ready("ENVELOPE");
    lemma_keyword_ready("FLAGS");
    lemma_keyword_ready("INTERNALDATE");
    lemma_keyword_ready("RFC822");
    lemma_keyword_ready("RFC822.HEADER");
    lemma_keyword_ready("RFC822.SIZE");
    lemma_keyword_ready("RFC822.TEXT");
    lemma_keyword_ready("BODY");
    lemma_keyword_ready("BODYSTRUCTURE");
    lemma_keyword_ready("UID");
    lemma_keyword_ready("ALL");
    lemma_keyword_ready("FAST");
    lemma_keyword_ready("FULL");
    assert(vstd::string::is_ascii("RFC822.SIZE") && vstd::string::is_ascii("RFC822.TEXT")
        && vstd::string::is_ascii("RFC822.HEADER") && vstd::string::is_ascii("BODYSTRUCTURE")
        && vstd::string::is_ascii("FAST") && vstd::string::is_ascii("FULL")
        && vstd::string::is_ascii("UID") && vstd::string::is_ascii("ALL")
        && vstd::string::is_ascii("BODY"));
    assert(bytes_of("RFC822.SIZE") =~= Seq::new(
        "RFC822.SIZE"@.len(),
        |i: int| "RFC822.SIZE"@[i] as u8,
    ));
    assert(bytes_of("RFC822.TEXT") =~= Seq::new(
        "RFC822.TEXT"@.len(),
        |i: int| "RFC822.TEXT"@[i] as u8,
    ));
    assert(bytes_of("RFC822.HEADER") =~= Seq::new(
        "RFC822.HEADER"@.len(),
        |i: int| "RFC822.HEADER"@[i] as u8,
    ));
    assert(bytes_of("BODYSTRUCTURE") =~= Seq::new(
        "BODYSTRUCTURE"@.len(),
        |i: int| "BODYSTRUCTURE"@[i] as u8,
    ));
    assert(bytes_of("FAST") =~= Seq::new("FAST"@.len(), |i: int| "FAST"@[i] as u8));
    assert(bytes_of("FULL") =~= Seq::new("FULL"@.len(), |i: int| "FULL"@[i] as u8));
    assert(bytes_of("UID") =~= Seq::new("UID"@.len(), |i: int| "UID"@[i] as u8));
    assert(bytes_of("ALL") =~= Seq::new("ALL"@.len(), |i: int| "ALL"@[i] as u8));
    assert(bytes_of("BODY") =~= Seq::new("BODY"@.len(), |i: int| "BODY"@[i] as u8));
    assert(bytes_of("RFC822.SIZE")[7] == 'S' as u8 && bytes_of("RFC822.TEXT")[7] == 'T' as u8);
    assert(bytes_of("RFC822.HEADER")[0] == 'R' as u8 && bytes_of("BODYSTRUCTURE")[0] == 'B' as u8);
    assert(bytes_of("FAST")[1] == 'A' as u8 && bytes_of("FULL")[1] == 'U' as u8);
    assert(bytes_of("UID")[0] == 'U' as u8 && bytes_of("ALL")[0] == 'A' as u8);
    assert(bytes_of("BODY")[0] == 'B' as u8 && bytes_of("FAST")[0] == 'F' as u8);
    assert(bytes_of("FULL")[0] == 'F' as u8);
}

/// A canonical item name parses back to its item, is its own
/// upper-casing, holds no space, and is none of the macro names.
proof fn lemma_attr_facts(a: FetchAttr)
    ensures
        keyword_ready(attr_name(a)),
        attr_name(a).len() > 0,
        spec_attr(attr_name(a)) == Some(a),
        upper_seq(attr_name(a)) != bytes_of("ALL"),
        upper_seq(attr_name(a)) != bytes_of("FAST"),
        upper_seq(attr_name(a)) != bytes_of("FULL"),
{
    lemma_item_keywords();
}

/// A rendered item list parses back to itself.
proof fn lemma_attr_list_roundtrip(l: Seq<FetchAttr>)
    requires
        l.len() > 0,
    ensures
        spec_parse_attr_list(enc_attr_list(l)) == Some(l),
    decreases l.len(),
{
    let e = enc_attr_list(l);
    if l.len() == 1 {
        lemma_attr_facts(l[0]);
        lemma_first_of_none(e, 32);
        assert(seq![l[0]] =~= l);
    } else {
        lemma_attr_facts(l[0]);
        lemma_attr_list_roundtrip(l.drop_first());
        let e0 = attr_name(l[0]);
        let er = enc_attr_list(l.drop_first());
        assert(e == e0 + seq![32u8] + er);
        assert(e[e0.len() as int] == 32);
        assert forall|j: int| 0 <= j < e0.len() implies #[trigger] e[j] != 32 by {
            assert(e[j] == e0[j]);
        }
        lemma_first_of_is(e, 32, e0.len() as int);
        assert(e.subrange(0, e0.len() as int) =~= e0);
        assert(e.subrange(e0.len() as int + 1, e.len() as int) =~= er);
        assert(seq![l[0]] + l.drop_first() =~= l);
    }
}

/// A rendered item request parses back to itself.
proof fn lemma_items_roundtrip(it: FetchItemsView)
    requires
        it matches FetchItemsView::Names(l) ==> l.len() > 0,
    ensures
        spec_parse_items(enc_items(it)) == Some(it),
{
    lemma_item_keywords();
    match it {
        FetchItemsView::Macros(FetchMacro::All) => {},
        FetchItemsView::Macros(FetchMacro::Fast) => {},
        FetchItemsView::Macros(FetchMacro::Full) => {},
        FetchItemsView::Names(l) => {
            if l.len() == 1 {
                lemma_attr_facts(l[0]);
                assert(seq![l[0]] =~= l);
            } else {
                lemma_attr_list_roundtrip(l);
                let inner = enc_attr_list(l);
                let e = seq![40u8] + inner + seq![41u8];
                assert(enc_items(it) == e);
                assert(e[0] == 40);
                assert(e.last() == 41);
                assert(e.len() >= 2);
                assert(e.subrange(1, e.len() - 1) =~= inner);
            }
        },
    }
}

/// Atom bytes are never the space.
proof fn lemma_token_no_sp(s: Seq<u8>, wild: bool)
    requires
        all_token_bytes(s, wild),
    ensures
        forall|i: int| 0 <= i < s.len() ==> #[trigger] s[i] != 32,
{
    assert forall|i: int| 0 <= i < s.len() implies #[trigger] s[i] != 32 by {
        if wild {
            assert(crate::command::is_list_byte(s[i]));
        } else {
            assert(is_atom_byte(s[i]));
        }
    }
}

/// The SEARCH body after its verb, with or without a `UID` prefix
/// already consumed, decodes back to the search it renders.
#[verifier::rlimit(100)]
#[verifier::spinoff_prover]
proof fn lemma_search_core(charset: Option<Seq<u8>>, criteria: Seq<u8>, uid: bool)
    requires
        valid_criteria(criteria),
        match charset {
            Some(cs) => cs.len() > 0 && all_token_bytes(cs, false),
            None => upper_seq(head_token(criteria)) != bytes_of("CHARSET"),
        },
    ensures
        spec_decode_body(
            bytes_of("SEARCH ") + (match charset {
                Some(cs) => bytes_of("CHARSET ") + cs + seq![32u8],
                None => Seq::<u8>::empty(),
            }) + criteria,
            uid,
        ) == Ok::<BodyView, DecodeError>(
            BodyView::Search { charset: charset, criteria: criteria, uid: uid },
        ),
{
    lemma_keywords();
    lemma_kw_spaces();
    let chpart = match charset {
        Some(cs) => bytes_of("CHARSET ") + cs + seq![32u8],
        None => Seq::<u8>::empty(),
    };
    let rest = bytes_of("SEARCH ") + chpart + criteria;
    let args = chpart + criteria;
    assert(rest =~= bytes_of("SEARCH") + seq![32u8] + args);
    lemma_split_sp(bytes_of("SEARCH"), args);
    match charset {
        Some(cs) => {
            lemma_token_no_sp(cs, false);
            let r1 = cs + seq![32u8] + criteria;
            assert(args =~= bytes_of("CHARSET") + seq![32u8] + r1);
            lemma_split_sp(bytes_of("CHARSET"), r1);
            lemma_split_sp(cs, criteria);
        },
        None => {
            assert(args =~= criteria);
        },
    }
}

/// The FETCH body after its verb decodes back to the fetch it renders.
proof fn lemma_fetch_core(set: Seq<Sequence>, items: FetchItemsView, uid: bool)
    requires
        set.len() > 0,
        forall|i: int| 0 <= i < set.len() ==> valid_elem(#[trigger] set[i]),
        items matches FetchItemsView::Names(l) ==> l.len() > 0,
    ensures
        spec_decode_body(
            bytes_of("FETCH ") + enc_seq_set(set) + seq![32u8] + enc_items(items),
            uid,
        ) == Ok::<BodyView, DecodeError>(
            BodyView::Fetch { seq_set: set, items: items, uid: uid },
        ),
{
    lemma_keywords();
    lemma_kw_spaces();
    lemma_seq_set_no_sp(set);
    lemma_seq_set_roundtrip(set);
    lemma_items_roundtrip(items);
    let rest = bytes_of("FETCH ") + enc_seq_set(set) + seq![32u8] + enc_items(items);
    let args = enc_seq_set(set) + seq![32u8] + enc_items(items);
    assert(rest =~= bytes_of("FETCH") + seq![32u8] + args);
    lemma_split_sp(bytes_of("FETCH"), args);
    lemma_split_sp(enc_seq_set(set), enc_items(items));
}

/// A well-formed body, rendered canonically, decodes back to itself.
#[verifier::rlimit(100)]
#[verifier::spinoff_prover]
proof fn lemma_body_roundtrip(b: BodyView)
    requires
        valid_command(CommandView { tag: seq![65u8], body: b }),
    ensures
        spec_decode_body(enc_body(b), false) == Ok::<BodyView, DecodeError>(b),
{
    lemma_keywords();
    lemma_kw_spaces();
    match b {
        BodyView::Noop => {
            lemma_whole_token(bytes_of("NOOP"));
        },
        BodyView::Capability => {
            lemma_whole_token(bytes_of("CAPABILITY"));
        },
        BodyView::Logout => {
            lemma_whole_token(bytes_of("LOGOUT"));
        },
        BodyView::Login { username, password } => {
            let rest = enc_body(b);
            let tail = seq![32u8] + enc_astring(password);
            let args = enc_astring(username) + tail;
            assert(rest =~= bytes_of("LOGIN") + seq![32u8] + args);
            lemma_split_sp(bytes_of("LOGIN"), args);
            lemma_astring_roundtrip(username, tail, false);
            assert(tail.drop_first() =~= enc_astring(password));
            assert(enc_astring(password) + Seq::<u8>::empty() =~= tail.drop_first());
            lemma_astring_roundtrip(password, Seq::<u8>::empty(), false);
        },
        BodyView::Select { mailbox } => {
            let args = enc_astring(mailbox);
            assert(enc_body(b) =~= bytes_of("SELECT") + seq![32u8] + args);
            lemma_split_sp(bytes_of("SELECT"), args);
            assert(enc_astring(mailbox) + Seq::<u8>::empty() =~= args);
            lemma_astring_roundtrip(mailbox, Seq::<u8>::empty(), false);
        },
        BodyView::List { reference, wildcard } => {
            let tail = seq![32u8] + enc_list_token(wildcard);
            let args = enc_astring(reference) + tail;
            assert(enc_body(b) =~= bytes_of("LIST") + seq![32u8] + args);
            lemma_split_sp(bytes_of("LIST"), args);
            lemma_astring_roundtrip(reference, tail, false);
            assert(tail.drop_first() =~= enc_list_token(wildcard));
            assert(enc_list_token(wildcard) + Seq::<u8>::empty() =~= tail.drop_first());
            lemma_astring_roundtrip(wildcard, Seq::<u8>::empty(), true);
        },
        BodyView::Search { charset, criteria, uid } => {
            let chpart = match charset {
                Some(cs) => bytes_of("CHARSET ") + cs + seq![32u8],
                None => Seq::<u8>::empty(),
            };
            let core = bytes_of("SEARCH ") + chpart + criteria;
            lemma_search_core(charset, criteria, uid);
            if uid {
                assert(enc_body(b) =~= bytes_of("UID") + seq![32u8] + core);
                lemma_split_sp(bytes_of("UID"), core);
                assert(spec_decode_body(enc_body(b), false) == spec_decode_body(core, true));
            } else {
                assert(enc_body(b) =~= core);
            }
        },
        BodyView::Fetch { seq_set, items, uid } => {
            let core = bytes_of("FETCH ") + enc_seq_set(seq_set) + seq![32u8] + enc_items(items);
            lemma_fetch_core(seq_set, items, uid);
            if uid {
                assert(enc_body(b) =~= bytes_of("UID") + seq![32u8] + core);
                lemma_split_sp(bytes_of("UID"), core);
                assert(spec_decode_body(enc_body(b), false) == spec_decode_body(core, true));
            } else {
                assert(enc_body(b) =~= core);
            }
        },
        BodyView::Unsupported { .. } => {
            assert(false);
        },
    }
}

/// The decoder inverts the encoder: any well-formed command, rendered by
/// `enc_command` (as `encode_command` does), decodes back to the very
/// same command — tag, variant and arguments.
pub proof fn lemma_decode_encode_roundtrip(c: CommandView)
    requires
        valid_command(c),
    ensures
        spec_decode(enc_command(c)) == Ok::<CommandView, DecodeError>(c),
{
    lemma_tag_no_sp(c.tag);
    lemma_split_sp(c.tag, enc_body(c.body));
    assert(valid_command(CommandView { tag: seq![65u8], body: c.body })) by {
        assert(is_tag_byte(65));
    }
    lemma_body_roundtrip(c.body);
    assert(c == (CommandView { tag: c.tag, body: c.body }));
}

} // verus!
