use imap_session::command::{
    Command, CommandBody, FetchAttr, FetchItems, FetchMacro, SeqEntry, Sequence,
};
use imap_session::encode::encode_command;
use imap_session::error::DecodeError;
use imap_session::parse::decode;

fn roundtrip(cmd: Command) -> Command {
    let wire = encode_command(&cmd);
    decode(&wire).expect("canonical encoding must decode")
}

#[test]
fn decode_noop() {
    let c = decode(b"a1 NOOP").unwrap();
    assert_eq!(c.tag, b"a1".to_vec());
    assert!(matches!(c.body, CommandBody::Noop));
}

#[test]
fn decode_verb_case_insensitive() {
    let c = decode(b"a1 noop").unwrap();
    assert!(matches!(c.body, CommandBody::Noop));
    let c = decode(b"a2 LoGoUt").unwrap();
    assert!(matches!(c.body, CommandBody::Logout));
}

#[test]
fn decode_login_atoms() {
    let c = decode(b"tag7 LOGIN alice secret").unwrap();
    assert_eq!(c.tag, b"tag7".to_vec());
    match c.body {
        CommandBody::Login { username, password } => {
            assert_eq!(username, b"alice".to_vec());
            assert_eq!(password, b"secret".to_vec());
        }
        other => panic!("wrong body: {:?}", other),
    }
}

#[test]
fn decode_login_quoted() {
    let c = decode(b"a1 LOGIN \"alice a\" \"p w\"").unwrap();
    match c.body {
        CommandBody::Login { username, password } => {
            assert_eq!(username, b"alice a".to_vec());
            assert_eq!(password, b"p w".to_vec());
        }
        other => panic!("wrong body: {:?}", other),
    }
}

#[test]
fn decode_select() {
    let c = decode(b"a1 SELECT inbox").unwrap();
    match c.body {
        CommandBody::Select { mailbox } => assert_eq!(mailbox, b"inbox".to_vec()),
        other => panic!("wrong body: {:?}", other),
    }
}

#[test]
fn decode_list_wildcards() {
    let c = decode(b"a1 LIST \"\" *").unwrap();
    match c.body {
        CommandBody::List { reference, wildcard } => {
            assert_eq!(reference, b"".to_vec());
            assert_eq!(wildcard, b"*".to_vec());
        }
        other => panic!("wrong body: {:?}", other),
    }
}

#[test]
fn decode_search_plain() {
    let c = decode(b"a1 SEARCH ALL").unwrap();
    match c.body {
        CommandBody::Search { charset, criteria, uid } => {
            assert!(charset.is_none());
            assert_eq!(criteria, b"ALL".to_vec());
            assert!(!uid);
        }
        other => panic!("wrong body: {:?}", other),
    }
}

#[test]
fn decode_search_charset() {
    let c = decode(b"a1 SEARCH CHARSET UTF-8 UNSEEN SINCE 1-Feb-1994").unwrap();
    match c.body {
        CommandBody::Search { charset, criteria, uid } => {
            assert_eq!(charset, Some(b"UTF-8".to_vec()));
            assert_eq!(criteria, b"UNSEEN SINCE 1-Feb-1994".to_vec());
            assert!(!uid);
        }
        other => panic!("wrong body: {:?}", other),
    }
}

#[test]
fn decode_uid_search() {
    let c = decode(b"a1 UID SEARCH ALL").unwrap();
    match c.body {
        CommandBody::Search { uid, .. } => assert!(uid),
        other => panic!("wrong body: {:?}", other),
    }
}

#[test]
fn decode_fetch_single() {
    let c = decode(b"a1 FETCH 7 RFC822.SIZE").unwrap();
    match c.body {
        CommandBody::Fetch { seq_set, items, uid } => {
            assert_eq!(seq_set, vec![Sequence::Single(SeqEntry::Num(7))]);
            match items {
                FetchItems::Names(names) => assert_eq!(names, vec![FetchAttr::Rfc822Size]),
                other => panic!("wrong items: {:?}", other),
            }
            assert!(!uid);
        }
        other => panic!("wrong body: {:?}", other),
    }
}

#[test]
fn decode_fetch_ranges_and_star() {
    let c = decode(b"a1 FETCH 1,2:4,* (FLAGS UID)").unwrap();
    match c.body {
        CommandBody::Fetch { seq_set, items, .. } => {
            assert_eq!(
                seq_set,
                vec![
                    Sequence::Single(SeqEntry::Num(1)),
                    Sequence::Range(SeqEntry::Num(2), SeqEntry::Num(4)),
                    Sequence::Single(SeqEntry::Star),
                ]
            );
            match items {
                FetchItems::Names(names) => {
                    assert_eq!(names, vec![FetchAttr::Flags, FetchAttr::Uid])
                }
                other => panic!("wrong items: {:?}", other),
            }
        }
        other => panic!("wrong body: {:?}", other),
    }
}

#[test]
fn decode_uid_fetch_macro() {
    let c = decode(b"a1 UID FETCH 3:* FAST").unwrap();
    match c.body {
        CommandBody::Fetch { seq_set, items, uid } => {
            assert_eq!(
                seq_set,
                vec![Sequence::Range(SeqEntry::Num(3), SeqEntry::Star)]
            );
            assert!(matches!(items, FetchItems::Macros(FetchMacro::Fast)));
            assert!(uid);
        }
        other => panic!("wrong body: {:?}", other),
    }
}

#[test]
fn decode_bad_tag() {
    assert_eq!(decode(b"+ NOOP").unwrap_err(), DecodeError::BadTag);
    assert_eq!(decode(b"").unwrap_err(), DecodeError::BadTag);
}

#[test]
fn decode_unknown_command() {
    assert_eq!(decode(b"a1 FROBNICATE x").unwrap_err(), DecodeError::UnknownCommand);
    assert_eq!(decode(b"a1").unwrap_err(), DecodeError::UnknownCommand);
    assert_eq!(decode(b"a1 UID NOOP").unwrap_err(), DecodeError::UnknownCommand);
}

#[test]
fn decode_bad_arguments() {
    assert_eq!(decode(b"a1 LOGIN alice").unwrap_err(), DecodeError::BadArguments);
    assert_eq!(decode(b"a1 NOOP extra").unwrap_err(), DecodeError::BadArguments);
    assert_eq!(decode(b"a1 FETCH 0 FLAGS").unwrap_err(), DecodeError::BadArguments);
    assert_eq!(decode(b"a1 FETCH 1:2 (FLAGS BOGUS)").unwrap_err(), DecodeError::BadArguments);
    assert_eq!(decode(b"a1 SELECT").unwrap_err(), DecodeError::BadArguments);
}

#[test]
fn encode_login_quotes_when_needed() {
    let cmd = Command {
        tag: b"a1".to_vec(),
        body: CommandBody::Login {
            username: b"alice".to_vec(),
            password: b"p w".to_vec(),
        },
    };
    assert_eq!(encode_command(&cmd), b"a1 LOGIN alice \"p w\"".to_vec());
}

#[test]
fn encode_fetch_canonical() {
    let cmd = Command {
        tag: b"t9".to_vec(),
        body: CommandBody::Fetch {
            seq_set: vec![
                Sequence::Range(SeqEntry::Num(2), SeqEntry::Num(4)),
                Sequence::Single(SeqEntry::Star),
            ],
            items: FetchItems::Names(vec![FetchAttr::Flags, FetchAttr::Uid]),
            uid: true,
        },
    };
    assert_eq!(encode_command(&cmd), b"t9 UID FETCH 2:4,* (FLAGS UID)".to_vec());
}

#[test]
fn roundtrip_tag_and_variant() {
    let cases = vec![
        Command { tag: b"a1".to_vec(), body: CommandBody::Noop },
        Command { tag: b"B2]".to_vec(), body: CommandBody::Capability },
        Command { tag: b"x".to_vec(), body: CommandBody::Logout },
        Command {
            tag: b"a4".to_vec(),
            body: CommandBody::Login {
                username: b"user@example.com".to_vec(),
                password: b"top secret".to_vec(),
            },
        },
        Command {
            tag: b"a5".to_vec(),
            body: CommandBody::Select { mailbox: b"Mail/meetings".to_vec() },
        },
        Command {
            tag: b"a6".to_vec(),
            body: CommandBody::List {
                reference: b"".to_vec(),
                wildcard: b"Mail/%".to_vec(),
            },
        },
        Command {
            tag: b"a7".to_vec(),
            body: CommandBody::Search {
                charset: Some(b"UTF-8".to_vec()),
                criteria: b"UNSEEN".to_vec(),
                uid: true,
            },
        },
        Command {
            tag: b"a8".to_vec(),
            body: CommandBody::Fetch {
                seq_set: vec![
                    Sequence::Single(SeqEntry::Num(1)),
                    Sequence::Range(SeqEntry::Num(2), SeqEntry::Star),
                ],
                items: FetchItems::Macros(FetchMacro::All),
                uid: false,
            },
        },
    ];
    for cmd in cases {
        let back = roundtrip(cmd.clone());
        assert_eq!(back.tag, cmd.tag);
        assert_eq!(
            std::mem::discriminant(&back.body),
            std::mem::discriminant(&cmd.body),
            "variant changed for {:?}",
            cmd
        );
    }
}

#[test]
fn roundtrip_full_equality() {
    let cmd = Command {
        tag: b"k1".to_vec(),
        body: CommandBody::Login {
            username: b"bob".to_vec(),
            password: b"with space".to_vec(),
        },
    };
    let back = roundtrip(cmd);
    match back.body {
        CommandBody::Login { username, password } => {
            assert_eq!(username, b"bob".to_vec());
            assert_eq!(password, b"with space".to_vec());
        }
        other => panic!("wrong body: {:?}", other),
    }
}
