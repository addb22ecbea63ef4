//! The typed form of a decoded client command: its tag, its body, and the
//! argument types the supported command set carries (sequence sets, fetch
//! item lists), together with their mathematical views and validity.
use vstd::prelude::*;

verus! {

/// A message address in a sequence set: a number or `*`, which stands for
/// the highest number currently in use in the selected mailbox.
#[derive(Clone, Copy, Debug, PartialEq, Eq, Structural)]
pub enum SeqEntry {
    Num(u32),
    Star,
}

/// One element of a sequence set: a single address or an inclusive range.
#[derive(Clone, Copy, Debug, PartialEq, Eq, Structural)]
pub enum Sequence {
    Single(SeqEntry),
    Range(SeqEntry, SeqEntry),
}

/// The three FETCH item macros.
#[derive(Clone, Copy, Debug, PartialEq, Eq, Structural)]
pub enum FetchMacro {
    All,
    Fast,
    Full,
}

/// A single FETCH data item name.
#[derive(Clone, Copy, Debug, PartialEq, Eq, Structural)]
pub enum FetchAttr {
    Envelope,
    Flags,
    InternalDate,
    Rfc822,
    Rfc822Header,
    Rfc822Size,
    Rfc822Text,
    Body,
    BodyStructure,
    Uid,
}

/// What a FETCH asks for: a macro or an explicit list of item names.
#[derive(Clone, Debug)]
pub enum FetchItems {
    Macros(FetchMacro),
    Names(Vec<FetchAttr>),
}

/// The view of `FetchItems`, with the name list as a sequence.
pub ghost enum FetchItemsView {
    Macros(FetchMacro),
    Names(Seq<FetchAttr>),
}

impl View for FetchItems {
    type V = FetchItemsView;

    open spec fn view(&self) -> FetchItemsView {
        match self {
            FetchItems::Macros(m) => FetchItemsView::Macros(*m),
            FetchItems::Names(v) => FetchItemsView::Names(v@),
        }
    }
}

/// The body of a decoded command: the closed set of supported variants,
/// each with its typed arguments; a verb of the base protocol this
/// server recognizes but does not implement is carried as `Unsupported`
/// so the dispatcher can reject it by name.
#[derive(Clone, Debug)]
pub enum CommandBody {
    Noop,
    Capability,
    Logout,
    Login { username: Vec<u8>, password: Vec<u8> },
    List { reference: Vec<u8>, wildcard: Vec<u8> },
    Select { mailbox: Vec<u8> },
    Search { charset: Option<Vec<u8>>, criteria: Vec<u8>, uid: bool },
    Fetch { seq_set: Vec<Sequence>, items: FetchItems, uid: bool },
    Unsupported { verb: Vec<u8> },
}

/// The view of `CommandBody`, with every byte string as a sequence.
pub ghost enum BodyView {
    Noop,
    Capability,
    Logout,
    Login { username: Seq<u8>, password: Seq<u8> },
    List { reference: Seq<u8>, wildcard: Seq<u8> },
    Select { mailbox: Seq<u8> },
    Search { charset: Option<Seq<u8>>, criteria: Seq<u8>, uid: bool },
    Fetch { seq_set: Seq<Sequence>, items: FetchItemsView, uid: bool },
    Unsupported { verb: Seq<u8> },
}

impl View for CommandBody {
    type V = BodyView;

    open spec fn view(&self) -> BodyView {
        match self {
            CommandBody::Noop => BodyView::Noop,
            CommandBody::Capability => BodyView::Capability,
            CommandBody::Logout => BodyView::Logout,
            CommandBody::Login { username, password } => BodyView::Login {
                username: username@,
                password: password@,
            },
            CommandBody::List { reference, wildcard } => BodyView::List {
                reference: reference@,
                wildcard: wildcard@,
            },
            CommandBody::Select { mailbox } => BodyView::Select { mailbox: mailbox@ },
            CommandBody::Search { charset, criteria, uid } => BodyView::Search {
                charset: match charset {
                    Some(c) => Some(c@),
                    None => None,
                },
                criteria: criteria@,
                uid: *uid,
            },
            CommandBody::Fetch { seq_set, items, uid } => BodyView::Fetch {
                seq_set: seq_set@,
                items: items@,
                uid: *uid,
            },
            CommandBody::Unsupported { verb } => BodyView::Unsupported { verb: verb@ },
        }
    }
}

/// A decoded command: the client's tag, echoed in the completion response,
/// and the typed body.
#[derive(Clone, Debug)]
pub struct Command {
    pub tag: Vec<u8>,
    pub body: CommandBody,
}

/// The view of a `Command`.
pub ghost struct CommandView {
    pub tag: Seq<u8>,
    pub body: BodyView,
}

impl View for Command {
    type V = CommandView;

    open spec fn view(&self) -> CommandView {
        CommandView { tag: self.tag@, body: self.body@ }
    }
}

/// A byte an atom may hold: printable ASCII except the grammar's
/// atom-specials `( ) { % * " \ ]` and space.
pub open spec fn is_atom_byte(b: u8) -> bool {
    &&& 33 <= b <= 126
    &&& b != 40 && b != 41 && b != 123
    &&& b != 37 && b != 42
    &&& b != 34 && b != 92
    &&& b != 93
}

/// A byte a tag may hold: an atom byte or `]`, but never `+`.
pub open spec fn is_tag_byte(b: u8) -> bool {
    (is_atom_byte(b) || b == 93) && b != 43
}

/// A byte a quoted string may hold: printable ASCII or space, except the
/// quote and the backslash.
pub open spec fn is_quoted_byte(b: u8) -> bool {
    (b == 32 || 33 <= b <= 126) && b != 34 && b != 92
}

/// A byte a LIST pattern may hold: an atom byte, a wildcard or `]`.
pub open spec fn is_list_byte(b: u8) -> bool {
    is_atom_byte(b) || b == 37 || b == 42 || b == 93
}

/// A byte SEARCH criteria may hold: printable ASCII or space.
pub open spec fn is_text_byte(b: u8) -> bool {
    b == 32 || 33 <= b <= 126
}

/// A well-formed tag: nonempty, all tag bytes.
pub open spec fn valid_tag(s: Seq<u8>) -> bool {
    s.len() > 0 && forall|i: int| 0 <= i < s.len() ==> is_tag_byte(#[trigger] s[i])
}

/// A decimal digit.
pub open spec fn is_digit(b: u8) -> bool {
    48 <= b <= 57
}

} // verus!
