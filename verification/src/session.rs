//! Per-connection protocol state: which of the three IMAP states the
//! session is in, which mailbox is selected, and which commands each state
//! permits.
use vstd::prelude::*;

verus! {

use crate::command::BodyView;

/// The three protocol states of one connection.
#[derive(Clone, Copy, Debug, PartialEq, Eq, Structural)]
pub enum SessionState {
    NotAuthenticated,
    Authenticated,
    Selected,
}

/// One connection's session: its state and, in the Selected state, the
/// name of the selected mailbox.
#[derive(Clone, Debug)]
pub struct Session {
    pub state: SessionState,
    pub selected_mailbox: Option<Vec<u8>>,
}

/// The view of a `Session`.
pub ghost struct SessionView {
    pub state: SessionState,
    pub selected: Option<Seq<u8>>,
}

impl View for Session {
    type V = SessionView;

    open spec fn view(&self) -> SessionView {
        SessionView {
            state: self.state,
            selected: match &self.selected_mailbox {
                Some(m) => Some(m@),
                None => None,
            },
        }
    }
}

/// The session invariant: a mailbox is selected exactly in the Selected
/// state.
pub open spec fn session_wf(s: SessionView) -> bool {
    s.state is Selected <==> s.selected is Some
}

impl Session {
    /// A fresh session: not authenticated, nothing selected.
    pub fn new() -> (r: Session)
        ensures
            r@.state is NotAuthenticated,
            r@.selected is None,
            session_wf(r@),
    {
        Session { state: SessionState::NotAuthenticated, selected_mailbox: None }
    }
}

/// The state table: which commands are legal in which state. NOOP,
/// CAPABILITY and LOGOUT are always legal; LOGIN only before
/// authentication; LIST and SELECT once authenticated; SEARCH and FETCH
/// only with a mailbox selected; a recognized but unimplemented command
/// is legal nowhere.
pub open spec fn legal_in(st: SessionState, b: BodyView) -> bool {
    match b {
        BodyView::Noop => true,
        BodyView::Capability => true,
        BodyView::Logout => true,
        BodyView::Login { .. } => st is NotAuthenticated,
        BodyView::List { .. } => st is Authenticated || st is Selected,
        BodyView::Select { .. } => st is Authenticated || st is Selected,
        BodyView::Search { .. } => st is Selected,
        BodyView::Fetch { .. } => st is Selected,
        BodyView::Unsupported { .. } => false,
    }
}

/// Decides the state table for a concrete command body.
pub fn legal(st: SessionState, b: &crate::command::CommandBody) -> (r: bool)
    ensures
        r == legal_in(st, b@),
{
    match b {
        crate::command::CommandBody::Noop => true,
        crate::command::CommandBody::Capability => true,
        crate::command::CommandBody::Logout => true,
        crate::command::CommandBody::Login { .. } => matches!(st, SessionState::NotAuthenticated),
        crate::command::CommandBody::List { .. } => matches!(
            st,
            SessionState::Authenticated | SessionState::Selected
        ),
        crate::command::CommandBody::Select { .. } => matches!(
            st,
            SessionState::Authenticated | SessionState::Selected
        ),
        crate::command::CommandBody::Search { .. } => matches!(st, SessionState::Selected),
        crate::command::CommandBody::Fetch { .. } => matches!(st, SessionState::Selected),
        crate::command::CommandBody::Unsupported { .. } => false,
    }
}

} // verus!
