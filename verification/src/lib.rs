//! An IMAP4rev1 session engine: framing, command decoding, session state,
//! dispatch and response encoding for a single connection, with the
//! transport and process setup left to the surrounding program.
use vstd::prelude::*;

pub mod command;
pub mod dispatch;
pub mod engine;
pub mod encode;
pub mod error;
pub mod frame;
pub mod parse;
pub mod respond;
pub mod roundtrip;
pub mod session;
pub mod store;
pub mod text;

verus! {

/// The default port an IMAP listener binds when the configuration names none.
pub fn default_imap_port() -> (p: u16)
    ensures
        p == 143,
{
    143
}

/// The default port an SMTP listener binds when the configuration names none.
pub fn default_smtp_port() -> (p: u16)
    ensures
        p == 25,
{
    25
}

} // verus!
