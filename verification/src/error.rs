//! The library's error values: why a line failed to decode, and the
//! crate-level error wrapper callers see.
use vstd::prelude::*;

verus! {

/// Why a command line did not decode: a malformed tag, a verb this server
/// does not recognize, or arguments that do not fit the verb's grammar.
#[derive(Clone, Copy, Debug, PartialEq, Eq, Structural)]
pub enum DecodeError {
    BadTag,
    UnknownCommand,
    BadArguments,
}

/// The crate-level error wrapper: a decode failure is the one error kind
/// the session engine itself can produce.
#[derive(Clone, Copy, Debug, PartialEq, Eq, Structural)]
pub struct WError(pub DecodeError);

impl WError {
    /// A short description of the error, in place of a `Display` rendering.
    pub fn message(&self) -> (r: &'static str)
        ensures
            self.0 is BadTag ==> r@ == "malformed tag"@,
            self.0 is UnknownCommand ==> r@ == "unknown command"@,
            self.0 is BadArguments ==> r@ == "malformed arguments"@,
    {
        match self.0 {
            DecodeError::BadTag => "malformed tag",
            DecodeError::UnknownCommand => "unknown command",
            DecodeError::BadArguments => "malformed arguments",
        }
    }
}

impl From<DecodeError> for WError {
    fn from(e: DecodeError) -> (r: WError) {
        WError(e)
    }
}

impl vstd::std_specs::convert::FromSpecImpl<DecodeError> for WError {
    open spec fn obeys_from_spec() -> bool {
        true
    }

    open spec fn from_spec(e: DecodeError) -> WError {
        WError(e)
    }
}

} // verus!
