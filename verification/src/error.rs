//! What can go wrong when an address is worked out.

use vstd::prelude::*;

verus! {

/// Why an address could not be worked out.
#[derive(Debug)]
pub enum Error {
    /// Failed to evaluate the expression.
    AddrEval,
    /// Failed to find the module of this name.
    MissingModule(String),
}

/// `Error` as a plain value.
pub enum Fault {
    AddrEval,
    MissingModule(Seq<char>),
}

impl View for Error {
    type V = Fault;

    open spec fn view(&self) -> Fault {
        match self {
            Error::AddrEval => Fault::AddrEval,
            Error::MissingModule(name) => Fault::MissingModule(name@),
        }
    }
}

} // verus!
