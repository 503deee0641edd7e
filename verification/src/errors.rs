//! Error values of the engine.  No failure here aborts a batch: callers
//! retry, skip the single item, or record a sentinel value.

use vstd::prelude::*;

verus! {

/// A plain error carrying its message.
#[derive(Debug)]
pub struct AnyError {
    /// What went wrong, in words.
    pub message: String,
}

impl AnyError {
    /// The error's message.
    pub fn text(&self) -> (r: &String)
        ensures
            r@ == self.message@,
    {
        &self.message
    }
}

/// An error that a caller is expected to tolerate.
pub fn new_warn(message: &str) -> (e: AnyError)
    ensures
        e.message@ == message@,
{
    AnyError { message: message.to_owned() }
}

/// An error that ends the failing step.
pub fn new_err(message: &str) -> (e: AnyError)
    ensures
        e.message@ == message@,
{
    AnyError { message: message.to_owned() }
}

/// Why a feed document or a detail page could not be read.
pub enum ParseError {
    /// A fixed markup anchor was missing or malformed.
    CustomError(String),
}

} // verus!
