use vstd::prelude::*;

use crate::symbol::Symbol;
use crate::text::append;

verus! {

/// A failure of a scope-chain operation, reported by its message alone.
#[derive(Debug)]
pub struct RuntimeError {
    pub message: String,
}

/// Message of the error for popping a frame off an empty environment.
pub open spec fn stack_underflow_message() -> Seq<char> {
    "No env frames left."@
}

/// Message of the error for assigning to a symbol that no frame binds.
pub open spec fn undefined_symbol_message(name: Seq<char>) -> Seq<char> {
    "Tried to set value of undefined symbol \""@ + name + "\""@
}

impl RuntimeError {
    pub fn new(message: String) -> (r: RuntimeError)
        ensures
            r.message == message,
    {
        RuntimeError { message }
    }

    /// The message as reported to a user.
    pub fn describe(&self) -> (r: String)
        ensures
            r@ == "Runtime error: "@ + self.message@,
    {
        proof {
            reveal_strlit("Runtime error: ");
        }
        let mut text = "Runtime error: ".to_owned();
        append(&mut text, self.message.as_str());
        text
    }

    /// The error for popping a frame off an empty environment.
    pub fn stack_underflow() -> (r: RuntimeError)
        ensures
            r.message@ == stack_underflow_message(),
    {
        proof {
            reveal_strlit("No env frames left.");
        }
        RuntimeError::new("No env frames left.".to_owned())
    }

    /// The error for assigning to `symbol` where no frame binds it.
    pub fn undefined_symbol(symbol: &Symbol) -> (r: RuntimeError)
        ensures
            r.message@ == undefined_symbol_message(symbol@),
    {
        let mut message = String::new();
        append(&mut message, "Tried to set value of undefined symbol \"");
        append(&mut message, symbol.name());
        append(&mut message, "\"");
        RuntimeError::new(message)
    }
}

} // verus!
