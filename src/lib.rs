use vstd::prelude::*;

pub mod env;
pub mod frame;
pub mod lambda;
pub mod laws;
pub mod runtime_error;
pub mod symbol;
mod text;

pub use env::Env;
pub use frame::Frame;
pub use lambda::Lambda;
pub use runtime_error::RuntimeError;
pub use symbol::Symbol;

verus! {

} // verus!
