use vstd::prelude::*;

pub mod builtins;
pub mod context;
pub mod eval;
pub mod event;
pub mod expand;
pub mod history;
pub mod parser;
pub mod path;
pub mod process;
pub mod resolve;
pub mod shell;
pub mod text;
pub mod variable;

verus! {

} // verus!
