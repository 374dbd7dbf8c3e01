//! The errors of the runtime.

use vstd::prelude::*;

verus! {

/// An error of the runtime, with its message.
#[derive(Debug, PartialEq, Eq)]
pub enum RuntimeError {
    Tool(String),
    Ipc(String),
    Io(String),
}

} // verus!
