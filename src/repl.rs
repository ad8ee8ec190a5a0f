//! The interactive front end's state. Reading lines and printing tokens is
//! left to the program around the library.

use vstd::prelude::*;

verus! {

/// A read-loop session that scans each line it is given.
pub struct Repl {}

impl Repl {
    pub fn new() -> (r: Repl) {
        Repl {}
    }
}

} // verus!
