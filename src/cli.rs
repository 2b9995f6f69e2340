use vstd::prelude::*;

verus! {

/// What the command line asks for: the path of the one source file.
#[derive(Debug, Clone, PartialEq, Eq)]
pub struct Options {
    pub input: String,
}

} // verus!
