//! The command-line arguments the program runs with.

use vstd::prelude::*;

verus! {

/// The arguments: the target path to create the app in, as path bytes.
#[derive(Debug, PartialEq, Eq)]
pub struct Args {
    pub path: Vec<u8>,
}

} // verus!
