//! What a caller asks for.

use vstd::prelude::*;

verus! {

/// The EPUB files to repair, in the order in which they were given.
#[derive(Debug)]
pub struct Args {
    pub filenames: Vec<String>,
}

} // verus!
