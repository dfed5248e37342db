//! The generated sample texts, one line per file.
use vstd::prelude::*;

verus! {

/// A sample text as stored in its file.
#[derive(Clone, Debug)]
pub struct Line {
    pub text: String,
}

} // verus!
