//! What the package servers decide: their options, and which files of a directory are
//! package metadata.
use vstd::prelude::*;
use vstd::string::*;
use crate::paths::{extension, extension_of};

verus! {

/// Options of a package server.
#[derive(Clone, Debug)]
pub struct Args {
    /// The directory to serve.
    pub serve: String,
    pub port: u16,
}

/// The port served on when none is given.
pub const DEFAULT_PORT: u16 = 8888;

/// Whether the file at `path` is read as package metadata: it has the extension `json`.
pub fn is_metadata_file(path: &str) -> (r: bool)
    ensures
        r == (extension_of(path@) == Some(seq!['j', 's', 'o', 'n'])),
{
    proof {
        reveal_strlit("json");
    }
    let json = String::from_str("json");
    assert(json@ =~= seq!['j', 's', 'o', 'n']);
    match extension(path) {
        Some(e) => e == json,
        None => false,
    }
}

} // verus!
