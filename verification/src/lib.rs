//! A small local-persistence library: save text content at a path, read it
//! back, and resolve a per-application data directory, with the directory
//! creation, overwrite and error semantics stated as contracts.

use vstd::prelude::*;
use vstd::string::*;

pub mod errors;
pub mod laws;
pub mod paths;
pub mod store;

verus! {

/// Builds the greeting shown to a newly connected front end.
pub fn greet(name: &str) -> (r: String)
    ensures
        r@ == "Hello, "@ + name@ + "! You've been greeted from Rust!"@,
{
    let mut s = String::from_str("Hello, ");
    s.append(name);
    s.append("! You've been greeted from Rust!");
    s
}

} // verus!
