//! A verified core for a small image-processing tool: a script language for
//! image operations is compiled into a typed instruction list, and an engine
//! interprets that list against an image, threading modifier state through.

use vstd::prelude::*;

pub mod config;
pub mod engine;
pub mod errors;
pub mod numeral;
pub mod operations;
pub mod parser;

verus! {

/// The name of this tool, as shown in diagnostics.
pub fn get_tool_name() -> (r: &'static str)
    ensures
        r@ == "imagineer"@,
{
    "imagineer"
}

} // verus!
