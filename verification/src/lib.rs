//! A terminal system-information summary: a fixed decorative logo paired,
//! row by row, with display lines produced by a sequence of probes that
//! parse text read from OS-provided files, the environment, and the output
//! of external inventory commands.
//!
//! Everything here is pure: callers read the files and run the commands,
//! then hand the raw text in; the library parses, computes and renders.
use vstd::prelude::*;

pub mod env;
pub mod numfmt;
pub mod orchestrator;
pub mod probes;
pub mod render;
pub mod text;

verus! {

/// True when the first command-line argument selects fast mode, in which
/// no external command output is expected.
pub fn fast_mode(args: &Vec<String>) -> (r: bool)
    ensures
        r == (args@.len() > 1 && args@[1]@ == "--fast"@),
{
    args.len() > 1 && crate::text::str_eq(args[1].as_str(), "--fast")
}

} // verus!
