//! Planning and interpretation of video previews.
//!
//! The library decides which external prober and encoder commands to run for a
//! video file, and turns what those commands print into thumbnails and
//! metadata. It never starts a process or touches the file system itself: a
//! host runs the commands and reports their outcomes.

use vstd::prelude::*;
use vstd::string::*;

pub mod decimal;
pub mod text;
pub mod process;
pub mod frame;
pub mod duration;
pub mod files;
pub mod thumbnails;
pub mod json;
pub mod metadata;

verus! {

/// The words that greet `name`.
pub open spec fn greeting(name: Seq<char>) -> Seq<char> {
    "Hello, "@ + name + "! You've been greeted from Rust!"@
}

/// Greets `name`.
pub fn greet(name: &str) -> (text: String)
    ensures
        text@ == greeting(name@),
{
    let mut text = "Hello, ".to_owned();
    text.append(name);
    text.append("! You've been greeted from Rust!");
    text
}

} // verus!
