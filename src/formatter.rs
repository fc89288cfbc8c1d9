//! The formatting engine and the passes that feed it.
use vstd::prelude::*;

pub mod analysis;
pub mod emitter;
pub mod engine;
pub mod lexer;
pub mod tree;
pub mod wrapping;

pub use engine::format_text;



verus! {

} // verus!
