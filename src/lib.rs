//! A formatter for SystemVerilog sources: token classification, structural
//! analysis of the parse tree, a streaming emission engine and a line wrapper,
//! each stated with contracts over sequences of characters.
use vstd::prelude::*;

pub mod config;
pub mod formatter;
pub mod parser;
pub mod report;
pub mod text;

verus! {

} // verus!
