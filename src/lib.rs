//! Turns system-call trace lines into structured records: the three line
//! shapes (complete, unfinished, resumed), their typed fields, and the
//! statistics of scanning the lines of a file.
use vstd::prelude::*;

pub mod numbers;
pub mod parser;
pub mod pipeline;
pub mod processor;
pub mod text;
pub mod types;

verus! {

} // verus!
