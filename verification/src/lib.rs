//! Fast byte-oriented input and output: a scanner that splits its input into
//! whitespace-delimited tokens and parses them, and an output buffer that
//! formats values into bytes.

pub mod laws;
pub mod output;
pub mod round_trip;
pub mod scanner;

pub use output::{OutputBuffer, Writable};
pub use scanner::{Readable, Scanner};
