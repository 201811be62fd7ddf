//! Calibration values: each line of a document yields a two-digit number made of
//! the first and the last digit found in it, and a document's total is the sum
//! of those numbers. Digits are found either as ASCII digits alone, or as ASCII
//! digits and the spelled-out words "one" to "nine".
pub mod text;
pub mod extract;
pub mod calibration;

pub use calibration::{line_value, process_file};
pub use extract::{part1_extractor, part2_extractor, Extractor};
