//! Extraction of calendar records from the text of a semi-structured
//! academic-calendar document.
//!
//! The pipeline has two stages: a line accumulator that merges wrapped
//! physical lines into logical entry lines (`accumulate`), and an entry
//! parser that turns one logical line into a canonical record (`parse`).

#![verifier::loop_isolation(false)]

use vstd::prelude::*;

pub mod accumulate;
pub mod laws;
pub mod parse;
pub mod pattern;
pub mod text;

verus! {

/// A decimal digit, as the date and time patterns use it.
pub open spec fn is_digit(c: char) -> bool {
    '0' <= c && c <= '9'
}

/// Runtime test for `is_digit`.
pub fn digit(c: char) -> (b: bool)
    ensures
        b == is_digit(c),
{
    '0' <= c && c <= '9'
}

} // verus!
