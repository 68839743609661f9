pub mod bytes;
pub mod dynamic_string;
pub mod html_chunk;
pub mod html_entities;
pub mod html_heuristics;
pub mod html_parser;
pub mod tag_parser;

use vstd::prelude::*;

verus! {

/// Tests whether a byte is an ASCII whitespace character as the tokenizer
/// understands it: tab, line feed, carriage return or space.
pub fn is_whitespace(b: u8) -> (r: bool)
    ensures
        r == is_whitespace_byte(b),
{
    b == 9 || b == 10 || b == 13 || b == 32
}

/// A byte counts as whitespace when it is tab, line feed, carriage return
/// or space.
pub open spec fn is_whitespace_byte(b: u8) -> bool {
    b == 9 || b == 10 || b == 13 || b == 32
}

} // verus!
