//! Hexadecimal digits.

use crate::text::digit;
use vstd::prelude::*;

verus! {

/// The lower-case hexadecimal digit of a value below sixteen.
pub open spec fn hex_digit(value: int) -> char {
    if value < 10 {
        digit(value)
    } else {
        (87 + value) as u8 as char
    }
}

} // verus!
