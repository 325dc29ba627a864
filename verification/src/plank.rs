//! The two validated value types: a plank with a bounded length, and a
//! deck with a bounded length and a positive width.

use vstd::prelude::*;

verus! {

/// A single board with a fixed length.
#[derive(Debug, PartialEq, Clone, Copy)]
pub struct Plank {
    pub length: usize,
}

impl Plank {
    pub const MAX_LENGTH: usize = 10000;

    /// A plank is valid when its length is within the declared bound.
    pub open spec fn valid(self) -> bool {
        self.length <= Plank::MAX_LENGTH
    }

    /// Builds a plank, rejecting a length over the bound.
    pub fn new(length: usize) -> (result: Result<Self, String>)
        ensures
            match result {
                Ok(p) => length <= Plank::MAX_LENGTH && p.length == length && p.valid(),
                Err(m) => length > Plank::MAX_LENGTH && m@ == "max length of plank is 10000"@,
            },
    {
        if length > Self::MAX_LENGTH {
            Err(String::from_str("max length of plank is 10000"))
        } else {
            Ok(Plank { length })
        }
    }
}

/// The target surface: `length` is each row's length goal, `width` the
/// number of rows.
#[derive(Debug, PartialEq, Clone, Copy)]
pub struct Deck {
    pub length: usize,
    pub width: usize,
}

impl Deck {
    pub const MAX_LENGTH: usize = 1_000_000;

    /// Builds a deck, rejecting a zero dimension or a length over the bound.
    pub fn new(length: usize, width: usize) -> (result: Result<Self, String>)
        ensures
            match result {
                Ok(d) => 1 <= length <= Deck::MAX_LENGTH && width >= 1 && d.length == length
                    && d.width == width,
                Err(m) => (length == 0 || width == 0 || length > Deck::MAX_LENGTH) && m@ == (
                if length == 0 || width == 0 {
                    "a deck can't have any zero dimension"@
                } else {
                    "max length of deck is 1000000"@
                }),
            },
    {
        if length == 0 || width == 0 {
            Err(String::from_str("a deck can't have any zero dimension"))
        } else if length > Self::MAX_LENGTH {
            Err(String::from_str("max length of deck is 1000000"))
        } else {
            Ok(Deck { length, width })
        }
    }
}

} // verus!
