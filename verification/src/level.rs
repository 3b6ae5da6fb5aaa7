//! Measured levels.
//!
//! A level stands for one real number of a sample, a position or a zoom
//! factor. It is carried as a signed 64-bit key whose order is the order of the
//! numbers it stands for, so two levels compare exactly as the numbers do. The
//! key of a double is its bit pattern with the low 63 bits inverted where the
//! sign bit is set, and negative zero is carried as zero. `None` stands for
//! "not a number", which also marks a bound that no sample has set yet. The
//! library compares and moves levels and never does arithmetic on them.

use vstd::prelude::*;

verus! {

/// One number of a sample, or `None` where there is none.
pub type Level = Option<i64>;

/// The key of the number zero.
pub const LEVEL_ZERO: i64 = 0;

/// The key of the number one.
pub const LEVEL_ONE: i64 = 0x3FF0_0000_0000_0000;

/// The lesser of two levels, where an absent level yields to the other one.
pub open spec fn lower_of(a: Level, b: Level) -> Level {
    match (a, b) {
        (None, _) => b,
        (_, None) => a,
        (Some(x), Some(y)) => if x <= y { a } else { b },
    }
}

/// The greater of two levels, where an absent level yields to the other one.
pub open spec fn upper_of(a: Level, b: Level) -> Level {
    match (a, b) {
        (None, _) => b,
        (_, None) => a,
        (Some(x), Some(y)) => if x >= y { a } else { b },
    }
}

/// Whether `a` is a number strictly above `b`; false where either is absent.
pub open spec fn above(a: Level, b: Level) -> bool {
    a is Some && b is Some && a->0 > b->0
}

/// Computes the lesser of two levels.
pub fn lower(a: Level, b: Level) -> (r: Level)
    ensures
        r == lower_of(a, b),
{
    match (a, b) {
        (None, _) => b,
        (_, None) => a,
        (Some(x), Some(y)) => if x <= y { a } else { b },
    }
}

/// Computes the greater of two levels.
pub fn upper(a: Level, b: Level) -> (r: Level)
    ensures
        r == upper_of(a, b),
{
    match (a, b) {
        (None, _) => b,
        (_, None) => a,
        (Some(x), Some(y)) => if x >= y { a } else { b },
    }
}

/// Tells whether `a` is a number strictly above `b`.
pub fn is_above(a: Level, b: Level) -> (r: bool)
    ensures
        r == above(a, b),
{
    match (a, b) {
        (Some(x), Some(y)) => x > y,
        _ => false,
    }
}

} // verus!
