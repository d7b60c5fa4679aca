//! What the library reports to its caller instead of computing a result.

use vstd::prelude::*;

verus! {

/// A prior specification that cannot be read.
#[derive(Debug)]
pub enum ParseError {
    /// The specification names no known distribution; the name is given.
    BadPriorString(String),
}

/// An observed series whose length differs from that of the simulated one.
#[derive(Debug, Clone, Copy, PartialEq, Eq, Structural)]
pub struct LengthMismatchError {
    /// The number of days that were simulated.
    pub expected: usize,
    /// The number of observed values that were given.
    pub found: usize,
}

} // verus!
