//! The tubes that a gain stage can be built around.

use vstd::prelude::*;

verus! {

/// A tube, with the resistance at its input: the two together give a gain
/// stage its transfer curve.
#[derive(Clone, Copy, Debug, PartialEq, Eq)]
pub enum Tube {
    Tube12AX7Ri68K,
    Tube12AX7Ri250K,
}

} // verus!
