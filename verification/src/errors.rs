//! Errors of session configuration. Anything else the core treats as an
//! expected miss (a `None` result), never as an error.

use vstd::prelude::*;

verus! {

/// Rejected configuration, detected before any grid is built.
#[derive(Clone, Copy, PartialEq, Eq, Structural, Debug)]
pub enum ConfigError {
    /// The requested grid width or height is zero.
    ZeroDimension,
    /// More bombs requested than the grid has cells.
    TooManyBombs,
}

} // verus!
