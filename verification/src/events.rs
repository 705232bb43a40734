//! The intents the session consumes and the outcome events it produces for
//! the presentation layer.

use vstd::prelude::*;
use crate::coordinates::Coordinates;

verus! {

/// A resolved player request to uncover the cell at these coordinates.
#[derive(Debug, Clone, Copy)]
pub struct TileTriggerEvent(pub Coordinates);

/// Every safe cell has been uncovered: the session is won.
#[derive(Debug, Copy, Clone)]
pub struct BoardCompletedEvent;

/// A bomb was uncovered: the session is lost.
#[derive(Debug, Copy, Clone)]
pub struct BombExplosionEvent;

/// A resolved player request to toggle the flag on the cell at these
/// coordinates.
#[derive(Debug, Copy, Clone)]
pub struct TileMarkEvent(pub Coordinates);

} // verus!
