//! The overlay.

use vstd::prelude::*;

verus! {

/// Draws the operators. The overlay draws them itself while it lays out its
/// panel, so there is nothing left to do here.
pub fn draw_ops() {
}

} // verus!
