//! The steps of the capture loop.

use crate::types::tag::{Tag, UiTag};
use vstd::prelude::*;

verus! {

/// The pause between two captures, in milliseconds, unless the user sets
/// another.
pub const DEFAULT_CAPTURE_INTERVAL: u64 = 500;

/// What the capture loop does next.
#[derive(Clone, Copy, Debug, PartialEq, Eq, Structural)]
pub enum CaptureStep {
    /// Capturing was switched off: the loop ends.
    Stop,
    /// The window is minimized: nothing is captured this time round.
    Skip,
    /// The window is captured and its tags are published.
    Detect,
}

/// Decides one round of the capture loop. The switch is looked at once a
/// round, so switching off takes effect when the round in progress is over.
pub fn next_capture_step(active: bool, minimized: bool) -> (step: CaptureStep)
    ensures
        step == if !active {
            CaptureStep::Stop
        } else if minimized {
            CaptureStep::Skip
        } else {
            CaptureStep::Detect
        },
{
    if !active {
        CaptureStep::Stop
    } else if minimized {
        CaptureStep::Skip
    } else {
        CaptureStep::Detect
    }
}

/// Each tag with the place of the window.
pub open spec fn placed(tags: Seq<Tag>, off_x: i32, off_y: i32) -> Seq<UiTag> {
    tags.map_values(|tag: Tag| UiTag::of(tag, off_x, off_y))
}

/// Gives every tag of a capture the place of the captured window on the
/// screen. The list that is published replaces the one before it as a whole.
pub fn place_tags(tags: &Vec<Tag>, off_x: i32, off_y: i32) -> (on_screen: Vec<UiTag>)
    ensures
        on_screen@ == placed(tags@, off_x, off_y),
{
    let mut on_screen: Vec<UiTag> = Vec::new();
    let mut i: usize = 0;
    while i < tags.len()
        invariant
            i <= tags.len(),
            on_screen@ == placed(tags@, off_x, off_y).take(i as int),
        decreases tags.len() - i,
    {
        on_screen.push(UiTag::from_tag(&tags[i], off_x, off_y));
        i += 1;
        assert(on_screen@ =~= placed(tags@, off_x, off_y).take(i as int));
    }
    assert(placed(tags@, off_x, off_y).take(tags.len() as int) =~= placed(tags@, off_x, off_y));
    on_screen
}

} // verus!
