//! The rules by which pixels become candidates for tags: which outlines are
//! tag buttons, which buttons are toggled, and where the text of a button is
//! read.

use crate::types::region::Region;
use vstd::prelude::*;

verus! {

/// Pixels darker than this count as ink when buttons are looked for.
pub const BOX_THRESHOLD: u8 = 140;

/// Pixels brighter than this count as text when a button is read.
pub const TEXT_THRESHOLD: u8 = 160;

/// A tag button has this many corners.
pub const BOX_CORNERS: usize = 4;

/// The smallest share of the image that a tag button covers, in thousandths.
pub const MIN_TAG_BOX_SIZE: i64 = 5;

/// The share of the image that a tag button stays below, in thousandths.
pub const MAX_TAG_BOX_SIZE: i64 = 250;

/// The share of full intensity from which a button counts as toggled, in
/// hundredths.
pub const SELECTED_ACCEPT_THRESH: u64 = 50;

/// The margin left out on each side of a button when its text is read, as a
/// divisor of the extent: a twentieth.
pub const TEXT_MARGIN: i32 = 20;

/// Whether captured images hold red first.
pub const COLOR_RGB: bool = true;

/// A closed outline found in the image, reduced to a polygon.
#[derive(Clone, Copy, Debug, PartialEq, Eq, Structural)]
pub struct Outline {
    /// The number of corners of the polygon.
    pub corners: usize,
    /// The smallest upright rectangle around the polygon.
    pub bounds: Region,
}

/// An area is that of a tag button in an image of `image_area` pixels if it
/// is at least 5 and less than 250 thousandths of it.
pub open spec fn is_tag_box_area(area: int, image_area: int) -> bool {
    MIN_TAG_BOX_SIZE * image_area <= 1000 * area < MAX_TAG_BOX_SIZE * image_area
}

/// An outline is a tag button if it has four corners and the right size.
pub open spec fn is_tag_box(outline: Outline, image_area: int) -> bool {
    outline.corners == BOX_CORNERS && is_tag_box_area(outline.bounds.spec_area(), image_area)
}

/// `region` is the rectangle of `outline`, and `outline` is a tag button.
pub open spec fn is_box_of(outline: Outline, region: Region, image_area: int) -> bool {
    outline.bounds == region && is_tag_box(outline, image_area)
}

/// `region` has the size of a tag button and is the rectangle of one of the
/// outlines, which is a tag button.
pub open spec fn is_button_among(region: Region, outlines: Seq<Outline>, image_area: int) -> bool {
    &&& is_tag_box_area(region.spec_area(), image_area)
    &&& exists|j: int|
        0 <= j < outlines.len() && #[trigger] is_box_of(outlines[j], region, image_area)
}

/// The rectangles of the outlines that are tag buttons, in the order of the
/// outlines.
pub open spec fn tag_boxes(outlines: Seq<Outline>, image_area: int) -> Seq<Region> {
    outlines.filter(|o: Outline| is_tag_box(o, image_area)).map_values(|o: Outline| o.bounds)
}

/// Whether one outline is a tag button.
pub fn accepts_outline(outline: &Outline, image_area: i64) -> (accepted: bool)
    ensures
        accepted == is_tag_box(*outline, image_area as int),
{
    if outline.corners != BOX_CORNERS {
        return false;
    }
    let area: i128 = 1000 * (outline.bounds.area() as i128);
    let whole: i128 = image_area as i128;
    assert(MIN_TAG_BOX_SIZE * whole == 5 * whole && MAX_TAG_BOX_SIZE * whole == 250 * whole);
    let least: i128 = (MIN_TAG_BOX_SIZE as i128) * whole;
    let bound: i128 = (MAX_TAG_BOX_SIZE as i128) * whole;
    least <= area && area < bound
}

/// Every rectangle of [`tag_boxes`] belongs to an outline with four corners,
/// and its area is at least 5 and less than 250 thousandths of the image.
pub proof fn lemma_tag_boxes_are_buttons(outlines: Seq<Outline>, image_area: int, i: int)
    requires
        0 <= i < tag_boxes(outlines, image_area).len(),
    ensures
        is_button_among(tag_boxes(outlines, image_area)[i], outlines, image_area),
    decreases outlines.len(),
{
    reveal(Seq::filter);
    let keep = |o: Outline| is_tag_box(o, image_area);
    let front = outlines.drop_last();
    let region = tag_boxes(outlines, image_area)[i];
    if keep(outlines.last()) && i == tag_boxes(front, image_area).len() {
        assert(is_box_of(outlines[outlines.len() - 1], region, image_area));
    } else {
        lemma_tag_boxes_are_buttons(front, image_area, i);
        let j = choose|j: int|
            0 <= j < front.len() && #[trigger] is_box_of(front[j], region, image_area);
        assert(is_box_of(outlines[j], region, image_area));
    }
}

/// Finds the tag buttons among the outlines of an image of `image_area`
/// pixels. Nothing is merged and nothing is left out: two outlines around the
/// same button give two rectangles.
pub fn detect_tag_boxes(outlines: &Vec<Outline>, image_area: i64) -> (boxes: Vec<Region>)
    ensures
        boxes@ == tag_boxes(outlines@, image_area as int),
        forall|i: int|
            0 <= i < boxes.len() ==> is_button_among(
                #[trigger] boxes[i],
                outlines@,
                image_area as int,
            ),
{
    let mut boxes: Vec<Region> = Vec::new();
    let ghost keep = |o: Outline| is_tag_box(o, image_area as int);
    let mut i: usize = 0;
    assert(outlines@.take(0) =~= Seq::<Outline>::empty());
    while i < outlines.len()
        invariant
            i <= outlines.len(),
            keep == |o: Outline| is_tag_box(o, image_area as int),
            boxes@ == outlines@.take(i as int).filter(keep).map_values(|o: Outline| o.bounds),
        decreases outlines.len() - i,
    {
        let outline = &outlines[i];
        proof {
            let before = outlines@.take(i as int);
            let now = outlines@.take(i + 1);
            assert(now.drop_last() =~= before);
            assert(now.last() == *outline);
            reveal(Seq::filter);
            assert(now.filter(keep) == if keep(*outline) {
                before.filter(keep).push(*outline)
            } else {
                before.filter(keep)
            });
        }
        if accepts_outline(outline, image_area) {
            boxes.push(outline.bounds);
            assert(boxes@ =~= outlines@.take(i + 1).filter(keep).map_values(
                |o: Outline| o.bounds,
            ));
        }
        i += 1;
    }
    assert(outlines@.take(outlines.len() as int) =~= outlines@);
    assert forall|b: int| 0 <= b < boxes.len() implies is_button_among(
        #[trigger] boxes[b],
        outlines@,
        image_area as int,
    ) by {
        lemma_tag_boxes_are_buttons(outlines@, image_area as int, b);
    }
    boxes
}

/// A button counts as toggled if the chosen colour channel, summed over its
/// pixels, reaches half of what it would be at full intensity. A button
/// without pixels is not toggled.
pub open spec fn activation_selects(channel_total: int, pixels: int) -> bool {
    pixels > 0 && 100 * channel_total >= SELECTED_ACCEPT_THRESH * (255 * pixels)
}

/// Decides whether the button in `rect` is toggled, from the sum of one
/// colour channel over the pixels of `rect`.
pub fn is_tag_region_selected(channel_total: u64, rect: &Region) -> (selected: bool)
    ensures
        selected == activation_selects(channel_total as int, rect.spec_area()),
{
    let pixels: i64 = rect.area();
    if pixels <= 0 {
        return false;
    }
    let reached: u128 = 100 * (channel_total as u128);
    let full: u128 = 255 * (pixels as u128);
    assert(SELECTED_ACCEPT_THRESH * full == 50 * full);
    let needed: u128 = (SELECTED_ACCEPT_THRESH as u128) * full;
    reached >= needed
}

/// The index of the colour channel that shows the highlight of a toggled
/// button: the last of three where red comes first, the first otherwise.
pub fn selection_channel(color_rgb: bool) -> (channel: usize)
    ensures
        channel == if color_rgb { 2usize } else { 0usize },
{
    if color_rgb {
        2
    } else {
        0
    }
}

/// The part of a button in which its text is read: the button without a
/// margin of a twentieth of its extent on every side.
pub open spec fn text_area(rect: Region) -> Region {
    Region {
        x: (rect.x + rect.width / 20) as i32,
        y: (rect.y + rect.height / 20) as i32,
        width: (rect.width - rect.width / 10) as i32,
        height: (rect.height - rect.height / 10) as i32,
    }
}

/// Leaves the border of a button out, so that only its text is read.
pub fn text_region(rect: &Region) -> (inner: Region)
    requires
        rect.wf(),
    ensures
        inner == text_area(*rect),
        inner.wf(),
        inner.within(*rect),
{
    Region::new(
        rect.x + rect.width / TEXT_MARGIN,
        rect.y + rect.height / TEXT_MARGIN,
        rect.width - rect.width / (TEXT_MARGIN / 2),
        rect.height - rect.height / (TEXT_MARGIN / 2),
    )
}

} // verus!
