use retag::types::detection::{
    accepts_outline, detect_tag_boxes, is_tag_region_selected, selection_channel, text_region,
    Outline, BOX_THRESHOLD, COLOR_RGB, TEXT_THRESHOLD,
};
use retag::types::matching::{best_match, Similarity};
use retag::types::region::Region;

fn outline(corners: usize, width: i32, height: i32) -> Outline {
    Outline { corners, bounds: Region::new(3, 4, width, height) }
}

#[test]
fn box_area_bounds_are_half_a_percent_and_a_quarter() {
    // An image of 200 x 100 = 20000 pixels: 100 is half a percent, 5000 a quarter.
    assert!(accepts_outline(&outline(4, 10, 10), 20000));
    assert!(!accepts_outline(&outline(4, 11, 9), 20000));
    assert!(accepts_outline(&outline(4, 101, 1), 20000));
    assert!(accepts_outline(&outline(4, 4999, 1), 20000));
    assert!(!accepts_outline(&outline(4, 100, 50), 20000));
    assert!(!accepts_outline(&outline(4, 5001, 1), 20000));
}

#[test]
fn box_needs_four_corners() {
    assert!(!accepts_outline(&outline(3, 20, 20), 20000));
    assert!(!accepts_outline(&outline(5, 20, 20), 20000));
    assert!(!accepts_outline(&outline(0, 20, 20), 20000));
    assert!(accepts_outline(&outline(4, 20, 20), 20000));
}

#[test]
fn no_box_in_an_image_without_pixels() {
    assert!(!accepts_outline(&outline(4, 1, 1), 0));
    assert!(!accepts_outline(&outline(4, 0, 0), 0));
}

#[test]
fn detect_tag_boxes_keeps_the_buttons_in_order() {
    let outlines = vec![
        outline(4, 20, 20),
        outline(4, 2, 2),
        outline(6, 20, 20),
        outline(4, 50, 40),
        outline(4, 200, 100),
        outline(4, 20, 20),
    ];
    let boxes = detect_tag_boxes(&outlines, 20000);
    assert_eq!(
        boxes,
        vec![Region::new(3, 4, 20, 20), Region::new(3, 4, 50, 40), Region::new(3, 4, 20, 20)]
    );
    for found in &boxes {
        let area = found.area();
        assert!(200 * area >= 20000 && 4 * area < 20000);
    }
    assert!(detect_tag_boxes(&vec![], 20000).is_empty());
}

#[test]
fn region_area_is_width_times_height() {
    assert_eq!(Region::new(0, 0, 7, 6).area(), 42);
    assert_eq!(Region::new(-5, 9, i32::MAX, i32::MAX).area(), 4611686014132420609);
    assert_eq!(Region::new(0, 0, -3, 5).area(), -15);
    assert!(Region::new(0, 0, 1, 1).is_wf());
    assert!(!Region::new(0, 0, 0, 1).is_wf());
    assert!(!Region::new(0, 0, 1, -1).is_wf());
    assert!(Region::new(i32::MAX - 1, 0, 1, 1).is_wf());
    assert!(!Region::new(i32::MAX, 0, 1, 1).is_wf());
}

#[test]
fn selected_from_half_of_full_intensity() {
    let rect = Region::new(0, 0, 10, 4);
    // 40 pixels: full intensity is 10200, half of it 5100.
    assert!(is_tag_region_selected(5100, &rect));
    assert!(!is_tag_region_selected(5099, &rect));
    assert!(is_tag_region_selected(10200, &rect));
    assert!(!is_tag_region_selected(0, &rect));
    // An odd number of pixels: half of 3 * 255 is 382.5.
    let rect = Region::new(0, 0, 3, 1);
    assert!(!is_tag_region_selected(382, &rect));
    assert!(is_tag_region_selected(383, &rect));
}

#[test]
fn region_without_pixels_is_not_selected() {
    assert!(!is_tag_region_selected(0, &Region::new(0, 0, 0, 5)));
    assert!(!is_tag_region_selected(u64::MAX, &Region::new(0, 0, -2, 5)));
}

#[test]
fn selection_channel_follows_the_colour_order() {
    assert_eq!(selection_channel(true), 2);
    assert_eq!(selection_channel(false), 0);
    assert_eq!(selection_channel(COLOR_RGB), 2);
    assert_eq!(BOX_THRESHOLD, 140);
    assert_eq!(TEXT_THRESHOLD, 160);
}

#[test]
fn text_region_leaves_a_twentieth_out_on_every_side() {
    assert_eq!(text_region(&Region::new(10, 20, 100, 40)), Region::new(15, 22, 90, 36));
    assert_eq!(text_region(&Region::new(0, 0, 19, 9)), Region::new(0, 0, 18, 9));
    assert_eq!(text_region(&Region::new(7, 7, 1, 1)), Region::new(7, 7, 1, 1));
    assert_eq!(text_region(&Region::new(0, 0, 39, 21)), Region::new(1, 1, 36, 19));
    assert_eq!(
        text_region(&Region::new(i32::MAX - 100, -50, 100, 60)),
        Region::new(i32::MAX - 95, -47, 90, 54)
    );
}

#[test]
fn similarity_counts_the_shared_bytes() {
    assert_eq!(
        Similarity::similarity("Medic", "Medic"),
        Some(Similarity { matched: 5, first_len: 5, second_len: 5 })
    );
    assert_eq!(
        Similarity::similarity("Support", "Supporter"),
        Some(Similarity { matched: 7, first_len: 7, second_len: 9 })
    );
    assert_eq!(
        Similarity::similarity("abcd", "bcde"),
        Some(Similarity { matched: 3, first_len: 4, second_len: 4 })
    );
    assert_eq!(
        Similarity::similarity("abc", "xyz"),
        Some(Similarity { matched: 0, first_len: 3, second_len: 3 })
    );
    assert_eq!(
        Similarity::similarity("", ""),
        Some(Similarity { matched: 0, first_len: 0, second_len: 0 })
    );
}

#[test]
fn measure_adds_the_sizes_up_if_they_fit() {
    assert_eq!(
        Similarity::measure(&vec![2, 3, 0], 6, 5),
        Some(Similarity { matched: 5, first_len: 6, second_len: 5 })
    );
    assert_eq!(Similarity::measure(&vec![2, 3, 1], 6, 5), None);
    assert_eq!(Similarity::measure(&vec![usize::MAX, usize::MAX], usize::MAX, 9), None);
    assert_eq!(
        Similarity::measure(&vec![], 0, 0),
        Some(Similarity { matched: 0, first_len: 0, second_len: 0 })
    );
}

#[test]
fn cutoff_is_half() {
    assert!(Similarity { matched: 1, first_len: 2, second_len: 2 }.is_accepted());
    assert!(!Similarity { matched: 1, first_len: 2, second_len: 3 }.is_accepted());
    assert!(Similarity { matched: 3, first_len: 5, second_len: 7 }.is_accepted());
    assert!(!Similarity { matched: 0, first_len: 0, second_len: 1 }.is_accepted());
    assert!(Similarity { matched: 0, first_len: 0, second_len: 0 }.is_accepted());
}

#[test]
fn greater_likeness_is_the_greater_quotient() {
    let third = Similarity { matched: 1, first_len: 3, second_len: 3 };
    let half = Similarity { matched: 2, first_len: 4, second_len: 4 };
    let same_half = Similarity { matched: 3, first_len: 6, second_len: 6 };
    let empty = Similarity { matched: 0, first_len: 0, second_len: 0 };
    let full = Similarity { matched: 4, first_len: 4, second_len: 4 };
    assert!(half.is_greater_than(&third));
    assert!(!third.is_greater_than(&half));
    assert!(!half.is_greater_than(&same_half));
    assert!(!same_half.is_greater_than(&half));
    assert!(!half.is_greater_than(&half));
    assert!(empty.is_greater_than(&half));
    assert!(!half.is_greater_than(&empty));
    assert!(!full.is_greater_than(&empty));
    assert!(!empty.is_greater_than(&full));
    let huge = Similarity { matched: usize::MAX, first_len: usize::MAX, second_len: usize::MAX };
    let nearly = Similarity {
        matched: usize::MAX - 1,
        first_len: usize::MAX,
        second_len: usize::MAX,
    };
    assert!(huge.is_greater_than(&nearly));
    assert!(!nearly.is_greater_than(&huge));
}

#[test]
fn best_match_is_the_first_of_the_most_alike() {
    let words: Vec<String> =
        ["Guard", "Vanguard", "Guard", "Summon"].iter().map(|w| w.to_string()).collect();
    assert_eq!(best_match("Guard", &words), Some(0));
    assert_eq!(best_match("Vanguar", &words), Some(1));
    assert_eq!(best_match("ummon", &words), Some(3));
    assert_eq!(best_match("zzzzzzzzzzzzzzzzzzzz", &words), None);
    assert_eq!(best_match("Guard", &vec![]), None);
}
