use retag::types::errors::TagError;
use retag::types::matching::Similarity;
use retag::types::operator::avatar_path;
use retag::types::region::Region;
use retag::types::tag::{
    image_to_tags, kinds_from_spellings, read_tag, tag_button_to_string, vocabulary, BoxReading,
    Tag, TagType, UiTag, KIND_COUNT,
};
use retag::ui::menu::{next_capture_step, place_tags, CaptureStep, DEFAULT_CAPTURE_INTERVAL};
use retag::ui::overlay::draw_ops;

fn reading(text: &str, channel_total: u64) -> BoxReading {
    BoxReading { region: Region::new(5, 6, 10, 4), text: text.to_string(), channel_total }
}

#[test]
fn vocabulary_is_the_spelling_of_every_kind_in_order() {
    let words = vocabulary();
    assert_eq!(words.len(), KIND_COUNT);
    assert_eq!(
        words,
        vec![
            "Medic",
            "Caster",
            "Vanguard",
            "Guard",
            "Defender",
            "Defense",
            "Supporter",
            "Melee",
            "Debuff",
            "Fast-Redeploy",
            "Shift",
            "Summon",
            "Support",
            "Survival",
            "Elemental",
            "Ranged",
            "Dp-Recovery",
            "Starter",
            "Slow",
            "AoE",
            "Sniper",
            "Crowd-Control",
            "Healing",
            "DPS",
            "Nuker",
            "Senior-Operator",
            "Specialist",
            "Robot",
            "Top-Operator",
        ]
    );
    for (i, word) in words.iter().enumerate() {
        let kind = TagType::from_index(i).unwrap();
        assert_eq!(kind.index(), i);
        assert_eq!(&kind.to_string(), word);
        assert_eq!(kind.clone(), kind);
    }
    assert_eq!(TagType::from_index(KIND_COUNT), None);
}

#[test]
fn every_vocabulary_word_is_read_as_itself() {
    for word in vocabulary() {
        assert_eq!(tag_button_to_string(&word), Some(word.clone()));
        assert!(TagType::from_spelling(&word).is_some());
        let alike = Similarity::similarity(&word, &word).unwrap();
        assert_eq!(
            alike,
            Similarity { matched: word.len(), first_len: word.len(), second_len: word.len() }
        );
        assert!(alike.is_accepted());
        let ratio = 2.0 * alike.matched as f64 / (alike.first_len + alike.second_len) as f64;
        assert_eq!(ratio, 1.0);
    }
}

#[test]
fn names_are_read_as_the_closest_match_of_difflib() {
    let words = vocabulary();
    let vocabulary: Vec<&str> = words.iter().map(|word| word.as_str()).collect();
    let texts = [
        "Medic", "Medlc", "medic", "MEDIC", "Gaurd", "Vangard", "Defen", "Defens", "Suppor",
        "Support", "Supporter", "Supportr", "Fast Redeploy", "FastRedeploy", "Fast-Redepl0y",
        "Dp Recovery", "DP-Recovery", "Crowd Control", "Crowd-Contro1", "Senior", "Operator",
        "Top Operator", "Senior-Operator\n", "Top-0perator", "AoE", "A0E", "DPS", "DP5", "Slow",
        "Slovv", "Sniper\n\n", "  Healing  ", "Nuker-", "Robot-Robot", "Elem", "Elemen",
        "Survivor", "Shlft", "Summoner", "Starter", "Startr", "Specia1ist", "Debuf", "Caster",
        "Castor", "Melee", "Me1ee", "Ranged", "Range", "xyz", "abcdefghijklmnop", "---", "e-e-e",
        "rrrrrr", "Operator-Operator", "er", "é-Medic", "Guard Guard Guard Guard",
    ];
    for text in texts {
        let expected: Option<String> = if text.chars().count() < 3 {
            None
        } else {
            difflib::get_close_matches(text, vocabulary.clone(), 1, 0.5)
                .first()
                .map(|word| word.to_string())
        };
        assert_eq!(tag_button_to_string(text), expected, "for {:?}", text);
    }
}

#[test]
fn all_spellings_of_a_kind_name_that_kind() {
    let variants = [
        (TagType::FastRedeploy, ["Fast-Redeploy", "FastRedeploy", "Fast Redeploy"]),
        (TagType::DpRecovery, ["Dp-Recovery", "DpRecovery", "Dp Recovery"]),
        (TagType::CrowdControl, ["Crowd-Control", "CrowdControl", "Crowd Control"]),
        (TagType::SeniorOperator, ["Senior-Operator", "SeniorOperator", "Senior Operator"]),
        (TagType::TopOperator, ["Top-Operator", "TopOperator", "Top Operator"]),
    ];
    for (kind, spellings) in variants {
        for spelling in spellings {
            assert_eq!(TagType::from_spelling(spelling), Some(kind));
            let tag = Tag::new(spelling, true, &Region::new(1, 2, 3, 4)).unwrap();
            assert_eq!(tag.tag_type(), &kind);
        }
    }
}

#[test]
fn tag_new_keeps_its_parts() {
    let bounding_box = Region::new(10, 10, 100, 50);
    let tag = Tag::new("Medic", true, &bounding_box).unwrap();
    assert_eq!(tag.tag_type(), &TagType::Medic);
    assert!(tag.selected());
    assert_eq!(tag.bounding_box(), bounding_box);
}

#[test]
fn tag_new_refuses_what_is_no_spelling() {
    let bounding_box = Region::new(0, 0, 1, 1);
    assert_eq!(Tag::new("medic", false, &bounding_box), Err(TagError::InvalidTagString));
    assert_eq!(Tag::new("", false, &bounding_box), Err(TagError::InvalidTagString));
    assert_eq!(Tag::new("Top_Operator", false, &bounding_box), Err(TagError::InvalidTagString));
    assert_eq!(Tag::new("Medic ", false, &bounding_box), Err(TagError::InvalidTagString));
    assert_eq!(TagError::InvalidTagString.to_string(), "Invalid tag string");
}

#[test]
fn short_text_is_no_name() {
    assert_eq!(tag_button_to_string(""), None);
    assert_eq!(tag_button_to_string("Gu"), None);
    assert_eq!(tag_button_to_string("Ao"), None);
    assert_eq!(tag_button_to_string("AoE"), Some("AoE".to_string()));
    assert_eq!(tag_button_to_string("DPS"), Some("DPS".to_string()));
}

#[test]
fn noisy_text_is_read_as_the_nearest_word() {
    assert_eq!(tag_button_to_string("Medlc"), Some("Medic".to_string()));
    assert_eq!(tag_button_to_string("Sniper\n"), Some("Sniper".to_string()));
    assert_eq!(tag_button_to_string("Crowd-Contro1"), Some("Crowd-Control".to_string()));
    assert_eq!(tag_button_to_string("Suppor"), Some("Support".to_string()));
    assert_eq!(tag_button_to_string("Supporte"), Some("Supporter".to_string()));
    assert_eq!(tag_button_to_string("Defen"), Some("Defense".to_string()));
}

#[test]
fn text_unlike_every_word_is_no_name() {
    assert_eq!(tag_button_to_string("xyzxyz"), None);
    assert_eq!(tag_button_to_string("-------"), None);
    assert_eq!(tag_button_to_string("QQQ"), None);
}

#[test]
fn reading_gives_a_tag_with_kind_selection_and_region() {
    let tag = read_tag(&reading("Healing", 40 * 255)).unwrap();
    assert_eq!(tag.tag_type(), &TagType::Healing);
    assert!(tag.selected());
    assert_eq!(tag.bounding_box(), Region::new(5, 6, 10, 4));
    let tag = read_tag(&reading("Healing", 0)).unwrap();
    assert!(!tag.selected());
    assert_eq!(read_tag(&reading("??", 40 * 255)), None);
}

#[test]
fn image_to_tags_passes_over_unreadable_boxes_and_keeps_the_order() {
    let readings = vec![
        reading("Robot", 0),
        reading("", 9999),
        reading("Nuker", 20 * 255),
        reading("zzzzzzzz", 0),
        reading("Robot", 19 * 255),
    ];
    let tags = image_to_tags(&readings);
    assert_eq!(tags.len(), 3);
    assert_eq!(tags[0].tag_type(), &TagType::Robot);
    assert!(!tags[0].selected());
    assert_eq!(tags[1].tag_type(), &TagType::Nuker);
    assert!(tags[1].selected());
    assert_eq!(tags[2].tag_type(), &TagType::Robot);
    assert!(!tags[2].selected());
    assert!(image_to_tags(&vec![]).is_empty());
}

#[test]
fn ui_tag_moves_the_box_by_the_offset() {
    let tag = Tag::new("Slow", true, &Region::new(10, 20, 30, 40)).unwrap();
    let placed = UiTag::from_tag(&tag, 100, -5);
    assert_eq!(placed.tag_type(), &TagType::Slow);
    assert!(placed.selected());
    assert!(placed.is_placeable());
    assert_eq!(placed.abs_bounding_box(), Region::new(110, 15, 30, 40));
    let unmoved = UiTag::from_tag(&tag, 0, 0);
    assert_eq!(unmoved.abs_bounding_box(), tag.bounding_box());
}

#[test]
fn ui_tag_beyond_the_number_range_is_not_placeable() {
    let tag = Tag::new("Slow", true, &Region::new(i32::MAX - 3, 0, 2, 2)).unwrap();
    assert!(UiTag::from_tag(&tag, 3, 0).is_placeable());
    assert!(!UiTag::from_tag(&tag, 4, 0).is_placeable());
    let tag = Tag::new("Slow", true, &Region::new(0, i32::MIN + 1, 2, 2)).unwrap();
    assert!(UiTag::from_tag(&tag, 0, -1).is_placeable());
    assert!(!UiTag::from_tag(&tag, 0, -2).is_placeable());
}

#[test]
fn place_tags_places_every_tag() {
    let tags = vec![
        Tag::new("Slow", true, &Region::new(1, 2, 3, 4)).unwrap(),
        Tag::new("Guard", false, &Region::new(5, 6, 7, 8)).unwrap(),
    ];
    let placed = place_tags(&tags, 10, 20);
    assert_eq!(placed.len(), 2);
    assert_eq!(placed[0], UiTag::from_tag(&tags[0], 10, 20));
    assert_eq!(placed[1].abs_bounding_box(), Region::new(15, 26, 7, 8));
    assert!(place_tags(&vec![], 1, 1).is_empty());
}

#[test]
fn capture_loop_stops_skips_or_detects() {
    assert_eq!(next_capture_step(false, false), CaptureStep::Stop);
    assert_eq!(next_capture_step(false, true), CaptureStep::Stop);
    assert_eq!(next_capture_step(true, true), CaptureStep::Skip);
    assert_eq!(next_capture_step(true, false), CaptureStep::Detect);
    assert_eq!(DEFAULT_CAPTURE_INTERVAL, 500);
    draw_ops();
}

#[test]
fn avatar_path_names_the_picture_or_the_default() {
    assert_eq!(avatar_path(Some("char_002_amiya")), "data/assets/charavatars/char_002_amiya.png");
    assert_eq!(avatar_path(None), "data/assets/charavatars/default_avatar.png");
    assert_eq!(avatar_path(Some("")), "data/assets/charavatars/.png");
}

#[test]
fn catalog_tags_are_read_from_their_labels() {
    let labels: Vec<String> =
        ["Ranged", "Crowd Control", "TopOperator"].iter().map(|l| l.to_string()).collect();
    assert_eq!(
        kinds_from_spellings(&labels),
        Ok(vec![TagType::Ranged, TagType::CrowdControl, TagType::TopOperator])
    );
    assert_eq!(kinds_from_spellings(&vec![]), Ok(vec![]));
    let labels: Vec<String> = ["Ranged", "ranged"].iter().map(|l| l.to_string()).collect();
    assert_eq!(kinds_from_spellings(&labels), Err(TagError::InvalidTagString));
}
