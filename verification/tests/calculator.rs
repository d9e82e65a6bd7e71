use itertools::Itertools;
use retag::recruitment::calculator::{CalcResult, Calculator};
use retag::recruitment::subsets::{combinations, list_nonempty_subsets};
use retag::types::operator::{Operator, Position, Rarity};
use retag::types::region::Region;
use retag::types::tag::{Tag, TagType, UiTag};

fn operator(id: &str, rarity: Rarity, tags: Vec<TagType>, position: Position) -> Operator {
    Operator::new(id.to_string(), id.to_uppercase(), rarity, tags, position)
}

fn detected(kind: TagType) -> UiTag {
    let tag = Tag::new(&kind.to_string(), false, &Region::new(0, 0, 10, 10)).unwrap();
    UiTag::from_tag(&tag, 0, 0)
}

fn ids(line: &CalcResult) -> Vec<String> {
    line.obtainable_operators().iter().map(|op| op.id().clone()).collect()
}

fn small_catalog() -> Vec<Operator> {
    vec![
        operator(
            "jessica",
            Rarity::Tier4,
            vec![TagType::Ranged, TagType::Survival, TagType::Sniper],
            Position::Ranged,
        ),
        operator("kroos", Rarity::Tier3, vec![TagType::Ranged, TagType::Sniper], Position::Ranged),
        operator("melantha", Rarity::Tier3, vec![TagType::Melee, TagType::Guard], Position::Melee),
        operator(
            "exusiai",
            Rarity::Tier6,
            vec![TagType::Ranged, TagType::TopOperator, TagType::Sniper],
            Position::Ranged,
        ),
    ]
}

#[test]
fn match_combos() {
    let mut result = Vec::new();
    let vec = vec![TagType::Ranged, TagType::Survival];
    for len in 1..=vec.len() {
        result.extend(vec.iter().cloned().combinations(len));
    }
    assert_eq!(result, Calculator::variations(vec));

    let mut matched = 0;
    for comb in result {
        for op in small_catalog() {
            if op.matches_tags(&comb) {
                println!("{:?} | {:?}", comb, op);
                matched += 1;
            }
        }
    }
    assert_eq!(matched, 4);
}

#[test]
fn variations_are_the_combinations_of_every_length() {
    let kinds = vec![
        TagType::Healing,
        TagType::Robot,
        TagType::DPS,
        TagType::Shift,
        TagType::Summon,
        TagType::Starter,
    ];
    for n in 0..=kinds.len() {
        let some = kinds[..n].to_vec();
        let mut expected = Vec::new();
        for len in 1..=some.len() {
            expected.extend(some.iter().cloned().combinations(len));
        }
        assert_eq!(Calculator::variations(some), expected);
    }
}

#[test]
fn combinations_are_listed_in_the_order_of_a_dictionary() {
    assert_eq!(
        combinations(4, 2),
        vec![vec![0, 1], vec![0, 2], vec![0, 3], vec![1, 2], vec![1, 3], vec![2, 3]]
    );
    assert_eq!(combinations(3, 0), vec![Vec::<usize>::new()]);
    assert_eq!(combinations(0, 0), vec![Vec::<usize>::new()]);
    assert_eq!(combinations(3, 3), vec![vec![0, 1, 2]]);
    assert!(combinations(3, 4).is_empty());
    assert!(combinations(0, 1).is_empty());
    assert_eq!(
        list_nonempty_subsets(&vec!['a', 'b']),
        vec![vec!['a'], vec!['b'], vec!['a', 'b']]
    );
}

#[test]
fn variations_of_three_kinds_are_the_seven_subsets() {
    let variety =
        Calculator::variations(vec![TagType::Medic, TagType::Caster, TagType::Guard]);
    assert_eq!(
        variety,
        vec![
            vec![TagType::Medic],
            vec![TagType::Caster],
            vec![TagType::Guard],
            vec![TagType::Medic, TagType::Caster],
            vec![TagType::Medic, TagType::Guard],
            vec![TagType::Caster, TagType::Guard],
            vec![TagType::Medic, TagType::Caster, TagType::Guard],
        ]
    );
}

#[test]
fn variations_are_two_to_the_n_less_one_and_distinct() {
    let kinds = vec![
        TagType::Medic,
        TagType::Caster,
        TagType::Guard,
        TagType::Slow,
        TagType::AoE,
    ];
    for n in 0..=kinds.len() {
        let variety = Calculator::variations(kinds[..n].to_vec());
        assert_eq!(variety.len(), (1usize << n) - 1);
        for (i, subset) in variety.iter().enumerate() {
            assert!(!subset.is_empty());
            for other in &variety[..i] {
                assert_ne!(subset, other);
            }
        }
    }
}

#[test]
fn variations_of_nothing_are_none() {
    assert!(Calculator::variations(vec![]).is_empty());
}

#[test]
fn variations_keep_a_repeated_kind_apart() {
    let variety = Calculator::variations(vec![TagType::Slow, TagType::Slow]);
    assert_eq!(
        variety,
        vec![vec![TagType::Slow], vec![TagType::Slow], vec![TagType::Slow, TagType::Slow]]
    );
}

#[test]
fn distinct_kinds_keep_the_first_occurrence() {
    let tags = vec![
        detected(TagType::Ranged),
        detected(TagType::Survival),
        detected(TagType::Ranged),
        detected(TagType::Medic),
        detected(TagType::Survival),
    ];
    assert_eq!(
        Calculator::distinct_kinds(&tags),
        vec![TagType::Ranged, TagType::Survival, TagType::Medic]
    );
}

#[test]
fn ranged_and_survival_give_three_lines() {
    let calculator = Calculator::new(Some(small_catalog()));
    let tags = vec![detected(TagType::Ranged), detected(TagType::Survival)];
    let results = calculator.evaluate(&tags);
    assert_eq!(results.len(), 3);
    assert_eq!(results[0].tag_variation(), &vec![TagType::Ranged]);
    assert_eq!(ids(&results[0]), vec!["jessica", "kroos"]);
    assert_eq!(results[1].tag_variation(), &vec![TagType::Survival]);
    assert_eq!(ids(&results[1]), vec!["jessica"]);
    assert_eq!(results[2].tag_variation(), &vec![TagType::Ranged, TagType::Survival]);
    assert_eq!(ids(&results[2]), vec!["jessica"]);
}

#[test]
fn line_is_dropped_when_no_operator_has_the_tags() {
    let calculator = Calculator::new(Some(vec![operator(
        "kroos",
        Rarity::Tier3,
        vec![TagType::Ranged, TagType::Sniper],
        Position::Ranged,
    )]));
    let tags = vec![detected(TagType::Ranged), detected(TagType::Survival)];
    let results = calculator.evaluate(&tags);
    assert_eq!(results.len(), 1);
    assert_eq!(results[0].tag_variation(), &vec![TagType::Ranged]);
    assert_eq!(ids(&results[0]), vec!["kroos"]);
}

#[test]
fn operator_with_all_tags_is_in_every_line() {
    let calculator = Calculator::new(Some(vec![operator(
        "trio",
        Rarity::Tier4,
        vec![TagType::Ranged, TagType::Survival, TagType::Melee],
        Position::Melee,
    )]));
    let tags = vec![detected(TagType::Ranged), detected(TagType::Survival)];
    let results = calculator.evaluate(&tags);
    assert_eq!(results.len(), 3);
    for line in &results {
        assert_eq!(ids(line), vec!["trio"]);
    }
}

#[test]
fn top_tier_needs_the_top_operator_tag() {
    let top = operator(
        "exusiai",
        Rarity::Tier6,
        vec![TagType::Ranged, TagType::TopOperator],
        Position::Ranged,
    );
    assert!(!top.matches_tags(&vec![TagType::Ranged]));
    assert!(top.matches_tags(&vec![TagType::Ranged, TagType::TopOperator]));
    assert!(top.matches_tags(&vec![TagType::TopOperator]));

    let calculator = Calculator::new(Some(vec![top]));
    let only_ranged = calculator.evaluate(&vec![detected(TagType::Ranged)]);
    assert!(only_ranged.is_empty());
    let both =
        calculator.evaluate(&vec![detected(TagType::Ranged), detected(TagType::TopOperator)]);
    assert_eq!(both.len(), 2);
    assert_eq!(both[0].tag_variation(), &vec![TagType::TopOperator]);
    assert_eq!(both[1].tag_variation(), &vec![TagType::Ranged, TagType::TopOperator]);
    assert_eq!(ids(&both[1]), vec!["exusiai"]);
}

#[test]
fn no_line_without_top_operator_holds_a_top_tier_operator() {
    let calculator = Calculator::new(Some(small_catalog()));
    let tags = vec![
        detected(TagType::Ranged),
        detected(TagType::Sniper),
        detected(TagType::TopOperator),
        detected(TagType::Survival),
    ];
    let results = calculator.evaluate(&tags);
    assert!(!results.is_empty());
    for line in &results {
        if !line.tag_variation().contains(&TagType::TopOperator) {
            for op in line.obtainable_operators() {
                assert_ne!(op.rarity(), &Rarity::Tier6);
            }
        }
    }
}

#[test]
fn evaluate_twice_gives_the_same_lines() {
    let calculator = Calculator::new(Some(small_catalog()));
    let tags =
        vec![detected(TagType::Ranged), detected(TagType::Survival), detected(TagType::Sniper)];
    let first = calculator.evaluate(&tags);
    let second = calculator.evaluate(&tags);
    assert_eq!(first.len(), second.len());
    for (a, b) in first.iter().zip(second.iter()) {
        assert_eq!(a.tag_variation(), b.tag_variation());
        assert_eq!(ids(a), ids(b));
    }
}

#[test]
fn evaluate_counts_a_kind_once() {
    let calculator = Calculator::new(Some(small_catalog()));
    let once = calculator.evaluate(&vec![detected(TagType::Ranged)]);
    let twice = calculator.evaluate(&vec![detected(TagType::Ranged), detected(TagType::Ranged)]);
    assert_eq!(once.len(), 1);
    assert_eq!(twice.len(), 1);
    assert_eq!(ids(&once[0]), ids(&twice[0]));
}

#[test]
fn failed_catalog_gives_an_empty_pool_and_no_lines() {
    let calculator = Calculator::new(None);
    assert!(calculator.pool().is_empty());
    let tags = vec![detected(TagType::Ranged), detected(TagType::Survival)];
    assert!(calculator.evaluate(&tags).is_empty());
    assert!(calculator.evaluate(&vec![]).is_empty());
}

#[test]
fn evaluate_without_tags_gives_no_lines() {
    let calculator = Calculator::new(Some(small_catalog()));
    assert!(calculator.evaluate(&vec![]).is_empty());
}

#[test]
fn ignoring_all_three_tiers_leaves_no_operator_out() {
    let mut calculator = Calculator::new(Some(small_catalog()));
    let tags = vec![detected(TagType::Ranged)];
    let before = ids(&calculator.evaluate(&tags)[0]);
    calculator.set_ignored_tiers(true, true, true);
    for op in calculator.pool() {
        assert!(!calculator.is_excluded(op));
    }
    assert_eq!(ids(&calculator.evaluate(&tags)[0]), before);
    assert_eq!(before, vec!["jessica", "kroos"]);
}

#[test]
fn operator_without_tags_matches_nothing_but_is_kept() {
    let plain = operator("plain", Rarity::Tier1, vec![], Position::Melee);
    assert!(!plain.matches_tags(&vec![TagType::Melee]));
    assert!(plain.matches_tags(&vec![]));
    assert_eq!(plain.tag_list().len(), 0);
    assert_eq!(plain.position(), &Position::Melee);
    assert_eq!(plain.name(), "PLAIN");
    assert_eq!(plain.rarity().tier(), 1);
}

#[test]
fn rarity_is_ordered_by_tier() {
    assert!(Rarity::Tier1 < Rarity::Tier2);
    assert!(Rarity::Tier5 < Rarity::Tier6);
    assert_eq!(Rarity::Tier6.tier(), 6);
    assert_eq!(Rarity::Tier3.tier(), 3);
}
