//! Which operators every combination of the detected tags can yield.

use crate::recruitment::subsets::{
    is_selection, lemma_subsets_are_choices, lemma_subsets_are_distinct, lemma_subsets_count,
    list_nonempty_subsets, nonempty_subsets, rows, select,
};
use crate::types::operator::{contains_kind, Operator, Rarity};
use crate::types::tag::{lemma_places_and_kinds, TagType, UiTag, KIND_COUNT};
use vstd::arithmetic::power2::pow2;
use vstd::prelude::*;
use vstd::set_lib::{lemma_int_range, lemma_len_subset, set_int_range};

verus! {

/// The order in which results are shown.
#[derive(Clone, Copy, Debug, PartialEq, Eq, Structural)]
pub enum Order {
    Default,
}

/// The kind of each tag.
pub open spec fn kinds_of(tags: Seq<UiTag>) -> Seq<TagType> {
    tags.map_values(|tag: UiTag| tag.spec_tag_type())
}

/// The kinds without repetition, each where it first occurs.
pub open spec fn kind_set(kinds: Seq<TagType>) -> Seq<TagType>
    decreases kinds.len(),
{
    if kinds.len() == 0 {
        Seq::empty()
    } else {
        let front = kind_set(kinds.drop_last());
        if front.contains(kinds.last()) {
            front
        } else {
            front.push(kinds.last())
        }
    }
}

/// [`kind_set`] holds the same kinds as the list it is made of, each once.
pub proof fn lemma_kind_set(kinds: Seq<TagType>)
    ensures
        kind_set(kinds).no_duplicates(),
        forall|kind: TagType| kind_set(kinds).contains(kind) <==> kinds.contains(kind),
    decreases kinds.len(),
{
    if kinds.len() > 0 {
        let front = kinds.drop_last();
        let last = kinds.last();
        let set = kind_set(front);
        lemma_kind_set(front);
        assert forall|kind: TagType| kind_set(kinds).contains(kind) <==> kinds.contains(
            kind,
        ) by {
            assert(set.contains(kind) <==> front.contains(kind));
            if kinds.contains(kind) {
                let i = choose|i: int| 0 <= i < kinds.len() && kinds[i] == kind;
                if i < front.len() {
                    assert(front[i] == kind);
                    assert(front.contains(kind));
                }
                if set.contains(kind) {
                    let j = choose|j: int| 0 <= j < set.len() && set[j] == kind;
                    assert(kind_set(kinds)[j] == kind);
                } else {
                    assert(kind == last);
                    assert(kind_set(kinds)[set.len() as int] == kind);
                }
            }
            if kind_set(kinds).contains(kind) {
                let j = choose|j: int| 0 <= j < kind_set(kinds).len() && kind_set(kinds)[j] == kind;
                if j < set.len() {
                    assert(set[j] == kind);
                    assert(set.contains(kind));
                    let i = choose|i: int| 0 <= i < front.len() && front[i] == kind;
                    assert(kinds[i] == kind);
                } else {
                    assert(kinds[kinds.len() - 1] == kind);
                }
            }
        }
    }
}

/// A list in which no kind comes twice holds at most [`KIND_COUNT`] kinds.
pub proof fn lemma_distinct_kinds_are_few(kinds: Seq<TagType>)
    requires
        kinds.no_duplicates(),
    ensures
        kinds.len() <= KIND_COUNT,
{
    let places = kinds.map_values(|kind: TagType| kind.ordinal() as int);
    assert forall|i: int, j: int| 0 <= i < places.len() && 0 <= j < places.len() && i
        != j implies places[i] != places[j] by {
        lemma_places_and_kinds(kinds[i], 0);
        lemma_places_and_kinds(kinds[j], 0);
    }
    places.unique_seq_to_set();
    lemma_int_range(0, KIND_COUNT as int);
    assert forall|place: int| places.to_set().contains(place) implies set_int_range(
        0,
        KIND_COUNT as int,
    ).contains(place) by {
        let i = choose|i: int| 0 <= i < places.len() && places[i] == place;
        lemma_places_and_kinds(kinds[i], 0);
    }
    lemma_len_subset(places.to_set(), set_int_range(0, KIND_COUNT as int));
}

/// One line of the result: a combination of tags and the operators offered
/// for it.
#[derive(Debug)]
pub struct CalcResult<'a> {
    tag_variation: Vec<TagType>,
    obtainable_operators: Vec<&'a Operator>,
}

impl<'a> View for CalcResult<'a> {
    type V = (Seq<TagType>, Seq<Operator>);

    closed spec fn view(&self) -> (Seq<TagType>, Seq<Operator>) {
        (self.tag_variation@, self.obtainable_operators@.map_values(|op: &Operator| *op))
    }
}

impl<'a> CalcResult<'a> {
    pub fn tag_variation(&self) -> (tag_variation: &Vec<TagType>)
        ensures
            tag_variation@ == self@.0,
    {
        &self.tag_variation
    }

    pub fn obtainable_operators(&self) -> (operators: &Vec<&'a Operator>)
        ensures
            operators@.map_values(|op: &Operator| *op) == self@.1,
    {
        &self.obtainable_operators
    }
}

/// What each line holds.
pub open spec fn lines<'a>(results: Seq<CalcResult<'a>>) -> Seq<(Seq<TagType>, Seq<Operator>)> {
    results.map_values(|line: CalcResult<'a>| line@)
}

/// The calculator: the catalog and the settings.
#[derive(Debug)]
pub struct Calculator {
    pool: Vec<Operator>,
    ignore_tier_1: bool,
    ignore_tier_2: bool,
    ignore_tier_3: bool,
    sort_order: Order,
}

impl Calculator {
    /// The catalog.
    pub closed spec fn spec_pool(self) -> Seq<Operator> {
        self.pool@
    }

    /// Whether the first, the second and the third tier are to be ignored.
    pub closed spec fn spec_ignored(self) -> (bool, bool, bool) {
        (self.ignore_tier_1, self.ignore_tier_2, self.ignore_tier_3)
    }

    /// The order in which results are shown.
    pub closed spec fn spec_sort_order(self) -> Order {
        self.sort_order
    }

    /// An operator is left out only if all three tiers are to be ignored and
    /// its rarity is each of the three.
    pub open spec fn excludes(self, op: Operator) -> bool {
        &&& self.spec_ignored().0 && op.spec_rarity() == Rarity::Tier1
        &&& self.spec_ignored().1 && op.spec_rarity() == Rarity::Tier2
        &&& self.spec_ignored().2 && op.spec_rarity() == Rarity::Tier3
    }

    /// The operator is not left out and is offered for the combination.
    pub open spec fn admits(self, op: Operator, variation: Seq<TagType>) -> bool {
        !self.excludes(op) && op.matches(variation)
    }

    /// The operators of the catalog offered for the combination, in the order
    /// of the catalog.
    pub open spec fn obtainable(self, variation: Seq<TagType>) -> Seq<Operator> {
        self.spec_pool().filter(|op: Operator| self.admits(op, variation))
    }

    /// One line for each combination for which an operator is offered, in the
    /// order of the combinations.
    pub open spec fn results_for(self, variations: Seq<Seq<TagType>>) -> Seq<
        (Seq<TagType>, Seq<Operator>),
    >
        decreases variations.len(),
    {
        if variations.len() == 0 {
            Seq::empty()
        } else {
            let front = self.results_for(variations.drop_last());
            let offered = self.obtainable(variations.last());
            if offered.len() == 0 {
                front
            } else {
                front.push((variations.last(), offered))
            }
        }
    }

    /// The result for the detected tags: the kinds detected, every combination
    /// of them, and for each the operators offered.
    pub open spec fn evaluation(self, tags: Seq<UiTag>) -> Seq<(Seq<TagType>, Seq<Operator>)> {
        self.results_for(nonempty_subsets(kind_set(kinds_of(tags))))
    }

    /// A calculator over the catalog that was loaded. Where loading failed, it
    /// works on an empty catalog. No tier is ignored.
    pub fn new(catalog: Option<Vec<Operator>>) -> (calculator: Calculator)
        ensures
            calculator.spec_pool() == match catalog {
                Some(pool) => pool@,
                None => Seq::<Operator>::empty(),
            },
            calculator.spec_ignored() == (false, false, false),
            calculator.spec_sort_order() == Order::Default,
    {
        Calculator {
            pool: match catalog {
                Some(pool) => pool,
                None => Vec::new(),
            },
            ignore_tier_1: false,
            ignore_tier_2: false,
            ignore_tier_3: false,
            sort_order: Order::Default,
        }
    }

    /// Sets which of the first three tiers are to be ignored.
    pub fn set_ignored_tiers(&mut self, tier_1: bool, tier_2: bool, tier_3: bool)
        ensures
            final(self).spec_pool() == old(self).spec_pool(),
            final(self).spec_sort_order() == old(self).spec_sort_order(),
            final(self).spec_ignored() == (tier_1, tier_2, tier_3),
    {
        self.ignore_tier_1 = tier_1;
        self.ignore_tier_2 = tier_2;
        self.ignore_tier_3 = tier_3;
    }

    pub fn pool(&self) -> (pool: &Vec<Operator>)
        ensures
            pool@ == self.spec_pool(),
    {
        &self.pool
    }

    /// Every combination of the kinds but the empty one: first the single
    /// kinds, then the pairs, and so on.
    pub fn variations(tags: Vec<TagType>) -> (variety: Vec<Vec<TagType>>)
        requires
            tags.len() < usize::BITS,
        ensures
            rows(variety@) == nonempty_subsets(tags@),
            variety.len() == pow2(tags.len() as nat) - 1,
            forall|i: int| 0 <= i < variety.len() ==> (#[trigger] variety[i]).len() >= 1,
            tags@.no_duplicates() ==> rows(variety@).no_duplicates(),
    {
        let variety = list_nonempty_subsets(&tags);
        proof {
            lemma_subsets_count(tags@);
            if tags@.no_duplicates() {
                lemma_subsets_are_distinct(tags@);
            }
            assert forall|i: int| 0 <= i < variety.len() implies (#[trigger] variety[i]).len()
                >= 1 by {
                lemma_subsets_are_choices(tags@, i);
                assert(rows(variety@)[i] == variety[i]@);
            }
        }
        variety
    }

    /// The kinds of the tags, each once, in the order in which they first
    /// occur.
    pub fn distinct_kinds(tags: &Vec<UiTag>) -> (kinds: Vec<TagType>)
        ensures
            kinds@ == kind_set(kinds_of(tags@)),
            kinds@.no_duplicates(),
            kinds.len() <= KIND_COUNT,
    {
        let mut kinds: Vec<TagType> = Vec::new();
        let mut i: usize = 0;
        assert(kinds_of(tags@).take(0) =~= Seq::<TagType>::empty());
        while i < tags.len()
            invariant
                i <= tags.len(),
                kinds@ == kind_set(kinds_of(tags@).take(i as int)),
            decreases tags.len() - i,
        {
            let kind = *tags[i].tag_type();
            assert(kinds_of(tags@).take(i + 1).drop_last() =~= kinds_of(tags@).take(i as int));
            if !contains_kind(&kinds, kind) {
                kinds.push(kind);
            }
            i += 1;
        }
        proof {
            assert(kinds_of(tags@).take(tags.len() as int) =~= kinds_of(tags@));
            lemma_kind_set(kinds_of(tags@));
            lemma_distinct_kinds_are_few(kinds@);
        }
        kinds
    }

    /// Whether the settings leave the operator out.
    pub fn is_excluded(&self, op: &Operator) -> (excluded: bool)
        ensures
            excluded == self.excludes(*op),
    {
        (self.ignore_tier_1 && *op.rarity() == Rarity::Tier1) && (self.ignore_tier_2
            && *op.rarity() == Rarity::Tier2) && (self.ignore_tier_3 && *op.rarity()
            == Rarity::Tier3)
    }

    /// The operators of the catalog offered for one combination.
    pub fn matching_operators<'a>(&'a self, variation: &Vec<TagType>) -> (matched: Vec<
        &'a Operator,
    >)
        ensures
            matched@.map_values(|op: &Operator| *op) == self.obtainable(variation@),
    {
        let mut matched: Vec<&'a Operator> = Vec::new();
        let ghost offered = |op: Operator| self.admits(op, variation@);
        let mut i: usize = 0;
        assert(self.pool@.take(0) =~= Seq::<Operator>::empty());
        while i < self.pool.len()
            invariant
                i <= self.pool.len(),
                offered == |op: Operator| self.admits(op, variation@),
                matched@.map_values(|op: &Operator| *op) == self.pool@.take(i as int).filter(
                    offered,
                ),
            decreases self.pool.len() - i,
        {
            let op = &self.pool[i];
            proof {
                let before = self.pool@.take(i as int);
                let now = self.pool@.take(i + 1);
                assert(now.drop_last() =~= before);
                reveal(Seq::filter);
                assert(now.filter(offered) == if offered(*op) {
                    before.filter(offered).push(*op)
                } else {
                    before.filter(offered)
                });
            }
            if !self.is_excluded(op) && op.matches_tags(variation) {
                matched.push(op);
                assert(matched@.map_values(|op: &Operator| *op) =~= self.pool@.take(
                    i + 1,
                ).filter(offered));
            }
            i += 1;
        }
        assert(self.pool@.take(self.pool.len() as int) =~= self.pool@);
        matched
    }

    /// Works out, for every combination of the kinds of the detected tags,
    /// which operators are offered. A combination for which none is offered
    /// gets no line.
    pub fn evaluate<'a>(&'a self, tags: &Vec<UiTag>) -> (results: Vec<CalcResult<'a>>)
        ensures
            lines(results@) == self.evaluation(tags@),
            self.spec_pool().len() == 0 ==> results.len() == 0,
            forall|i: int, j: int|
                0 <= i < results.len() && 0 <= j < results[i]@.1.len() && !results[i]@.0.contains(
                    TagType::TopOperator,
                ) ==> !(#[trigger] results[i]@.1[j]).spec_rarity().is_top(),
    {
        let kinds = Self::distinct_kinds(tags);
        let variations = Self::variations(kinds);
        let mut results: Vec<CalcResult<'a>> = Vec::new();
        let mut i: usize = 0;
        assert(rows(variations@).take(0) =~= Seq::<Seq<TagType>>::empty());
        assert(lines(results@) =~= self.results_for(rows(variations@).take(0)));
        while i < variations.len()
            invariant
                i <= variations.len(),
                lines(results@) == self.results_for(rows(variations@).take(i as int)),
            decreases variations.len() - i,
        {
            let variation = &variations[i];
            let matched = self.matching_operators(variation);
            proof {
                assert(rows(variations@).take(i + 1).drop_last() =~= rows(variations@).take(
                    i as int,
                ));
                assert(rows(variations@).take(i + 1).last() == variation@);
            }
            if matched.len() != 0 {
                let ghost listed = lines(results@);
                let line = CalcResult {
                    tag_variation: variation.clone(),
                    obtainable_operators: matched,
                };
                assert(line@ == (variation@, self.obtainable(variation@)));
                results.push(line);
                assert(lines(results@) =~= listed.push(line@));
            }
            i += 1;
        }
        proof {
            assert(rows(variations@).take(variations.len() as int) =~= rows(variations@));
            if self.spec_pool().len() == 0 {
                lemma_empty_catalog_offers_nothing(*self, tags@);
            }
            assert forall|i: int, j: int|
                0 <= i < results.len() && 0 <= j < results[i]@.1.len() && !results[i]@.0.contains(
                    TagType::TopOperator,
                ) implies !(#[trigger] results[i]@.1[j]).spec_rarity().is_top() by {
                assert(lines(results@)[i] == results[i]@);
                lemma_top_tier_needs_its_tag(*self, tags@, i, j);
            }
        }
        results
    }
}

/// `line` is the line of one of the combinations: it holds the combination
/// and the operators offered for it, of which there is at least one.
pub open spec fn is_line_of(
    calculator: Calculator,
    variations: Seq<Seq<TagType>>,
    line: (Seq<TagType>, Seq<Operator>),
) -> bool {
    &&& variations.contains(line.0)
    &&& line.1 == calculator.obtainable(line.0)
    &&& line.1.len() > 0
}

/// Every line of a result is the line of one of the combinations.
pub proof fn lemma_lines_are_of_combinations(
    calculator: Calculator,
    variations: Seq<Seq<TagType>>,
    i: int,
)
    requires
        0 <= i < calculator.results_for(variations).len(),
    ensures
        is_line_of(calculator, variations, calculator.results_for(variations)[i]),
    decreases variations.len(),
{
    let front = variations.drop_last();
    let line = calculator.results_for(variations)[i];
    if i < calculator.results_for(front).len() {
        lemma_lines_are_of_combinations(calculator, front, i);
        let at = choose|at: int| 0 <= at < front.len() && front[at] == line.0;
        assert(variations[at] == line.0);
    } else {
        assert(variations[variations.len() - 1] == line.0);
    }
}

/// A combination has a line exactly if the catalog holds an operator that is
/// not left out and is offered for it.
pub proof fn lemma_line_iff_offered(
    calculator: Calculator,
    variations: Seq<Seq<TagType>>,
    variation: Seq<TagType>,
)
    requires
        variations.contains(variation),
    ensures
        (exists|i: int|
            0 <= i < calculator.results_for(variations).len() && (
            #[trigger] calculator.results_for(variations)[i]).0 == variation) <==> (exists|
            k: int,
        |
            0 <= k < calculator.spec_pool().len() && calculator.admits(
                #[trigger] calculator.spec_pool()[k],
                variation,
            )),
{
    let offered = |op: Operator| calculator.admits(op, variation);
    let pool = calculator.spec_pool();
    let results = calculator.results_for(variations);
    if exists|k: int| 0 <= k < pool.len() && calculator.admits(#[trigger] pool[k], variation) {
        let k = choose|k: int|
            0 <= k < pool.len() && calculator.admits(#[trigger] pool[k], variation);
        pool.lemma_filter_contains(offered, k);
        lemma_offered_has_line(calculator, variations, variation);
    }
    if exists|i: int| 0 <= i < results.len() && (#[trigger] results[i]).0 == variation {
        let i = choose|i: int| 0 <= i < results.len() && (#[trigger] results[i]).0 == variation;
        lemma_lines_are_of_combinations(calculator, variations, i);
        lemma_offered_are_of_catalog(calculator, variation, 0);
    }
}

/// A combination for which an operator is offered has a line.
proof fn lemma_offered_has_line(
    calculator: Calculator,
    variations: Seq<Seq<TagType>>,
    variation: Seq<TagType>,
)
    requires
        variations.contains(variation),
        calculator.obtainable(variation).len() > 0,
    ensures
        exists|i: int|
            0 <= i < calculator.results_for(variations).len() && (
            #[trigger] calculator.results_for(variations)[i]).0 == variation,
    decreases variations.len(),
{
    let front = variations.drop_last();
    let results = calculator.results_for(variations);
    if variations.last() == variation {
        assert(results[results.len() - 1].0 == variation);
    } else {
        let at = choose|at: int| 0 <= at < variations.len() && variations[at] == variation;
        assert(front[at] == variation);
        lemma_offered_has_line(calculator, front, variation);
        let i = choose|i: int|
            0 <= i < calculator.results_for(front).len() && (#[trigger] calculator.results_for(
                front,
            )[i]).0 == variation;
        assert(results[i].0 == variation);
    }
}

/// Every operator offered for a combination is an operator of the catalog
/// that is not left out and that has every tag of the combination.
pub proof fn lemma_offered_are_of_catalog(calculator: Calculator, variation: Seq<TagType>, j: int)
    requires
        0 <= j < calculator.obtainable(variation).len(),
    ensures
        calculator.admits(calculator.obtainable(variation)[j], variation),
        exists|k: int|
            0 <= k < calculator.spec_pool().len() && #[trigger] calculator.spec_pool()[k]
                == calculator.obtainable(variation)[j],
{
    let offered = |op: Operator| calculator.admits(op, variation);
    let pool = calculator.spec_pool();
    pool.lemma_filter_pred(offered, j);
    lemma_filtered_are_members(pool, offered, j);
}

/// What a filter keeps was there.
proof fn lemma_filtered_are_members<T>(items: Seq<T>, keep: spec_fn(T) -> bool, j: int)
    requires
        0 <= j < items.filter(keep).len(),
    ensures
        exists|k: int| 0 <= k < items.len() && #[trigger] items[k] == items.filter(keep)[j],
    decreases items.len(),
{
    reveal(Seq::filter);
    let front = items.drop_last();
    if j < front.filter(keep).len() {
        lemma_filtered_are_members(front, keep, j);
        let k = choose|k: int| 0 <= k < front.len() && #[trigger] front[k] == front.filter(keep)[j];
        assert(items[k] == items.filter(keep)[j]);
    } else {
        assert(items[items.len() - 1] == items.filter(keep)[j]);
    }
}

/// As the rule of the tiers is written, it leaves no operator out: no rarity
/// is the first, the second and the third tier at once.
pub proof fn lemma_no_operator_is_excluded(calculator: Calculator, op: Operator)
    ensures
        !calculator.excludes(op),
{
}

/// In a line whose combination lacks the tag that promises the rarest
/// operators, no operator is of the rarest tier.
pub proof fn lemma_top_tier_needs_its_tag(calculator: Calculator, tags: Seq<UiTag>, i: int, j: int)
    requires
        0 <= i < calculator.evaluation(tags).len(),
        0 <= j < calculator.evaluation(tags)[i].1.len(),
        !calculator.evaluation(tags)[i].0.contains(TagType::TopOperator),
    ensures
        !calculator.evaluation(tags)[i].1[j].spec_rarity().is_top(),
{
    let variations = nonempty_subsets(kind_set(kinds_of(tags)));
    lemma_lines_are_of_combinations(calculator, variations, i);
    lemma_offered_are_of_catalog(calculator, calculator.evaluation(tags)[i].0, j);
}

/// The result depends on the tags and the calculator alone: two evaluations
/// of the same tags by the same calculator give the same lines.
pub proof fn lemma_evaluation_repeats(
    calculator: Calculator,
    tags: Seq<UiTag>,
    first: Seq<(Seq<TagType>, Seq<Operator>)>,
    second: Seq<(Seq<TagType>, Seq<Operator>)>,
)
    requires
        first == calculator.evaluation(tags),
        second == calculator.evaluation(tags),
    ensures
        first == second,
{
}

/// Over an empty catalog no combination has a line, whatever the tags.
pub proof fn lemma_empty_catalog_offers_nothing(calculator: Calculator, tags: Seq<UiTag>)
    requires
        calculator.spec_pool().len() == 0,
    ensures
        calculator.evaluation(tags).len() == 0,
{
    if calculator.evaluation(tags).len() > 0 {
        let variations = nonempty_subsets(kind_set(kinds_of(tags)));
        lemma_lines_are_of_combinations(calculator, variations, 0);
        lemma_offered_are_of_catalog(calculator, calculator.evaluation(tags)[0].0, 0);
    }
}

/// The lines of a result are those of the combinations of the kinds
/// detected: each combination is a choice of at least one of the kinds, and
/// there are at most two to the power of their number, less one, lines.
pub proof fn lemma_lines_are_of_detected_kinds(calculator: Calculator, tags: Seq<UiTag>, i: int)
    requires
        0 <= i < calculator.evaluation(tags).len(),
    ensures
        nonempty_subsets(kind_set(kinds_of(tags))).contains(calculator.evaluation(tags)[i].0),
        calculator.evaluation(tags)[i].0.len() >= 1,
        forall|p: int|
            0 <= p < calculator.evaluation(tags)[i].0.len() ==> kinds_of(tags).contains(
                #[trigger] calculator.evaluation(tags)[i].0[p],
            ),
{
    let kinds = kind_set(kinds_of(tags));
    let variations = nonempty_subsets(kinds);
    let line = calculator.evaluation(tags)[i];
    lemma_kind_set(kinds_of(tags));
    lemma_distinct_kinds_are_few(kinds);
    lemma_lines_are_of_combinations(calculator, variations, i);
    let at = choose|at: int| 0 <= at < variations.len() && variations[at] == line.0;
    lemma_subsets_are_choices(kinds, at);
    let places = choose|places: Seq<usize>|
        is_selection(places, 0, kinds.len()) && places.len() > 0 && #[trigger] select(kinds, places)
            == line.0;
    assert forall|p: int| 0 <= p < line.0.len() implies kinds_of(tags).contains(
        #[trigger] line.0[p],
    ) by {
        assert(line.0[p] == kinds[places[p] as int]);
        assert(kinds.contains(line.0[p]));
    }
}

} // verus!
