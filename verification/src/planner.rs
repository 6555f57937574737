//! The session planner: fill the minutes the learner has with the items that move the
//! mastery model the most.
//!
//! A knapsack, filled greedily by gain per cost. What an item gains, and its gain per
//! cost, are numbers handed in; which items are taken, in which order and until when is
//! decided here.

use crate::double::{total_order_separates, Double};
use crate::models::{ItemKind, PlannedItem};
use crate::text::{
    is_before, precedes, precedes_irreflexive, precedes_total, precedes_transitive, same_text,
};
use vstd::prelude::*;

verus! {

/// The cost of an item kind that was never answered, in seconds.
pub const DEFAULT_ITEM_SECONDS: u32 = 60;

/// Items from one skill in a single sitting.
pub const DEFAULT_PER_SKILL_ITEM_CAP: u32 = 5;

/// Floor on an item's estimated cost, in milliseconds: an item is never free.
pub const MIN_ITEM_COST_MS: i64 = 1_000;

/// One item the planner may choose.
#[derive(Clone, Debug)]
pub struct Candidate {
    pub item_id: String,
    pub skill_id: String,
    pub kind: ItemKind,
    /// What answering the item right is expected to move, weighted by how far the skill
    /// is from certain.
    pub gain: Double,
    /// The gain divided by the cost that the cost model gives for the item's kind.
    pub ratio: Double,
}

/// Observed answer times per item kind, with a seed for the kinds that have none.
#[derive(Clone, Debug)]
pub struct CostModel {
    pub fallback_ms: i64,
    pub medians: Vec<(ItemKind, i64)>,
}

/// The first cost on record for a kind.
pub open spec fn first_cost(medians: Seq<(ItemKind, i64)>, kind: ItemKind) -> Option<i64>
    decreases medians.len(),
{
    if medians.len() == 0 {
        None
    } else {
        match first_cost(medians.drop_last(), kind) {
            Some(ms) => Some(ms),
            None => if medians.last().0 == kind {
                Some(medians.last().1)
            } else {
                None
            },
        }
    }
}

/// The median of an ascending list: the middle value, or the average of the two central
/// ones, cut off toward zero.
pub open spec fn median_of(ascending: Seq<i64>) -> Option<int> {
    let n = ascending.len() as int;
    if n == 0 {
        None
    } else if n % 2 == 1 {
        Some(ascending[n / 2] as int)
    } else {
        Some(halved(ascending[n / 2 - 1] + ascending[n / 2]))
    }
}

/// Half of a number, cut off toward zero.
pub open spec fn halved(n: int) -> int {
    if n >= 0 {
        n / 2
    } else {
        -((-n) / 2)
    }
}

/// A cost, but never less than the floor.
pub open spec fn floored(ms: int) -> int {
    if ms >= MIN_ITEM_COST_MS {
        ms
    } else {
        MIN_ITEM_COST_MS as int
    }
}

impl Default for CostModel {
    fn default() -> (model: Self)
        ensures
            model.fallback_ms == 60_000,
            model.medians@.len() == 0,
    {
        CostModel::seeded(DEFAULT_ITEM_SECONDS)
    }
}

impl CostModel {
    /// What an item of a kind is expected to cost.
    pub open spec fn cost(&self, kind: ItemKind) -> i64 {
        match first_cost(self.medians@, kind) {
            Some(ms) => ms,
            None => self.fallback_ms,
        }
    }

    /// No cost is below the floor.
    pub open spec fn well_formed(&self) -> bool {
        &&& self.fallback_ms >= MIN_ITEM_COST_MS
        &&& forall|i: int|
            0 <= i < self.medians@.len() ==> (#[trigger] self.medians@[i]).1 >= MIN_ITEM_COST_MS
    }

    /// A model with no observations at all: every kind costs the seed.
    pub fn seeded(default_seconds: u32) -> (model: Self)
        ensures
            model.fallback_ms == floored(default_seconds * 1_000),
            default_seconds >= 1 ==> model.fallback_ms == default_seconds * 1_000,
            default_seconds == 0 ==> model.fallback_ms == 1_000,
            model.medians@.len() == 0,
            model.well_formed(),
    {
        let seed: i64 = (default_seconds as i64) * 1_000;
        CostModel {
            fallback_ms: if seed >= MIN_ITEM_COST_MS {
                seed
            } else {
                MIN_ITEM_COST_MS
            },
            medians: Vec::new(),
        }
    }

    /// Records the observed median for one kind. With no observations the kind stays as
    /// it was; the first record for a kind stands.
    pub fn observe(self, kind: ItemKind, ascending_latencies: &[i64]) -> (model: Self)
        ensures
            model.fallback_ms == self.fallback_ms,
            model.medians@ == (match median_of(ascending_latencies@) {
                Some(median) => self.medians@.push((kind, floored(median) as i64)),
                None => self.medians@,
            }),
            forall|k: ItemKind| #[trigger]
                model.cost(k) == (if k == kind && first_cost(self.medians@, k) is None
                    && ascending_latencies@.len() > 0 {
                    floored(median_of(ascending_latencies@)->0) as i64
                } else {
                    self.cost(k)
                }),
            self.well_formed() ==> model.well_formed(),
            ascending_latencies@.len() == 0 ==> model.medians@ == self.medians@,
            ascending_latencies@.len() % 2 == 1 ==> model.medians@ == self.medians@.push(
                (
                    kind,
                    if ascending_latencies@[ascending_latencies@.len() as int / 2] >= 1_000 {
                        ascending_latencies@[ascending_latencies@.len() as int / 2]
                    } else {
                        1_000
                    },
                ),
            ),
            model.medians@.len() == self.medians@.len() + (if ascending_latencies@.len() > 0 {
                1int
            } else {
                0int
            }),
    {
        let mut model: CostModel = self;
        if let Some(median) = median_ms(ascending_latencies) {
            let cost: i64 = if median >= MIN_ITEM_COST_MS {
                median
            } else {
                MIN_ITEM_COST_MS
            };
            model.medians.push((kind, cost));
            proof {
                assert(model.medians@.drop_last() =~= self.medians@);
                assert(model.medians@.last() == (kind, cost));
            }
        }
        model
    }

    /// What an item of a kind is expected to cost.
    pub fn cost_ms(&self, kind: ItemKind) -> (ms: i64)
        ensures
            ms == self.cost(kind),
            self.well_formed() ==> ms >= MIN_ITEM_COST_MS,
    {
        let mut i: usize = 0;
        assert(self.medians@.take(0) =~= seq![]);
        while i < self.medians.len()
            invariant
                i <= self.medians@.len(),
                first_cost(self.medians@.take(i as int), kind) is None,
            decreases self.medians@.len() - i,
        {
            proof {
                assert(self.medians@.take(i + 1).drop_last() =~= self.medians@.take(i as int));
                assert(self.medians@.take(i + 1).last() == self.medians@[i as int]);
            }
            if self.medians[i].0 == kind {
                proof {
                    first_cost_stands(self.medians@, kind, i + 1);
                }
                return self.medians[i].1;
            }
            i += 1;
        }
        assert(self.medians@.take(i as int) =~= self.medians@);
        self.fallback_ms
    }
}

/// A record stays the first however many follow.
proof fn first_cost_stands(medians: Seq<(ItemKind, i64)>, kind: ItemKind, upto: int)
    requires
        0 <= upto <= medians.len(),
        first_cost(medians.take(upto), kind) is Some,
    ensures
        first_cost(medians, kind) == first_cost(medians.take(upto), kind),
    decreases medians.len(),
{
    if upto < medians.len() {
        assert(medians.drop_last().take(upto) =~= medians.take(upto));
        first_cost_stands(medians.drop_last(), kind, upto);
    } else {
        assert(medians.take(upto) =~= medians);
    }
}

/// The median of an ascending list. `None` for an empty one.
///
/// The average of two central values is cut off toward zero, so that the same
/// observations always price an item the same.
pub fn median_ms(ascending: &[i64]) -> (median: Option<i64>)
    ensures
        (match median {
            Some(ms) => Some(ms as int),
            None => None,
        }) == median_of(ascending@),
        ascending@.len() == 0 <==> median is None,
        ascending@.len() % 2 == 1 ==> median == Some(ascending@[ascending@.len() as int / 2]),
        // Twice the median is the sum of the two in the middle, short of it by less than two and
        // never beyond it.
        median matches Some(ms) ==> ascending@.len() % 2 == 0 ==> {
            let sum = ascending@[ascending@.len() as int / 2 - 1] + ascending@[ascending@.len() as int
                / 2];
            &&& sum >= 0 ==> 0 <= 2 * ms <= sum < 2 * ms + 2
            &&& sum <= 0 ==> 2 * ms - 2 < sum <= 2 * ms <= 0
        },
{
    let n: usize = ascending.len();
    if n == 0 {
        return None;
    }
    if n % 2 == 1 {
        return Some(ascending[n / 2]);
    }
    let sum: i128 = ascending[n / 2 - 1] as i128 + ascending[n / 2] as i128;
    let half: i128 = if sum >= 0 {
        sum / 2
    } else {
        -((-sum) / 2)
    };
    Some(half as i64)
}

/// What the planner was asked for.
#[derive(Clone, Copy, Debug, PartialEq, Eq, Structural)]
pub struct PlanOptions {
    pub budget_minutes: u32,
    pub per_skill_item_cap: u32,
}

impl Default for PlanOptions {
    fn default() -> (options: Self)
        ensures
            options.budget_minutes == 20,
            options.per_skill_item_cap == DEFAULT_PER_SKILL_ITEM_CAP,
    {
        PlanOptions { budget_minutes: 20, per_skill_item_cap: DEFAULT_PER_SKILL_ITEM_CAP }
    }
}

/// Whether `a` is considered before `b`: more gain per cost, and among equals the item
/// id that comes first.
pub open spec fn ranks_before(a: Candidate, b: Candidate) -> bool {
    ||| b.ratio.total_rank() < a.ratio.total_rank()
    ||| a.ratio == b.ratio && precedes(a.item_id@, b.item_id@)
}

/// A ranked list with one more candidate, behind those that it does not rank before.
pub open spec fn with_candidate(list: Seq<Candidate>, one: Candidate) -> Seq<Candidate>
    decreases list.len(),
{
    if list.len() == 0 || !ranks_before(one, list.last()) {
        list.push(one)
    } else {
        with_candidate(list.drop_last(), one).push(list.last())
    }
}

/// The candidates in the order in which they are considered.
pub open spec fn ranking(candidates: Seq<Candidate>) -> Seq<Candidate>
    decreases candidates.len(),
{
    if candidates.len() == 0 {
        seq![]
    } else {
        with_candidate(ranking(candidates.drop_last()), candidates.last())
    }
}

/// What an item costs in a plan.
pub open spec fn price(costs: CostModel, one: Candidate) -> int {
    floored(costs.cost(one.kind) as int)
}

/// What a list of items costs.
pub open spec fn total_price(costs: CostModel, list: Seq<Candidate>) -> int
    decreases list.len(),
{
    if list.len() == 0 {
        0
    } else {
        total_price(costs, list.drop_last()) + price(costs, list.last())
    }
}

/// How many items of a list train a skill.
pub open spec fn items_of_skill(list: Seq<Candidate>, skill: Seq<char>) -> nat
    decreases list.len(),
{
    if list.len() == 0 {
        0
    } else {
        items_of_skill(list.drop_last(), skill) + if list.last().skill_id@ == skill {
            1nat
        } else {
            0nat
        }
    }
}

/// The budget in milliseconds.
pub open spec fn budget_of(options: PlanOptions) -> int {
    options.budget_minutes * 60_000
}

/// Whether one more item fits: the budget holds it, and its skill has room.
pub open spec fn fits(
    costs: CostModel,
    options: PlanOptions,
    taken: Seq<Candidate>,
    one: Candidate,
) -> bool {
    &&& total_price(costs, taken) + price(costs, one) <= budget_of(options)
    &&& items_of_skill(taken, one.skill_id@) < options.per_skill_item_cap
}

/// The items taken when each is considered in turn and taken if it fits.
pub open spec fn picks(costs: CostModel, options: PlanOptions, ranked: Seq<Candidate>) -> Seq<
    Candidate,
>
    decreases ranked.len(),
{
    if ranked.len() == 0 {
        seq![]
    } else {
        let taken = picks(costs, options, ranked.drop_last());
        if fits(costs, options, taken, ranked.last()) {
            taken.push(ranked.last())
        } else {
            taken
        }
    }
}

/// Whether a plan lists the given items, each with its price and its gain.
pub open spec fn is_plan(
    costs: CostModel,
    plan: Seq<PlannedItem>,
    items: Seq<Candidate>,
) -> bool {
    &&& plan.len() == items.len()
    &&& forall|i: int|
        #![trigger plan[i]]
        0 <= i < plan.len() ==> {
            &&& plan[i].item_id@ == items[i].item_id@
            &&& plan[i].skill_id@ == items[i].skill_id@
            &&& plan[i].est_cost_ms == price(costs, items[i])
            &&& plan[i].est_gain == items[i].gain
        }
}

fn is_ranked_before(a: &Candidate, b: &Candidate) -> (yes: bool)
    ensures
        yes == ranks_before(*a, *b),
{
    proof {
        total_order_separates(a.ratio, b.ratio);
    }
    if b.ratio.is_before(a.ratio) {
        true
    } else if a.ratio.is_before(b.ratio) {
        false
    } else {
        is_before(a.item_id.as_str(), b.item_id.as_str())
    }
}

/// The candidates at the given positions.
pub open spec fn chosen(candidates: Seq<Candidate>, order: Seq<usize>) -> Seq<Candidate> {
    order.map_values(|i: usize| candidates[i as int])
}

/// The positions of the candidates, in the order in which they are considered.
fn rank(candidates: &[Candidate]) -> (order: Vec<usize>)
    ensures
        order@.len() == candidates@.len(),
        forall|k: int| 0 <= k < order@.len() ==> (#[trigger] order@[k]) < candidates@.len(),
        chosen(candidates@, order@) == ranking(candidates@),
{
    let mut order: Vec<usize> = Vec::new();
    let mut i: usize = 0;
    assert(candidates@.take(0) =~= seq![]);
    assert(chosen(candidates@, order@) =~= seq![]);
    while i < candidates.len()
        invariant
            i <= candidates@.len(),
            order@.len() == i,
            forall|k: int| 0 <= k < order@.len() ==> (#[trigger] order@[k]) < candidates@.len(),
            chosen(candidates@, order@) == ranking(candidates@.take(i as int)),
        decreases candidates@.len() - i,
    {
        let ghost list = chosen(candidates@, order@);
        let ghost one = candidates@[i as int];
        let ghost old_order = order@;
        let mut at: usize = order.len();
        assert(list.take(at as int) =~= list);
        assert(with_candidate(list, one) =~= with_candidate(list.take(at as int), one) + list.skip(
            at as int,
        ));
        while at > 0 && is_ranked_before(&candidates[i], &candidates[order[at - 1]])
            invariant
                i < candidates@.len(),
                at <= order@.len(),
                one == candidates@[i as int],
                list == chosen(candidates@, order@),
                forall|k: int|
                    0 <= k < order@.len() ==> (#[trigger] order@[k]) < candidates@.len(),
                with_candidate(list, one) == with_candidate(list.take(at as int), one) + list.skip(
                    at as int,
                ),
            decreases at,
        {
            proof {
                let head = list.take(at as int);
                assert(head.last() == list[at - 1]);
                assert(head.drop_last() =~= list.take(at - 1));
                assert(with_candidate(head, one) + list.skip(at as int) =~= with_candidate(
                    list.take(at - 1),
                    one,
                ) + list.skip(at - 1));
            }
            at -= 1;
        }
        proof {
            let head = list.take(at as int);
            if at > 0 {
                assert(head.last() == list[at - 1]);
            }
            assert(with_candidate(head, one) == head.push(one));
        }
        order.insert(at, i);
        proof {
            assert(chosen(candidates@, order@) =~= list.take(at as int).push(one) + list.skip(
                at as int,
            ));
            assert(candidates@.take(i + 1).drop_last() =~= candidates@.take(i as int));
            assert(candidates@.take(i + 1).last() == one);
        }
        i += 1;
    }
    assert(candidates@.take(i as int) =~= candidates@);
    order
}

/// Greedy knapsack: considers items by descending gain per cost and takes each that
/// fits. It keeps going after one that does not: a cheaper one further down may.
pub fn plan(candidates: &[Candidate], costs: &CostModel, options: PlanOptions) -> (plan: Vec<
    PlannedItem,
>)
    ensures
        is_plan(*costs, plan@, picks(*costs, options, ranking(candidates@))),
        // The budget holds the plan, and no skill has more items in it than the cap allows.
        plan@.fold_left(0int, |sum: int, line: PlannedItem| sum + line.est_cost_ms)
            <= options.budget_minutes * 60_000,
        forall|k: int|
            #![trigger plan@[k]]
            0 <= k < plan@.len() ==> {
                let skill = plan@[k].skill_id@;
                plan@.filter(|line: PlannedItem| line.skill_id@ == skill).len()
                    <= options.per_skill_item_cap
            },
        // Every line is one of the candidates, at the price of its kind.
        forall|k: int|
            0 <= k < plan@.len() ==> exists|i: int|
                0 <= i < candidates@.len() && (#[trigger] candidates@[i]).item_id@ == (
                #[trigger] plan@[k]).item_id@ && candidates@[i].skill_id@ == plan@[k].skill_id@
                    && candidates@[i].gain == plan@[k].est_gain && plan@[k].est_cost_ms == (
                if costs.cost(candidates@[i].kind) >= 1_000 {
                    costs.cost(candidates@[i].kind)
                } else {
                    1_000
                }),
{
    let budget_ms: i64 = options.budget_minutes as i64 * 60_000;
    let order: Vec<usize> = rank(candidates);
    let ghost ranked = ranking(candidates@);
    let mut spent: i64 = 0;
    let mut plan: Vec<PlannedItem> = Vec::new();
    let mut i: usize = 0;
    assert(ranked.take(0) =~= seq![]);
    while i < order.len()
        invariant
            budget_ms == budget_of(options),
            0 <= spent <= budget_ms,
            i <= order@.len(),
            ranked == ranking(candidates@),
            forall|k: int| 0 <= k < order@.len() ==> (#[trigger] order@[k]) < candidates@.len(),
            chosen(candidates@, order@) == ranked,
            spent == total_price(*costs, picks(*costs, options, ranked.take(i as int))),
            is_plan(*costs, plan@, picks(*costs, options, ranked.take(i as int))),
        decreases order@.len() - i,
    {
        let ghost taken = picks(*costs, options, ranked.take(i as int));
        let candidate: &Candidate = &candidates[order[i]];
        proof {
            assert(ranked[i as int] == *candidate);
            assert(ranked.take(i + 1).drop_last() =~= ranked.take(i as int));
            assert(ranked.take(i + 1).last() == *candidate);
        }
        let listed: i64 = costs.cost_ms(candidate.kind);
        let cost: i64 = if listed >= MIN_ITEM_COST_MS {
            listed
        } else {
            MIN_ITEM_COST_MS
        };
        if cost <= budget_ms - spent {
            let count: usize = count_skill(&plan, candidate.skill_id.as_str(), costs, Ghost(taken));
            if count < options.per_skill_item_cap as usize {
                spent = spent + cost;
                plan.push(
                    PlannedItem {
                        item_id: candidate.item_id.clone(),
                        skill_id: candidate.skill_id.clone(),
                        est_cost_ms: cost,
                        est_gain: candidate.gain,
                    },
                );
                assert(taken.push(*candidate).drop_last() =~= taken);
            }
        }
        i += 1;
    }
    assert(ranked.take(i as int) =~= ranked);
    proof {
        let taken = picks(*costs, options, ranked);
        a_plan_stays_within_its_minutes(*costs, options, candidates@, seq![]);
        lines_add_up(*costs, plan@, taken);
        assert forall|k: int|
            #![trigger plan@[k]]
            0 <= k < plan@.len() implies {
            let skill = plan@[k].skill_id@;
            plan@.filter(|line: PlannedItem| line.skill_id@ == skill).len()
                <= options.per_skill_item_cap
        } by {
            let skill = plan@[k].skill_id@;
            lines_of_skill(*costs, plan@, taken, skill);
            skill_items_are_filtered(taken, skill);
            plan_stays_within(*costs, options, ranked);
            assert(items_of_skill(taken, skill) <= options.per_skill_item_cap);
        }
        assert forall|k: int| 0 <= k < plan@.len() implies exists|i: int|
            0 <= i < candidates@.len() && (#[trigger] candidates@[i]).item_id@ == (
            #[trigger] plan@[k]).item_id@ && candidates@[i].skill_id@ == plan@[k].skill_id@
                && candidates@[i].gain == plan@[k].est_gain && plan@[k].est_cost_ms == (
            if costs.cost(candidates@[i].kind) >= 1_000 {
                costs.cost(candidates@[i].kind)
            } else {
                1_000
            }) by {
            picks_come_in_rank_order(*costs, options, ranked);
            ranking_ranks(candidates@);
            assert(taken.contains(taken[k]));
            assert(ranked.contains(taken[k]));
            assert(candidates@.contains(taken[k]));
            let i = choose|i: int| 0 <= i < candidates@.len() && candidates@[i] == taken[k];
            assert(candidates@[i].item_id@ == plan@[k].item_id@);
        }
    }
    plan
}

proof fn lines_add_up(costs: CostModel, plan: Seq<PlannedItem>, items: Seq<Candidate>)
    requires
        is_plan(costs, plan, items),
    ensures
        plan.fold_left(0int, |sum: int, line: PlannedItem| sum + line.est_cost_ms) == total_price(
            costs,
            items,
        ),
    decreases plan.len(),
{
    if plan.len() > 0 {
        let p = plan.drop_last();
        let q = items.drop_last();
        assert forall|i: int| #![trigger p[i]] 0 <= i < p.len() implies {
            &&& p[i].item_id@ == q[i].item_id@
            &&& p[i].skill_id@ == q[i].skill_id@
            &&& p[i].est_cost_ms == price(costs, q[i])
            &&& p[i].est_gain == q[i].gain
        } by {
            assert(plan[i] == p[i]);
        }
        lines_add_up(costs, p, q);
        assert(plan[plan.len() - 1] == plan.last());
    }
}

proof fn lines_of_skill(
    costs: CostModel,
    plan: Seq<PlannedItem>,
    items: Seq<Candidate>,
    skill: Seq<char>,
)
    requires
        is_plan(costs, plan, items),
    ensures
        plan.filter(|line: PlannedItem| line.skill_id@ == skill).len() == items.filter(
            |c: Candidate| c.skill_id@ == skill,
        ).len(),
    decreases plan.len(),
{
    reveal(Seq::filter);
    if plan.len() > 0 {
        let p = plan.drop_last();
        let q = items.drop_last();
        assert forall|i: int| #![trigger p[i]] 0 <= i < p.len() implies {
            &&& p[i].item_id@ == q[i].item_id@
            &&& p[i].skill_id@ == q[i].skill_id@
            &&& p[i].est_cost_ms == price(costs, q[i])
            &&& p[i].est_gain == q[i].gain
        } by {
            assert(plan[i] == p[i]);
        }
        lines_of_skill(costs, p, q, skill);
        assert(plan[plan.len() - 1] == plan.last());
    }
}

/// How many items of a plan train a skill.
fn count_skill(
    plan: &Vec<PlannedItem>,
    skill: &str,
    costs: &CostModel,
    Ghost(taken): Ghost<Seq<Candidate>>,
) -> (count: usize)
    requires
        is_plan(*costs, plan@, taken),
    ensures
        count == items_of_skill(taken, skill@),
{
    let mut count: usize = 0;
    let mut i: usize = 0;
    assert(taken.take(0) =~= seq![]);
    while i < plan.len()
        invariant
            is_plan(*costs, plan@, taken),
            i <= plan@.len(),
            count <= i,
            count == items_of_skill(taken.take(i as int), skill@),
        decreases plan@.len() - i,
    {
        proof {
            assert(taken.take(i + 1).drop_last() =~= taken.take(i as int));
            assert(taken.take(i + 1).last() == taken[i as int]);
        }
        if same_text(plan[i].skill_id.as_str(), skill) {
            count += 1;
        }
        i += 1;
    }
    assert(taken.take(i as int) =~= taken);
    count
}

/// A plan never costs more than the budget, and never holds more items of a skill than
/// the cap allows.
pub proof fn plan_stays_within(costs: CostModel, options: PlanOptions, ranked: Seq<Candidate>)
    ensures
        total_price(costs, picks(costs, options, ranked)) <= budget_of(options),
        forall|skill: Seq<char>|
            #[trigger] items_of_skill(picks(costs, options, ranked), skill)
                <= options.per_skill_item_cap,
    decreases ranked.len(),
{
    if ranked.len() > 0 {
        plan_stays_within(costs, options, ranked.drop_last());
        let taken = picks(costs, options, ranked.drop_last());
        let one = ranked.last();
        if fits(costs, options, taken, one) {
            let more = taken.push(one);
            assert(more.drop_last() =~= taken);
            assert forall|skill: Seq<char>| #[trigger] items_of_skill(more, skill)
                <= options.per_skill_item_cap by {
                assert(items_of_skill(taken, skill) <= options.per_skill_item_cap);
            }
        }
    } else {
        assert forall|skill: Seq<char>|
            #[trigger] items_of_skill(picks(costs, options, ranked), skill)
                <= options.per_skill_item_cap by {
        }
    }
}

/// What is left out of a plan does not fit into it.
pub proof fn what_is_left_out_does_not_fit(
    costs: CostModel,
    options: PlanOptions,
    ranked: Seq<Candidate>,
    at: int,
)
    requires
        0 <= at < ranked.len(),
        !fits(costs, options, picks(costs, options, ranked.take(at)), ranked[at]),
    ensures
        !fits(costs, options, picks(costs, options, ranked), ranked[at]),
    decreases ranked.len(),
{
    let one = ranked[at];
    let before = ranked.drop_last();
    let taken = picks(costs, options, before);
    if at < before.len() {
        assert(before.take(at) =~= ranked.take(at));
        what_is_left_out_does_not_fit(costs, options, before, at);
    } else {
        assert(ranked.take(at) =~= before);
    }
    if fits(costs, options, taken, ranked.last()) {
        let more = taken.push(ranked.last());
        assert(more.drop_last() =~= taken);
    }
}

/// Being considered first is an order, total on items with different ids.
pub proof fn ranks_before_is_an_order(a: Candidate, b: Candidate, c: Candidate)
    ensures
        !ranks_before(a, a),
        ranks_before(a, b) && ranks_before(b, c) ==> ranks_before(a, c),
        !ranks_before(b, a) && !ranks_before(c, b) ==> !ranks_before(c, a),
        !ranks_before(a, b) && !ranks_before(b, a) ==> a.item_id@ == b.item_id@,
{
    total_order_separates(a.ratio, b.ratio);
    total_order_separates(b.ratio, c.ratio);
    total_order_separates(a.ratio, c.ratio);
    precedes_irreflexive(a.item_id@);
    precedes_total(a.item_id@, b.item_id@);
    precedes_total(b.item_id@, c.item_id@);
    if precedes(a.item_id@, b.item_id@) && precedes(b.item_id@, c.item_id@) {
        precedes_transitive(a.item_id@, b.item_id@, c.item_id@);
    }
    if precedes(c.item_id@, a.item_id@) && precedes(a.item_id@, b.item_id@) {
        precedes_transitive(c.item_id@, a.item_id@, b.item_id@);
    }
}

/// No candidate ranks before an earlier one.
pub open spec fn in_rank_order(list: Seq<Candidate>) -> bool {
    forall|i: int, j: int|
        #![trigger list[i], list[j]]
        0 <= i < j < list.len() ==> !ranks_before(list[j], list[i])
}

proof fn with_candidate_ranks(list: Seq<Candidate>, one: Candidate)
    requires
        in_rank_order(list),
    ensures
        in_rank_order(with_candidate(list, one)),
        with_candidate(list, one).len() == list.len() + 1,
        forall|c: Candidate| #[trigger]
            with_candidate(list, one).contains(c) <==> list.contains(c) || c == one,
    decreases list.len(),
{
    let out = with_candidate(list, one);
    if list.len() == 0 || !ranks_before(one, list.last()) {
        assert(out == list.push(one));
        assert forall|i: int, j: int|
            #![trigger out[i], out[j]]
            0 <= i < j < out.len() implies !ranks_before(out[j], out[i]) by {
            if j == list.len() && i < list.len() - 1 {
                assert(!ranks_before(list[list.len() - 1], list[i]));
                ranks_before_is_an_order(list[i], list.last(), one);
            }
        }
        assert forall|c: Candidate| #[trigger] out.contains(c) <==> list.contains(c) || c == one by {
            push_contains(list, one, c);
        }
    } else {
        let init = list.drop_last();
        let last = list.last();
        assert(in_rank_order(init)) by {
            assert forall|i: int, j: int|
                #![trigger init[i], init[j]]
                0 <= i < j < init.len() implies !ranks_before(init[j], init[i]) by {
                assert(!ranks_before(list[j], list[i]));
            }
        }
        with_candidate_ranks(init, one);
        let inner = with_candidate(init, one);
        assert(out == inner.push(last));
        assert forall|i: int, j: int|
            #![trigger out[i], out[j]]
            0 <= i < j < out.len() implies !ranks_before(out[j], out[i]) by {
            if j == inner.len() {
                assert(inner.contains(inner[i]));
                if inner[i] == one {
                    ranks_before_is_an_order(one, last, one);
                } else {
                    let k = choose|k: int| 0 <= k < init.len() && init[k] == inner[i];
                    assert(list[k] == inner[i]);
                    assert(!ranks_before(list[list.len() - 1], list[k]));
                }
            } else {
                assert(!ranks_before(inner[j], inner[i]));
            }
        }
        assert(list =~= init.push(last));
        assert forall|c: Candidate| #[trigger] out.contains(c) <==> list.contains(c) || c == one by {
            push_contains(inner, last, c);
            push_contains(init, last, c);
            assert(inner.contains(c) <==> init.contains(c) || c == one);
        }
    }
}

proof fn push_contains(list: Seq<Candidate>, one: Candidate, c: Candidate)
    ensures
        list.push(one).contains(c) <==> list.contains(c) || c == one,
{
    let out = list.push(one);
    if out.contains(c) {
        let k = choose|k: int| 0 <= k < out.len() && out[k] == c;
        if k < list.len() {
            assert(list[k] == c);
        }
    }
    if list.contains(c) {
        let k = choose|k: int| 0 <= k < list.len() && list[k] == c;
        assert(out[k] == c);
    }
    if c == one {
        assert(out[list.len() as int] == c);
    }
}

/// The ranking holds the candidates and no others, none before one that ranks higher.
pub proof fn ranking_ranks(candidates: Seq<Candidate>)
    ensures
        in_rank_order(ranking(candidates)),
        ranking(candidates).len() == candidates.len(),
        forall|c: Candidate| #[trigger]
            ranking(candidates).contains(c) <==> candidates.contains(c),
    decreases candidates.len(),
{
    if candidates.len() > 0 {
        let init = candidates.drop_last();
        let last = candidates.last();
        ranking_ranks(init);
        with_candidate_ranks(ranking(init), last);
        assert(candidates =~= init.push(last));
        assert forall|c: Candidate| #[trigger]
            ranking(candidates).contains(c) <==> candidates.contains(c) by {
            push_contains(init, last, c);
            assert(ranking(init).contains(c) <==> init.contains(c));
        }
    }
}

/// Whether no two candidates share an item id.
pub open spec fn items_differ(list: Seq<Candidate>) -> bool {
    forall|i: int, j: int|
        #![trigger list[i], list[j]]
        0 <= i < list.len() && 0 <= j < list.len() && list[i].item_id@ == list[j].item_id@ ==> i
            == j
}

proof fn rank_order_is_unique(a: Seq<Candidate>, b: Seq<Candidate>)
    requires
        in_rank_order(a),
        in_rank_order(b),
        a.len() == b.len(),
        items_differ(a),
        items_differ(b),
        forall|c: Candidate| #[trigger] a.contains(c) <==> b.contains(c),
    ensures
        a == b,
    decreases a.len(),
{
    if a.len() == 0 {
        assert(a =~= b);
    } else {
        let n = a.len() - 1;
        assert(a.contains(a[n]) && b.contains(b[n]));
        assert(b.contains(a[n]) && a.contains(b[n]));
        let i = choose|i: int| 0 <= i < a.len() && a[i] == b[n];
        let j = choose|j: int| 0 <= j < b.len() && b[j] == a[n];
        if i < n && j < n {
            assert(!ranks_before(a[n], a[i]));
            assert(!ranks_before(b[n], b[j]));
            ranks_before_is_an_order(a[n], b[n], a[n]);
            assert(a[i].item_id@ == a[n].item_id@);
        }
        assert(a.last() == b.last());
        let a0 = a.drop_last();
        let b0 = b.drop_last();
        assert(a =~= a0.push(a.last()) && b =~= b0.push(b.last()));
        assert forall|x: int, y: int|
            #![trigger a0[x], a0[y]]
            0 <= x < y < a0.len() implies !ranks_before(a0[y], a0[x]) by {
            assert(!ranks_before(a[y], a[x]));
        }
        assert forall|x: int, y: int|
            #![trigger b0[x], b0[y]]
            0 <= x < y < b0.len() implies !ranks_before(b0[y], b0[x]) by {
            assert(!ranks_before(b[y], b[x]));
        }
        assert forall|x: int, y: int|
            #![trigger a0[x], a0[y]]
            0 <= x < a0.len() && 0 <= y < a0.len() && a0[x].item_id@ == a0[y].item_id@ implies x
            == y by {
            assert(a[x].item_id@ == a[y].item_id@);
        }
        assert forall|x: int, y: int|
            #![trigger b0[x], b0[y]]
            0 <= x < b0.len() && 0 <= y < b0.len() && b0[x].item_id@ == b0[y].item_id@ implies x
            == y by {
            assert(b[x].item_id@ == b[y].item_id@);
        }
        assert forall|c: Candidate| #[trigger] a0.contains(c) <==> b0.contains(c) by {
            push_contains(a0, a.last(), c);
            push_contains(b0, b.last(), c);
            assert(a.contains(c) <==> b.contains(c));
            if a0.contains(c) {
                let k = choose|k: int| 0 <= k < a0.len() && a0[k] == c;
                assert(a[k] == c);
                if c == a.last() {
                    assert(a[k].item_id@ == a[n].item_id@);
                }
            }
            if b0.contains(c) {
                let k = choose|k: int| 0 <= k < b0.len() && b0[k] == c;
                assert(b[k] == c);
                if c == b.last() {
                    assert(b[k].item_id@ == b[n].item_id@);
                }
            }
        }
        rank_order_is_unique(a0, b0);
    }
}

/// Elements of the ranking have different ids where the candidates have.
proof fn ranking_items_differ(candidates: Seq<Candidate>)
    requires
        items_differ(candidates),
    ensures
        items_differ(ranking(candidates)),
    decreases candidates.len(),
{
    if candidates.len() > 0 {
        let init = candidates.drop_last();
        let last = candidates.last();
        assert forall|x: int, y: int|
            #![trigger init[x], init[y]]
            0 <= x < init.len() && 0 <= y < init.len() && init[x].item_id@
                == init[y].item_id@ implies x == y by {
            assert(candidates[x].item_id@ == candidates[y].item_id@);
        }
        ranking_items_differ(init);
        ranking_ranks(init);
        assert forall|k: int| 0 <= k < ranking(init).len() implies (#[trigger] ranking(
            init,
        )[k]).item_id@ != last.item_id@ by {
            assert(ranking(init).contains(ranking(init)[k]));
            assert(init.contains(ranking(init)[k]));
            let m = choose|m: int| 0 <= m < init.len() && init[m] == ranking(init)[k];
            assert(candidates[m].item_id@ != candidates[candidates.len() - 1].item_id@);
        }
        with_candidate_differs(ranking(init), last);
    }
}

proof fn with_candidate_differs(list: Seq<Candidate>, one: Candidate)
    requires
        items_differ(list),
        forall|k: int| 0 <= k < list.len() ==> (#[trigger] list[k]).item_id@ != one.item_id@,
    ensures
        items_differ(with_candidate(list, one)),
        with_candidate(list, one).len() == list.len() + 1,
        forall|k: int|
            0 <= k < list.len() + 1 ==> (#[trigger] with_candidate(list, one)[k] == one || exists|
                m: int,
            |
                0 <= m < list.len() && list[m] == with_candidate(list, one)[k]),
    decreases list.len(),
{
    let out = with_candidate(list, one);
    if list.len() == 0 || !ranks_before(one, list.last()) {
        assert(out == list.push(one));
        assert forall|k: int| 0 <= k < list.len() + 1 implies (#[trigger] out[k] == one || exists|
            m: int,
        |
            0 <= m < list.len() && list[m] == out[k]) by {
            if k < list.len() {
                assert(list[k] == out[k]);
            }
        }
    } else {
        let init = list.drop_last();
        let last = list.last();
        assert forall|x: int, y: int|
            #![trigger init[x], init[y]]
            0 <= x < init.len() && 0 <= y < init.len() && init[x].item_id@
                == init[y].item_id@ implies x == y by {
            assert(list[x].item_id@ == list[y].item_id@);
        }
        assert forall|k: int| 0 <= k < init.len() implies (#[trigger] init[k]).item_id@
            != one.item_id@ by {
            assert(list[k].item_id@ != one.item_id@);
        }
        with_candidate_differs(init, one);
        let inner = with_candidate(init, one);
        assert(out == inner.push(last));
        assert forall|k: int| 0 <= k < inner.len() implies (#[trigger] inner[k]).item_id@
            != last.item_id@ by {
            assert(list[list.len() - 1].item_id@ != one.item_id@);
            if inner[k] != one {
                let m = choose|m: int| 0 <= m < init.len() && init[m] == inner[k];
                assert(list[m].item_id@ != list[list.len() - 1].item_id@);
            }
        }
        assert forall|k: int| 0 <= k < list.len() + 1 implies (#[trigger] out[k] == one || exists|
            m: int,
        |
            0 <= m < list.len() && list[m] == out[k]) by {
            if k < inner.len() {
                assert(out[k] == inner[k]);
                if inner[k] != one {
                    let m = choose|m: int| 0 <= m < init.len() && init[m] == inner[k];
                    assert(list[m] == out[k]);
                }
            } else {
                assert(list[list.len() - 1] == out[k]);
            }
        }
    }
}

/// The plan does not depend on the order in which the candidates are listed: the same
/// items, each under its own id, are planned the same.
pub proof fn plan_ignores_order(
    costs: CostModel,
    options: PlanOptions,
    a: Seq<Candidate>,
    b: Seq<Candidate>,
)
    requires
        items_differ(a),
        items_differ(b),
        a.len() == b.len(),
        forall|c: Candidate| #[trigger] a.contains(c) <==> b.contains(c),
    ensures
        picks(costs, options, ranking(a)) == picks(costs, options, ranking(b)),
{
    ranking_ranks(a);
    ranking_ranks(b);
    ranking_items_differ(a);
    ranking_items_differ(b);
    assert forall|c: Candidate| #[trigger] ranking(a).contains(c) <==> ranking(b).contains(c) by {
        assert(a.contains(c) <==> b.contains(c));
    }
    rank_order_is_unique(ranking(a), ranking(b));
}

/// Items are considered by gain per cost: one of greater gain per cost always comes before one
/// of smaller, and only at the same gain per cost does the id decide. Every candidate is
/// considered once.
pub proof fn greater_gain_per_cost_is_considered_first(candidates: Seq<Candidate>)
    ensures
        forall|i: int, j: int|
            #![trigger ranking(candidates)[i], ranking(candidates)[j]]
            0 <= i < j < ranking(candidates).len() ==> {
                let first = ranking(candidates)[i];
                let second = ranking(candidates)[j];
                &&& first.ratio.total_rank() >= second.ratio.total_rank()
                &&& first.ratio.total_rank() == second.ratio.total_rank() ==> !precedes(
                    second.item_id@,
                    first.item_id@,
                )
            },
        ranking(candidates).to_multiset() == candidates.to_multiset(),
    decreases candidates.len(),
{
    broadcast use vstd::seq_lib::group_to_multiset_ensures;

    let ranked = ranking(candidates);
    ranking_ranks(candidates);
    assert forall|i: int, j: int|
        #![trigger ranked[i], ranked[j]]
        0 <= i < j < ranked.len() implies {
        let first = ranked[i];
        let second = ranked[j];
        &&& first.ratio.total_rank() >= second.ratio.total_rank()
        &&& first.ratio.total_rank() == second.ratio.total_rank() ==> !precedes(
            second.item_id@,
            first.item_id@,
        )
    } by {
        assert(!ranks_before(ranked[j], ranked[i]));
        total_order_separates(ranked[i].ratio, ranked[j].ratio);
    }
    if candidates.len() > 0 {
        let init = candidates.drop_last();
        greater_gain_per_cost_is_considered_first(init);
        with_candidate_adds(ranking(init), candidates.last());
        assert(candidates =~= init.push(candidates.last()));
    } else {
        assert(ranked =~= candidates);
    }
}

proof fn with_candidate_adds(list: Seq<Candidate>, one: Candidate)
    ensures
        with_candidate(list, one).to_multiset() == list.to_multiset().insert(one),
    decreases list.len(),
{
    broadcast use vstd::seq_lib::group_to_multiset_ensures;

    if list.len() == 0 || !ranks_before(one, list.last()) {
        assert(list.push(one).to_multiset() =~= list.to_multiset().insert(one));
    } else {
        let init = list.drop_last();
        with_candidate_adds(init, one);
        assert(list =~= init.push(list.last()));
        let inner = with_candidate(init, one);
        assert(inner.push(list.last()).to_multiset() =~= init.to_multiset().insert(one).insert(
            list.last(),
        ));
        assert(init.to_multiset().insert(one).insert(list.last()) =~= init.to_multiset().insert(
            list.last(),
        ).insert(one));
    }
}

proof fn prices_add_up(costs: CostModel, list: Seq<Candidate>)
    ensures
        total_price(costs, list) == list.fold_left(
            0int,
            |sum: int, c: Candidate|
                sum + (if costs.cost(c.kind) >= 1_000 {
                    costs.cost(c.kind)
                } else {
                    1_000
                }),
        ),
    decreases list.len(),
{
    if list.len() > 0 {
        prices_add_up(costs, list.drop_last());
    }
}

proof fn skill_items_are_filtered(list: Seq<Candidate>, skill: Seq<char>)
    ensures
        items_of_skill(list, skill) == list.filter(|c: Candidate| c.skill_id@ == skill).len(),
    decreases list.len(),
{
    reveal(Seq::filter);
    if list.len() > 0 {
        skill_items_are_filtered(list.drop_last(), skill);
    }
}

/// Each item in turn is taken exactly when what was taken before leaves it the time and its
/// skill the room: the prices of the items taken and its own, each at least a second, come to
/// no more than the minutes, and fewer items of its skill were taken than the cap. An item
/// that is not taken changes nothing for those behind it.
pub proof fn an_item_is_taken_exactly_when_it_fits(
    costs: CostModel,
    options: PlanOptions,
    ranked: Seq<Candidate>,
    at: int,
)
    requires
        0 <= at < ranked.len(),
    ensures
        ({
            let one = ranked[at];
            let taken = picks(costs, options, ranked.take(at));
            let spent = taken.fold_left(
                0int,
                |sum: int, c: Candidate|
                    sum + (if costs.cost(c.kind) >= 1_000 {
                        costs.cost(c.kind)
                    } else {
                        1_000
                    }),
            );
            let cost = if costs.cost(one.kind) >= 1_000 {
                costs.cost(one.kind) as int
            } else {
                1_000
            };
            let skill = one.skill_id@;
            let of_skill = taken.filter(|c: Candidate| c.skill_id@ == skill).len();
            picks(costs, options, ranked.take(at + 1)) == if spent + cost
                <= options.budget_minutes * 60_000 && of_skill < options.per_skill_item_cap {
                taken.push(one)
            } else {
                taken
            }
        }),
        picks(costs, options, ranked.take(0)).len() == 0,
{
    let more = ranked.take(at + 1);
    assert(more.drop_last() =~= ranked.take(at));
    assert(more.last() == ranked[at]);
    let taken = picks(costs, options, ranked.take(at));
    prices_add_up(costs, taken);
    skill_items_are_filtered(taken, ranked[at].skill_id@);
}

/// What is taken comes in the order in which it was considered, and from nowhere else.
proof fn picks_come_in_rank_order(costs: CostModel, options: PlanOptions, ranked: Seq<Candidate>)
    ensures
        forall|c: Candidate| #[trigger]
            picks(costs, options, ranked).contains(c) ==> ranked.contains(c),
        picks(costs, options, ranked).to_multiset().subset_of(ranked.to_multiset()),
        in_rank_order(ranked) ==> in_rank_order(picks(costs, options, ranked)),
    decreases ranked.len(),
{
    broadcast use vstd::seq_lib::group_to_multiset_ensures;

    let taken = picks(costs, options, ranked);
    if ranked.len() > 0 {
        let init = ranked.drop_last();
        let last = ranked.last();
        let before = picks(costs, options, init);
        picks_come_in_rank_order(costs, options, init);
        assert(ranked =~= init.push(last));
        assert forall|c: Candidate| #[trigger] taken.contains(c) implies ranked.contains(c) by {
            push_contains(init, last, c);
            push_contains(before, last, c);
            if before.contains(c) {
                assert(init.contains(c));
            }
        }
        assert(ranked.to_multiset() =~= init.to_multiset().insert(last));
        if in_rank_order(ranked) {
            assert forall|i: int, j: int|
                #![trigger init[i], init[j]]
                0 <= i < j < init.len() implies !ranks_before(init[j], init[i]) by {
                assert(!ranks_before(ranked[j], ranked[i]));
            }
            assert(in_rank_order(init));
            assert forall|i: int, j: int|
                #![trigger taken[i], taken[j]]
                0 <= i < j < taken.len() implies !ranks_before(taken[j], taken[i]) by {
                if j < before.len() {
                    assert(!ranks_before(before[j], before[i]));
                } else {
                    assert(before.contains(before[i]));
                    assert(init.contains(before[i]));
                    let k = choose|k: int| 0 <= k < init.len() && init[k] == before[i];
                    assert(ranked[k] == before[i]);
                    assert(!ranks_before(ranked[ranked.len() - 1], ranked[k]));
                }
            }
        }
    }
}

/// A plan for the candidates: the items in it come by descending gain per cost, each is a
/// candidate and is planned no more often than it is one, together they cost no more than the
/// minutes allow, and no skill has more of them than the cap.
pub proof fn a_plan_stays_within_its_minutes(
    costs: CostModel,
    options: PlanOptions,
    candidates: Seq<Candidate>,
    skill: Seq<char>,
)
    ensures
        ({
            let planned = picks(costs, options, ranking(candidates));
            &&& forall|i: int, j: int|
                #![trigger planned[i], planned[j]]
                0 <= i < j < planned.len() ==> planned[i].ratio.total_rank()
                    >= planned[j].ratio.total_rank()
            &&& planned.to_multiset().subset_of(candidates.to_multiset())
            &&& planned.fold_left(
                0int,
                |sum: int, c: Candidate|
                    sum + (if costs.cost(c.kind) >= 1_000 {
                        costs.cost(c.kind)
                    } else {
                        1_000
                    }),
            ) <= options.budget_minutes * 60_000
            &&& planned.filter(|c: Candidate| c.skill_id@ == skill).len()
                <= options.per_skill_item_cap
        }),
{
    let ranked = ranking(candidates);
    let planned = picks(costs, options, ranked);
    ranking_ranks(candidates);
    picks_come_in_rank_order(costs, options, ranked);
    greater_gain_per_cost_is_considered_first(candidates);
    plan_stays_within(costs, options, ranked);
    prices_add_up(costs, planned);
    assert forall|i: int, j: int|
        #![trigger planned[i], planned[j]]
        0 <= i < j < planned.len() implies planned[i].ratio.total_rank()
        >= planned[j].ratio.total_rank() by {
        assert(!ranks_before(planned[j], planned[i]));
    }
    skill_items_are_filtered(planned, skill);
    assert(items_of_skill(planned, skill) <= options.per_skill_item_cap);
}

/// Nothing that would still fit is left out: a candidate that is not planned would take the
/// plan over its minutes, or its skill over the cap.
pub proof fn nothing_that_fits_is_left_out(
    costs: CostModel,
    options: PlanOptions,
    candidates: Seq<Candidate>,
    at: int,
)
    requires
        0 <= at < candidates.len(),
    ensures
        ({
            let one = candidates[at];
            let skill = one.skill_id@;
            let planned = picks(costs, options, ranking(candidates));
            let spent = planned.fold_left(
                0int,
                |sum: int, c: Candidate|
                    sum + (if costs.cost(c.kind) >= 1_000 {
                        costs.cost(c.kind)
                    } else {
                        1_000
                    }),
            );
            ||| planned.contains(one)
            ||| spent + costs.cost(one.kind) > options.budget_minutes * 60_000
            ||| spent + 1_000 > options.budget_minutes * 60_000
            ||| planned.filter(|c: Candidate| c.skill_id@ == skill).len()
                >= options.per_skill_item_cap
        }),
{
    let one = candidates[at];
    let ranked = ranking(candidates);
    let planned = picks(costs, options, ranked);
    ranking_ranks(candidates);
    assert(candidates.contains(one));
    assert(ranked.contains(one));
    let k = choose|k: int| 0 <= k < ranked.len() && ranked[k] == one;
    prices_add_up(costs, planned);
    skill_items_are_filtered(planned, one.skill_id@);
    if fits(costs, options, picks(costs, options, ranked.take(k)), one) {
        an_item_is_taken_exactly_when_it_fits(costs, options, ranked, k);
        let before = picks(costs, options, ranked.take(k));
        assert(ranked.take(k + 1).drop_last() =~= ranked.take(k));
        assert(ranked.take(k + 1).last() == one);
        let here = picks(costs, options, ranked.take(k + 1));
        assert(here == before.push(one));
        assert(here[before.len() as int] == one);
        picks_only_grow(costs, options, ranked, k + 1);
        assert(planned[before.len() as int] == one);
    } else {
        what_is_left_out_does_not_fit(costs, options, ranked, k);
    }
}

proof fn picks_only_grow(
    costs: CostModel,
    options: PlanOptions,
    ranked: Seq<Candidate>,
    upto: int,
)
    requires
        0 <= upto <= ranked.len(),
    ensures
        ({
            let here = picks(costs, options, ranked.take(upto));
            let all = picks(costs, options, ranked);
            &&& here.len() <= all.len()
            &&& forall|i: int| 0 <= i < here.len() ==> #[trigger] all[i] == here[i]
        }),
    decreases ranked.len(),
{
    if upto == ranked.len() {
        assert(ranked.take(upto) =~= ranked);
    } else {
        let init = ranked.drop_last();
        assert(init.take(upto) =~= ranked.take(upto));
        picks_only_grow(costs, options, init, upto);
        let all = picks(costs, options, ranked);
        let most = picks(costs, options, init);
        let here = picks(costs, options, ranked.take(upto));
        assert forall|i: int| 0 <= i < here.len() implies #[trigger] all[i] == here[i] by {
            assert(most[i] == here[i]);
        }
    }
}

/// What an item of a kind costs is what was observed for its kind first, or the seed where
/// nothing was.
pub proof fn the_first_observation_prices_a_kind(model: CostModel, kind: ItemKind, at: int)
    requires
        0 <= at <= model.medians@.len(),
        forall|i: int| 0 <= i < at ==> (#[trigger] model.medians@[i]).0 != kind,
        at < model.medians@.len() ==> model.medians@[at].0 == kind,
    ensures
        at < model.medians@.len() ==> model.cost(kind) == model.medians@[at].1,
        at == model.medians@.len() ==> model.cost(kind) == model.fallback_ms,
{
    first_cost_is_found(model.medians@, kind, at);
}

proof fn first_cost_is_found(medians: Seq<(ItemKind, i64)>, kind: ItemKind, at: int)
    requires
        0 <= at <= medians.len(),
        forall|i: int| 0 <= i < at ==> (#[trigger] medians[i]).0 != kind,
        at < medians.len() ==> medians[at].0 == kind,
    ensures
        at < medians.len() ==> first_cost(medians, kind) == Some(medians[at].1),
        at == medians.len() ==> first_cost(medians, kind) is None,
    decreases medians.len(),
{
    if medians.len() > 0 {
        let init = medians.drop_last();
        if at == medians.len() {
            assert(medians[medians.len() - 1].0 != kind);
            first_cost_is_found(init, kind, at - 1);
        } else {
            first_cost_is_found(init, kind, at);
        }
    }
}

/// The median of answer times: the middle one, or half the sum of the two in the middle, cut off
/// toward zero.
pub proof fn the_median_is_in_the_middle(ascending: Seq<i64>)
    ensures
        median_of(ascending) is None <==> ascending.len() == 0,
        ascending.len() % 2 == 1 ==> median_of(ascending) == Some(
            ascending[ascending.len() as int / 2] as int,
        ),
        ascending.len() > 0 && ascending.len() % 2 == 0 ==> {
            let sum = ascending[ascending.len() as int / 2 - 1] + ascending[ascending.len() as int
                / 2];
            let median = median_of(ascending)->0;
            &&& sum >= 0 ==> 0 <= 2 * median <= sum < 2 * median + 2
            &&& sum <= 0 ==> 2 * median - 2 < sum <= 2 * median <= 0
        },
        forall|ms: int| #[trigger]
            floored(ms) == (if ms >= 1_000 {
                ms
            } else {
                1_000
            }),
{
}

} // verus!
