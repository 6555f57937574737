//! Session plans, and the cost model they are priced with.

use ryu_tuition::bkt::{self, BayesStep};
use ryu_tuition::closing::{observed_costs, Latencies};
use ryu_tuition::double::Double;
use ryu_tuition::models::{BktParams, ItemKind, PlannedItem};
use ryu_tuition::planner::{
    median_ms, plan, Candidate, CostModel, PlanOptions, DEFAULT_PER_SKILL_ITEM_CAP,
    MIN_ITEM_COST_MS,
};

fn double(v: f64) -> Double {
    Double { bits: v.to_bits() }
}

fn value(d: Double) -> f64 {
    f64::from_bits(d.bits)
}

/// What a right answer is expected to move, in floating point.
fn expected_gain(mastery: f64, kind: ItemKind, choices: usize) -> f64 {
    let params = BktParams::default();
    let guess = bkt::guess_rate(params, kind, choices, double(1.0 / choices as f64));
    let prior = bkt::prior(double(mastery), params, guess);
    let m = value(prior.mastery);
    let known = m * (1.0 - value(prior.params.p_slip));
    let denominator = known + (1.0 - m) * value(prior.guess);
    let posterior = known / denominator;
    let step = BayesStep {
        denominator: double(denominator),
        posterior: double(posterior),
        learned: double(posterior + (1.0 - posterior) * value(prior.params.p_transit)),
    };
    let update = bkt::update(&prior, &step);
    (value(update.after) - value(update.before)).max(0.0) * (1.0 - value(update.before))
}

fn priced(item_id: &str, skill_id: &str, mastery: f64, kind: ItemKind, choices: usize, costs: &CostModel) -> Candidate {
    let gain = expected_gain(mastery, kind, choices);
    let cost = costs.cost_ms(kind).max(MIN_ITEM_COST_MS);
    Candidate {
        item_id: item_id.into(),
        skill_id: skill_id.into(),
        kind,
        gain: double(gain),
        ratio: double(gain / cost as f64),
    }
}

fn candidate(item_id: &str, skill_id: &str, mastery: f64, costs: &CostModel) -> Candidate {
    priced(item_id, skill_id, mastery, ItemKind::Exact, 0, costs)
}

fn ids(plan: &[PlannedItem]) -> Vec<&str> {
    plan.iter().map(|p| p.item_id.as_str()).collect()
}

#[test]
fn the_median_cost_is_the_middle_observation_not_the_mean() {
    let with_an_outlier = [8_000, 9_000, 10_000, 11_000, 2_400_000];
    assert_eq!(median_ms(&with_an_outlier), Some(10_000));
    assert_eq!(median_ms(&[10_000, 20_000]), Some(15_000));
    assert_eq!(median_ms(&[1, 2]), Some(1));
    assert_eq!(median_ms(&[]), None);
    let costs = CostModel::seeded(60).observe(ItemKind::Mcq, &[]);
    assert_eq!(costs.cost_ms(ItemKind::Mcq), 60_000);
}

#[test]
fn the_plan_fits_the_budget_and_is_ordered_by_value_per_minute() {
    let costs = CostModel::seeded(60);
    let candidates = vec![
        candidate("itm_a", "skl_a", 0.10, &costs),
        candidate("itm_b", "skl_b", 0.40, &costs),
        candidate("itm_c", "skl_c", 0.95, &costs),
    ];
    let plan = plan(
        &candidates,
        &costs,
        PlanOptions { budget_minutes: 2, per_skill_item_cap: DEFAULT_PER_SKILL_ITEM_CAP },
    );
    assert_eq!(plan.len(), 2);
    assert_eq!(plan[0].item_id, "itm_a");
    assert_eq!(plan[1].item_id, "itm_b");
    let total: i64 = plan.iter().map(|p| p.est_cost_ms).sum();
    assert!(total <= 2 * 60_000);
    assert!(value(plan[0].est_gain) > value(plan[1].est_gain));
    assert_eq!(plan[0].est_cost_ms, 60_000);
}

#[test]
fn an_item_that_does_not_fit_does_not_end_the_plan() {
    let costs = CostModel::seeded(60)
        .observe(ItemKind::Free, &[600_000])
        .observe(ItemKind::Mcq, &[30_000]);
    let expensive = priced("itm_expensive", "skl_a", 0.05, ItemKind::Free, 0, &costs);
    let cheap = priced("itm_cheap", "skl_b", 0.30, ItemKind::Mcq, 4, &costs);
    let plan = plan(
        &[expensive, cheap],
        &costs,
        PlanOptions { budget_minutes: 1, per_skill_item_cap: DEFAULT_PER_SKILL_ITEM_CAP },
    );
    assert_eq!(plan.len(), 1);
    assert_eq!(plan[0].item_id, "itm_cheap");
}

#[test]
fn one_weak_skill_cannot_consume_the_whole_session() {
    let costs = CostModel::seeded(60);
    let mut candidates: Vec<Candidate> = (0..10)
        .map(|i| candidate(&format!("itm_weak_{i}"), "skl_weak", 0.10, &costs))
        .collect();
    candidates.push(candidate("itm_other", "skl_other", 0.35, &costs));
    let plan = plan(
        &candidates,
        &costs,
        PlanOptions { budget_minutes: 10, per_skill_item_cap: 3 },
    );
    let from_weak = plan.iter().filter(|p| p.skill_id == "skl_weak").count();
    assert_eq!(from_weak, 3);
    assert!(plan.iter().any(|p| p.skill_id == "skl_other"));
}

#[test]
fn the_same_candidates_always_plan_in_the_same_order() {
    let costs = CostModel::seeded(60);
    let forward = vec![
        candidate("itm_zz", "skl_a", 0.40, &costs),
        candidate("itm_aa", "skl_b", 0.40, &costs),
    ];
    let reversed: Vec<Candidate> = forward.iter().cloned().rev().collect();
    let one = plan(&forward, &costs, PlanOptions::default());
    let two = plan(&reversed, &costs, PlanOptions::default());
    assert_eq!(ids(&one), ids(&two));
    assert_eq!(one[0].item_id, "itm_aa");
}

#[test]
fn a_zero_budget_plans_nothing_and_nothing_panics() {
    let costs = CostModel::seeded(60);
    let candidates = vec![candidate("itm_a", "skl_a", 0.10, &costs)];
    assert!(plan(
        &candidates,
        &costs,
        PlanOptions { budget_minutes: 0, per_skill_item_cap: 5 }
    )
    .is_empty());
    assert!(plan(&[], &costs, PlanOptions::default()).is_empty());
    let broken = CostModel::seeded(60).observe(ItemKind::Exact, &[0, 0, 0]);
    assert_eq!(broken.cost_ms(ItemKind::Exact), MIN_ITEM_COST_MS);
}

#[test]
fn the_average_of_two_latencies_is_cut_off_toward_zero() {
    assert_eq!(median_ms(&[-1, 2]), Some(0));
    assert_eq!(median_ms(&[-4, 1]), Some(-1));
    assert_eq!(median_ms(&[-3, -2]), Some(-2));
    assert_eq!(median_ms(&[i64::MAX - 1, i64::MAX]), Some(i64::MAX - 1));
    assert_eq!(median_ms(&[i64::MIN, i64::MIN]), Some(i64::MIN));
}

#[test]
fn the_cost_model_starts_from_its_seed_and_keeps_the_first_observation() {
    assert_eq!(CostModel::default().cost_ms(ItemKind::Free), 60_000);
    assert_eq!(CostModel::seeded(0).cost_ms(ItemKind::Free), MIN_ITEM_COST_MS);
    let costs = CostModel::seeded(90)
        .observe(ItemKind::Mcq, &[20_000])
        .observe(ItemKind::Mcq, &[40_000]);
    assert_eq!(costs.cost_ms(ItemKind::Mcq), 20_000);
    assert_eq!(costs.cost_ms(ItemKind::Cloze), 90_000);
    let observed = observed_costs(
        45,
        &Latencies {
            mcq: vec![5_000],
            cloze: vec![],
            numeric: vec![10, 20],
            exact: vec![7_000, 8_000, 9_000],
            free: vec![],
        },
    );
    assert_eq!(observed.cost_ms(ItemKind::Mcq), 5_000);
    assert_eq!(observed.cost_ms(ItemKind::Cloze), 45_000);
    assert_eq!(observed.cost_ms(ItemKind::Numeric), MIN_ITEM_COST_MS);
    assert_eq!(observed.cost_ms(ItemKind::Exact), 8_000);
    assert_eq!(observed.cost_ms(ItemKind::Free), 45_000);
}
