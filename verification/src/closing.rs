//! Planning a sitting and closing it: what it costs, what it touched, what it gained.
//!
//! Scheduling happens once per skill, when the sitting is closed, from how that skill
//! went as a whole. A sitting that was closed before reschedules nothing.

use crate::bkt::Projection;
use crate::double::Double;
use crate::error::ApiError;
use crate::graph::{slot_of, slot_splits, strictly_sorted, with_name, with_name_sorts};
use crate::models::{Attempt, ItemKind, Session, SessionStatus, Skill};
use crate::planner::{first_cost, floored, median_of, CostModel};
use crate::sittings::{is_open, open_session};
use crate::srs::Outcome;
use crate::text::{precedes, precedes_irreflexive, same_text, texts};
use vstd::prelude::*;
use vstd::string::*;

verus! {

/// What a kind of item costs, from the answer times observed for it.
pub open spec fn kind_cost(default_seconds: u32, ascending: Seq<i64>) -> int {
    match median_of(ascending) {
        Some(median) => floored(median),
        None => floored(default_seconds * 1_000),
    }
}

/// The answer times observed for each kind of item, each list ascending.
#[derive(Clone, Debug)]
pub struct Latencies {
    pub mcq: Vec<i64>,
    pub cloze: Vec<i64>,
    pub numeric: Vec<i64>,
    pub exact: Vec<i64>,
    pub free: Vec<i64>,
}

impl Latencies {
    /// The answer times observed for a kind of item.
    pub open spec fn of_kind(&self, kind: ItemKind) -> Seq<i64> {
        match kind {
            ItemKind::Mcq => self.mcq@,
            ItemKind::Cloze => self.cloze@,
            ItemKind::Numeric => self.numeric@,
            ItemKind::Exact => self.exact@,
            ItemKind::Free => self.free@,
        }
    }
}

/// One cost model for a whole plan: the seed, refined for every kind that was answered
/// before.
pub fn observed_costs(default_seconds: u32, latencies: &Latencies) -> (costs: CostModel)
    ensures
        costs.well_formed(),
        forall|kind: ItemKind| #[trigger]
            costs.cost(kind) == kind_cost(default_seconds, latencies.of_kind(kind)),
        costs.cost(ItemKind::Mcq) == kind_cost(default_seconds, latencies.mcq@),
        costs.cost(ItemKind::Cloze) == kind_cost(default_seconds, latencies.cloze@),
        costs.cost(ItemKind::Numeric) == kind_cost(default_seconds, latencies.numeric@),
        costs.cost(ItemKind::Exact) == kind_cost(default_seconds, latencies.exact@),
        costs.cost(ItemKind::Free) == kind_cost(default_seconds, latencies.free@),
{
    let seeded: CostModel = CostModel::seeded(default_seconds);
    assert(seeded.medians@ =~= seq![]);
    let with_mcq: CostModel = seeded.observe(ItemKind::Mcq, latencies.mcq.as_slice());
    let with_cloze: CostModel = with_mcq.observe(ItemKind::Cloze, latencies.cloze.as_slice());
    let with_numeric: CostModel = with_cloze.observe(ItemKind::Numeric, latencies.numeric.as_slice());
    let with_exact: CostModel = with_numeric.observe(ItemKind::Exact, latencies.exact.as_slice());
    let costs: CostModel = with_exact.observe(ItemKind::Free, latencies.free.as_slice());
    proof {
        reveal_with_fuel(first_cost, 7);
        assert forall|kind: ItemKind| #[trigger]
            costs.cost(kind) == kind_cost(default_seconds, latencies.of_kind(kind)) by {
            observed_once(seeded.medians@, with_mcq.medians@, ItemKind::Mcq, kind);
            observed_once(with_mcq.medians@, with_cloze.medians@, ItemKind::Cloze, kind);
            observed_once(with_cloze.medians@, with_numeric.medians@, ItemKind::Numeric, kind);
            observed_once(with_numeric.medians@, with_exact.medians@, ItemKind::Exact, kind);
            assert(with_mcq.cost(kind) == with_mcq.cost(kind));
            assert(with_cloze.cost(kind) == with_cloze.cost(kind));
            assert(with_numeric.cost(kind) == with_numeric.cost(kind));
            assert(with_exact.cost(kind) == with_exact.cost(kind));
        }
    }
    costs
}

/// Observing one kind says nothing of another.
proof fn observed_once(
    before: Seq<(ItemKind, i64)>,
    after: Seq<(ItemKind, i64)>,
    observed: ItemKind,
    kind: ItemKind,
)
    requires
        after == before || after == before.push((observed, after.last().1)),
    ensures
        kind != observed ==> first_cost(after, kind) == first_cost(before, kind),
{
    if after != before {
        assert(after.drop_last() =~= before);
    }
}

/// How a skill went in a sitting.
#[derive(Clone, Debug)]
pub struct SkillOutcomes {
    pub skill_id: String,
    pub outcomes: Vec<Outcome>,
}

/// The skills that a list of attempts touched, in order.
pub open spec fn touched(attempts: Seq<Attempt>) -> Seq<Seq<char>>
    decreases attempts.len(),
{
    if attempts.len() == 0 {
        seq![]
    } else {
        with_name(touched(attempts.drop_last()), attempts.last().skill_id@)
    }
}

/// How a skill went, answer by answer.
pub open spec fn outcomes_of(attempts: Seq<Attempt>, skill: Seq<char>) -> Seq<Outcome>
    decreases attempts.len(),
{
    if attempts.len() == 0 {
        seq![]
    } else {
        let before = outcomes_of(attempts.drop_last(), skill);
        let last = attempts.last();
        if last.skill_id@ == skill {
            before.push(Outcome { correct: last.correct, score: last.score })
        } else {
            before
        }
    }
}

/// The skills touched come in order, each once, and are exactly those of the attempts.
pub proof fn touched_is_sorted(attempts: Seq<Attempt>)
    ensures
        strictly_sorted(touched(attempts)),
        forall|s: Seq<char>| #[trigger]
            touched(attempts).contains(s) <==> exists|i: int|
                0 <= i < attempts.len() && (#[trigger] attempts[i]).skill_id@ == s,
    decreases attempts.len(),
{
    if attempts.len() > 0 {
        let init = attempts.drop_last();
        touched_is_sorted(init);
        with_name_sorts(touched(init), attempts.last().skill_id@);
        assert forall|s: Seq<char>| #[trigger]
            touched(attempts).contains(s) <==> exists|i: int|
                0 <= i < attempts.len() && (#[trigger] attempts[i]).skill_id@ == s by {
            if touched(attempts).contains(s) {
                if s == attempts.last().skill_id@ {
                    assert(attempts[attempts.len() - 1].skill_id@ == s);
                } else {
                    assert(touched(init).contains(s));
                    let i = choose|i: int|
                        0 <= i < init.len() && (#[trigger] init[i]).skill_id@ == s;
                    assert(attempts[i].skill_id@ == s);
                }
            }
            if exists|i: int| 0 <= i < attempts.len() && (#[trigger] attempts[i]).skill_id@ == s {
                let i = choose|i: int|
                    0 <= i < attempts.len() && (#[trigger] attempts[i]).skill_id@ == s;
                if i < init.len() {
                    assert(init[i].skill_id@ == s);
                    assert(touched(init).contains(s));
                }
            }
        }
    } else {
        assert forall|s: Seq<char>| #[trigger]
            touched(attempts).contains(s) <==> exists|i: int|
                0 <= i < attempts.len() && (#[trigger] attempts[i]).skill_id@ == s by {
        }
    }
}

proof fn untouched_has_no_outcomes(attempts: Seq<Attempt>, skill: Seq<char>)
    requires
        !touched(attempts).contains(skill),
    ensures
        outcomes_of(attempts, skill) =~= seq![],
    decreases attempts.len(),
{
    if attempts.len() > 0 {
        let init = attempts.drop_last();
        touched_is_sorted(init);
        with_name_sorts(touched(init), attempts.last().skill_id@);
        assert(with_name(touched(init), attempts.last().skill_id@) == touched(attempts));
        assert(!touched(init).contains(skill));
        untouched_has_no_outcomes(init, skill);
    }
}

/// How each skill of a sitting went: the skills in order of their ids, the answers of
/// each in the order in which they were given.
pub fn group_by_skill(attempts: &[Attempt]) -> (groups: Vec<SkillOutcomes>)
    ensures
        groups@.len() == touched(attempts@).len(),
        forall|i: int|
            0 <= i < groups@.len() ==> (#[trigger] groups@[i]).skill_id@ == touched(attempts@)[i]
                && groups@[i].outcomes@ == outcomes_of(attempts@, touched(attempts@)[i]),
{
    let mut keys: Vec<String> = Vec::new();
    let mut lists: Vec<Vec<Outcome>> = Vec::new();
    let mut k: usize = 0;
    assert(attempts@.take(0) =~= seq![]);
    assert(texts(keys@) =~= seq![]);
    while k < attempts.len()
        invariant
            k <= attempts@.len(),
            keys@.len() == lists@.len(),
            texts(keys@) == touched(attempts@.take(k as int)),
            forall|i: int|
                0 <= i < lists@.len() ==> (#[trigger] lists@[i])@ == outcomes_of(
                    attempts@.take(k as int),
                    keys@[i]@,
                ),
        decreases attempts@.len() - k,
    {
        let attempt: &Attempt = &attempts[k];
        let ghost before = attempts@.take(k as int);
        let ghost after = attempts@.take(k + 1);
        let ghost old_keys = keys@;
        let ghost old_lists = lists@;
        assert(after.drop_last() =~= before);
        assert(after.last() == *attempt);
        let outcome: Outcome = Outcome::of(attempt);
        let at: usize = slot_of(&keys, attempt.skill_id.as_str());
        proof {
            slot_splits(texts(keys@), attempt.skill_id@);
            touched_is_sorted(before);
        }
        if at < keys.len() && same_text(keys[at].as_str(), attempt.skill_id.as_str()) {
            lists[at].push(outcome);
            proof {
                assert(texts(keys@)[at as int] == attempt.skill_id@);
                assert forall|i: int| 0 <= i < lists@.len() implies (#[trigger] lists@[i])@
                    == outcomes_of(after, keys@[i]@) by {
                    assert(old_lists[i]@ == outcomes_of(before, keys@[i]@));
                    if i != at {
                        assert(texts(keys@)[i] == keys@[i]@);
                        precedes_irreflexive(attempt.skill_id@);
                        if i < at {
                            assert(precedes(texts(keys@)[i], texts(keys@)[at as int]));
                        } else {
                            assert(precedes(texts(keys@)[at as int], texts(keys@)[i]));
                        }
                    }
                }
            }
        } else {
            let mut list: Vec<Outcome> = Vec::new();
            list.push(outcome);
            let ghost fresh = list;
            keys.insert(at, attempt.skill_id.clone());
            lists.insert(at, list);
            proof {
                assert(texts(keys@) =~= texts(old_keys).insert(at as int, attempt.skill_id@));
                let names = touched(before);
                assert(!names.contains(attempt.skill_id@)) by {
                    if names.contains(attempt.skill_id@) {
                        let j = choose|j: int|
                            0 <= j < names.len() && names[j] == attempt.skill_id@;
                        precedes_irreflexive(attempt.skill_id@);
                        if j < at {
                            assert(precedes(names[j], attempt.skill_id@));
                        } else {
                            assert(names[at as int] != attempt.skill_id@);
                            assert(precedes(names[at as int], names[j]));
                        }
                    }
                }
                untouched_has_no_outcomes(before, attempt.skill_id@);
                assert forall|i: int| 0 <= i < lists@.len() implies (#[trigger] lists@[i])@
                    == outcomes_of(after, keys@[i]@) by {
                    if i == at {
                        assert(keys@[i]@ == attempt.skill_id@);
                        assert(lists@[i] == fresh);
                        assert(fresh@ =~= outcomes_of(after, attempt.skill_id@));
                    } else {
                        let o = if i < at {
                            i
                        } else {
                            i - 1
                        };
                        assert(lists@[i] == old_lists[o]);
                        assert(keys@[i] == old_keys[o]);
                        assert(old_lists[o]@ == outcomes_of(before, old_keys[o]@));
                        assert(texts(old_keys)[o] == old_keys[o]@);
                        assert(names.contains(old_keys[o]@));
                    }
                }
            }
        }
        k += 1;
    }
    assert(attempts@.take(k as int) =~= attempts@);
    let mut groups: Vec<SkillOutcomes> = Vec::new();
    let ghost all_keys = keys@;
    let ghost all_lists = lists@;
    while keys.len() > 0
        invariant
            keys@.len() == lists@.len(),
            all_keys.len() == all_lists.len(),
            groups@.len() + keys@.len() == all_keys.len(),
            keys@ == all_keys.skip(groups@.len() as int),
            lists@ == all_lists.skip(groups@.len() as int),
            forall|i: int|
                0 <= i < groups@.len() ==> (#[trigger] groups@[i]).skill_id == all_keys[i]
                    && groups@[i].outcomes == all_lists[i],
        decreases keys@.len(),
    {
        let skill_id: String = keys.remove(0);
        let outcomes: Vec<Outcome> = lists.remove(0);
        groups.push(SkillOutcomes { skill_id, outcomes });
        assert(keys@ =~= all_keys.skip(groups@.len() as int));
        assert(lists@ =~= all_lists.skip(groups@.len() as int));
    }
    proof {
        assert forall|i: int| 0 <= i < groups@.len() implies (#[trigger] groups@[i]).skill_id@
            == touched(attempts@)[i] && groups@[i].outcomes@ == outcomes_of(
            attempts@,
            touched(attempts@)[i],
        ) by {
            assert(texts(all_keys)[i] == all_keys[i]@);
            assert(all_lists[i]@ == outcomes_of(attempts@, all_keys[i]@));
        }
    }
    groups
}

/// The moves of the posterior that a list of attempts recorded: before and after, of the
/// informative ones alone.
pub open spec fn moves_of(attempts: Seq<Attempt>) -> Seq<(Double, Double)>
    decreases attempts.len(),
{
    if attempts.len() == 0 {
        seq![]
    } else {
        let before = moves_of(attempts.drop_last());
        let last = attempts.last();
        if last.informative {
            before.push((last.mastery_before, last.mastery_after))
        } else {
            before
        }
    }
}

/// The moves of the posterior whose sum is what a sitting gained. With none it gained
/// nothing that could be measured, which is not the same as zero.
pub fn informative_moves(attempts: &[Attempt]) -> (moves: Vec<(Double, Double)>)
    ensures
        moves@ == moves_of(attempts@),
{
    let mut moves: Vec<(Double, Double)> = Vec::new();
    let mut i: usize = 0;
    assert(attempts@.take(0) =~= seq![]);
    while i < attempts.len()
        invariant
            i <= attempts@.len(),
            moves@ == moves_of(attempts@.take(i as int)),
        decreases attempts@.len() - i,
    {
        proof {
            assert(attempts@.take(i + 1).drop_last() =~= attempts@.take(i as int));
            assert(attempts@.take(i + 1).last() == attempts@[i as int]);
        }
        if attempts[i].informative {
            moves.push((attempts[i].mastery_before, attempts[i].mastery_after));
        }
        i += 1;
    }
    assert(attempts@.take(i as int) =~= attempts@);
    moves
}

/// What a sitting gained, `total` being the sum of its moves: nothing where there were
/// none.
pub open spec fn gain_of(attempts: Seq<Attempt>, total: Double) -> Option<Double> {
    if moves_of(attempts).len() == 0 {
        None
    } else {
        Some(total)
    }
}

/// What a sitting gained, `total` being the sum of its moves. A sitting without any has no
/// gain, rather than one of zero that nobody earned.
pub fn mastery_gain(attempts: &[Attempt], total: Double) -> (gain: Option<Double>)
    ensures
        gain == gain_of(attempts@, total),
{
    if informative_moves(attempts).len() == 0 {
        None
    } else {
        Some(total)
    }
}

/// A sitting in which no attempt moved anything has no gain.
pub proof fn unmoved_attempts_gain_nothing(attempts: Seq<Attempt>, total: Double)
    requires
        forall|i: int| 0 <= i < attempts.len() ==> !(#[trigger] attempts[i]).informative,
    ensures
        gain_of(attempts, total) is None,
    decreases attempts.len(),
{
    if attempts.len() > 0 {
        let init = attempts.drop_last();
        assert(!attempts[attempts.len() - 1].informative);
        assert forall|i: int| 0 <= i < init.len() implies !(#[trigger] init[i]).informative by {
            assert(attempts[i] == init[i]);
        }
        unmoved_attempts_gain_nothing(init, total);
    }
}

/// Whether closing a sitting reschedules its skills: only the first time.
pub fn closes(session: Option<&Session>) -> (closing: Result<bool, ApiError>)
    ensures
        match session {
            None => closing matches Err(ApiError::NotFound(what)) && what@ == "session"@,
            Some(s) => closing == Ok::<bool, ApiError>(is_open(s.status)),
        },
        session matches Some(s) ==> (closing matches Ok(first) && (first <==> s.status
            == SessionStatus::Planned || s.status == SessionStatus::Active)),
{
    match session {
        None => Err(ApiError::not_found("session")),
        Some(s) => Ok(open_session(s.status)),
    }
}

/// How well one skill is known, and how far it is from the target.
#[derive(Clone, Debug)]
pub struct SkillMastery {
    pub skill_id: String,
    pub name: String,
    pub mastery: Double,
    pub due_at: Option<i64>,
    /// How many more correct answers reach the target: a projection.
    pub correct_answers_to_target: Option<u32>,
}

/// The line of a mastery report for one skill.
pub fn skill_mastery(skill: &Skill, projection: &Projection) -> (line: SkillMastery)
    ensures
        line.skill_id@ == skill.id@,
        line.name@ == skill.name@,
        line.mastery == skill.mastery,
        line.due_at == skill.due_at,
        line.correct_answers_to_target == projection.steps,
{
    SkillMastery {
        skill_id: skill.id.clone(),
        name: skill.name.clone(),
        mastery: skill.mastery,
        due_at: skill.due_at,
        correct_answers_to_target: projection.steps,
    }
}

/// What a kind of item costs: its median answer time, the seed where it was never answered,
/// and never less than a second. The median of an even number is half the sum of the two in
/// the middle, cut off toward zero.
pub proof fn a_kind_costs_its_median(default_seconds: u32, ascending: Seq<i64>)
    ensures
        ascending.len() == 0 && default_seconds >= 1 ==> kind_cost(default_seconds, ascending)
            == default_seconds * 1_000,
        ascending.len() == 0 && default_seconds == 0 ==> kind_cost(default_seconds, ascending)
            == 1_000,
        ascending.len() % 2 == 1 ==> ({
            let middle = ascending[ascending.len() as int / 2];
            kind_cost(default_seconds, ascending) == if middle >= 1_000 {
                middle as int
            } else {
                1_000
            }
        }),
        ascending.len() > 0 && ascending.len() % 2 == 0 ==> ({
            let sum = ascending[ascending.len() as int / 2 - 1] + ascending[ascending.len() as int
                / 2];
            let cost = kind_cost(default_seconds, ascending);
            &&& sum >= 2_000 ==> 2 * cost <= sum < 2 * cost + 2
            &&& sum < 2_000 ==> cost == 1_000
        }),
{
}

/// How a skill went is told by the attempts at it, in their order, and by no others.
pub proof fn a_skill_went_as_its_attempts_did(attempts: Seq<Attempt>, skill: Seq<char>)
    ensures
        outcomes_of(attempts, skill) == attempts.filter(
            |a: Attempt| a.skill_id@ == skill,
        ).map_values(|a: Attempt| Outcome { correct: a.correct, score: a.score }),
    decreases attempts.len(),
{
    reveal(Seq::filter);
    let keep = |a: Attempt| a.skill_id@ == skill;
    let shape = |a: Attempt| Outcome { correct: a.correct, score: a.score };
    if attempts.len() > 0 {
        let init = attempts.drop_last();
        a_skill_went_as_its_attempts_did(init, skill);
        if attempts.last().skill_id@ == skill {
            assert(attempts.filter(keep) == init.filter(keep).push(attempts.last()));
            assert(attempts.filter(keep).map_values(shape) =~= init.filter(keep).map_values(
                shape,
            ).push(shape(attempts.last())));
        }
    } else {
        assert(attempts.filter(keep).map_values(shape) =~= outcomes_of(attempts, skill));
    }
}

/// The skills touched are in strict order of their ids.
pub proof fn touched_skills_are_in_order(attempts: Seq<Attempt>, i: int, j: int)
    requires
        0 <= i < j < touched(attempts).len(),
    ensures
        precedes(touched(attempts)[i], touched(attempts)[j]),
{
    touched_is_sorted(attempts);
}

/// What a sitting moved is what its informative attempts did, in their order, and it has a
/// gain exactly where there was one.
pub proof fn informative_attempts_are_the_moves(attempts: Seq<Attempt>, total: Double)
    ensures
        moves_of(attempts) == attempts.filter(|a: Attempt| a.informative).map_values(
            |a: Attempt| (a.mastery_before, a.mastery_after),
        ),
        gain_of(attempts, total) is Some <==> exists|i: int|
            0 <= i < attempts.len() && (#[trigger] attempts[i]).informative,
        gain_of(attempts, total) matches Some(gain) ==> gain == total,
    decreases attempts.len(),
{
    reveal(Seq::filter);
    let keep = |a: Attempt| a.informative;
    let shape = |a: Attempt| (a.mastery_before, a.mastery_after);
    if attempts.len() > 0 {
        let init = attempts.drop_last();
        informative_attempts_are_the_moves(init, total);
        if attempts.last().informative {
            assert(attempts.filter(keep) == init.filter(keep).push(attempts.last()));
            assert(attempts.filter(keep).map_values(shape) =~= init.filter(keep).map_values(
                shape,
            ).push(shape(attempts.last())));
            assert(attempts[attempts.len() - 1].informative);
        } else if exists|i: int|
            0 <= i < attempts.len() && (#[trigger] attempts[i]).informative {
            let i = choose|i: int|
                0 <= i < attempts.len() && (#[trigger] attempts[i]).informative;
            assert(init[i].informative);
        }
        if exists|i: int| 0 <= i < init.len() && (#[trigger] init[i]).informative {
            let i = choose|i: int| 0 <= i < init.len() && (#[trigger] init[i]).informative;
            assert(attempts[i].informative);
        }
    } else {
        assert(attempts.filter(keep).map_values(shape) =~= moves_of(attempts));
    }
}

} // verus!
