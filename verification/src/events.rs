//! What a tick raises: reviews that fell due, mastery that dropped, a goal at risk.
//!
//! Each event is claimed before it is raised: reviews once per local day, the others at
//! most once per cooldown. A condition that has passed takes its mark with it, so that the
//! next time it is raised again.

use crate::calendar::{day_start, day_start_ms, first_hour, local_day_at, Tz};
use crate::double::Double;
use crate::models::{Attempt, Skill};
use crate::text::{decimal_text, integer_text};
use crate::trajectory::Trajectory;
use vstd::prelude::*;

verus! {

/// Whether an event may be raised: there is no mark for it, or its cooldown is over.
pub open spec fn may_claim(last: Option<i64>, now: i64, cooldown_ms: i64) -> bool {
    match last {
        None => true,
        Some(at) => now - at >= cooldown_ms,
    }
}

/// What comes of a claim: whether it was won, and the mark it leaves.
pub open spec fn claims_to(
    last: Option<i64>,
    now: i64,
    cooldown_ms: i64,
    claim: (bool, Option<i64>),
) -> bool {
    claim == (if may_claim(last, now, cooldown_ms) {
        (true, Some(now))
    } else {
        (false, last)
    })
}

/// Claims the right to raise an event. `last` is when it was last raised, if there is a
/// mark. A claim leaves a mark at `now`; a refusal leaves the mark as it was.
pub fn claim_event(last: Option<i64>, now: i64, cooldown_ms: i64) -> (claim: (bool, Option<i64>))
    ensures
        claims_to(last, now, cooldown_ms, claim),
        last is None ==> claim == (true, Some(now)),
        last matches Some(at) ==> (claim.0 <==> now - at >= cooldown_ms),
        claim.0 ==> claim.1 == Some(now),
        !claim.0 ==> claim.1 == last,
{
    let free: bool = match last {
        None => true,
        Some(at) => now as i128 - at as i128 >= cooldown_ms as i128,
    };
    if free {
        (true, Some(now))
    } else {
        (false, last)
    }
}

/// An event is raised once per cooldown: whoever comes after the one that claimed it is
/// refused until the cooldown is over, and leaves the mark as it was.
pub proof fn one_claim_per_cooldown(
    last: Option<i64>,
    now: i64,
    later: i64,
    cooldown_ms: i64,
    claim: (bool, Option<i64>),
    again: (bool, Option<i64>),
)
    requires
        claims_to(last, now, cooldown_ms, claim),
        claim.0,
        claims_to(claim.1, later, cooldown_ms, again),
    ensures
        again.0 <==> later - now >= cooldown_ms,
        !again.0 ==> again.1 == Some(now),
{
}

/// What a tick does about an event.
#[derive(Clone, Copy, Debug, PartialEq, Eq, Structural)]
pub enum EventStep {
    /// Nothing: neither is there anything to say, nor has anything passed.
    Skip,
    /// The condition has passed: its mark is removed.
    Clear,
    /// The condition holds: the event is raised if it can be claimed.
    Raise,
}

/// Skills that were scheduled and have fallen due. New material is not an overdue
/// review.
pub open spec fn overdue(due: Seq<Skill>) -> nat
    decreases due.len(),
{
    if due.len() == 0 {
        0
    } else {
        overdue(due.drop_last()) + if due.last().due_at is Some {
            1nat
        } else {
            0nat
        }
    }
}

/// The reviews that have fallen due are the skills on a list that have a date.
pub proof fn overdue_are_scheduled(due: Seq<Skill>)
    ensures
        overdue(due) == due.filter(|skill: Skill| skill.due_at is Some).len(),
        overdue(due) > 0 <==> exists|i: int|
            0 <= i < due.len() && (#[trigger] due[i]).due_at is Some,
    decreases due.len(),
{
    reveal(Seq::filter);
    if due.len() > 0 {
        let init = due.drop_last();
        overdue_are_scheduled(init);
        if exists|i: int| 0 <= i < init.len() && (#[trigger] init[i]).due_at is Some {
            let i = choose|i: int| 0 <= i < init.len() && (#[trigger] init[i]).due_at is Some;
            assert(due[i].due_at is Some);
        }
        if exists|i: int| 0 <= i < due.len() && (#[trigger] due[i]).due_at is Some {
            let i = choose|i: int| 0 <= i < due.len() && (#[trigger] due[i]).due_at is Some;
            if i < init.len() {
                assert(init[i].due_at is Some);
            }
        }
        if due.last().due_at is Some {
            assert(due[due.len() - 1].due_at is Some);
        }
    }
}

/// How many of the skills to study are reviews that have fallen due.
pub fn count_overdue(due: &[Skill]) -> (count: usize)
    ensures
        count == overdue(due@),
        count <= due@.len(),
        count == due@.filter(|skill: Skill| skill.due_at is Some).len(),
{
    proof {
        overdue_are_scheduled(due@);
    }
    let mut count: usize = 0;
    let mut i: usize = 0;
    assert(due@.take(0) =~= seq![]);
    while i < due.len()
        invariant
            i <= due@.len(),
            count == overdue(due@.take(i as int)),
            count <= i,
        decreases due@.len() - i,
    {
        proof {
            assert(due@.take(i + 1).drop_last() =~= due@.take(i as int));
            assert(due@.take(i + 1).last() == due@[i as int]);
        }
        if due[i].due_at.is_some() {
            count += 1;
        }
        i += 1;
    }
    assert(due@.take(i as int) =~= due@);
    count
}

/// Reviews that have fallen due are announced; a day without any is not.
pub fn review_step(due: &[Skill]) -> (step: EventStep)
    ensures
        step == (if overdue(due@) > 0 {
            EventStep::Raise
        } else {
            EventStep::Skip
        }),
        step == EventStep::Raise <==> exists|i: int|
            0 <= i < due@.len() && (#[trigger] due@[i]).due_at is Some,
        step == EventStep::Raise || step == EventStep::Skip,
{
    proof {
        overdue_are_scheduled(due@);
    }
    if count_overdue(due) > 0 {
        EventStep::Raise
    } else {
        EventStep::Skip
    }
}

/// What comes of a claim on the reviews of one day: it is won where that day has no mark
/// yet, and the mark of a day stays as it was made.
pub open spec fn review_claims_to(
    marked: Option<i64>,
    now: i64,
    claim: (bool, Option<i64>),
) -> bool {
    claim == (match marked {
        None => (true, Some(now)),
        Some(at) => (false, Some(at)),
    })
}

/// Claims the right to announce the reviews of one day. `marked` is when the mark of that
/// day was made, if there is one. However long the day is, it is announced once.
pub fn claim_review(marked: Option<i64>, now: i64) -> (claim: (bool, Option<i64>))
    ensures
        review_claims_to(marked, now, claim),
        claim.0 <==> marked is None,
        claim.0 ==> claim.1 == Some(now),
        !claim.0 ==> claim.1 == marked,
{
    match marked {
        None => (true, Some(now)),
        Some(at) => (false, Some(at)),
    }
}

/// What the mark of a review event refers to: the day it was raised on, in the subject's
/// zone.
pub fn review_ref(tz: &Tz, now: i64) -> (day: String)
    ensures
        day@ == integer_text(day_start(tz.name@, now) as int),
        local_day_at(tz.name@, day_start(tz.name@, now)) == local_day_at(tz.name@, now),
{
    decimal_text(day_start_ms(tz, now))
}

/// Whether an attempt shows the posterior at or above a threshold.
pub open spec fn shows_passed(attempt: Attempt, threshold: Double) -> bool {
    attempt.mastery_before.at_least(threshold) || attempt.mastery_after.at_least(threshold)
}

/// Whether a history shows the posterior at or above a threshold.
pub open spec fn had_passed(history: Seq<Attempt>, threshold: Double) -> bool {
    exists|i: int| 0 <= i < history.len() && shows_passed(#[trigger] history[i], threshold)
}

/// Mastery has dropped where it stands below a threshold it had passed. Where it stands
/// above, or never did, there is nothing to announce, and a later drop is a new one.
pub fn mastery_step(mastery: Double, history: &[Attempt], threshold: Double) -> (step: EventStep)
    ensures
        step == (if !mastery.at_least(threshold) && had_passed(history@, threshold) {
            EventStep::Raise
        } else {
            EventStep::Clear
        }),
        step == EventStep::Raise <==> !mastery.at_least(threshold) && exists|i: int|
            0 <= i < history@.len() && ((#[trigger] history@[i]).mastery_before.at_least(threshold)
                || history@[i].mastery_after.at_least(threshold)),
        step == EventStep::Raise || step == EventStep::Clear,
{
    if mastery.ge(threshold) {
        return EventStep::Clear;
    }
    let mut i: usize = 0;
    while i < history.len()
        invariant
            i <= history@.len(),
            !mastery.at_least(threshold),
            forall|k: int| 0 <= k < i ==> !shows_passed(#[trigger] history@[k], threshold),
        decreases history@.len() - i,
    {
        if history[i].mastery_before.ge(threshold) || history[i].mastery_after.ge(threshold) {
            assert(shows_passed(history@[i as int], threshold));
            assert(had_passed(history@, threshold));
            return EventStep::Raise;
        }
        i += 1;
    }
    EventStep::Clear
}

/// A goal is at risk where a projection says so. Without an exam there is no goal.
/// Without a projection nothing is known, which is neither a risk nor its end.
pub fn goal_step(exam_set: bool, trajectory: Option<&Trajectory>) -> (step: EventStep)
    ensures
        step == (match trajectory {
            Some(Trajectory::Projected(projection)) => if !exam_set {
                EventStep::Skip
            } else if projection.at_risk {
                EventStep::Raise
            } else {
                EventStep::Clear
            },
            _ => EventStep::Skip,
        }),
{
    match trajectory {
        Some(Trajectory::Projected(projection)) => if !exam_set {
            EventStep::Skip
        } else if projection.at_risk {
            EventStep::Raise
        } else {
            EventStep::Clear
        },
        _ => EventStep::Skip,
    }
}

/// A number that can be sent: one that is infinite, or none at all, is reported as
/// absent.
pub fn finite(value: Double) -> (sent: Option<Double>)
    ensures
        sent == (if value.finite() {
            Some(value)
        } else {
            None
        }),
{
    if value.is_finite() {
        Some(value)
    } else {
        None
    }
}

/// How long a drop that was announced stays announced while the skill has not
/// recovered: thirty days.
pub const RECOVERY_COOLDOWN_MS: i64 = 2_592_000_000;

/// Reviews are announced once per local day, whatever its length: two ticks on one day
/// refer to the same mark, and once that mark was made the later claim is refused.
pub proof fn reviews_are_announced_once_a_day(
    zone: Seq<char>,
    first: i64,
    later: i64,
    day: i32,
    marked: Option<i64>,
    claim: (bool, Option<i64>),
    again: (bool, Option<i64>),
)
    requires
        local_day_at(zone, first) == Some(day),
        local_day_at(zone, later) == Some(day),
        first_hour(zone, day) is Some,
        review_claims_to(marked, first, claim),
        review_claims_to(claim.1, later, again),
    ensures
        integer_text(day_start(zone, first) as int) == integer_text(day_start(zone, later) as int),
        !again.0,
        again.1 == claim.1,
{
}

/// When an event may be raised, and when mastery has dropped: the first time, and again once the
/// cooldown is over; and where the posterior was at the threshold before or after some attempt.
pub proof fn an_event_needs_its_grounds(
    last: Option<i64>,
    now: i64,
    cooldown_ms: i64,
    history: Seq<Attempt>,
    threshold: Double,
)
    ensures
        last is None ==> may_claim(last, now, cooldown_ms),
        last matches Some(at) ==> (may_claim(last, now, cooldown_ms) <==> now - at >= cooldown_ms),
        had_passed(history, threshold) <==> exists|i: int|
            0 <= i < history.len() && ((#[trigger] history[i]).mastery_before.at_least(threshold)
                || history[i].mastery_after.at_least(threshold)),
{
    if had_passed(history, threshold) {
        let i = choose|i: int|
            0 <= i < history.len() && shows_passed(#[trigger] history[i], threshold);
        assert(history[i].mastery_before.at_least(threshold)
            || history[i].mastery_after.at_least(threshold));
    }
    if exists|i: int|
        0 <= i < history.len() && ((#[trigger] history[i]).mastery_before.at_least(threshold)
            || history[i].mastery_after.at_least(threshold)) {
        let i = choose|i: int|
            0 <= i < history.len() && ((#[trigger] history[i]).mastery_before.at_least(threshold)
                || history[i].mastery_after.at_least(threshold));
        assert(shows_passed(history[i], threshold));
    }
}

} // verus!
