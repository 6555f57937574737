//! Closing a sitting, step by step.
//!
//! A sitting is closed first, and only the call that closed it reviews the skills it
//! touched: each once, in order, from how it went as a whole. A skill of which nothing is
//! graded yet is left alone.

use crate::calendar::{day_start_after, Tz};
use crate::closing::{
    closes, gain_of, group_by_skill, informative_attempts_are_the_moves, mastery_gain, outcomes_of, touched,
    touched_is_sorted, SkillOutcomes,
};
use crate::double::Double;
use crate::error::ApiError;
use crate::models::{Attempt, Session, SessionStatus, Skill};
use crate::sittings::is_open;
use crate::srs::{
    credits_of, nearest_grade, next_schedule, quality, review, review_terms, terms_of, Outcome,
    Review, ReviewTerms, Schedule, PASSING_QUALITY,
};
use crate::text::{precedes, precedes_irreflexive};
use vstd::prelude::*;
use vstd::string::*;

verus! {

/// Where the closing of a sitting stands.
#[derive(Debug)]
pub enum CloseState {
    /// Waiting for the sitting.
    Asking,
    /// Waiting for its attempts, and the sum of what they moved.
    Gathering,
    /// Waiting for the sitting to be closed.
    Ending { groups: Vec<SkillOutcomes> },
    /// Waiting to hear how a skill went; `rest` are still to come.
    Weighing {
        skill_id: String,
        outcomes: Vec<Outcome>,
        rest: Vec<SkillOutcomes>,
        rescheduled: usize,
    },
    /// Waiting for the arithmetic of a review.
    Stepping {
        skill_id: String,
        prev: Schedule,
        quality: u8,
        rest: Vec<SkillOutcomes>,
        rescheduled: usize,
    },
    /// Waiting for a review to be written.
    Writing { rest: Vec<SkillOutcomes>, rescheduled: usize },
    /// Nothing is left to do.
    Closed,
}

/// What came of an action.
#[derive(Debug)]
pub enum CloseEvent {
    Found { session: Option<Session> },
    Gathered { attempts: Vec<Attempt>, total: Double },
    Ended { written: bool },
    /// The mean credit of a skill times the top of the quality scale, and the skill, if it
    /// still exists.
    Weighed { scaled: Double, skill: Option<Skill> },
    /// The interval times the ease, and the ease moved by the quality.
    Stepped { scaled: Double, eased: Double },
    Written,
}

/// What is to be done next.
#[derive(Debug)]
pub enum CloseAction {
    /// Read the attempts, and add up what the informative ones moved.
    Gather,
    /// Close the sitting with what it gained.
    End { gain: Option<Double> },
    /// Read a skill, and average the credits of its outcomes.
    Weigh { skill_id: String, outcomes: Vec<Outcome> },
    /// Do the two products of a review.
    Step { terms: ReviewTerms },
    Write { skill_id: String, review: Review },
    Done { rescheduled: usize },
    Fail { error: ApiError },
}

/// Whether a list says how each skill of the attempts went, in order.
pub open spec fn is_grouping(groups: Seq<SkillOutcomes>, attempts: Seq<Attempt>) -> bool {
    &&& groups.len() == touched(attempts).len()
    &&& forall|i: int|
        0 <= i < groups.len() ==> (#[trigger] groups[i]).skill_id@ == touched(attempts)[i]
            && groups[i].outcomes@ == outcomes_of(attempts, touched(attempts)[i])
}

/// What follows while skills are left to review: the first of them, or the end.
pub open spec fn reviews_next(
    next: (CloseState, CloseAction),
    left: Seq<SkillOutcomes>,
    rescheduled: usize,
) -> bool {
    if left.len() == 0 {
        next.0 is Closed && next.1 == (CloseAction::Done { rescheduled })
    } else {
        &&& next.0 matches CloseState::Weighing { skill_id, outcomes, rest, rescheduled: n }
            && skill_id@ == left[0].skill_id@ && outcomes@ == left[0].outcomes@ && rest@
            == left.skip(1) && n == rescheduled
        &&& next.1 == (CloseAction::Weigh {
            skill_id: left[0].skill_id,
            outcomes: left[0].outcomes,
        })
    }
}

/// What follows once it is known how a skill went.
pub open spec fn weighs_to(
    next: (CloseState, CloseAction),
    weighed: Seq<char>,
    outcomes: Seq<Outcome>,
    scaled: Double,
    skill: Option<Skill>,
    left: Seq<SkillOutcomes>,
    rescheduled: usize,
) -> bool {
    match skill {
        Some(s) => if credits_of(outcomes).len() == 0 {
            reviews_next(next, left, rescheduled)
        } else {
            let prev = Schedule {
                ease: s.ease,
                interval_days: s.interval_days,
                reps: s.reps,
                lapses: s.lapses,
            };
            &&& next.0 matches CloseState::Stepping { skill_id, prev: p, quality: q, rest, rescheduled: n }
                && skill_id@ == weighed && p == prev && q == nearest_grade(scaled) && rest@ == left
                && n == rescheduled
            &&& next.1 == (CloseAction::Step { terms: terms_of(prev, nearest_grade(scaled)) })
        },
        None => reviews_next(next, left, rescheduled),
    }
}

/// Whether a review is the one that a schedule and a quality lead to.
pub open spec fn is_review(
    review: Review,
    prev: Schedule,
    quality: u8,
    scaled: Double,
    eased: Double,
    zone: Seq<char>,
    now: i64,
) -> bool {
    &&& review.schedule == next_schedule(prev, quality, scaled, eased)
    &&& review.lapsed == (quality < PASSING_QUALITY)
    &&& review.due_at == day_start_after(zone, now, review.schedule.interval_days)
}

/// One more skill rescheduled, as far as can be counted.
pub open spec fn one_more(n: usize) -> usize {
    if n < usize::MAX {
        (n + 1) as usize
    } else {
        n
    }
}

/// Whether a step of closing a sitting is the one that its state and what came of the
/// last action call for, with day boundaries in a zone and the reviews made at `now`. An
/// event that the state does not wait for ends it.
pub open spec fn is_close_step(
    state: CloseState,
    event: CloseEvent,
    zone: Seq<char>,
    now: i64,
    next: (CloseState, CloseAction),
) -> bool {
    match (state, event) {
        (CloseState::Asking, CloseEvent::Found { session }) => match session {
            None => next.0 is Closed && (next.1 matches CloseAction::Fail {
                error: ApiError::NotFound(what),
            } && what@ == "session"@),
            Some(s) => if is_open(s.status) {
                next.0 is Gathering && next.1 is Gather
            } else {
                next.0 is Closed && next.1 == (CloseAction::Done { rescheduled: 0 })
            },
        },
        (CloseState::Gathering, CloseEvent::Gathered { attempts, total }) => {
            &&& next.0 matches CloseState::Ending { groups } && is_grouping(groups@, attempts@)
            &&& next.1 == (CloseAction::End { gain: gain_of(attempts@, total) })
        },
        (CloseState::Ending { groups }, CloseEvent::Ended { written }) => if written {
            reviews_next(next, groups@, 0)
        } else {
            next.0 is Closed && next.1 == (CloseAction::Done { rescheduled: 0 })
        },
        (
            CloseState::Weighing { skill_id, outcomes, rest, rescheduled },
            CloseEvent::Weighed { scaled, skill },
        ) => weighs_to(next, skill_id@, outcomes@, scaled, skill, rest@, rescheduled),
        (
            CloseState::Stepping { skill_id, prev, quality: q, rest, rescheduled },
            CloseEvent::Stepped { scaled, eased },
        ) => {
            &&& next.0 == (CloseState::Writing { rest, rescheduled })
            &&& next.1 matches CloseAction::Write { skill_id: id, review: r } && id == skill_id
                && is_review(r, prev, q, scaled, eased, zone, now)
        },
        (CloseState::Writing { rest, rescheduled }, CloseEvent::Written) => reviews_next(
            next,
            rest@,
            one_more(rescheduled),
        ),
        _ => next.0 is Closed && (next.1 matches CloseAction::Fail {
            error: ApiError::Internal(why),
        } && why@ == "closing a sitting was handed what it did not ask for"@),
    }
}

fn review_next(left: Vec<SkillOutcomes>, rescheduled: usize) -> (next: (CloseState, CloseAction))
    ensures
        reviews_next(next, left@, rescheduled),
{
    let mut rest: Vec<SkillOutcomes> = left;
    if rest.len() == 0 {
        return (CloseState::Closed, CloseAction::Done { rescheduled });
    }
    let first: SkillOutcomes = rest.remove(0);
    assert(rest@ =~= left@.skip(1));
    let outcomes: Vec<Outcome> = copied(first.outcomes.as_slice());
    let skill_id: String = first.skill_id.clone();
    (
        CloseState::Weighing { skill_id, outcomes, rest, rescheduled },
        CloseAction::Weigh { skill_id: first.skill_id, outcomes: first.outcomes },
    )
}

fn copied(outcomes: &[Outcome]) -> (copy: Vec<Outcome>)
    ensures
        copy@ == outcomes@,
{
    let mut copy: Vec<Outcome> = Vec::new();
    while copy.len() < outcomes.len()
        invariant
            copy@.len() <= outcomes@.len(),
            copy@ == outcomes@.take(copy@.len() as int),
        decreases outcomes@.len() - copy@.len(),
    {
        let at: usize = copy.len();
        copy.push(outcomes[at]);
        assert(copy@ =~= outcomes@.take(at + 1));
    }
    assert(copy@ =~= outcomes@);
    copy
}

fn weigh(
    skill_id: String,
    outcomes: &[Outcome],
    scaled: Double,
    skill: Option<Skill>,
    left: Vec<SkillOutcomes>,
    rescheduled: usize,
) -> (next: (CloseState, CloseAction))
    ensures
        weighs_to(next, skill_id@, outcomes@, scaled, skill, left@, rescheduled),
{
    match (quality(outcomes, scaled), skill) {
        (Some(q), Some(skill)) => {
            let prev: Schedule = Schedule::of(&skill);
            let terms: ReviewTerms = review_terms(prev, q);
            (
                CloseState::Stepping {
                    skill_id,
                    prev,
                    quality: q,
                    rest: left,
                    rescheduled,
                },
                CloseAction::Step { terms },
            )
        },
        _ => review_next(left, rescheduled),
    }
}

/// How many skills are still to be reviewed, and how far the first of them has come.
pub open spec fn left_over(state: CloseState) -> nat {
    match state {
        CloseState::Asking => 0,
        CloseState::Gathering => 0,
        CloseState::Ending { groups } => 3 * groups@.len() + 1,
        CloseState::Weighing { rest, .. } => 3 * rest@.len() + 3,
        CloseState::Stepping { rest, .. } => 3 * rest@.len() + 2,
        CloseState::Writing { rest, .. } => 3 * rest@.len() + 1,
        CloseState::Closed => 0,
    }
}

/// The next step of closing a sitting: what it becomes, and what is to be done. Once the
/// sitting is ending, every step comes closer to the end.
pub fn close_step(state: CloseState, event: CloseEvent, tz: &Tz, now: i64) -> (next: (
    CloseState,
    CloseAction,
))
    ensures
        is_close_step(state, event, tz.name@, now, next),
        !(state is Asking || state is Gathering || state is Closed) ==> left_over(next.0)
            < left_over(state),
        state is Closed ==> next.0 is Closed,
{
    match (state, event) {
        (CloseState::Asking, CloseEvent::Found { session }) => {
            match closes(session.as_ref()) {
                Err(error) => (CloseState::Closed, CloseAction::Fail { error }),
                Ok(open) => if open {
                    (CloseState::Gathering, CloseAction::Gather)
                } else {
                    (CloseState::Closed, CloseAction::Done { rescheduled: 0 })
                },
            }
        },
        (CloseState::Gathering, CloseEvent::Gathered { attempts, total }) => {
            let groups: Vec<SkillOutcomes> = group_by_skill(attempts.as_slice());
            let gain: Option<Double> = mastery_gain(attempts.as_slice(), total);
            (CloseState::Ending { groups }, CloseAction::End { gain })
        },
        (CloseState::Ending { groups }, CloseEvent::Ended { written }) => {
            if written {
                review_next(groups, 0)
            } else {
                (CloseState::Closed, CloseAction::Done { rescheduled: 0 })
            }
        },
        (
            CloseState::Weighing { skill_id, outcomes, rest, rescheduled },
            CloseEvent::Weighed { scaled, skill },
        ) => weigh(skill_id, outcomes.as_slice(), scaled, skill, rest, rescheduled),
        (
            CloseState::Stepping { skill_id, prev, quality: q, rest, rescheduled },
            CloseEvent::Stepped { scaled, eased },
        ) => {
            let made: Review = review(prev, q, scaled, eased, tz, now);
            (
                CloseState::Writing { rest, rescheduled },
                CloseAction::Write { skill_id, review: made },
            )
        },
        (CloseState::Writing { rest, rescheduled }, CloseEvent::Written) => {
            let count: usize = if rescheduled < usize::MAX {
                rescheduled + 1
            } else {
                rescheduled
            };
            review_next(rest, count)
        },
        _ => (
            CloseState::Closed,
            CloseAction::Fail {
                error: ApiError::Internal(
                    "closing a sitting was handed what it did not ask for".to_owned(),
                ),
            },
        ),
    }
}

/// Skills are reviewed only after this very call has closed the sitting: nothing is
/// weighed or written before.
pub proof fn only_the_closing_call_reviews(
    state: CloseState,
    event: CloseEvent,
    zone: Seq<char>,
    now: i64,
    next: (CloseState, CloseAction),
)
    requires
        is_close_step(state, event, zone, now, next),
        next.1 is Weigh || next.1 is Step || next.1 is Write,
    ensures
        (event matches CloseEvent::Ended { written } && written && state is Ending)
            || state is Weighing || state is Stepping || state is Writing,
{
}

/// A sitting that was closed before reviews nothing.
pub proof fn a_closed_sitting_reviews_nothing(
    session: Session,
    zone: Seq<char>,
    now: i64,
    next: (CloseState, CloseAction),
)
    requires
        !is_open(session.status),
        is_close_step(
            CloseState::Asking,
            CloseEvent::Found { session: Some(session) },
            zone,
            now,
            next,
        ),
    ensures
        next.0 is Closed,
        next.1 == (CloseAction::Done { rescheduled: 0 }),
{
}

/// A skill of which nothing is graded is not rescheduled: without evidence its schedule
/// stays as it is.
pub proof fn no_evidence_leaves_the_schedule_alone(
    skill_id: String,
    outcomes: Vec<Outcome>,
    rest: Vec<SkillOutcomes>,
    rescheduled: usize,
    scaled: Double,
    skill: Option<Skill>,
    zone: Seq<char>,
    now: i64,
    next: (CloseState, CloseAction),
)
    requires
        forall|i: int| 0 <= i < outcomes@.len() ==> (#[trigger] outcomes@[i]).correct is None,
        is_close_step(
            CloseState::Weighing { skill_id, outcomes, rest, rescheduled },
            CloseEvent::Weighed { scaled, skill },
            zone,
            now,
            next,
        ),
    ensures
        !(next.1 is Step),
        !(next.1 is Write),
{
    ungraded_have_no_credits(outcomes@);
}

proof fn ungraded_have_no_credits(outcomes: Seq<Outcome>)
    requires
        forall|i: int| 0 <= i < outcomes.len() ==> (#[trigger] outcomes[i]).correct is None,
    ensures
        credits_of(outcomes).len() == 0,
    decreases outcomes.len(),
{
    if outcomes.len() > 0 {
        let init = outcomes.drop_last();
        assert(outcomes[outcomes.len() - 1].correct is None);
        assert forall|i: int| 0 <= i < init.len() implies (#[trigger] init[i]).correct is None by {
            assert(outcomes[i] == init[i]);
        }
        ungraded_have_no_credits(init);
    }
}

/// How many skills a state has rescheduled.
pub open spec fn count_of(state: CloseState) -> usize {
    match state {
        CloseState::Weighing { rescheduled, .. } => rescheduled,
        CloseState::Stepping { rescheduled, .. } => rescheduled,
        CloseState::Writing { rescheduled, .. } => rescheduled,
        _ => 0,
    }
}

/// How many skills are rescheduled after a step: what the closing ends with, or what it
/// goes on with.
pub open spec fn counted_by(next: (CloseState, CloseAction)) -> usize {
    match next.1 {
        CloseAction::Done { rescheduled } => rescheduled,
        _ => count_of(next.0),
    }
}

/// A skill is counted as rescheduled when its review was written, and at no other step.
pub proof fn only_a_written_review_is_counted(
    state: CloseState,
    event: CloseEvent,
    zone: Seq<char>,
    now: i64,
    next: (CloseState, CloseAction),
)
    requires
        is_close_step(state, event, zone, now, next),
        !(next.1 is Fail),
    ensures
        counted_by(next) == (if state is Writing && event is Written {
            one_more(count_of(state))
        } else {
            count_of(state)
        }),
{
}

// ── A whole closing ───────────────────────────────────────────────────────────

/// What happened in a closing, step by step: what came of the last action, what the
/// closing became, and what was to be done.
pub type Steps = Seq<(CloseEvent, (CloseState, CloseAction))>;

/// Where a closing stands after its steps.
pub open spec fn state_after(start: CloseState, steps: Steps) -> CloseState {
    if steps.len() == 0 {
        start
    } else {
        steps.last().1.0
    }
}

/// Whether each step is the one that was called for.
pub open spec fn is_course(start: CloseState, steps: Steps, zone: Seq<char>, now: i64) -> bool
    decreases steps.len(),
{
    steps.len() == 0 || {
        let before = steps.drop_last();
        &&& is_course(start, before, zone, now)
        &&& is_close_step(state_after(start, before), steps.last().0, zone, now, steps.last().1)
    }
}

/// The skills as they were found when they were weighed, in order.
pub open spec fn found_in(steps: Steps) -> Seq<Option<Skill>>
    decreases steps.len(),
{
    if steps.len() == 0 {
        seq![]
    } else {
        let before = found_in(steps.drop_last());
        match steps.last().0 {
            CloseEvent::Weighed { skill, .. } => before.push(skill),
            _ => before,
        }
    }
}

/// The skills whose reviews were to be written, in order.
pub open spec fn written_in(steps: Steps) -> Seq<Seq<char>>
    decreases steps.len(),
{
    if steps.len() == 0 {
        seq![]
    } else {
        let before = written_in(steps.drop_last());
        match steps.last().1.1 {
            CloseAction::Write { skill_id, .. } => before.push(skill_id@),
            _ => before,
        }
    }
}

/// Whether a skill is to be reviewed: something of it is graded, and it exists.
pub open spec fn is_reviewable(group: SkillOutcomes, found: Option<Skill>) -> bool {
    credits_of(group.outcomes@).len() > 0 && found is Some
}

/// The ids of those among the first `n` skills that are to be reviewed, in order.
pub open spec fn reviewable(groups: Seq<SkillOutcomes>, found: Seq<Option<Skill>>, n: nat) -> Seq<
    Seq<char>,
>
    decreases n,
{
    if n == 0 {
        seq![]
    } else {
        let before = reviewable(groups, found, (n - 1) as nat);
        if is_reviewable(groups[n - 1], found[n - 1]) {
            before.push(groups[n - 1].skill_id@)
        } else {
            before
        }
    }
}

proof fn reviewable_stays(
    groups: Seq<SkillOutcomes>,
    found: Seq<Option<Skill>>,
    more: Option<Skill>,
    n: nat,
)
    requires
        n <= found.len(),
    ensures
        reviewable(groups, found.push(more), n) == reviewable(groups, found, n),
    decreases n,
{
    if n > 0 {
        reviewable_stays(groups, found, more, (n - 1) as nat);
    }
}

proof fn reviewable_bound(groups: Seq<SkillOutcomes>, found: Seq<Option<Skill>>, n: nat)
    ensures
        reviewable(groups, found, n).len() <= n,
    decreases n,
{
    if n > 0 {
        reviewable_bound(groups, found, (n - 1) as nat);
    }
}

/// What holds of a closing after its steps: what was written is what was to be reviewed so
/// far, it is counted, and the skills not yet weighed are left.
spec fn on_course(groups: Seq<SkillOutcomes>, steps: Steps) -> bool {
    let found = found_in(steps);
    let written = written_in(steps);
    let n = found.len();
    match steps.last().1.0 {
        CloseState::Weighing { skill_id, outcomes, rest, rescheduled } => {
            &&& n < groups.len()
            &&& skill_id@ == groups[n as int].skill_id@
            &&& outcomes@ == groups[n as int].outcomes@
            &&& rest@ == groups.skip(n as int + 1)
            &&& written == reviewable(groups, found, n)
            &&& rescheduled == written.len()
        },
        CloseState::Stepping { skill_id, rest, rescheduled, .. } => {
            &&& 0 < n <= groups.len()
            &&& is_reviewable(groups[n - 1], found[n - 1])
            &&& skill_id@ == groups[n - 1].skill_id@
            &&& rest@ == groups.skip(n as int)
            &&& written == reviewable(groups, found, (n - 1) as nat)
            &&& rescheduled == written.len()
        },
        CloseState::Writing { rest, rescheduled } => {
            &&& 0 < n <= groups.len()
            &&& rest@ == groups.skip(n as int)
            &&& written == reviewable(groups, found, n)
            &&& rescheduled + 1 == written.len()
        },
        CloseState::Closed => steps.last().1.1 matches CloseAction::Done { rescheduled } ==> {
            &&& n == groups.len()
            &&& written == reviewable(groups, found, n)
            &&& rescheduled == written.len()
        },
        _ => false,
    }
}

proof fn course_holds(groups: Vec<SkillOutcomes>, steps: Steps, zone: Seq<char>, now: i64)
    requires
        is_course(CloseState::Ending { groups }, steps, zone, now),
        steps.len() > 0,
        steps[0].0 == (CloseEvent::Ended { written: true }),
    ensures
        on_course(groups@, steps),
    decreases steps.len(),
{
    let start = CloseState::Ending { groups };
    let before = steps.drop_last();
    let (event, next) = steps.last();
    if steps.len() == 1 {
        assert(before =~= seq![]);
        assert(found_in(before) =~= seq![]);
        assert(written_in(before) =~= seq![]);
        assert(event == steps[0].0);
        assert(reviewable(groups@, found_in(steps), 0) =~= seq![]);
    } else {
        assert(before[0] == steps[0]);
        course_holds(groups, before, zone, now);
        let found = found_in(before);
        let n = found.len();
        match (state_after(start, before), event) {
            (
                CloseState::Weighing { rest, .. },
                CloseEvent::Weighed { skill, .. },
            ) => {
                reviewable_stays(groups@, found, skill, n);
                assert(found_in(steps) == found.push(skill));
                assert(found.push(skill)[n as int] == skill);
                assert(rest@ == groups@.skip(n as int + 1));
                if rest@.len() > 0 {
                    assert(rest@[0] == groups@[n as int + 1]);
                    assert(rest@.skip(1) =~= groups@.skip(n as int + 2));
                }
            },
            (CloseState::Stepping { .. }, CloseEvent::Stepped { .. }) => {},
            (CloseState::Writing { rest, .. }, CloseEvent::Written) => {
                reviewable_bound(groups@, found, n);
                assert(groups.len() <= usize::MAX);
                if rest@.len() > 0 {
                    assert(rest@[0] == groups@[n as int]);
                    assert(rest@.skip(1) =~= groups@.skip(n as int + 1));
                }
            },
            _ => {},
        }
    }
}

/// The whole of a closing, from the moment it closed the sitting: every skill of the
/// sitting is weighed once, in order; the reviews written are those of the skills that
/// exist and of which something is graded, each once; and it ends with their number.
pub proof fn a_closing_reviews_each_skill_once(
    groups: Vec<SkillOutcomes>,
    steps: Steps,
    zone: Seq<char>,
    now: i64,
    rescheduled: usize,
)
    requires
        is_course(CloseState::Ending { groups }, steps, zone, now),
        steps.len() > 0,
        steps[0].0 == (CloseEvent::Ended { written: true }),
        steps.last().1.1 == (CloseAction::Done { rescheduled }),
    ensures
        found_in(steps).len() == groups@.len(),
        written_in(steps) == reviewable(groups@, found_in(steps), groups@.len()),
        rescheduled == written_in(steps).len(),
{
    course_holds(groups, steps, zone, now);
    done_is_closed(CloseState::Ending { groups }, steps, zone, now);
}

/// A closing that is done has come to its end.
proof fn done_is_closed(start: CloseState, steps: Steps, zone: Seq<char>, now: i64)
    requires
        is_course(start, steps, zone, now),
        steps.len() > 0,
        steps.last().1.1 is Done,
    ensures
        steps.last().1.0 is Closed,
{
}

/// Whether some attempt at a skill is graded.
pub open spec fn has_graded(attempts: Seq<Attempt>, skill: Seq<char>) -> bool {
    exists|i: int|
        0 <= i < attempts.len() && (#[trigger] attempts[i]).skill_id@ == skill
            && attempts[i].correct is Some
}

proof fn credit_means_graded(attempts: Seq<Attempt>, skill: Seq<char>)
    ensures
        credits_of(outcomes_of(attempts, skill)).len() > 0 <==> has_graded(attempts, skill),
    decreases attempts.len(),
{
    if attempts.len() > 0 {
        let init = attempts.drop_last();
        let last = attempts.last();
        credit_means_graded(init, skill);
        let before = outcomes_of(init, skill);
        let outcome = Outcome { correct: last.correct, score: last.score };
        if last.skill_id@ == skill {
            assert(before.push(outcome).drop_last() =~= before);
            assert(before.push(outcome).last() == outcome);
        }
        if has_graded(init, skill) {
            let i = choose|i: int|
                0 <= i < init.len() && (#[trigger] init[i]).skill_id@ == skill
                    && init[i].correct is Some;
            assert(attempts[i].skill_id@ == skill && attempts[i].correct is Some);
        }
        if has_graded(attempts, skill) {
            let i = choose|i: int|
                0 <= i < attempts.len() && (#[trigger] attempts[i]).skill_id@ == skill
                    && attempts[i].correct is Some;
            if i < init.len() {
                assert(init[i].skill_id@ == skill && init[i].correct is Some);
            }
        }
        if last.skill_id@ == skill && last.correct is Some {
            assert(attempts[attempts.len() - 1].skill_id@ == skill);
        }
    }
}

proof fn reviewable_members(groups: Seq<SkillOutcomes>, found: Seq<Option<Skill>>, n: nat)
    requires
        n <= groups.len(),
        forall|i: int, j: int|
            #![trigger groups[i], groups[j]]
            0 <= i < j < groups.len() ==> groups[i].skill_id@ != groups[j].skill_id@,
    ensures
        reviewable(groups, found, n).no_duplicates(),
        forall|s: Seq<char>| #[trigger]
            reviewable(groups, found, n).contains(s) <==> exists|i: int|
                0 <= i < n && (#[trigger] groups[i]).skill_id@ == s && is_reviewable(
                    groups[i],
                    found[i],
                ),
    decreases n,
{
    let list = reviewable(groups, found, n);
    if n > 0 {
        reviewable_members(groups, found, (n - 1) as nat);
        let before = reviewable(groups, found, (n - 1) as nat);
        let id = groups[n - 1].skill_id@;
        assert(!before.contains(id)) by {
            if before.contains(id) {
                let i = choose|i: int|
                    0 <= i < n - 1 && (#[trigger] groups[i]).skill_id@ == id && is_reviewable(
                        groups[i],
                        found[i],
                    );
                assert(groups[i].skill_id@ != groups[n - 1].skill_id@);
            }
        }
        assert(list.no_duplicates()) by {
            assert forall|a: int, b: int|
                0 <= a < list.len() && 0 <= b < list.len() && a != b implies list[a] != list[b] by {
                if a < before.len() {
                    assert(before.contains(before[a]));
                }
                if b < before.len() {
                    assert(before.contains(before[b]));
                }
            }
        }
        assert forall|s: Seq<char>| #[trigger] list.contains(s) <==> exists|i: int|
            0 <= i < n && (#[trigger] groups[i]).skill_id@ == s && is_reviewable(
                groups[i],
                found[i],
            ) by {
            if list.contains(s) {
                let k = choose|k: int| 0 <= k < list.len() && list[k] == s;
                if k < before.len() {
                    assert(before.contains(before[k]));
                    let i = choose|i: int|
                        0 <= i < n - 1 && (#[trigger] groups[i]).skill_id@ == s && is_reviewable(
                            groups[i],
                            found[i],
                        );
                    assert(groups[i].skill_id@ == s);
                } else {
                    assert(groups[n - 1].skill_id@ == s);
                }
            }
            if exists|i: int|
                0 <= i < n && (#[trigger] groups[i]).skill_id@ == s && is_reviewable(
                    groups[i],
                    found[i],
                ) {
                let i = choose|i: int|
                    0 <= i < n && (#[trigger] groups[i]).skill_id@ == s && is_reviewable(
                        groups[i],
                        found[i],
                    );
                if i < n - 1 {
                    assert(before.contains(s));
                    let k = choose|k: int| 0 <= k < before.len() && before[k] == s;
                    assert(list[k] == s);
                } else {
                    assert(list[before.len() as int] == s);
                }
            }
        }
    }
}

/// What a closing does to the skills of its attempts: exactly those are rescheduled that
/// have a graded attempt and exist, each once, and their number is what it ends with.
pub proof fn graded_skills_are_rescheduled(
    attempts: Seq<Attempt>,
    groups: Vec<SkillOutcomes>,
    steps: Steps,
    zone: Seq<char>,
    now: i64,
    rescheduled: usize,
)
    requires
        is_grouping(groups@, attempts),
        is_course(CloseState::Ending { groups }, steps, zone, now),
        steps.len() > 0,
        steps[0].0 == (CloseEvent::Ended { written: true }),
        steps.last().1.1 == (CloseAction::Done { rescheduled }),
    ensures
        found_in(steps).len() == touched(attempts).len(),
        written_in(steps).no_duplicates(),
        rescheduled == written_in(steps).len(),
        forall|i: int|
            0 <= i < touched(attempts).len() ==> (written_in(steps).contains(
                #[trigger] touched(attempts)[i],
            ) <==> has_graded(attempts, touched(attempts)[i]) && found_in(steps)[i] is Some),
        forall|s: Seq<char>| #[trigger]
            written_in(steps).contains(s) ==> touched(attempts).contains(s),
{
    a_closing_reviews_each_skill_once(groups, steps, zone, now, rescheduled);
    touched_is_sorted(attempts);
    let ids = touched(attempts);
    let found = found_in(steps);
    let list = groups@;
    assert forall|i: int, j: int|
        #![trigger list[i], list[j]]
        0 <= i < j < list.len() implies list[i].skill_id@ != list[j].skill_id@ by {
        assert(precedes(ids[i], ids[j]));
        precedes_irreflexive(ids[i]);
    }
    reviewable_members(list, found, list.len());
    assert forall|i: int| 0 <= i < ids.len() implies (written_in(steps).contains(#[trigger] ids[i])
        <==> has_graded(attempts, ids[i]) && found[i] is Some) by {
        assert(list[i].skill_id@ == ids[i]);
        credit_means_graded(attempts, ids[i]);
        if written_in(steps).contains(ids[i]) {
            let k = choose|k: int|
                0 <= k < list.len() && (#[trigger] list[k]).skill_id@ == ids[i] && is_reviewable(
                    list[k],
                    found[k],
                );
            if k < i {
                assert(list[k].skill_id@ != list[i].skill_id@);
            } else if i < k {
                assert(list[i].skill_id@ != list[k].skill_id@);
            }
        }
    }
    assert forall|s: Seq<char>| #[trigger] written_in(steps).contains(s) implies ids.contains(s) by {
        let k = choose|k: int|
            0 <= k < list.len() && (#[trigger] list[k]).skill_id@ == s && is_reviewable(
                list[k],
                found[k],
            );
        assert(ids[k] == s);
    }
}

/// What each step of a closing does: an open sitting is gathered and closed with what it
/// gained; then each skill is weighed in turn, stepped with its own schedule and quality, and
/// its review written under its own id.
pub proof fn a_closing_takes_each_skill_in_turn(
    state: CloseState,
    event: CloseEvent,
    zone: Seq<char>,
    now: i64,
    next: (CloseState, CloseAction),
)
    requires
        is_close_step(state, event, zone, now, next),
    ensures
        state is Asking ==> (event matches CloseEvent::Found { session } ==> match session {
            None => next.1 matches CloseAction::Fail { error } && error is NotFound,
            Some(s) => if s.status == SessionStatus::Planned || s.status == SessionStatus::Active {
                next.1 is Gather
            } else {
                next.1 == (CloseAction::Done { rescheduled: 0 })
            },
        }),
        state is Gathering ==> (event matches CloseEvent::Gathered { attempts, total } ==> (
        next.1 matches CloseAction::End { gain } && (gain is Some <==> exists|i: int|
            0 <= i < attempts@.len() && (#[trigger] attempts@[i]).informative) && (gain is Some
            ==> gain == Some(total)))),
        state is Gathering ==> (event matches CloseEvent::Gathered { attempts, total } ==> (
        next.0 matches CloseState::Ending { groups } && groups@.len() == touched(attempts@).len()
            && forall|i: int|
            0 <= i < groups@.len() ==> (#[trigger] groups@[i]).skill_id@ == touched(attempts@)[i]
                && groups@[i].outcomes@ == outcomes_of(attempts@, touched(attempts@)[i]))),
        state matches CloseState::Weighing { skill_id, outcomes, rest, rescheduled } ==> (
        event matches CloseEvent::Weighed { scaled, skill } ==> skill is Some && credits_of(
            outcomes@,
        ).len() > 0 ==> (next.0 matches CloseState::Stepping {
            skill_id: id,
            prev,
            quality: q,
            rest: r,
            rescheduled: n,
        } && id@ == skill_id@ && prev.ease == skill->0.ease && prev.interval_days
            == skill->0.interval_days && prev.reps == skill->0.reps && prev.lapses
            == skill->0.lapses && q == nearest_grade(scaled) && r@ == rest@ && n == rescheduled && (
        next.1 matches CloseAction::Step { terms } && terms == terms_of(prev, q)))),
        state matches CloseState::Stepping { skill_id, prev, quality: q, .. } ==> (
        event matches CloseEvent::Stepped { scaled, eased } ==> (
        next.1 matches CloseAction::Write { skill_id: id, review: r } && id == skill_id && r.schedule
            == next_schedule(prev, q, scaled, eased) && (r.lapsed <==> q < 3) && r.due_at
            == day_start_after(zone, now, r.schedule.interval_days))),
        state matches CloseState::Ending { groups } ==> (event matches CloseEvent::Ended { written }
            ==> written && groups@.len() > 0 ==> (next.1 matches CloseAction::Weigh {
            skill_id,
            outcomes,
        } && skill_id == groups@[0].skill_id && outcomes == groups@[0].outcomes)),
        state matches CloseState::Ending { groups } ==> (event matches CloseEvent::Ended { written }
            ==> !written || groups@.len() == 0 ==> next.1 == (CloseAction::Done { rescheduled: 0 })),
{
    if let CloseEvent::Gathered { attempts, total } = event {
        informative_attempts_are_the_moves(attempts@, total);
    }
}

} // verus!
