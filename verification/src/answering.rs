//! Answering an item, step by step.
//!
//! Each step hands out one action; whoever carries it out hands back what came of it.
//! The answer is recorded before anything else happens to it, it claims its slot before
//! it is graded, its grade is written before the posterior moves, and the posterior moves
//! only if the slot was won and that grade was the first and says something.

use crate::bkt::BktUpdate;
use crate::config::{maybe_string, maybe_text};
use crate::double::Double;
use crate::error::ApiError;
use crate::generation::grading_prompt;
use crate::grade::{grade, is_mark, Outcome, Score};
use crate::models::{Attempt, BktParams, GradedBy, Item, ItemKind, NewAttempt, SessionStatus, Skill};
use crate::reply::{is_mark_of, read_mark, reply_of, RubricMark};
use crate::service::{
    counted, counted_update, grading_of, is_next_step, is_opening, is_settled, is_unsettled, kept_score, next_step, open_answer,
    settled_result, unsettled_result, AnswerResult, AnswerStep, Verdict,
};
use crate::sittings::{check_answerable, is_open};
use crate::store::Grading;
use vstd::prelude::*;
use vstd::string::*;

verus! {

/// Where an answer stands.
#[derive(Debug)]
pub enum AnswerState {
    /// Waiting for the rows it is about.
    Opening { response: String, session_id: Option<String>, connected: bool },
    /// Waiting to be recorded.
    Recording { item: Item, skill: Skill, outcome: Outcome, in_session: bool, connected: bool },
    /// Waiting for its slot in the sitting.
    Claiming { item: Item, skill: Skill, outcome: Outcome, attempt: Attempt, connected: bool },
    /// Waiting for a model's mark.
    Marking { item: Item, skill: Skill, attempt: Attempt, slot_won: bool, rubric: String },
    /// Waiting for the arithmetic that follows a verdict by comparison.
    Weighing {
        skill: Skill,
        attempt: Attempt,
        slot_won: bool,
        correct: bool,
        graded_by: GradedBy,
        blanks: Vec<bool>,
    },
    /// Waiting for the arithmetic that follows a mark.
    WeighingMark {
        skill: Skill,
        attempt: Attempt,
        slot_won: bool,
        rubric: String,
        mark: RubricMark,
    },
    /// Waiting for its grade to be written.
    Grading { skill: Skill, attempt: Attempt, verdict: Verdict, update: BktUpdate },
    /// Waiting for the posterior to be written.
    Moving { result: AnswerResult },
    /// Nothing is left to do.
    Closed,
}

/// What came of an action.
#[derive(Debug)]
pub enum AnswerEvent {
    /// The rows were read: the state of the sitting (if the answer belongs to one), the
    /// item, and the skill of the item.
    Loaded { session: Option<SessionStatus>, item: Option<Item>, skill: Option<Skill> },
    Recorded { attempt: Attempt },
    Claimed { won: bool },
    /// What the model replied, with the mastery that is aimed at.
    Replied { raw: String, target_mastery: Double },
    /// What the posterior becomes, and the credit as a share.
    Computed { update: BktUpdate, share: Double },
    Graded { written: bool },
    MasteryWritten,
}

/// What is to be done next.
#[derive(Debug)]
pub enum AnswerAction {
    Record { attempt: NewAttempt },
    /// Claim the slot of an item in the sitting that the attempt belongs to.
    Claim { item_id: String, attempt_id: String },
    /// Ask the grading model.
    Ask { prompt: String },
    /// Do the Bayes step for a verdict, and turn the credit into a share.
    Compute {
        mastery: Double,
        params: BktParams,
        kind: ItemKind,
        choice_count: usize,
        correct: bool,
        score: Score,
    },
    WriteGrade { attempt_id: String, grading: Grading },
    WriteMastery { skill_id: String, mastery: Double },
    Done { result: AnswerResult },
    Fail { error: ApiError },
}

/// How far along a state is.
pub open spec fn stage(state: AnswerState) -> int {
    match state {
        AnswerState::Opening { .. } => 0,
        AnswerState::Recording { .. } => 1,
        AnswerState::Claiming { .. } => 2,
        AnswerState::Marking { .. } => 3,
        AnswerState::Weighing { .. } => 4,
        AnswerState::WeighingMark { .. } => 4,
        AnswerState::Grading { .. } => 5,
        AnswerState::Moving { .. } => 6,
        AnswerState::Closed => 7,
    }
}

/// What follows once the rows are read.
pub open spec fn opens_with(
    next: (AnswerState, AnswerAction),
    response: Seq<char>,
    session_id: Option<Seq<char>>,
    connected: bool,
    session: Option<SessionStatus>,
    item: Option<Item>,
    skill: Option<Skill>,
) -> bool {
    if session_id is Some && session is Some && !is_open(session->0) {
        next.0 is Closed && (next.1 matches AnswerAction::Fail { error: ApiError::Conflict(why) }
            && why@ == "this session is already closed"@)
    } else {
        match (item, skill) {
            (None, _) => next.0 is Closed && (next.1 matches AnswerAction::Fail {
                error: ApiError::NotFound(what),
            } && what@ == "item"@),
            (Some(_), None) => next.0 is Closed && (next.1 matches AnswerAction::Fail {
                error: ApiError::Internal(why),
            } && why@ == "this item's skill is missing"@),
            (Some(i), Some(s)) => {
                &&& next.1 matches AnswerAction::Record { attempt } && is_opening(
                    attempt,
                    i,
                    s,
                    response,
                    session_id,
                )
                &&& next.0 matches AnswerState::Recording {
                    item: it,
                    skill: sk,
                    outcome,
                    in_session,
                    connected: c,
                } && it == i && sk == s && is_mark(outcome, i.kind, i.answer, response)
                    && in_session == (session_id is Some) && c == connected
            },
        }
    }
}

/// What follows once it is known whether the answer holds its slot.
pub open spec fn proceeds_with(
    next: (AnswerState, AnswerAction),
    item: Item,
    skill: Skill,
    outcome: Outcome,
    attempt: Attempt,
    slot_won: bool,
    connected: bool,
) -> bool {
    exists|step: AnswerStep| #[trigger]
        is_next_step(step, outcome, connected) && follows_step(
            next,
            item,
            skill,
            attempt,
            slot_won,
            step,
        )
}

/// What follows a step of the pipeline.
pub open spec fn follows_step(
    next: (AnswerState, AnswerAction),
    item: Item,
    skill: Skill,
    attempt: Attempt,
    slot_won: bool,
    step: AnswerStep,
) -> bool {
    match step {
        AnswerStep::Stop { rubric, note } => next.0 is Closed && (
        next.1 matches AnswerAction::Done { result } && is_unsettled(
            result,
            attempt,
            rubric,
            note@,
        )),
        AnswerStep::Settle { correct, score, graded_by, blanks } => {
            &&& next.0 == (AnswerState::Weighing {
                skill,
                attempt,
                slot_won,
                correct,
                graded_by,
                blanks,
            })
            &&& next.1 == (AnswerAction::Compute {
                mastery: skill.mastery,
                params: skill.params,
                kind: item.kind,
                choice_count: item.choices.len(),
                correct,
                score,
            })
        },
        AnswerStep::Mark { rubric } => {
            &&& next.0 == (AnswerState::Marking { item, skill, attempt, slot_won, rubric })
            &&& next.1 matches AnswerAction::Ask { prompt } && prompt@ == "Question:\n"@
                + item.prompt@ + "\n\nRubric:\n"@ + rubric@ + "\n\nAnswer:\n"@ + attempt.response@
        },
    }
}

/// What follows a model's reply.
pub open spec fn marked_with(
    next: (AnswerState, AnswerAction),
    item: Item,
    skill: Skill,
    attempt: Attempt,
    slot_won: bool,
    rubric: String,
    raw: Seq<char>,
    target_mastery: Double,
) -> bool {
    match reply_of(raw) {
        None => next.0 is Closed && (next.1 matches AnswerAction::Fail {
            error: ApiError::Upstream(why),
        } && why@ == "the grading model did not return JSON"@),
        Some(fields) => {
            &&& next.0 matches AnswerState::WeighingMark {
                skill: s,
                attempt: a,
                slot_won: w,
                rubric: r,
                mark,
            } && s == skill && a == attempt && w == slot_won && r == rubric && is_mark_of(
                mark,
                fields,
                target_mastery,
            ) && next.1 == (AnswerAction::Compute {
                mastery: skill.mastery,
                params: skill.params,
                kind: item.kind,
                choice_count: item.choices.len(),
                correct: mark.correct,
                score: Score {
                    hits: 0,
                    of: 1,
                },
            })
        },
    }
}

/// Whether a grading is what a verdict and an update amount to.
pub open spec fn is_grading(grading: Grading, verdict: Verdict, update: BktUpdate) -> bool {
    &&& grading.correct == verdict.correct
    &&& grading.score == kept_score(verdict)
    &&& grading.graded_by == verdict.graded_by
    &&& maybe_string(grading.feedback) == maybe_string(verdict.feedback)
    &&& grading.mastery_after == update.after
    &&& grading.informative == update.informative
}

/// What follows once the posterior is computed.
pub open spec fn grades_with(
    next: (AnswerState, AnswerAction),
    skill: Skill,
    attempt: Attempt,
    verdict: Verdict,
    update: BktUpdate,
) -> bool {
    &&& next.0 == (AnswerState::Grading { skill, attempt, verdict, update })
    &&& next.1 matches AnswerAction::WriteGrade { attempt_id, grading } && attempt_id@
        == attempt.id@ && is_grading(grading, verdict, update)
}

/// What follows once the grade was written, or was not because there was one already.
pub open spec fn settles_with(
    next: (AnswerState, AnswerAction),
    skill: Skill,
    attempt: Attempt,
    verdict: Verdict,
    update: BktUpdate,
    written: bool,
) -> bool {
    if written && update.informative {
        &&& next.0 matches AnswerState::Moving { result } && is_settled(
            result,
            attempt,
            verdict,
            update,
            true,
        )
        &&& next.1 matches AnswerAction::WriteMastery { skill_id, mastery } && skill_id@
            == skill.id@ && mastery == update.after
    } else {
        &&& next.0 is Closed
        &&& next.1 matches AnswerAction::Done { result } && is_settled(
            result,
            attempt,
            verdict,
            update,
            written,
        )
    }
}

/// Whether a step of an answer is the one that its state and what came of the last
/// action call for. An event that the state does not wait for ends it.
pub open spec fn is_answer_step(
    state: AnswerState,
    event: AnswerEvent,
    next: (AnswerState, AnswerAction),
) -> bool {
    match (state, event) {
        (
            AnswerState::Opening { response, session_id, connected },
            AnswerEvent::Loaded { session, item, skill },
        ) => opens_with(
            next,
            response@,
            maybe_string(session_id),
            connected,
            session,
            item,
            skill,
        ),
        (
            AnswerState::Recording { item, skill, outcome, in_session, connected },
            AnswerEvent::Recorded { attempt },
        ) => if in_session {
            &&& next.0 == (AnswerState::Claiming { item, skill, outcome, attempt, connected })
            &&& next.1 matches AnswerAction::Claim { item_id, attempt_id } && item_id@ == item.id@
                && attempt_id@ == attempt.id@
        } else {
            proceeds_with(next, item, skill, outcome, attempt, true, connected)
        },
        (
            AnswerState::Claiming { item, skill, outcome, attempt, connected },
            AnswerEvent::Claimed { won },
        ) => proceeds_with(next, item, skill, outcome, attempt, won, connected),
        (
            AnswerState::Marking { item, skill, attempt, slot_won, rubric },
            AnswerEvent::Replied { raw, target_mastery },
        ) => marked_with(next, item, skill, attempt, slot_won, rubric, raw@, target_mastery),
        (
            AnswerState::Weighing { skill, attempt, slot_won, correct, graded_by, blanks },
            AnswerEvent::Computed { update, share },
        ) => grades_with(
            next,
            skill,
            attempt,
            Verdict { correct, score: share, graded_by, blanks, rubric: None, feedback: None },
            counted(update, slot_won, attempt.mastery_before),
        ),
        (
            AnswerState::WeighingMark { skill, attempt, slot_won, rubric, mark },
            AnswerEvent::Computed { update, .. },
        ) => next.0 matches AnswerState::Grading { verdict, .. } && verdict.blanks@.len() == 0
            && verdict.correct == mark.correct && verdict.score == mark.score && verdict.graded_by
            == GradedBy::Rubric && verdict.rubric == Some(rubric) && verdict.feedback
            == mark.feedback && grades_with(
            next,
            skill,
            attempt,
            verdict,
            counted(update, slot_won, attempt.mastery_before),
        ),
        (
            AnswerState::Grading { skill, attempt, verdict, update },
            AnswerEvent::Graded { written },
        ) => settles_with(next, skill, attempt, verdict, update, written),
        (AnswerState::Moving { result }, AnswerEvent::MasteryWritten) => next.0 is Closed
            && next.1 == (AnswerAction::Done { result }),
        _ => next.0 is Closed && (next.1 matches AnswerAction::Fail {
            error: ApiError::Internal(why),
        } && why@ == "an answer was handed what it did not ask for"@),
    }
}

/// The start of an answer. Its rows are to be read first.
pub fn begin_answer(response: &str, session_id: Option<&str>, connected: bool) -> (state: AnswerState)
    ensures
        state matches AnswerState::Opening { response: r, session_id: s, connected: c } && r@
            == response@ && maybe_string(s) == maybe_text(session_id) && c == connected,
{
    AnswerState::Opening {
        response: response.to_owned(),
        session_id: crate::store::owned(session_id),
        connected,
    }
}

fn opened(
    response: String,
    session_id: Option<String>,
    connected: bool,
    session: Option<SessionStatus>,
    item: Option<Item>,
    skill: Option<Skill>,
) -> (next: (AnswerState, AnswerAction))
    ensures
        opens_with(
            next,
            response@,
            maybe_string(session_id),
            connected,
            session,
            item,
            skill,
        ),
{
    if session_id.is_some() {
        if let Err(error) = check_answerable(session) {
            return (AnswerState::Closed, AnswerAction::Fail { error });
        }
    }
    let in_session: bool = session_id.is_some();
    let session_ref: Option<&str> = match &session_id {
        Some(id) => Some(id.as_str()),
        None => None,
    };
    match open_answer(item.as_ref(), skill.as_ref(), response.as_str(), session_ref) {
        Err(error) => (AnswerState::Closed, AnswerAction::Fail { error }),
        Ok(attempt) => match (item, skill) {
            (Some(item), Some(skill)) => {
                let outcome: Outcome = grade(item.kind, &item.answer, response.as_str());
                (
                    AnswerState::Recording { item, skill, outcome, in_session, connected },
                    AnswerAction::Record { attempt },
                )
            },
            _ => (AnswerState::Closed, AnswerAction::Fail { error: ApiError::not_found("item") }),
        },
    }
}

fn proceeded(
    item: Item,
    skill: Skill,
    outcome: Outcome,
    attempt: Attempt,
    slot_won: bool,
    connected: bool,
) -> (next: (AnswerState, AnswerAction))
    ensures
        proceeds_with(next, item, skill, outcome, attempt, slot_won, connected),
{
    let step: AnswerStep = next_step(outcome, connected);
    let ghost taken = step;
    let next: (AnswerState, AnswerAction) = match step {
        AnswerStep::Stop { rubric, note } => (
            AnswerState::Closed,
            AnswerAction::Done { result: unsettled_result(attempt, rubric, note) },
        ),
        AnswerStep::Settle { correct, score, graded_by, blanks } => {
            let action: AnswerAction = AnswerAction::Compute {
                mastery: skill.mastery,
                params: skill.params,
                kind: item.kind,
                choice_count: item.choices.len(),
                correct,
                score,
            };
            (
                AnswerState::Weighing { skill, attempt, slot_won, correct, graded_by, blanks },
                action,
            )
        },
        AnswerStep::Mark { rubric } => {
            let prompt: String = grading_prompt(
                item.prompt.as_str(),
                rubric.as_str(),
                attempt.response.as_str(),
            );
            (
                AnswerState::Marking { item, skill, attempt, slot_won, rubric },
                AnswerAction::Ask { prompt },
            )
        },
    };
    assert(is_next_step(taken, outcome, connected) && follows_step(
        next,
        item,
        skill,
        attempt,
        slot_won,
        taken,
    ));
    next
}

fn marked(
    item: Item,
    skill: Skill,
    attempt: Attempt,
    slot_won: bool,
    rubric: String,
    raw: &str,
    target_mastery: Double,
) -> (next: (AnswerState, AnswerAction))
    ensures
        marked_with(next, item, skill, attempt, slot_won, rubric, raw@, target_mastery),
{
    match read_mark(raw, target_mastery) {
        Err(error) => (AnswerState::Closed, AnswerAction::Fail { error }),
        Ok(mark) => {
            let action: AnswerAction = AnswerAction::Compute {
                mastery: skill.mastery,
                params: skill.params,
                kind: item.kind,
                choice_count: item.choices.len(),
                correct: mark.correct,
                score: Score { hits: 0, of: 1 },
            };
            (AnswerState::WeighingMark { skill, attempt, slot_won, rubric, mark }, action)
        },
    }
}

fn graded(skill: Skill, attempt: Attempt, verdict: Verdict, update: BktUpdate) -> (next: (
    AnswerState,
    AnswerAction,
))
    ensures
        grades_with(next, skill, attempt, verdict, update),
{
    let grading: Grading = grading_of(&verdict, &update);
    let attempt_id: String = attempt.id.clone();
    (
        AnswerState::Grading { skill, attempt, verdict, update },
        AnswerAction::WriteGrade { attempt_id, grading },
    )
}

fn settled(skill: Skill, attempt: Attempt, verdict: Verdict, update: BktUpdate, written: bool) -> (next:
    (AnswerState, AnswerAction))
    ensures
        settles_with(next, skill, attempt, verdict, update, written),
{
    let moves: bool = written && update.informative;
    let result: AnswerResult = settled_result(attempt, verdict, &update, written);
    if moves {
        (
            AnswerState::Moving { result },
            AnswerAction::WriteMastery { skill_id: skill.id, mastery: update.after },
        )
    } else {
        (AnswerState::Closed, AnswerAction::Done { result })
    }
}

/// The next step of an answer: what it becomes, and what is to be done.
pub fn answer_step(state: AnswerState, event: AnswerEvent) -> (next: (AnswerState, AnswerAction))
    ensures
        is_answer_step(state, event, next),
        stage(state) < stage(next.0) || next.0 is Closed,
{
    match (state, event) {
        (
            AnswerState::Opening { response, session_id, connected },
            AnswerEvent::Loaded { session, item, skill },
        ) => opened(response, session_id, connected, session, item, skill),
        (
            AnswerState::Recording { item, skill, outcome, in_session, connected },
            AnswerEvent::Recorded { attempt },
        ) => {
            if in_session {
                let action: AnswerAction = AnswerAction::Claim {
                    item_id: item.id.clone(),
                    attempt_id: attempt.id.clone(),
                };
                (AnswerState::Claiming { item, skill, outcome, attempt, connected }, action)
            } else {
                proceeded(item, skill, outcome, attempt, true, connected)
            }
        },
        (
            AnswerState::Claiming { item, skill, outcome, attempt, connected },
            AnswerEvent::Claimed { won },
        ) => proceeded(item, skill, outcome, attempt, won, connected),
        (
            AnswerState::Marking { item, skill, attempt, slot_won, rubric },
            AnswerEvent::Replied { raw, target_mastery },
        ) => marked(item, skill, attempt, slot_won, rubric, raw.as_str(), target_mastery),
        (
            AnswerState::Weighing { skill, attempt, slot_won, correct, graded_by, blanks },
            AnswerEvent::Computed { update, share },
        ) => {
            let kept: BktUpdate = counted_update(update, slot_won, attempt.mastery_before);
            graded(
                skill,
                attempt,
                Verdict { correct, score: share, graded_by, blanks, rubric: None, feedback: None },
                kept,
            )
        },
        (
            AnswerState::WeighingMark { skill, attempt, slot_won, rubric, mark },
            AnswerEvent::Computed { update, .. },
        ) => {
            let kept: BktUpdate = counted_update(update, slot_won, attempt.mastery_before);
            graded(
                skill,
                attempt,
                Verdict {
                    correct: mark.correct,
                    score: mark.score,
                    graded_by: GradedBy::Rubric,
                    blanks: Vec::new(),
                    rubric: Some(rubric),
                    feedback: mark.feedback,
                },
                kept,
            )
        },
        (
            AnswerState::Grading { skill, attempt, verdict, update },
            AnswerEvent::Graded { written },
        ) => settled(skill, attempt, verdict, update, written),
        (AnswerState::Moving { result }, AnswerEvent::MasteryWritten) => (
            AnswerState::Closed,
            AnswerAction::Done { result },
        ),
        _ => (
            AnswerState::Closed,
            AnswerAction::Fail {
                error: ApiError::Internal(
                    "an answer was handed what it did not ask for".to_owned(),
                ),
            },
        ),
    }
}

/// The posterior is written only after a grade was written that was the first and says
/// something, and it is written to what that grade led to.
pub proof fn only_a_written_informative_grade_moves_the_posterior(
    state: AnswerState,
    event: AnswerEvent,
    next: (AnswerState, AnswerAction),
)
    requires
        is_answer_step(state, event, next),
        next.1 is WriteMastery,
    ensures
        event matches AnswerEvent::Graded { written } && written,
        state matches AnswerState::Grading { update, skill, .. } && update.informative && (
        next.1 matches AnswerAction::WriteMastery { skill_id, mastery } && mastery == update.after
            && skill_id@ == skill.id@),
{
}

/// Whether an answer goes on without its slot in the sitting.
pub open spec fn lost(state: AnswerState) -> bool {
    match state {
        AnswerState::Marking { slot_won, .. } => !slot_won,
        AnswerState::Weighing { slot_won, .. } => !slot_won,
        AnswerState::WeighingMark { slot_won, .. } => !slot_won,
        AnswerState::Grading { attempt, update, .. } => !update.informative && update.after
            == attempt.mastery_before,
        AnswerState::Closed => true,
        _ => false,
    }
}

/// An answer that does not win its slot moves nothing, from then to its end: no step
/// writes a posterior, the grade that is written claims no move, and the result reports
/// none. It is graded like any other.
pub proof fn a_resubmitted_answer_moves_nothing(
    state: AnswerState,
    event: AnswerEvent,
    next: (AnswerState, AnswerAction),
)
    requires
        is_answer_step(state, event, next),
        lost(state) || (state is Claiming && event == (AnswerEvent::Claimed { won: false })),
    ensures
        lost(next.0),
        !(next.1 is WriteMastery),
        next.1 matches AnswerAction::WriteGrade { grading, .. } ==> !grading.informative && (
        next.0 matches AnswerState::Grading { attempt, .. } && grading.mastery_after
            == attempt.mastery_before),
        next.1 matches AnswerAction::Done { result } ==> !result.informative
            && result.mastery_after == result.mastery_before,
{
}

/// Whether the slot is won has no part in the grade: an answer that was recorded goes the
/// same way with it and without it, but for what it counts for.
pub proof fn the_slot_has_no_part_in_the_grade(
    item: Item,
    skill: Skill,
    outcome: Outcome,
    attempt: Attempt,
    connected: bool,
    won: (AnswerState, AnswerAction),
    missed: (AnswerState, AnswerAction),
)
    requires
        is_answer_step(
            AnswerState::Claiming { item, skill, outcome, attempt, connected },
            AnswerEvent::Claimed { won: true },
            won,
        ),
        is_answer_step(
            AnswerState::Claiming { item, skill, outcome, attempt, connected },
            AnswerEvent::Claimed { won: false },
            missed,
        ),
    ensures
        outcome is Decided ==> won.1 is Compute && won.1 == missed.1,
        outcome is NeedsRubric && connected ==> won.1 is Ask && missed.1 is Ask,
        outcome is Ungradeable ==> won.1 is Done && missed.1 is Done,
{
}

/// An answer that cannot be graded is never held against the learner: whether it holds a
/// slot or not, it ends without a verdict, with the reason, and with nothing moved.
pub proof fn an_ungradeable_answer_says_why(
    item: Item,
    skill: Skill,
    outcome: Outcome,
    attempt: Attempt,
    connected: bool,
    event: AnswerEvent,
    next: (AnswerState, AnswerAction),
)
    requires
        outcome is Ungradeable,
        is_answer_step(
            AnswerState::Recording { item, skill, outcome, in_session: false, connected },
            event,
            next,
        ) && event == (AnswerEvent::Recorded { attempt }) || is_answer_step(
            AnswerState::Claiming { item, skill, outcome, attempt, connected },
            event,
            next,
        ) && event is Claimed,
    ensures
        next.0 is Closed,
        next.1 matches AnswerAction::Done { result } && result.attempt == attempt
            && result.correct is None && result.score is None && !result.informative
            && result.mastery_after == result.mastery_before && maybe_string(result.note) == Some(
            outcome->reason@,
        ),
{
}

/// The first thing that happens to an answer is that it is recorded, ungraded.
pub proof fn an_answer_is_recorded_first(
    response: String,
    session_id: Option<String>,
    connected: bool,
    event: AnswerEvent,
    next: (AnswerState, AnswerAction),
)
    requires
        is_answer_step(AnswerState::Opening { response, session_id, connected }, event, next),
    ensures
        next.1 matches AnswerAction::Record { attempt } ==> attempt.correct is None
            && !attempt.informative && attempt.mastery_after == attempt.mastery_before,
        next.1 is Record || next.1 is Fail,
{
}

/// An answer opens on its rows: refused in a sitting that is closed and without its item or its
/// skill, and otherwise recorded as it was given, under its item and skill, with its mark by
/// comparison kept for later.
pub proof fn an_answer_opens_on_its_rows(
    response: String,
    session_id: Option<String>,
    connected: bool,
    session: Option<SessionStatus>,
    item: Option<Item>,
    skill: Option<Skill>,
    next: (AnswerState, AnswerAction),
)
    requires
        is_answer_step(
            AnswerState::Opening { response, session_id, connected },
            AnswerEvent::Loaded { session, item, skill },
            next,
        ),
    ensures
        ({
            let shut = session_id is Some && (session == Some(SessionStatus::Finished) || session
                == Some(SessionStatus::Abandoned));
            &&& shut ==> next.0 is Closed && (next.1 matches AnswerAction::Fail { error } && (
            error matches ApiError::Conflict(why) && why@ == "this session is already closed"@))
            &&& !shut && item is None ==> next.0 is Closed && (
            next.1 matches AnswerAction::Fail { error } && (error matches ApiError::NotFound(what)
                && what@ == "item"@))
            &&& !shut && item is Some && skill is None ==> next.0 is Closed && (
            next.1 matches AnswerAction::Fail { error } && (error matches ApiError::Internal(why)
                && why@ == "this item's skill is missing"@))
            &&& !shut && item is Some && skill is Some ==> (
            next.1 matches AnswerAction::Record { attempt } && attempt.item_id@ == item->0.id@
                && attempt.skill_id@ == item->0.skill_id@ && attempt.response@ == response@
                && attempt.correct is None && attempt.mastery_before == skill->0.mastery
                && attempt.mastery_after == skill->0.mastery && !attempt.informative && (
            attempt.session_id is Some <==> session_id is Some) && (session_id is Some
                ==> attempt.session_id->0@ == session_id->0@))
            &&& !shut && item is Some && skill is Some ==> (next.0 matches AnswerState::Recording {
                item: i,
                skill: s,
                outcome,
                in_session,
                connected: c,
            } && i == item->0 && s == skill->0 && is_mark(outcome, i.kind, i.answer, response@)
                && in_session == (session_id is Some) && c == connected)
        }),
{
}

/// A mark by comparison is weighed for the skill and the item that were answered, whether the
/// slot was won or not.
pub proof fn a_verdict_is_weighed_for_its_skill(
    item: Item,
    skill: Skill,
    outcome: Outcome,
    attempt: Attempt,
    connected: bool,
    won: bool,
    next: (AnswerState, AnswerAction),
)
    requires
        outcome is Decided,
        is_answer_step(
            AnswerState::Claiming { item, skill, outcome, attempt, connected },
            AnswerEvent::Claimed { won },
            next,
        ),
    ensures
        next.1 matches AnswerAction::Compute { mastery, params, kind, choice_count, correct, score }
            && mastery == skill.mastery && params == skill.params && kind == item.kind
            && choice_count == item.choices@.len() && correct == outcome->correct && score
            == outcome->score,
        next.0 matches AnswerState::Weighing {
            skill: s,
            attempt: a,
            slot_won,
            correct,
            graded_by,
            blanks,
        } && s == skill && a == attempt && slot_won == won && correct == outcome->correct
            && graded_by == outcome->graded_by && blanks == outcome->blanks,
{
}

/// A free response is put to the model as question, rubric and answer, and its mark is weighed
/// as the reply says: correct from 0.6 on, or from a lower target.
pub proof fn a_free_response_is_marked_and_weighed(
    item: Item,
    skill: Skill,
    attempt: Attempt,
    slot_won: bool,
    rubric: String,
    raw: String,
    target_mastery: Double,
    next: (AnswerState, AnswerAction),
)
    requires
        is_answer_step(
            AnswerState::Marking { item, skill, attempt, slot_won, rubric },
            AnswerEvent::Replied { raw, target_mastery },
            next,
        ),
    ensures
        reply_of(raw@) is None ==> (next.1 matches AnswerAction::Fail { error } && error is Upstream),
        reply_of(raw@) is Some ==> (next.1 matches AnswerAction::Compute {
            mastery,
            params,
            kind,
            choice_count,
            correct,
            ..
        } && mastery == skill.mastery && params == skill.params && kind == item.kind && choice_count
            == item.choices@.len() && (next.0 matches AnswerState::WeighingMark {
            skill: s,
            attempt: a,
            slot_won: w,
            rubric: r,
            mark,
        } && s == skill && a == attempt && w == slot_won && r == rubric && mark.correct == correct)),
{
}

/// A weighed verdict is written to its attempt as it stands, with the posterior it leads to
/// where the slot was won and the old one where it was not.
pub proof fn a_weighed_verdict_is_written(
    skill: Skill,
    attempt: Attempt,
    slot_won: bool,
    correct: bool,
    graded_by: GradedBy,
    blanks: Vec<bool>,
    update: BktUpdate,
    share: Double,
    next: (AnswerState, AnswerAction),
)
    requires
        is_answer_step(
            AnswerState::Weighing { skill, attempt, slot_won, correct, graded_by, blanks },
            AnswerEvent::Computed { update, share },
            next,
        ),
    ensures
        next.1 matches AnswerAction::WriteGrade { attempt_id, grading } && attempt_id@ == attempt.id@
            && grading.correct == correct && grading.graded_by == graded_by && grading.feedback is None
            && (slot_won ==> grading.mastery_after == update.after && grading.informative
            == update.informative) && (!slot_won ==> grading.mastery_after == attempt.mastery_before
            && !grading.informative) && (blanks@.len() > 0 || graded_by == GradedBy::Rubric
            ==> grading.score == Some(share)) && (blanks@.len() == 0 && graded_by
            == GradedBy::Deterministic ==> grading.score is None),
        next.0 matches AnswerState::Grading { skill: s, attempt: a, verdict, update: u } && s == skill
            && a == attempt && verdict.correct == correct && verdict.score == share
            && verdict.blanks == blanks && (slot_won ==> u == update),
{
}

/// A weighed mark is written like any verdict, with its score and what the model said.
pub proof fn a_weighed_mark_is_written(
    skill: Skill,
    attempt: Attempt,
    slot_won: bool,
    rubric: String,
    mark: RubricMark,
    update: BktUpdate,
    share: Double,
    next: (AnswerState, AnswerAction),
)
    requires
        is_answer_step(
            AnswerState::WeighingMark { skill, attempt, slot_won, rubric, mark },
            AnswerEvent::Computed { update, share },
            next,
        ),
    ensures
        next.1 matches AnswerAction::WriteGrade { attempt_id, grading } && attempt_id@ == attempt.id@
            && grading.correct == mark.correct && grading.score == Some(mark.score)
            && grading.graded_by == GradedBy::Rubric && (grading.feedback is Some
            <==> mark.feedback is Some) && (slot_won ==> grading.mastery_after == update.after
            && grading.informative == update.informative) && (!slot_won ==> grading.mastery_after
            == attempt.mastery_before && !grading.informative),
        next.0 matches AnswerState::Grading { verdict, .. } && verdict.rubric == Some(rubric)
            && verdict.correct == mark.correct && verdict.score == mark.score,
{
}

/// Once the grade is written and says something, the posterior of the skill follows it, and in
/// every other case the answer ends there. The learner is told the verdict either way.
pub proof fn a_written_grade_moves_its_skill(
    skill: Skill,
    attempt: Attempt,
    verdict: Verdict,
    update: BktUpdate,
    written: bool,
    next: (AnswerState, AnswerAction),
)
    requires
        is_answer_step(
            AnswerState::Grading { skill, attempt, verdict, update },
            AnswerEvent::Graded { written },
            next,
        ),
    ensures
        written && update.informative ==> (next.1 matches AnswerAction::WriteMastery {
            skill_id,
            mastery,
        } && skill_id@ == skill.id@ && mastery == update.after),
        written && update.informative ==> (next.0 matches AnswerState::Moving { result }
            && result.correct == Some(verdict.correct) && result.mastery_after == update.after
            && result.informative),
        !(written && update.informative) ==> (next.1 matches AnswerAction::Done { result }
            && result.correct == Some(verdict.correct) && result.score == Some(verdict.score)
            && !result.informative),
{
}

/// A recorded answer claims the slot of its item where it belongs to a sitting; outside one it
/// goes on as if it had won its slot.
pub proof fn a_recorded_answer_claims_its_slot(
    item: Item,
    skill: Skill,
    outcome: Outcome,
    in_session: bool,
    connected: bool,
    attempt: Attempt,
    next: (AnswerState, AnswerAction),
)
    requires
        is_answer_step(
            AnswerState::Recording { item, skill, outcome, in_session, connected },
            AnswerEvent::Recorded { attempt },
            next,
        ),
    ensures
        in_session ==> (next.1 matches AnswerAction::Claim { item_id, attempt_id } && item_id@
            == item.id@ && attempt_id@ == attempt.id@),
        in_session ==> (next.0 matches AnswerState::Claiming {
            item: i,
            skill: s,
            outcome: o,
            attempt: a,
            connected: c,
        } && i == item && s == skill && o == outcome && a == attempt && c == connected),
        !in_session ==> is_answer_step(
            AnswerState::Claiming { item, skill, outcome, attempt, connected },
            AnswerEvent::Claimed { won: true },
            next,
        ),
{
}

/// A free response that a model can mark is put to it as the question, the rubric and the
/// answer, and nothing else; without a model it waits, with its rubric shown.
pub proof fn a_free_response_is_put_to_the_model(
    item: Item,
    skill: Skill,
    outcome: Outcome,
    attempt: Attempt,
    connected: bool,
    won: bool,
    next: (AnswerState, AnswerAction),
)
    requires
        outcome is NeedsRubric,
        is_answer_step(
            AnswerState::Claiming { item, skill, outcome, attempt, connected },
            AnswerEvent::Claimed { won },
            next,
        ),
    ensures
        connected ==> (next.1 matches AnswerAction::Ask { prompt } && prompt@ == "Question:\n"@
            + item.prompt@ + "\n\nRubric:\n"@ + outcome->NeedsRubric_rubric@ + "\n\nAnswer:\n"@
            + attempt.response@),
        connected ==> (next.0 matches AnswerState::Marking { slot_won, rubric, .. } && slot_won == won
            && rubric == outcome->NeedsRubric_rubric),
        !connected ==> (next.1 matches AnswerAction::Done { result } && result.correct is None
            && !result.informative && result.rubric is Some && result.rubric->0@
            == outcome->NeedsRubric_rubric@),
{
}

} // verus!
