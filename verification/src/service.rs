//! Answering an item and logging practice, the same way for every front end.
//!
//! An answer goes through fixed steps. It is recorded first, ungraded. If it belongs to a
//! sitting it claims its slot there. It is graded either way, but an answer that does not
//! hold its slot moves nothing; only an informative grade that was written, of an answer
//! that counts, moves the posterior. Whoever runs the steps does the reading and writing in between and
//! hands each result to the next one.

use crate::bkt::BktUpdate;
use crate::config::{maybe_string, maybe_text};
use crate::double::{Double, ONE, ZERO};
use crate::error::ApiError;
use crate::grade::{Outcome, Score};
use crate::host::{no_host_message, no_host_text, NO_HOST};
use crate::models::{Attempt, GradedBy, Item, NewAttempt, Skill};
use crate::store::{copied, owned, Grading};
use vstd::prelude::*;
use vstd::string::*;

verus! {

/// What is said of an answer that was recorded without moving anything.
pub const UNMOVED_NOTE: &'static str = "this answer was recorded but did not move your mastery estimate";

/// What practice outside the app is called where nothing else is said of it.
pub const PRACTICE_NOTE: &'static str = "practised outside the app";

// ── Answering an item ─────────────────────────────────────────────────────────

/// What grading one answer did.
#[derive(Clone, Debug)]
pub struct AnswerResult {
    pub attempt: Attempt,
    pub correct: Option<bool>,
    pub score: Option<Double>,
    pub graded_by: Option<GradedBy>,
    /// Per-blank results for a cloze item; empty otherwise.
    pub blanks: Vec<bool>,
    /// The rubric a free-response answer is marked against, shown with the mark.
    pub rubric: Option<String>,
    pub feedback: Option<String>,
    pub mastery_before: Double,
    pub mastery_after: Double,
    /// Whether the posterior moved.
    pub informative: bool,
    pub note: Option<String>,
}

/// A verdict on an answer, however it was reached.
#[derive(Clone, Debug)]
pub struct Verdict {
    pub correct: bool,
    /// In `[0,1]`.
    pub score: Double,
    pub graded_by: GradedBy,
    pub blanks: Vec<bool>,
    pub rubric: Option<String>,
    pub feedback: Option<String>,
}

/// What comes next for an answer that was recorded.
#[derive(Clone, Debug)]
pub enum AnswerStep {
    /// The answer stays ungraded, and the learner is told why.
    Stop { rubric: Option<String>, note: String },
    /// The verdict is in, by comparison alone.
    Settle { correct: bool, score: Score, graded_by: GradedBy, blanks: Vec<bool> },
    /// The answer goes to a model, with the rubric it is to be marked against.
    Mark { rubric: String },
}

/// Whether an attempt is the one with which an answer is first recorded: under its item
/// and skill, ungraded, with the posterior where it is.
pub open spec fn is_opening(
    attempt: NewAttempt,
    item: Item,
    skill: Skill,
    response: Seq<char>,
    session_id: Option<Seq<char>>,
) -> bool {
    &&& attempt.skill_id@ == item.skill_id@
    &&& attempt.item_id@ == item.id@
    &&& maybe_string(attempt.session_id) == session_id
    &&& attempt.response@ == response
    &&& attempt.correct is None
    &&& attempt.score is None
    &&& attempt.graded_by is None
    &&& attempt.feedback is None
    &&& attempt.latency_ms is None
    &&& attempt.mastery_before == skill.mastery
    &&& attempt.mastery_after == skill.mastery
    &&& !attempt.informative
}

/// The attempt with which an answer is first recorded. An answer to an item that does
/// not exist, or whose skill is missing, is not recorded.
pub fn open_answer(
    item: Option<&Item>,
    skill: Option<&Skill>,
    response: &str,
    session_id: Option<&str>,
) -> (opening: Result<NewAttempt, ApiError>)
    ensures
        match (item, skill) {
            (None, _) => opening matches Err(ApiError::NotFound(what)) && what@ == "item"@,
            (Some(_), None) => opening matches Err(ApiError::Internal(why)) && why@
                == "this item's skill is missing"@,
            (Some(i), Some(s)) => opening matches Ok(attempt) && is_opening(
                attempt,
                *i,
                *s,
                response@,
                maybe_text(session_id),
            ),
        },
{
    let item: &Item = match item {
        Some(item) => item,
        None => {
            return Err(ApiError::not_found("item"));
        },
    };
    let skill: &Skill = match skill {
        Some(skill) => skill,
        None => {
            return Err(ApiError::Internal("this item's skill is missing".to_owned()));
        },
    };
    Ok(
        NewAttempt {
            skill_id: item.skill_id.clone(),
            item_id: item.id.clone(),
            session_id: owned(session_id),
            response: response.to_owned(),
            correct: None,
            score: None,
            graded_by: None,
            feedback: None,
            latency_ms: None,
            mastery_before: skill.mastery,
            mastery_after: skill.mastery,
            informative: false,
        },
    )
}

/// Whether a step is the one that follows an outcome.
pub open spec fn is_next_step(step: AnswerStep, outcome: Outcome, connected: bool) -> bool {
    match outcome {
        Outcome::Decided { correct, score, graded_by, blanks } => step == (AnswerStep::Settle {
            correct,
            score,
            graded_by,
            blanks,
        }),
        Outcome::NeedsRubric { rubric } => if connected {
            step == (AnswerStep::Mark { rubric })
        } else {
            step matches AnswerStep::Stop { rubric: shown, note } && maybe_string(shown) == Some(
                rubric@,
            ) && note@ == no_host_text()
        },
        Outcome::Ungradeable { reason } => step matches AnswerStep::Stop { rubric, note }
            && rubric is None && note@ == reason@,
    }
}

/// What comes next for an answer that was recorded. `connected` says whether a model can
/// be asked.
///
/// An answer that cannot be graded and one whose model cannot be asked stay ungraded.
/// They are never counted as wrong.
pub fn next_step(outcome: Outcome, connected: bool) -> (step: AnswerStep)
    ensures
        is_next_step(step, outcome, connected),
{
    match outcome {
        Outcome::Decided { correct, score, graded_by, blanks } => AnswerStep::Settle {
            correct,
            score,
            graded_by,
            blanks,
        },
        Outcome::NeedsRubric { rubric } => if connected {
            AnswerStep::Mark { rubric }
        } else {
            AnswerStep::Stop { rubric: Some(rubric), note: no_host_message().to_owned() }
        },
        Outcome::Ungradeable { reason } => AnswerStep::Stop { rubric: None, note: reason },
    }
}

/// What an answer does to the posterior: nothing, where it does not hold its slot in the
/// sitting. `before` is where the posterior stood when the answer was recorded.
pub open spec fn counted(update: BktUpdate, slot_won: bool, before: Double) -> BktUpdate {
    if slot_won {
        update
    } else {
        BktUpdate { before, after: before, informative: false }
    }
}

/// What an answer does to the posterior: nothing, where it does not hold its slot.
pub fn counted_update(update: BktUpdate, slot_won: bool, before: Double) -> (kept: BktUpdate)
    ensures
        kept == counted(update, slot_won, before),
{
    if slot_won {
        update
    } else {
        BktUpdate { before, after: before, informative: false }
    }
}

/// The score that is kept with an attempt: partial credit, where there can be some. Cloze
/// blanks and a mark against a rubric give it; a grade that is pass or fail has none.
pub open spec fn kept_score(verdict: Verdict) -> Option<Double> {
    if verdict.graded_by == GradedBy::Rubric || verdict.blanks@.len() > 0 {
        Some(verdict.score)
    } else {
        None
    }
}

/// The grade that a verdict lands on the attempt, once the posterior it leads to is
/// known.
pub fn grading_of(verdict: &Verdict, update: &BktUpdate) -> (grading: Grading)
    ensures
        grading.correct == verdict.correct,
        grading.score == kept_score(*verdict),
        grading.graded_by == verdict.graded_by,
        maybe_string(grading.feedback) == maybe_string(verdict.feedback),
        grading.mastery_after == update.after,
        grading.informative == update.informative,
{
    Grading {
        correct: verdict.correct,
        score: if verdict.graded_by == GradedBy::Rubric || verdict.blanks.len() > 0 {
            Some(verdict.score)
        } else {
            None
        },
        graded_by: verdict.graded_by,
        feedback: copied(&verdict.feedback),
        mastery_after: update.after,
        informative: update.informative,
    }
}

/// Whether the posterior of the skill is to be written: the grade was written by this
/// answer, and it says something.
pub fn moves_posterior(grade_written: bool, update: &BktUpdate) -> (moves: bool)
    ensures
        moves == (grade_written && update.informative),
{
    grade_written && update.informative
}

/// Whether a result reports an answer that stays ungraded.
pub open spec fn is_unsettled(
    result: AnswerResult,
    attempt: Attempt,
    rubric: Option<String>,
    note: Seq<char>,
) -> bool {
    &&& result.attempt == attempt
    &&& result.correct is None
    &&& result.score is None
    &&& result.graded_by is None
    &&& result.blanks@.len() == 0
    &&& result.rubric == rubric
    &&& result.feedback is None
    &&& result.mastery_before == attempt.mastery_before
    &&& result.mastery_after == attempt.mastery_before
    &&& !result.informative
    &&& maybe_string(result.note) == Some(note)
}

/// The result of an answer that stays ungraded: nothing moved.
pub fn unsettled_result(attempt: Attempt, rubric: Option<String>, note: String) -> (result:
    AnswerResult)
    ensures
        is_unsettled(result, attempt, rubric, note@),
{
    let before: Double = attempt.mastery_before;
    AnswerResult {
        attempt,
        correct: None,
        score: None,
        graded_by: None,
        blanks: Vec::new(),
        rubric,
        feedback: None,
        mastery_before: before,
        mastery_after: before,
        informative: false,
        note: Some(note),
    }
}

/// Whether a result reports a verdict, and the posterior it led to.
pub open spec fn is_settled(
    result: AnswerResult,
    attempt: Attempt,
    verdict: Verdict,
    update: BktUpdate,
    grade_written: bool,
) -> bool {
    &&& result.attempt == attempt
    &&& result.correct == Some(verdict.correct)
    &&& result.score == Some(verdict.score)
    &&& result.graded_by == Some(verdict.graded_by)
    &&& result.blanks == verdict.blanks
    &&& result.rubric == verdict.rubric
    &&& result.feedback == verdict.feedback
    &&& result.mastery_before == attempt.mastery_before
    &&& result.informative == (grade_written && update.informative)
    &&& result.mastery_after == (if grade_written {
        update.after
    } else {
        attempt.mastery_before
    })
    &&& maybe_string(result.note) == (if result.informative {
        None
    } else {
        Some(UNMOVED_NOTE@)
    })
}

/// The result of an answer with a verdict. Where the posterior did not move, the result
/// says so.
pub fn settled_result(
    attempt: Attempt,
    verdict: Verdict,
    update: &BktUpdate,
    grade_written: bool,
) -> (result: AnswerResult)
    ensures
        is_settled(result, attempt, verdict, *update, grade_written),
{
    let moved: bool = moves_posterior(grade_written, update);
    let before: Double = attempt.mastery_before;
    AnswerResult {
        attempt,
        correct: Some(verdict.correct),
        score: Some(verdict.score),
        graded_by: Some(verdict.graded_by),
        blanks: verdict.blanks,
        rubric: verdict.rubric,
        feedback: verdict.feedback,
        mastery_before: before,
        mastery_after: if grade_written {
            update.after
        } else {
            before
        },
        informative: moved,
        note: if moved {
            None
        } else {
            Some(UNMOVED_NOTE.to_owned())
        },
    }
}

/// A row that cannot be graded and a model that cannot be asked never lead to a mark: the
/// learner is not held wrong for either.
pub proof fn no_verdict_without_grounds(step: AnswerStep, outcome: Outcome, connected: bool)
    requires
        is_next_step(step, outcome, connected),
    ensures
        outcome is Ungradeable ==> step is Stop,
        outcome is NeedsRubric && !connected ==> step is Stop,
        step is Settle ==> outcome is Decided,
        step is Mark ==> outcome is NeedsRubric && connected,
{
}

// ── Practice outside the app ──────────────────────────────────────────────────

/// All or nothing, as a number.
pub open spec fn full_or_none(correct: bool) -> Double {
    Double {
        bits: if correct {
            ONE
        } else {
            ZERO
        },
    }
}

/// The attempt with which practice outside any item is recorded. It names no item: an
/// invented one would be asked later. It is pass or fail, so that no score is kept.
pub fn logged_attempt(skill: &Skill, correct: bool, note: Option<&str>, update: &BktUpdate) -> (attempt:
    NewAttempt)
    ensures
        attempt.skill_id@ == skill.id@,
        attempt.item_id@.len() == 0,
        attempt.session_id is None,
        attempt.response@ == (match note {
            Some(text) => text@,
            None => PRACTICE_NOTE@,
        }),
        attempt.correct == Some(correct),
        attempt.score is None,
        attempt.graded_by == Some(GradedBy::Deterministic),
        maybe_string(attempt.feedback) == maybe_text(note),
        attempt.latency_ms is None,
        attempt.mastery_before == skill.mastery,
        attempt.mastery_after == update.after,
        attempt.informative == update.informative,
{
    NewAttempt {
        skill_id: skill.id.clone(),
        item_id: String::new(),
        session_id: None,
        response: match note {
            Some(text) => text.to_owned(),
            None => PRACTICE_NOTE.to_owned(),
        },
        correct: Some(correct),
        score: None,
        graded_by: Some(GradedBy::Deterministic),
        feedback: owned(note),
        latency_ms: None,
        mastery_before: skill.mastery,
        mastery_after: update.after,
        informative: update.informative,
    }
}

/// The result of practice that was recorded.
pub fn logged_result(attempt: Attempt, correct: bool, note: Option<&str>, update: &BktUpdate) -> (result:
    AnswerResult)
    ensures
        result.attempt == attempt,
        result.correct == Some(correct),
        result.score == Some(full_or_none(correct)),
        correct ==> result.score == Some(Double { bits: 0x3ff0_0000_0000_0000 }),
        !correct ==> result.score == Some(Double { bits: 0 }),
        result.graded_by == Some(GradedBy::Deterministic),
        result.blanks@.len() == 0,
        result.rubric is None,
        maybe_string(result.feedback) == maybe_text(note),
        result.mastery_before == attempt.mastery_before,
        result.mastery_after == update.after,
        result.informative == update.informative,
        result.note is None,
{
    let before: Double = attempt.mastery_before;
    let score: Double = Double {
        bits: if correct {
            ONE
        } else {
            ZERO
        },
    };
    AnswerResult {
        attempt,
        correct: Some(correct),
        score: Some(score),
        graded_by: Some(GradedBy::Deterministic),
        blanks: Vec::new(),
        rubric: None,
        feedback: owned(note),
        mastery_before: before,
        mastery_after: update.after,
        informative: update.informative,
        note: None,
    }
}

// ── What the steps amount to ──────────────────────────────────────────────────

/// An answer is first recorded under its item and skill, as it was given, with no grade and
/// with the posterior where it is.
pub proof fn an_opening_claims_nothing(
    attempt: NewAttempt,
    item: Item,
    skill: Skill,
    response: Seq<char>,
    session_id: Option<Seq<char>>,
)
    requires
        is_opening(attempt, item, skill, response, session_id),
    ensures
        attempt.skill_id@ == item.skill_id@ && attempt.item_id@ == item.id@ && attempt.response@
            == response,
        attempt.session_id is Some <==> session_id is Some,
        attempt.session_id matches Some(id) ==> id@ == session_id->0,
        attempt.correct is None && attempt.score is None && attempt.graded_by is None
            && attempt.feedback is None && !attempt.informative,
        attempt.mastery_before == skill.mastery && attempt.mastery_after == skill.mastery,
{
}

/// A verdict by comparison is settled as it stands; a free response goes to a model with its
/// rubric, or waits with it; what cannot be graded stays so, with the reason.
pub proof fn a_step_follows_the_outcome(step: AnswerStep, outcome: Outcome, connected: bool)
    requires
        is_next_step(step, outcome, connected),
    ensures
        outcome matches Outcome::Decided { correct, score, graded_by, blanks } ==> (
        step matches AnswerStep::Settle { correct: c, score: s, graded_by: g, blanks: b } && c
            == correct && s == score && g == graded_by && b == blanks),
        outcome matches Outcome::NeedsRubric { rubric } ==> connected ==> (
        step matches AnswerStep::Mark { rubric: r } && r == rubric),
        outcome matches Outcome::NeedsRubric { rubric } ==> !connected ==> (
        step matches AnswerStep::Stop { rubric: r, note } && r is Some && r->0@ == rubric@ && note@
            == NO_HOST@),
        outcome matches Outcome::Ungradeable { reason } ==> (
        step matches AnswerStep::Stop { rubric: r, note } && r is None && note@ == reason@),
{
}

/// An answer that holds its slot counts in full, one that does not counts for nothing.
pub proof fn a_lost_slot_counts_for_nothing(update: BktUpdate, before: Double)
    ensures
        counted(update, true, before) == update,
        counted(update, false, before).after == before,
        !counted(update, false, before).informative,
{
}

/// A score is kept where it can be partial: for cloze blanks and for a mark, and for nothing
/// else.
pub proof fn partial_credit_is_kept(verdict: Verdict)
    ensures
        verdict.graded_by == GradedBy::Rubric ==> kept_score(verdict) == Some(verdict.score),
        verdict.blanks@.len() > 0 ==> kept_score(verdict) == Some(verdict.score),
        verdict.graded_by == GradedBy::Deterministic && verdict.blanks@.len() == 0 ==> kept_score(
            verdict,
        ) is None,
{
}

/// What a learner is told of a graded answer: the verdict as it is, and how the posterior moved
/// if this answer's grade was the one that was written.
pub proof fn a_result_tells_the_verdict(
    result: AnswerResult,
    attempt: Attempt,
    verdict: Verdict,
    update: BktUpdate,
    written: bool,
)
    requires
        is_settled(result, attempt, verdict, update, written),
    ensures
        result.attempt == attempt && result.correct == Some(verdict.correct) && result.score == Some(
            verdict.score,
        ) && result.graded_by == Some(verdict.graded_by) && result.blanks == verdict.blanks
            && result.rubric == verdict.rubric && result.feedback == verdict.feedback,
        result.mastery_before == attempt.mastery_before,
        written ==> result.mastery_after == update.after && result.informative
            == update.informative,
        !written ==> result.mastery_after == attempt.mastery_before && !result.informative,
        result.note is None <==> result.informative,
        result.note matches Some(note) ==> note@ == UNMOVED_NOTE@,
{
}

/// What a learner is told of an answer without a grade: why, and that nothing moved.
pub proof fn an_ungraded_result_tells_why(
    result: AnswerResult,
    attempt: Attempt,
    rubric: Option<String>,
    note: Seq<char>,
)
    requires
        is_unsettled(result, attempt, rubric, note),
    ensures
        result.attempt == attempt && result.rubric == rubric,
        result.correct is None && result.score is None && result.graded_by is None
            && result.feedback is None && !result.informative && result.blanks@.len() == 0,
        result.mastery_after == attempt.mastery_before && result.mastery_before
            == attempt.mastery_before,
        result.note is Some && result.note->0@ == note,
{
}

} // verus!
