//! The rules every stored row obeys: how rows are made, what may change about them, and
//! which changes are refused.
//!
//! Whoever holds the rows reads the ones a rule asks for, applies it and writes back what
//! it returns, all in one transaction. A rule that claims something — a grade, a slot on
//! a plan, a decision, an event — can be applied to a row once and never again.

use crate::calendar::{is_uuid_text, new_id, now_ms};
use crate::config::{maybe_string, maybe_text, non_empty, setting};
use crate::double::{Double, ONE, ZERO};
use crate::error::ApiError;
use crate::models::{
    AnswerKey, Attempt, BktParams, Choice, GradedBy, Item, NewAttempt, NewItem, Skill, SkillStatus,
    Source, SourceKind, Subject, DEFAULT_EASE, DEFAULT_TIMEZONE, ID_ATTEMPT, ID_ITEM, ID_SKILL,
    ID_SOURCE, ID_SUBJECT, MIN_EASE,
};
use crate::srs::Review;
use crate::text::{same_text, trim, trimmed};
use vstd::prelude::*;
use vstd::string::*;

verus! {

/// Ceiling on how many rows any one list may return.
pub const MAX_LIMIT: i64 = 500;

/// How many rows a list returns when the caller states no preference.
pub const DEFAULT_LIMIT: i64 = 200;

/// The number of rows that a stated limit stands for.
pub open spec fn rows_for(limit: i64) -> i64 {
    if limit <= 0 {
        DEFAULT_LIMIT
    } else if limit > MAX_LIMIT {
        MAX_LIMIT
    } else {
        limit
    }
}

/// The number of rows that a stated limit stands for: the default where none is stated,
/// and never more than the ceiling.
pub fn clamp_limit(limit: i64) -> (rows: i64)
    ensures
        rows == rows_for(limit),
        1 <= rows <= MAX_LIMIT,
        limit <= 0 ==> rows == 200,
        0 < limit <= 500 ==> rows == limit,
        limit > 500 ==> rows == 500,
{
    if limit <= 0 {
        DEFAULT_LIMIT
    } else if limit > MAX_LIMIT {
        MAX_LIMIT
    } else {
        limit
    }
}

/// Whether an id was made for rows of a kind.
pub open spec fn is_fresh_id(id: Seq<char>, prefix: Seq<char>) -> bool {
    &&& id.len() == prefix.len() + 32
    &&& id.take(prefix.len() as int) == prefix
    &&& is_uuid_text(id.skip(prefix.len() as int))
}

/// A text with another put behind it.
fn with_tail(start: &str, tail: &str) -> (text: String)
    ensures
        text@ == start@ + tail@,
{
    let mut text: String = start.to_owned();
    text.append(tail);
    text
}

/// A text put between two others.
fn spliced(start: &str, middle: &str, end: &str) -> (text: String)
    ensures
        text@ == start@ + middle@ + end@,
{
    let mut text: String = start.to_owned();
    text.append(middle);
    text.append(end);
    text
}

/// A copy of an optional text.
pub fn copied(text: &Option<String>) -> (copy: Option<String>)
    ensures
        maybe_string(copy) == maybe_string(*text),
{
    match text {
        Some(t) => Some(t.clone()),
        None => None,
    }
}

/// A copy of an optional text.
pub fn owned(text: Option<&str>) -> (copy: Option<String>)
    ensures
        maybe_string(copy) == maybe_text(text),
{
    match text {
        Some(t) => Some(t.to_owned()),
        None => None,
    }
}

// ── Subjects ──────────────────────────────────────────────────────────────────

/// The zone name that a subject is stored with.
pub open spec fn stored_zone(timezone: Option<Seq<char>>) -> Seq<char> {
    match setting(timezone) {
        Some(name) => name,
        None => "UTC"@,
    }
}

/// Whether a subject row holds what was typed, without the white space around it; what
/// is blank counts as not given.
pub open spec fn is_subject_row(
    row: Subject,
    name: Seq<char>,
    detail: Option<Seq<char>>,
    exam_date: Option<Seq<char>>,
    timezone: Option<Seq<char>>,
) -> bool {
    &&& row.name@ == trimmed(name)
    &&& maybe_string(row.detail) == setting(detail)
    &&& maybe_string(row.exam_date) == setting(exam_date)
    &&& row.timezone@ == stored_zone(timezone)
}

/// A subject row.
pub fn subject_row(
    id: String,
    name: &str,
    detail: Option<&str>,
    exam_date: Option<&str>,
    timezone: Option<&str>,
    now: i64,
) -> (row: Subject)
    ensures
        row.id == id,
        is_subject_row(row, name@, maybe_text(detail), maybe_text(exam_date), maybe_text(timezone)),
        row.created_at == now,
        row.updated_at == now,
{
    let zone: String = match non_empty(timezone) {
        Some(zone) => zone,
        None => DEFAULT_TIMEZONE.to_owned(),
    };
    Subject {
        id,
        name: trim(name),
        detail: non_empty(detail),
        exam_date: non_empty(exam_date),
        timezone: zone,
        created_at: now,
        updated_at: now,
    }
}

/// A new subject, under a fresh id and dated now.
pub fn create_subject(
    name: &str,
    detail: Option<&str>,
    exam_date: Option<&str>,
    timezone: Option<&str>,
) -> (row: Subject)
    ensures
        is_fresh_id(row.id@, ID_SUBJECT@),
        is_subject_row(row, name@, maybe_text(detail), maybe_text(exam_date), maybe_text(timezone)),
        0 <= row.created_at,
        row.created_at == row.updated_at,
{
    let id: String = new_id(ID_SUBJECT);
    subject_row(id, name, detail, exam_date, timezone, now_ms())
}

/// A subject after an edit of all its fields.
pub fn update_subject(
    row: Subject,
    name: &str,
    detail: Option<&str>,
    exam_date: Option<&str>,
    timezone: &str,
    now: i64,
) -> (edited: Subject)
    ensures
        edited.id == row.id,
        edited.created_at == row.created_at,
        edited.updated_at == now,
        is_subject_row(
            edited,
            name@,
            maybe_text(detail),
            maybe_text(exam_date),
            Some(timezone@),
        ),
{
    let created_at: i64 = row.created_at;
    let mut edited: Subject = subject_row(row.id, name, detail, exam_date, Some(timezone), now);
    edited.created_at = created_at;
    edited
}

// ── Sources ───────────────────────────────────────────────────────────────────

/// A new source, under a fresh id and dated now. Its text is stored as it was parsed.
pub fn create_source(
    subject_id: &str,
    kind: SourceKind,
    title: &str,
    uri: Option<&str>,
    parsed_text: &str,
    parser: Option<&str>,
) -> (row: Source)
    ensures
        is_fresh_id(row.id@, ID_SOURCE@),
        row.subject_id@ == subject_id@,
        row.kind == kind,
        row.title@ == trimmed(title@),
        maybe_string(row.uri) == maybe_text(uri),
        row.parsed_text@ == parsed_text@,
        maybe_string(row.parser) == maybe_text(parser),
        0 <= row.created_at,
{
    Source {
        id: new_id(ID_SOURCE),
        subject_id: subject_id.to_owned(),
        kind,
        title: trim(title),
        uri: owned(uri),
        parsed_text: parsed_text.to_owned(),
        parser: owned(parser),
        created_at: now_ms(),
    }
}

// ── Skills ────────────────────────────────────────────────────────────────────

/// What a writer of skills offers: ingest proposing one, or a candidate being accepted.
#[derive(Clone, Copy, Debug)]
pub struct SkillOffer<'a> {
    pub subject_id: &'a str,
    pub name: &'a str,
    pub detail: Option<&'a str>,
    pub status: SkillStatus,
    pub source_id: Option<&'a str>,
    pub params: BktParams,
}

/// Whether two skills hold the same about what the learner knows and when it is owed.
pub open spec fn same_learning(a: Skill, b: Skill) -> bool {
    &&& a.mastery == b.mastery
    &&& a.ease == b.ease
    &&& a.interval_days == b.interval_days
    &&& a.reps == b.reps
    &&& a.lapses == b.lapses
    &&& a.due_at == b.due_at
    &&& a.last_reviewed_at == b.last_reviewed_at
}

/// Whether a row is what an offer makes where no skill of that name exists: not
/// studied, and known as well as its parameters say before any practice.
pub open spec fn is_new_skill(row: Skill, offer: SkillOffer, now: i64) -> bool {
    &&& row.subject_id@ == offer.subject_id@
    &&& row.name@ == trimmed(offer.name@)
    &&& maybe_string(row.detail) == setting(maybe_text(offer.detail))
    &&& row.status == offer.status
    &&& maybe_string(row.source_id) == maybe_text(offer.source_id)
    &&& row.params == offer.params.in_unit()
    &&& row.mastery == offer.params.in_unit().p_init
    &&& row.ease == (Double { bits: DEFAULT_EASE })
    &&& row.interval_days == 0
    &&& row.reps == 0
    &&& row.lapses == 0
    &&& row.due_at is None
    &&& row.last_reviewed_at is None
    &&& row.created_at == now
    &&& row.updated_at == now
}

/// The first of two optional texts that is there.
pub open spec fn first_of(a: Option<Seq<char>>, b: Option<Seq<char>>) -> Option<Seq<char>> {
    match a {
        Some(text) => Some(text),
        None => b,
    }
}

/// Whether a row is what an offer makes of the skill that already has its name: the
/// learned half and the parameters stay, the status moves only out of `Proposed`, and
/// what was recorded is filled in but never replaced.
pub open spec fn is_merged_skill(row: Skill, before: Skill, offer: SkillOffer, now: i64) -> bool {
    &&& row.id == before.id
    &&& row.subject_id == before.subject_id
    &&& row.name == before.name
    &&& maybe_string(row.detail) == first_of(
        maybe_string(before.detail),
        setting(maybe_text(offer.detail)),
    )
    &&& maybe_string(row.source_id) == first_of(
        maybe_string(before.source_id),
        maybe_text(offer.source_id),
    )
    &&& row.status == (if before.status == SkillStatus::Proposed {
        offer.status
    } else {
        before.status
    })
    &&& row.params == before.params
    &&& same_learning(row, before)
    &&& row.created_at == before.created_at
    &&& row.updated_at == now
}

/// The row that a skill offer makes, where no skill of that name exists.
pub fn skill_row(id: String, offer: &SkillOffer, now: i64) -> (row: Skill)
    ensures
        row.id == id,
        is_new_skill(row, *offer, now),
        row.params.well_formed(),
        row.mastery.is_share(),
{
    let params: BktParams = offer.params.clamped();
    Skill {
        id,
        subject_id: offer.subject_id.to_owned(),
        name: trim(offer.name),
        detail: non_empty(offer.detail),
        status: offer.status,
        source_id: owned(offer.source_id),
        params,
        mastery: params.p_init,
        ease: Double { bits: DEFAULT_EASE },
        interval_days: 0,
        reps: 0,
        lapses: 0,
        due_at: None,
        last_reviewed_at: None,
        created_at: now,
        updated_at: now,
    }
}

/// The row that a skill offer makes of the skill that already has its name.
pub fn merge_skill(before: Skill, offer: &SkillOffer, now: i64) -> (row: Skill)
    ensures
        is_merged_skill(row, before, *offer, now),
{
    let mut row: Skill = before;
    row.detail = match row.detail {
        Some(text) => Some(text),
        None => non_empty(offer.detail),
    };
    row.source_id = match row.source_id {
        Some(text) => Some(text),
        None => owned(offer.source_id),
    };
    if row.status == SkillStatus::Proposed {
        row.status = offer.status;
    }
    row.updated_at = now;
    row
}

/// Creates a skill, or folds the offer into the one with the same name in the same
/// subject. `existing` is that one, if there is one.
pub fn upsert_skill(existing: Option<Skill>, offer: &SkillOffer, now: i64) -> (row: Skill)
    ensures
        existing is None ==> is_fresh_id(row.id@, ID_SKILL@) && is_new_skill(row, *offer, now),
        existing matches Some(before) ==> is_merged_skill(row, before, *offer, now),
{
    match existing {
        Some(before) => merge_skill(before, offer, now),
        None => skill_row(new_id(ID_SKILL), offer, now),
    }
}

/// Offering a name again never resets what the learner knows, never takes a skill out of
/// the deck and never revives one that was put away.
pub proof fn reoffering_is_safe(row: Skill, before: Skill, offer: SkillOffer, now: i64)
    requires
        is_merged_skill(row, before, offer, now),
    ensures
        same_learning(row, before),
        row.params == before.params,
        before.status == SkillStatus::Active ==> row.status == SkillStatus::Active,
        before.status == SkillStatus::Archived ==> row.status == SkillStatus::Archived,
        before.detail is Some ==> maybe_string(row.detail) == maybe_string(before.detail),
        before.source_id is Some ==> maybe_string(row.source_id) == maybe_string(before.source_id),
{
}

/// Offering the same thing twice changes no more than offering it once.
pub proof fn reoffering_is_idempotent(
    before: Skill,
    offer: SkillOffer,
    once: Skill,
    twice: Skill,
    first: i64,
    second: i64,
)
    requires
        is_merged_skill(once, before, offer, first),
        is_merged_skill(twice, once, offer, second),
    ensures
        maybe_string(twice.detail) == maybe_string(once.detail),
        maybe_string(twice.source_id) == maybe_string(once.source_id),
        twice.status == once.status,
        same_learning(twice, once),
{
}

/// A skill after an edit of its authored half. The learned half is not touched, so a
/// rename cannot reset what the learner knows.
pub fn update_skill(
    row: Skill,
    name: &str,
    detail: Option<&str>,
    status: SkillStatus,
    params: BktParams,
    now: i64,
) -> (edited: Skill)
    ensures
        edited.id == row.id,
        edited.subject_id == row.subject_id,
        edited.source_id == row.source_id,
        edited.name@ == trimmed(name@),
        maybe_string(edited.detail) == setting(maybe_text(detail)),
        edited.status == status,
        edited.params == params.in_unit(),
        same_learning(edited, row),
        edited.created_at == row.created_at,
        edited.updated_at == now,
{
    let mut edited: Skill = row;
    edited.name = trim(name);
    edited.detail = non_empty(detail);
    edited.status = status;
    edited.params = params.clamped();
    edited.updated_at = now;
    edited
}

/// The posterior as it is stored: in `[0,1]`, and refused where it is no number. This is
/// the last gate before it becomes the prior of every later attempt.
pub fn stored_mastery(skill_id: &str, mastery: Double) -> (stored: Result<Double, ApiError>)
    ensures
        match stored {
            Ok(m) => mastery.finite() && m == mastery.clamped(
                Double { bits: ZERO },
                Double { bits: ONE },
            ) && m.is_share(),
            Err(e) => !mastery.finite() && (e matches ApiError::Internal(why) && why@
                == "refusing to store a non-finite mastery for skill "@ + skill_id@),
        },
{
    if mastery.is_finite() {
        Ok(mastery.clamp(Double { bits: ZERO }, Double { bits: ONE }))
    } else {
        Err(
            ApiError::Internal(
                with_tail("refusing to store a non-finite mastery for skill ", skill_id),
            ),
        )
    }
}

/// A skill with the posterior that an attempt led to. Nothing else about it changes; a
/// posterior that is no number is refused.
pub fn update_skill_mastery(row: Skill, mastery: Double, now: i64) -> (moved: Result<
    Skill,
    ApiError,
>)
    ensures
        match moved {
            Ok(skill) => mastery.finite() && skill == (Skill {
                mastery: mastery.share(),
                updated_at: now,
                ..row
            }),
            Err(e) => !mastery.finite() && (e matches ApiError::Internal(why) && why@
                == "refusing to store a non-finite mastery for skill "@ + row.id@),
        },
{
    match stored_mastery(row.id.as_str(), mastery) {
        Ok(stored) => {
            let mut moved: Skill = row;
            moved.mastery = stored;
            moved.updated_at = now;
            Ok(moved)
        },
        Err(e) => Err(e),
    }
}

/// The ease as it is stored: never below the floor.
pub fn stored_ease(ease: Double) -> (stored: Double)
    ensures
        stored == ease.larger(Double { bits: MIN_EASE }),
        stored.at_least(Double { bits: MIN_EASE }),
{
    ease.max(Double { bits: MIN_EASE })
}

/// A skill with the schedule that a review led to. What is known of the skill does not
/// change.
pub fn update_skill_schedule(row: Skill, review: &Review, reviewed_at: i64, now: i64) -> (scheduled:
    Skill)
    ensures
        scheduled == (Skill {
            ease: review.schedule.ease.larger(Double { bits: MIN_EASE }),
            interval_days: review.schedule.interval_days,
            reps: review.schedule.reps,
            lapses: review.schedule.lapses,
            due_at: Some(review.due_at),
            last_reviewed_at: Some(reviewed_at),
            updated_at: now,
            ..row
        }),
        scheduled.ease.at_least(Double { bits: MIN_EASE }),
{
    let mut scheduled: Skill = row;
    scheduled.ease = stored_ease(review.schedule.ease);
    scheduled.interval_days = review.schedule.interval_days;
    scheduled.reps = review.schedule.reps;
    scheduled.lapses = review.schedule.lapses;
    scheduled.due_at = Some(review.due_at);
    scheduled.last_reviewed_at = Some(reviewed_at);
    scheduled.updated_at = now;
    scheduled
}

// ── Items ─────────────────────────────────────────────────────────────────────

/// Refuses an item whose answer key does not grade the kind it is declared as, and one
/// whose key could not be read: such an item could never be graded.
pub fn check_item(new: &NewItem) -> (checked: Result<(), ApiError>)
    ensures
        checked is Ok <==> new.answer.grades() == Some(new.kind),
        checked matches Err(e) ==> (e matches ApiError::BadRequest(why) && why@
            == "this item is declared `"@ + new.kind.label()
            + "` but its answer key grades a different kind"@),
{
    let same: bool = match new.answer.kind() {
        Some(kind) => kind == new.kind,
        None => false,
    };
    if same {
        Ok(())
    } else {
        Err(
            ApiError::BadRequest(
                spliced(
                    "this item is declared `",
                    new.kind.as_str(),
                    "` but its answer key grades a different kind",
                ),
            ),
        )
    }
}

/// Whether a row is the item that was offered, under the subject of its skill.
pub open spec fn is_item_row(row: Item, new: NewItem, subject_id: Seq<char>, now: i64) -> bool {
    &&& row.subject_id@ == subject_id
    &&& row.skill_id == new.skill_id
    &&& row.kind == new.kind
    &&& row.prompt@ == trimmed(new.prompt@)
    &&& row.choices == new.choices
    &&& row.answer == new.answer
    &&& row.origin == new.origin
    &&& row.origin_model == new.origin_model
    &&& row.source_id == new.source_id
    &&& row.source_ref == new.source_ref
    &&& row.version == 1
    &&& !row.archived
    &&& row.created_at == now
    &&& row.updated_at == now
}

/// Makes the row of a new item. The subject is that of its skill, given here if the
/// skill exists; it is never taken from whoever offers the item.
pub fn create_item(new: NewItem, skill_subject: Option<&str>, now: i64) -> (row: Result<
    Item,
    ApiError,
>)
    ensures
        row is Ok <==> new.answer.grades() == Some(new.kind) && skill_subject is Some,
        row matches Ok(item) ==> is_fresh_id(item.id@, ID_ITEM@) && is_item_row(
            item,
            new,
            skill_subject->0@,
            now,
        ),
        row matches Err(e) ==> if new.answer.grades() != Some(new.kind) {
            e matches ApiError::BadRequest(why) && why@ == "this item is declared `"@
                + new.kind.label() + "` but its answer key grades a different kind"@
        } else {
            e matches ApiError::BadRequest(why) && why@ == "skill "@ + new.skill_id@
                + " does not exist"@
        },
{
    if let Err(e) = check_item(&new) {
        return Err(e);
    }
    match skill_subject {
        None => Err(
            ApiError::BadRequest(spliced("skill ", new.skill_id.as_str(), " does not exist")),
        ),
        Some(subject) => Ok(
            Item {
                id: new_id(ID_ITEM),
                subject_id: subject.to_owned(),
                skill_id: new.skill_id,
                kind: new.kind,
                prompt: trim(new.prompt.as_str()),
                choices: new.choices,
                answer: new.answer,
                origin: new.origin,
                origin_model: new.origin_model,
                source_id: new.source_id,
                source_ref: new.source_ref,
                version: 1,
                archived: false,
                created_at: now,
                updated_at: now,
            },
        ),
    }
}

/// An item after an edit of its question and answer, as a new version.
///
/// The kind cannot change, and a key that could not be read is never written back.
pub fn update_item(
    row: Item,
    prompt: &str,
    choices: Vec<Choice>,
    answer: AnswerKey,
    source_ref: Option<&str>,
    now: i64,
) -> (edited: Result<Item, ApiError>)
    requires
        row.version < i64::MAX,
    ensures
        edited is Ok <==> answer.grades() == Some(row.kind),
        edited matches Ok(item) ==> {
            &&& item.version == row.version + 1
            &&& item.prompt@ == trimmed(prompt@)
            &&& item.choices == choices
            &&& item.answer == answer
            &&& maybe_string(item.source_ref) == maybe_text(source_ref)
            &&& item.updated_at == now
            &&& item.id == row.id && item.subject_id == row.subject_id && item.skill_id
                == row.skill_id && item.kind == row.kind && item.origin == row.origin
                && item.origin_model == row.origin_model && item.source_id == row.source_id
                && item.archived == row.archived && item.created_at == row.created_at
        },
        edited matches Err(e) ==> (e matches ApiError::BadRequest(why) && why@ == (if answer is Malformed {
            "an item's answer key is unreadable and cannot be rewritten"@
        } else {
            "an item's kind cannot change: this answer key grades a different one"@
        })),
{
    if let Err(e) = answer.check_writable() {
        return Err(e);
    }
    match answer.kind() {
        None => {},
        Some(kind) => {
            if kind != row.kind {
                return Err(
                    ApiError::bad_request(
                        "an item's kind cannot change: this answer key grades a different one",
                    ),
                );
            }
        },
    }
    let mut edited: Item = row;
    edited.version = edited.version + 1;
    edited.prompt = trim(prompt);
    edited.choices = choices;
    edited.answer = answer;
    edited.source_ref = owned(source_ref);
    edited.updated_at = now;
    Ok(edited)
}

// ── Attempts ──────────────────────────────────────────────────────────────────

/// Whether a row is the attempt that was offered.
pub open spec fn is_attempt_row(row: Attempt, new: NewAttempt, now: i64) -> bool {
    &&& row.skill_id == new.skill_id
    &&& row.item_id == new.item_id
    &&& row.session_id == new.session_id
    &&& row.response == new.response
    &&& row.correct == new.correct
    &&& row.score == new.score
    &&& row.graded_by == new.graded_by
    &&& row.feedback == new.feedback
    &&& row.latency_ms == new.latency_ms
    &&& row.mastery_before == new.mastery_before
    &&& row.mastery_after == new.mastery_after
    &&& row.informative == new.informative
    &&& row.at == now
}

/// Makes the row of an attempt. Subject and version are read off the item, which must
/// exist and belong to the skill: an attempt under the wrong skill would move the wrong
/// posterior. Practice that happened outside any item names none; its subject is that of
/// the skill.
pub fn record_attempt(
    new: NewAttempt,
    item: Option<&Item>,
    skill_subject: Option<&str>,
    now: i64,
) -> (row: Result<Attempt, ApiError>)
    ensures
        row matches Ok(attempt) ==> is_fresh_id(attempt.id@, ID_ATTEMPT@) && is_attempt_row(
            attempt,
            new,
            now,
        ),
        new.item_id@.len() == 0 ==> match skill_subject {
            Some(subject) => row matches Ok(attempt) && attempt.subject_id@ == subject@
                && attempt.item_version == 0,
            None => row matches Err(ApiError::BadRequest(why)) && why@ == "skill "@ + new.skill_id@
                + " does not exist"@,
        },
        new.item_id@.len() > 0 ==> match item {
            None => row matches Err(ApiError::BadRequest(why)) && why@ == "item "@ + new.item_id@
                + " does not exist"@,
            Some(i) => if i.skill_id@ == new.skill_id@ {
                row matches Ok(attempt) && attempt.subject_id@ == i.subject_id@
                    && attempt.item_version == i.version
            } else {
                row matches Err(ApiError::BadRequest(why)) && why@ == "item "@ + new.item_id@
                    + " does not belong to skill "@ + new.skill_id@
            },
        },
{
    let subject_id: String;
    let version: i64;
    if new.item_id.as_str().is_empty() {
        match skill_subject {
            Some(subject) => {
                subject_id = subject.to_owned();
                version = 0;
            },
            None => {
                return Err(
                    ApiError::BadRequest(
                        spliced("skill ", new.skill_id.as_str(), " does not exist"),
                    ),
                );
            },
        }
    } else {
        match item {
            None => {
                return Err(
                    ApiError::BadRequest(spliced("item ", new.item_id.as_str(), " does not exist")),
                );
            },
            Some(i) => {
                if !same_text(i.skill_id.as_str(), new.skill_id.as_str()) {
                    let mut why: String = spliced(
                        "item ",
                        new.item_id.as_str(),
                        " does not belong to skill ",
                    );
                    why.append(new.skill_id.as_str());
                    return Err(ApiError::BadRequest(why));
                }
                subject_id = i.subject_id.clone();
                version = i.version;
            },
        }
    }
    Ok(
        Attempt {
            id: new_id(ID_ATTEMPT),
            subject_id,
            skill_id: new.skill_id,
            item_id: new.item_id,
            session_id: new.session_id,
            item_version: version,
            response: new.response,
            correct: new.correct,
            score: new.score,
            graded_by: new.graded_by,
            feedback: new.feedback,
            latency_ms: new.latency_ms,
            mastery_before: new.mastery_before,
            mastery_after: new.mastery_after,
            informative: new.informative,
            at: now,
        },
    )
}

/// A grade, as it lands on an attempt.
#[derive(Clone, Debug)]
pub struct Grading {
    pub correct: bool,
    pub score: Option<Double>,
    pub graded_by: GradedBy,
    pub feedback: Option<String>,
    pub mastery_after: Double,
    pub informative: bool,
}

/// Whether an attempt holds a grade, and is otherwise as it was.
pub open spec fn is_graded_attempt(row: Attempt, before: Attempt, grading: Grading) -> bool {
    &&& row.correct == Some(grading.correct)
    &&& row.score == grading.score
    &&& row.graded_by == Some(grading.graded_by)
    &&& row.feedback == grading.feedback
    &&& row.mastery_after == grading.mastery_after
    &&& row.informative == grading.informative
    &&& row.id == before.id && row.subject_id == before.subject_id && row.skill_id
        == before.skill_id && row.item_id == before.item_id && row.session_id == before.session_id
        && row.item_version == before.item_version && row.response == before.response
        && row.latency_ms == before.latency_ms && row.mastery_before == before.mastery_before
        && row.at == before.at
}

/// What comes of grading an attempt: the graded attempt, or nothing where it has a grade
/// already.
pub open spec fn grades_to(attempt: Attempt, grading: Grading, graded: Option<Attempt>) -> bool {
    match graded {
        Some(row) => attempt.correct is None && is_graded_attempt(row, attempt, grading),
        None => attempt.correct is Some,
    }
}

/// Lands a grade on an attempt that was recorded ungraded. `None` where it has a grade
/// already: a grade is written once.
pub fn grade_attempt(attempt: Attempt, grading: Grading) -> (graded: Option<Attempt>)
    ensures
        grades_to(attempt, grading, graded),
{
    if attempt.correct.is_some() {
        return None;
    }
    let mut row: Attempt = attempt;
    row.correct = Some(grading.correct);
    row.score = grading.score;
    row.graded_by = Some(grading.graded_by);
    row.feedback = grading.feedback;
    row.mastery_after = grading.mastery_after;
    row.informative = grading.informative;
    Some(row)
}

/// A graded attempt takes no second grade, whatever that grade says.
pub proof fn a_grade_is_final(
    attempt: Attempt,
    first: Grading,
    graded: Attempt,
    second: Grading,
    again: Option<Attempt>,
)
    requires
        grades_to(attempt, first, Some(graded)),
        grades_to(graded, second, again),
    ensures
        again is None,
{
}

/// A skill that is new is in the deck only as far as it was offered, not studied at all, and
/// known as well as its parameters say before any practice.
pub proof fn a_new_skill_is_unstudied(row: Skill, offer: SkillOffer, now: i64)
    requires
        is_new_skill(row, offer, now),
    ensures
        row.subject_id@ == offer.subject_id@,
        row.name@ == trimmed(offer.name@),
        row.status == offer.status,
        row.mastery == offer.params.p_init.share(),
        row.params.p_init == offer.params.p_init.share(),
        row.params.p_transit == offer.params.p_transit.share(),
        row.params.p_slip == offer.params.p_slip.share(),
        row.params.p_guess == offer.params.p_guess.share(),
        row.ease.bits == 0x4004_0000_0000_0000,
        row.interval_days == 0 && row.reps == 0 && row.lapses == 0,
        row.due_at is None && row.last_reviewed_at is None,
        offer.detail is None ==> row.detail is None,
        offer.detail matches Some(text) ==> (if trimmed(text@).len() > 0 {
            row.detail matches Some(kept) && kept@ == trimmed(text@)
        } else {
            row.detail is None
        }),
        match (offer.source_id, row.source_id) {
            (Some(given), Some(kept)) => given@ == kept@,
            (None, None) => true,
            _ => false,
        },
        row.created_at == now && row.updated_at == now,
{
}

/// What an offer changes about the skill that already has its name: a proposed one takes the
/// status that is offered, and a detail or a source that is missing is filled in. Everything
/// else stays, what was learned above all.
pub proof fn an_offer_fills_in_and_promotes(row: Skill, before: Skill, offer: SkillOffer, now: i64)
    requires
        is_merged_skill(row, before, offer, now),
    ensures
        row.id == before.id && row.subject_id == before.subject_id && row.name == before.name,
        row.mastery == before.mastery && row.ease == before.ease && row.interval_days
            == before.interval_days && row.reps == before.reps && row.lapses == before.lapses
            && row.due_at == before.due_at && row.last_reviewed_at == before.last_reviewed_at,
        row.params == before.params,
        before.status == SkillStatus::Proposed ==> row.status == offer.status,
        before.status != SkillStatus::Proposed ==> row.status == before.status,
        before.detail matches Some(text) ==> (row.detail matches Some(kept) && kept@ == text@),
        before.detail is None ==> (row.detail is Some <==> offer.detail is Some && trimmed(
            offer.detail->0@,
        ).len() > 0),
        before.detail is None ==> (row.detail matches Some(kept) ==> kept@ == trimmed(
            offer.detail->0@,
        )),
        before.source_id matches Some(text) ==> (row.source_id matches Some(kept) && kept@ == text@),
        before.source_id is None ==> (row.source_id is Some <==> offer.source_id is Some),
        before.source_id is None ==> (row.source_id matches Some(kept) ==> kept@
            == offer.source_id->0@),
        row.created_at == before.created_at && row.updated_at == now,
{
}

/// A subject holds what was typed, without the white space around it; a blank detail or date
/// is none, and a blank zone is UTC.
pub proof fn a_subject_holds_what_was_typed(
    row: Subject,
    name: Seq<char>,
    detail: Option<Seq<char>>,
    exam_date: Option<Seq<char>>,
    timezone: Option<Seq<char>>,
)
    requires
        is_subject_row(row, name, detail, exam_date, timezone),
    ensures
        row.name@ == trimmed(name),
        row.detail is Some <==> detail is Some && trimmed(detail->0).len() > 0,
        row.detail matches Some(kept) ==> kept@ == trimmed(detail->0),
        row.exam_date is Some <==> exam_date is Some && trimmed(exam_date->0).len() > 0,
        row.exam_date matches Some(kept) ==> kept@ == trimmed(exam_date->0),
        timezone is Some && trimmed(timezone->0).len() > 0 ==> row.timezone@ == trimmed(timezone->0),
        timezone is None || trimmed(timezone->0).len() == 0 ==> row.timezone@ == "UTC"@,
{
}

/// Nothing a person learned is touched by an edit of what they typed.
pub proof fn same_learning_is_every_learned_field(a: Skill, b: Skill)
    ensures
        same_learning(a, b) <==> a.mastery == b.mastery && a.ease == b.ease && a.interval_days
            == b.interval_days && a.reps == b.reps && a.lapses == b.lapses && a.due_at == b.due_at
            && a.last_reviewed_at == b.last_reviewed_at,
{
}

/// A new item is the first version of what was offered, of the same kind and with the same key,
/// and is not put away.
pub proof fn a_new_item_is_what_was_offered(row: Item, new: NewItem, subject_id: Seq<char>, now: i64)
    requires
        is_item_row(row, new, subject_id, now),
    ensures
        row.subject_id@ == subject_id && row.skill_id == new.skill_id,
        row.kind == new.kind && row.answer == new.answer && row.choices == new.choices,
        row.prompt@ == trimmed(new.prompt@),
        row.origin == new.origin && row.origin_model == new.origin_model,
        row.source_id == new.source_id && row.source_ref == new.source_ref,
        row.version == 1 && !row.archived,
        row.created_at == now && row.updated_at == now,
{
}

/// An attempt is recorded as it was made: grade, posterior before and after, and all.
pub proof fn an_attempt_is_recorded_as_made(row: Attempt, new: NewAttempt, now: i64)
    requires
        is_attempt_row(row, new, now),
    ensures
        row.skill_id == new.skill_id && row.item_id == new.item_id && row.session_id
            == new.session_id && row.response == new.response,
        row.correct == new.correct && row.score == new.score && row.graded_by == new.graded_by
            && row.feedback == new.feedback && row.latency_ms == new.latency_ms,
        row.mastery_before == new.mastery_before && row.mastery_after == new.mastery_after
            && row.informative == new.informative,
        row.at == now,
{
}

/// A grade lands on an attempt once: where there is none yet, all of it and nothing else, and
/// where there is one, nothing.
pub proof fn a_grade_lands_whole_or_not_at_all(
    attempt: Attempt,
    grading: Grading,
    graded: Option<Attempt>,
)
    requires
        grades_to(attempt, grading, graded),
    ensures
        graded is Some <==> attempt.correct is None,
        graded matches Some(row) ==> row.correct == Some(grading.correct) && row.score
            == grading.score && row.graded_by == Some(grading.graded_by) && row.feedback
            == grading.feedback && row.mastery_after == grading.mastery_after && row.informative
            == grading.informative,
        graded matches Some(row) ==> row.id == attempt.id && row.skill_id == attempt.skill_id
            && row.item_id == attempt.item_id && row.session_id == attempt.session_id
            && row.subject_id == attempt.subject_id && row.item_version == attempt.item_version
            && row.response == attempt.response && row.mastery_before == attempt.mastery_before
            && row.latency_ms == attempt.latency_ms && row.at == attempt.at,
{
}

/// A new id is its prefix and behind it thirty-two digits.
pub proof fn a_new_id_starts_with_its_prefix(id: Seq<char>, prefix: Seq<char>)
    requires
        is_fresh_id(id, prefix),
    ensures
        id.len() == prefix.len() + 32,
        forall|i: int| 0 <= i < prefix.len() ==> #[trigger] id[i] == prefix[i],
        exists|tail: Seq<char>| id == prefix + tail && #[trigger] is_uuid_text(tail),
{
    let tail = id.skip(prefix.len() as int);
    assert(id =~= id.take(prefix.len() as int) + tail);
    assert forall|i: int| 0 <= i < prefix.len() implies #[trigger] id[i] == prefix[i] by {
        assert(id.take(prefix.len() as int)[i] == id[i]);
    }
}

} // verus!
