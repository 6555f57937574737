//! Study sittings: a stored plan, its slots, and the states a sitting goes through.
//!
//! A plan is written before its first question is shown. Each slot on it is claimed by
//! one answer; each change of state happens once.

use crate::calendar::{new_id, now_ms};
use crate::config::{maybe_string, maybe_text};
use crate::double::Double;
use crate::error::ApiError;
use crate::models::{PlannedItem, Session, SessionItem, SessionStatus, ID_SESSION};
use crate::store::{is_fresh_id, owned};
use vstd::prelude::*;
use vstd::string::*;

verus! {

/// Whether a sitting is still to be done.
pub open spec fn is_open(status: SessionStatus) -> bool {
    status == SessionStatus::Planned || status == SessionStatus::Active
}

/// Whether a sitting is still to be done.
pub fn open_session(status: SessionStatus) -> (yes: bool)
    ensures
        yes == is_open(status),
{
    status == SessionStatus::Planned || status == SessionStatus::Active
}

/// Whether a row is a planned sitting.
pub open spec fn is_new_session(row: Session, subject_id: Seq<char>, minutes: u32) -> bool {
    &&& row.subject_id@ == subject_id
    &&& row.planned_minutes == minutes
    &&& row.status == SessionStatus::Planned
    &&& row.mastery_gain is None
    &&& row.summary is None
    &&& row.started_at is None
    &&& row.finished_at is None
}

/// A new sitting, under a fresh id and dated now.
pub fn create_session(subject_id: &str, planned_minutes: u32) -> (row: Session)
    ensures
        is_fresh_id(row.id@, ID_SESSION@),
        is_new_session(row, subject_id@, planned_minutes),
        row.subject_id@ == subject_id@ && row.planned_minutes == planned_minutes,
        row.status == SessionStatus::Planned && row.mastery_gain is None && row.summary is None,
        row.started_at is None && row.finished_at is None,
        0 <= row.created_at,
{
    Session {
        id: new_id(ID_SESSION),
        subject_id: subject_id.to_owned(),
        planned_minutes,
        status: SessionStatus::Planned,
        mastery_gain: None,
        summary: None,
        created_at: now_ms(),
        started_at: None,
        finished_at: None,
    }
}

/// Whether a slot holds a line of a plan, unanswered.
pub open spec fn is_slot(slot: SessionItem, session_id: Seq<char>, at: int, line: PlannedItem) -> bool {
    &&& slot.session_id@ == session_id
    &&& slot.position == at
    &&& slot.item_id@ == line.item_id@
    &&& slot.skill_id@ == line.skill_id@
    &&& slot.est_cost_ms == line.est_cost_ms
    &&& slot.est_gain == line.est_gain
    &&& slot.attempt_id is None
}

/// The slots of a plan. Positions come from the order of the lines, so no two lines can
/// claim the same one.
pub fn slots_for(session_id: &str, plan: &[PlannedItem]) -> (slots: Vec<SessionItem>)
    requires
        plan@.len() <= u32::MAX,
    ensures
        slots@.len() == plan@.len(),
        forall|i: int|
            0 <= i < plan@.len() ==> is_slot(#[trigger] slots@[i], session_id@, i, plan@[i]),
        forall|i: int|
            #![trigger slots@[i]]
            0 <= i < plan@.len() ==> slots@[i].position == i && slots@[i].session_id@ == session_id@
                && slots@[i].item_id@ == plan@[i].item_id@ && slots@[i].skill_id@
                == plan@[i].skill_id@ && slots@[i].est_cost_ms == plan@[i].est_cost_ms
                && slots@[i].est_gain == plan@[i].est_gain && slots@[i].attempt_id is None,
{
    let mut slots: Vec<SessionItem> = Vec::new();
    while slots.len() < plan.len()
        invariant
            plan@.len() <= u32::MAX,
            slots@.len() <= plan@.len(),
            forall|i: int|
                0 <= i < slots@.len() ==> is_slot(#[trigger] slots@[i], session_id@, i, plan@[i]),
        decreases plan@.len() - slots@.len(),
    {
        let at: usize = slots.len();
        slots.push(
            SessionItem {
                session_id: session_id.to_owned(),
                position: at as u32,
                item_id: plan[at].item_id.clone(),
                skill_id: plan[at].skill_id.clone(),
                est_cost_ms: plan[at].est_cost_ms,
                est_gain: plan[at].est_gain,
                attempt_id: None,
            },
        );
    }
    slots
}

/// What comes of starting a sitting: nothing, where it is not waiting to be started.
pub open spec fn starts_to(row: Session, at: i64, started: Option<Session>) -> bool {
    started == (if row.status == SessionStatus::Planned {
        Some(Session { status: SessionStatus::Active, started_at: Some(at), ..row })
    } else {
        None
    })
}

/// A sitting that is started. `None` where it is not waiting to be: the second press of
/// a button does not restart the clock.
pub fn start_session(row: Session, at: i64) -> (started: Option<Session>)
    ensures
        starts_to(row, at, started),
        started is Some <==> row.status == SessionStatus::Planned,
        started matches Some(s) ==> s == (Session {
            status: SessionStatus::Active,
            started_at: Some(at),
            ..row
        }),
{
    if row.status != SessionStatus::Planned {
        return None;
    }
    let mut started: Session = row;
    started.status = SessionStatus::Active;
    started.started_at = Some(at);
    Some(started)
}

/// What comes of closing a sitting: nothing, where it was closed before.
pub open spec fn finishes_to(
    row: Session,
    status: SessionStatus,
    mastery_gain: Option<Double>,
    summary: Option<Seq<char>>,
    at: i64,
    finished: Option<Session>,
) -> bool {
    match finished {
        Some(s) => {
            &&& is_open(row.status)
            &&& s.status == status
            &&& s.mastery_gain == mastery_gain
            &&& maybe_string(s.summary) == summary
            &&& s.finished_at == Some(at)
            &&& s.id == row.id && s.subject_id == row.subject_id && s.planned_minutes
                == row.planned_minutes && s.created_at == row.created_at && s.started_at
                == row.started_at
        },
        None => !is_open(row.status),
    }
}

/// A sitting that is closed, with the gain a projection will read. `None` where it was
/// closed before: its gain cannot change again.
pub fn finish_session(
    row: Session,
    status: SessionStatus,
    mastery_gain: Option<Double>,
    summary: Option<&str>,
    at: i64,
) -> (finished: Option<Session>)
    ensures
        finishes_to(row, status, mastery_gain, maybe_text(summary), at, finished),
        finished is Some <==> row.status == SessionStatus::Planned || row.status
            == SessionStatus::Active,
        finished matches Some(s) ==> s.status == status && s.mastery_gain == mastery_gain
            && s.finished_at == Some(at) && s.started_at == row.started_at && s.id == row.id
            && s.subject_id == row.subject_id && s.planned_minutes == row.planned_minutes
            && s.created_at == row.created_at,
        finished matches Some(s) ==> match (s.summary, summary) {
            (Some(kept), Some(given)) => kept@ == given@,
            (None, None) => true,
            _ => false,
        },
{
    if !open_session(row.status) {
        return None;
    }
    let mut finished: Session = row;
    finished.status = status;
    finished.mastery_gain = mastery_gain;
    finished.summary = owned(summary);
    finished.finished_at = Some(at);
    Some(finished)
}

/// A sitting that was closed stays as it was closed: it cannot be closed again with
/// another gain, nor started again.
pub proof fn a_sitting_is_closed_once(
    row: Session,
    status: SessionStatus,
    gain: Option<Double>,
    summary: Option<Seq<char>>,
    at: i64,
    closed: Session,
    status_again: SessionStatus,
    gain_again: Option<Double>,
    summary_again: Option<Seq<char>>,
    later: i64,
    again: Option<Session>,
    restarted: Option<Session>,
)
    requires
        status == SessionStatus::Finished || status == SessionStatus::Abandoned,
        finishes_to(row, status, gain, summary, at, Some(closed)),
        finishes_to(closed, status_again, gain_again, summary_again, later, again),
        starts_to(closed, later, restarted),
    ensures
        again is None,
        restarted is None,
{
}

/// A sitting that was started is not started again: its clock stands.
pub proof fn a_sitting_is_started_once(
    row: Session,
    at: i64,
    started: Session,
    later: i64,
    again: Option<Session>,
)
    requires
        starts_to(row, at, Some(started)),
        starts_to(started, later, again),
    ensures
        again is None,
        started.started_at == Some(at),
{
}

/// The first slot that is unanswered.
pub open spec fn first_pending(slots: Seq<SessionItem>) -> Option<int>
    decreases slots.len(),
{
    if slots.len() == 0 {
        None
    } else {
        match first_pending(slots.drop_last()) {
            Some(at) => Some(at),
            None => if slots.last().attempt_id is None {
                Some(slots.len() - 1)
            } else {
                None
            },
        }
    }
}

/// The next unanswered slot of a plan, its slots in order; `None` when the sitting is
/// done.
pub fn next_session_item(slots: &[SessionItem]) -> (next: Option<usize>)
    ensures
        (match next {
            Some(at) => Some(at as int),
            None => None,
        }) == first_pending(slots@),
        next matches Some(at) ==> at < slots@.len() && slots@[at as int].attempt_id is None
            && forall|k: int| 0 <= k < at ==> (#[trigger] slots@[k]).attempt_id is Some,
        next is None ==> forall|k: int|
            0 <= k < slots@.len() ==> (#[trigger] slots@[k]).attempt_id is Some,
{
    let mut i: usize = 0;
    assert(slots@.take(0) =~= seq![]);
    while i < slots.len()
        invariant
            i <= slots@.len(),
            first_pending(slots@.take(i as int)) is None,
            forall|k: int| 0 <= k < i ==> (#[trigger] slots@[k]).attempt_id is Some,
        decreases slots@.len() - i,
    {
        proof {
            assert(slots@.take(i + 1).drop_last() =~= slots@.take(i as int));
            assert(slots@.take(i + 1).last() == slots@[i as int]);
        }
        if slots[i].attempt_id.is_none() {
            proof {
                pending_stands(slots@, i + 1);
            }
            return Some(i);
        }
        i += 1;
    }
    assert(slots@.take(i as int) =~= slots@);
    None
}

proof fn pending_stands(slots: Seq<SessionItem>, upto: int)
    requires
        0 <= upto <= slots.len(),
        first_pending(slots.take(upto)) is Some,
    ensures
        first_pending(slots) == first_pending(slots.take(upto)),
    decreases slots.len(),
{
    if upto < slots.len() {
        assert(slots.drop_last().take(upto) =~= slots.take(upto));
        pending_stands(slots.drop_last(), upto);
    } else {
        assert(slots.take(upto) =~= slots);
    }
}

/// What comes of claiming a slot for an answer: nothing, where another answer holds it.
pub open spec fn binds_to(
    slot: SessionItem,
    attempt_id: Seq<char>,
    bound: Option<SessionItem>,
) -> bool {
    match bound {
        Some(s) => {
            &&& slot.attempt_id is None
            &&& maybe_string(s.attempt_id) == Some(attempt_id)
            &&& s.session_id == slot.session_id && s.position == slot.position && s.item_id
                == slot.item_id && s.skill_id == slot.skill_id && s.est_cost_ms == slot.est_cost_ms
                && s.est_gain == slot.est_gain
        },
        None => slot.attempt_id is Some,
    }
}

/// A slot that an answer has claimed. `None` where another answer holds it: a resubmitted
/// answer cannot displace the first.
pub fn bind_session_attempt(slot: SessionItem, attempt_id: &str) -> (bound: Option<SessionItem>)
    ensures
        binds_to(slot, attempt_id@, bound),
        bound is Some <==> slot.attempt_id is None,
        bound matches Some(s) ==> (s.attempt_id matches Some(id) && id@ == attempt_id@)
            && s.session_id == slot.session_id && s.position == slot.position && s.item_id
            == slot.item_id && s.skill_id == slot.skill_id && s.est_cost_ms == slot.est_cost_ms
            && s.est_gain == slot.est_gain,
{
    if slot.attempt_id.is_some() {
        return None;
    }
    let mut bound: SessionItem = slot;
    bound.attempt_id = Some(attempt_id.to_owned());
    Some(bound)
}

/// A slot is answered once: whatever is submitted later, the first answer keeps it.
pub proof fn a_slot_is_answered_once(
    slot: SessionItem,
    first: Seq<char>,
    bound: SessionItem,
    second: Seq<char>,
    again: Option<SessionItem>,
)
    requires
        binds_to(slot, first, Some(bound)),
        binds_to(bound, second, again),
    ensures
        again is None,
{
}

/// Whether an answer may be given in a sitting: not once it is closed. An answer that
/// names a sitting of which there is no record is taken like any other.
pub fn check_answerable(status: Option<SessionStatus>) -> (checked: Result<(), ApiError>)
    ensures
        match status {
            Some(s) if s == SessionStatus::Finished || s == SessionStatus::Abandoned => checked matches Err(ApiError::Conflict(why)) && why@
                == "this session is already closed"@,
            _ => checked is Ok,
        },
{
    match status {
        Some(s) => if open_session(s) {
            Ok(())
        } else {
            Err(ApiError::conflict("this session is already closed"))
        },
        None => Ok(()),
    }
}

/// How a sitting goes: it is started where it was planned, closed where it is planned or under
/// way, and each slot is claimed where it is free; each change sets what it says and nothing
/// else.
pub proof fn a_sitting_changes_only_as_it_says(
    row: Session,
    at: i64,
    started: Option<Session>,
    status: SessionStatus,
    gain: Option<Double>,
    summary: Option<Seq<char>>,
    finished: Option<Session>,
    slot: SessionItem,
    attempt_id: Seq<char>,
    bound: Option<SessionItem>,
)
    requires
        starts_to(row, at, started),
        finishes_to(row, status, gain, summary, at, finished),
        binds_to(slot, attempt_id, bound),
    ensures
        started is Some <==> row.status == SessionStatus::Planned,
        started matches Some(s) ==> s.status == SessionStatus::Active && s.started_at == Some(at)
            && s.mastery_gain == row.mastery_gain && s.finished_at == row.finished_at && s.id
            == row.id && s.subject_id == row.subject_id && s.planned_minutes == row.planned_minutes
            && s.created_at == row.created_at && s.summary == row.summary,
        finished is Some <==> row.status == SessionStatus::Planned || row.status
            == SessionStatus::Active,
        finished matches Some(s) ==> s.status == status && s.mastery_gain == gain && s.finished_at
            == Some(at) && s.started_at == row.started_at && s.id == row.id && s.subject_id
            == row.subject_id && s.planned_minutes == row.planned_minutes && s.created_at
            == row.created_at && (s.summary is Some <==> summary is Some) && (summary is Some
            ==> s.summary->0@ == summary->0),
        bound is Some <==> slot.attempt_id is None,
        bound matches Some(s) ==> s.attempt_id is Some && s.attempt_id->0@ == attempt_id
            && s.item_id == slot.item_id && s.position == slot.position && s.session_id
            == slot.session_id && s.skill_id == slot.skill_id && s.est_cost_ms == slot.est_cost_ms
            && s.est_gain == slot.est_gain,
{
}

} // verus!
