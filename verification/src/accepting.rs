//! Accepting a review candidate, step by step.
//!
//! The skill comes first, then the item, then the decision that names the item. Where
//! someone else decided first, the item that was just made is removed again: one fact
//! never makes two items.

use crate::api::require_decision;
use crate::candidates::{after_decision, label_of, offered_item, skill_label, AfterDecision};
use crate::error::ApiError;
use crate::models::{
    AnswerKey, CandidateStatus, Item, ItemKind, ItemOrigin, NewItem, ReviewCandidate,
};
use vstd::prelude::*;
use vstd::string::*;

verus! {

/// Where the acceptance of a candidate stands.
#[derive(Debug)]
pub enum AcceptState {
    /// Waiting for the candidate.
    Asking,
    /// Waiting for the skill that it belongs to.
    Naming { candidate: ReviewCandidate },
    /// Waiting for its item.
    Making,
    /// Waiting for the decision to be written.
    Deciding { item: Item },
    /// Waiting for the item to be removed again.
    Withdrawing { error: ApiError },
    /// Nothing is left to do.
    Closed,
}

/// What came of an action.
#[derive(Debug)]
pub enum AcceptEvent {
    Found { candidate: Option<ReviewCandidate> },
    SkillReady { skill_id: String },
    Made { item: Item },
    Decided { written: bool },
    Removed,
}

/// What is to be done next.
#[derive(Debug)]
pub enum AcceptAction {
    /// Offer a subject a skill of this name.
    OfferSkill { subject_id: String, label: String },
    MakeItem { new: NewItem },
    /// Write that the candidate was accepted, as this item.
    Decide { item_id: String },
    RemoveItem { item_id: String },
    Done { item: Item },
    Fail { error: ApiError },
}

/// Whether an item is the one that a candidate makes.
pub open spec fn is_offered(new: NewItem, candidate: ReviewCandidate, skill_id: Seq<char>) -> bool {
    &&& new.skill_id@ == skill_id
    &&& new.kind == ItemKind::Exact
    &&& new.prompt@ == candidate.prompt@
    &&& new.choices@.len() == 0
    &&& new.answer matches AnswerKey::Exact { text, alternatives } && text@ == candidate.answer@
        && alternatives@.len() == 1 && alternatives@[0]@ == candidate.answer@
    &&& new.origin == ItemOrigin::Candidate
    &&& new.origin_model is None
    &&& new.source_id is None
    &&& new.source_ref is None
}

/// Whether a step of accepting a candidate is the one that its state and what came of
/// the last action call for. An event that the state does not wait for ends it.
pub open spec fn is_accept_step(
    state: AcceptState,
    event: AcceptEvent,
    next: (AcceptState, AcceptAction),
) -> bool {
    match (state, event) {
        (AcceptState::Asking, AcceptEvent::Found { candidate }) => match candidate {
            None => next.0 is Closed && (next.1 matches AcceptAction::Fail {
                error: ApiError::NotFound(what),
            } && what@ == "candidate"@),
            Some(c) => if c.status == CandidateStatus::Pending {
                &&& next.0 == (AcceptState::Naming { candidate: c })
                &&& next.1 matches AcceptAction::OfferSkill { subject_id, label } && subject_id@
                    == c.subject_id@ && label@ == label_of(c)
            } else {
                next.0 is Closed && (next.1 matches AcceptAction::Fail {
                    error: ApiError::Conflict(why),
                } && why@ == "this candidate was already decided"@)
            },
        },
        (AcceptState::Naming { candidate }, AcceptEvent::SkillReady { skill_id }) => {
            &&& next.0 is Making
            &&& next.1 matches AcceptAction::MakeItem { new } && is_offered(
                new,
                candidate,
                skill_id@,
            )
        },
        (AcceptState::Making, AcceptEvent::Made { item }) => {
            &&& next.0 == (AcceptState::Deciding { item })
            &&& next.1 matches AcceptAction::Decide { item_id } && item_id@ == item.id@
        },
        (AcceptState::Deciding { item }, AcceptEvent::Decided { written }) => if written {
            next.0 is Closed && next.1 == (AcceptAction::Done { item })
        } else {
            &&& next.0 matches AcceptState::Withdrawing { error: ApiError::Conflict(why) } && why@
                == "this candidate was already decided"@
            &&& next.1 matches AcceptAction::RemoveItem { item_id } && item_id@ == item.id@
        },
        (AcceptState::Withdrawing { error }, AcceptEvent::Removed) => next.0 is Closed && next.1
            == (AcceptAction::Fail { error }),
        _ => next.0 is Closed && (next.1 matches AcceptAction::Fail {
            error: ApiError::Internal(why),
        } && why@ == "accepting a candidate was handed what it did not ask for"@),
    }
}

/// How far along a state is.
pub open spec fn accept_stage(state: AcceptState) -> int {
    match state {
        AcceptState::Asking => 0,
        AcceptState::Naming { .. } => 1,
        AcceptState::Making => 2,
        AcceptState::Deciding { .. } => 3,
        AcceptState::Withdrawing { .. } => 4,
        AcceptState::Closed => 5,
    }
}

/// The next step of accepting a candidate: what it becomes, and what is to be done.
pub fn accept_step(state: AcceptState, event: AcceptEvent) -> (next: (AcceptState, AcceptAction))
    ensures
        is_accept_step(state, event, next),
        accept_stage(state) < accept_stage(next.0) || next.0 is Closed,
{
    match (state, event) {
        (AcceptState::Asking, AcceptEvent::Found { candidate }) => {
            let status: Option<CandidateStatus> = match &candidate {
                Some(c) => Some(c.status),
                None => None,
            };
            if let Err(error) = require_decision(status) {
                return (AcceptState::Closed, AcceptAction::Fail { error });
            }
            match candidate {
                Some(candidate) => {
                    let label: String = skill_label(&candidate);
                    let subject_id: String = candidate.subject_id.clone();
                    (
                        AcceptState::Naming { candidate },
                        AcceptAction::OfferSkill { subject_id, label },
                    )
                },
                None => (
                    AcceptState::Closed,
                    AcceptAction::Fail { error: ApiError::not_found("candidate") },
                ),
            }
        },
        (AcceptState::Naming { candidate }, AcceptEvent::SkillReady { skill_id }) => (
            AcceptState::Making,
            AcceptAction::MakeItem { new: offered_item(&candidate, skill_id.as_str()) },
        ),
        (AcceptState::Making, AcceptEvent::Made { item }) => {
            let item_id: String = item.id.clone();
            (AcceptState::Deciding { item }, AcceptAction::Decide { item_id })
        },
        (AcceptState::Deciding { item }, AcceptEvent::Decided { written }) => {
            match after_decision(written) {
                AfterDecision::Keep => (AcceptState::Closed, AcceptAction::Done { item }),
                AfterDecision::Withdraw(error) => (
                    AcceptState::Withdrawing { error },
                    AcceptAction::RemoveItem { item_id: item.id },
                ),
            }
        },
        (AcceptState::Withdrawing { error }, AcceptEvent::Removed) => (
            AcceptState::Closed,
            AcceptAction::Fail { error },
        ),
        _ => (
            AcceptState::Closed,
            AcceptAction::Fail {
                error: ApiError::Internal(
                    "accepting a candidate was handed what it did not ask for".to_owned(),
                ),
            },
        ),
    }
}

/// An item stays only if the decision names it: where someone else decided first, the
/// next thing that happens is that it is removed.
pub proof fn one_fact_makes_one_item(item: Item, written: bool, next: (AcceptState, AcceptAction))
    requires
        is_accept_step(
            AcceptState::Deciding { item },
            AcceptEvent::Decided { written },
            next,
        ),
    ensures
        next.1 is Done <==> written,
        !written ==> (next.1 matches AcceptAction::RemoveItem { item_id } && item_id@ == item.id@),
{
}

/// What each step of an acceptance does: a candidate that still waits offers its skill, then
/// becomes an exact item with its own question and answer under that skill, then is decided as
/// that item; and the item is removed again where someone else decided first.
pub proof fn a_waiting_candidate_becomes_its_item(
    state: AcceptState,
    event: AcceptEvent,
    next: (AcceptState, AcceptAction),
)
    requires
        is_accept_step(state, event, next),
    ensures
        state is Asking ==> (event matches AcceptEvent::Found { candidate } ==> match candidate {
            None => next.0 is Closed && (next.1 matches AcceptAction::Fail { error } && (
            error matches ApiError::NotFound(what) && what@ == "candidate"@)),
            Some(c) => if c.status == CandidateStatus::Pending {
                next.0 == (AcceptState::Naming { candidate: c }) && (
                next.1 matches AcceptAction::OfferSkill { subject_id, label } && subject_id@
                    == c.subject_id@ && (c.skill_label matches Some(own) ==> label@ == own@) && (
                c.skill_label is None ==> label@ == "From your chats"@))
            } else {
                next.0 is Closed && (next.1 matches AcceptAction::Fail { error } && (
                error matches ApiError::Conflict(why) && why@
                    == "this candidate was already decided"@))
            },
        }),
        state matches AcceptState::Naming { candidate } ==> (
        event matches AcceptEvent::SkillReady { skill_id } ==> next.0 is Making && (
        next.1 matches AcceptAction::MakeItem { new } && new.skill_id@ == skill_id@ && new.kind
            == ItemKind::Exact && new.prompt@ == candidate.prompt@ && new.origin
            == ItemOrigin::Candidate && (new.answer matches AnswerKey::Exact { text, alternatives }
            && text@ == candidate.answer@ && alternatives@.len() == 1 && alternatives@[0]@
            == candidate.answer@) && new.choices@.len() == 0 && new.origin_model is None
            && new.source_id is None && new.source_ref is None)),
        state is Making ==> (event matches AcceptEvent::Made { item } ==> next.0 == (
        AcceptState::Deciding { item }) && (
        next.1 matches AcceptAction::Decide { item_id } && item_id@ == item.id@)),
        state matches AcceptState::Deciding { item } ==> (
        event matches AcceptEvent::Decided { written } ==> (written ==> next.0 is Closed
            && next.1 == (AcceptAction::Done { item })) && (!written ==> next.0 is Withdrawing && (
        next.1 matches AcceptAction::RemoveItem {
            item_id,
        } && item_id@ == item.id@))),
        state matches AcceptState::Withdrawing { error } ==> (event is Removed ==> next.0 is Closed
            && next.1 == (AcceptAction::Fail { error })),
{
}

} // verus!
