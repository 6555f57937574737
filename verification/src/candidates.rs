//! Review candidates: facts that conversations taught, waiting on a person.
//!
//! A delivery may come twice; what it holds is filed once. A candidate is decided once,
//! and only a person's acceptance makes an item of it.

use crate::calendar::new_id;
use crate::config::{maybe_string, maybe_text};
use crate::error::ApiError;
use crate::models::{
    AnswerKey, BktParams, CandidateEnvelope, CandidateStatus, ItemKind, ItemOrigin, NewItem,
    ReviewCandidate, SkillStatus, CANDIDATE_ENVELOPE_VERSION, ID_CANDIDATE,
};
use crate::store::{copied, is_fresh_id, owned, SkillOffer};
use crate::text::{decimal_text, integer_text};
use vstd::prelude::*;
use vstd::string::*;

verus! {

/// The skill that candidates without a label are filed under.
pub const DEFAULT_SKILL_LABEL: &'static str = "From your chats";

/// Why a delivery is not filed, if it is not.
pub open spec fn refusal_of(v: i64, key: Seq<char>, subject: Seq<char>, known: bool) -> Option<
    Seq<char>,
> {
    if v != CANDIDATE_ENVELOPE_VERSION {
        Some(
            "unrecognized candidate payload version "@ + integer_text(v as int) + " under key "@
                + key,
        )
    } else if !known {
        Some("subject "@ + subject + " does not exist; check the active-subject preference"@)
    } else {
        None
    }
}

/// Whether a delivery can be filed: its version must be known, and so must its subject,
/// whose id comes from outside.
pub fn check_envelope(envelope: &CandidateEnvelope, source_key: &str, subject_known: bool) -> (checked:
    Result<(), ApiError>)
    ensures
        match refusal_of(envelope.v, source_key@, envelope.subject_id@, subject_known) {
            None => checked is Ok,
            Some(why) => checked matches Err(ApiError::BadRequest(text)) && text@ == why,
        },
        checked is Ok <==> envelope.v == 1 && subject_known,
{
    if envelope.v != CANDIDATE_ENVELOPE_VERSION {
        let mut why: String = "unrecognized candidate payload version ".to_owned();
        let number: String = decimal_text(envelope.v);
        why.append(number.as_str());
        why.append(" under key ");
        why.append(source_key);
        return Err(ApiError::BadRequest(why));
    }
    if !subject_known {
        let mut why: String = "subject ".to_owned();
        why.append(envelope.subject_id.as_str());
        why.append(" does not exist; check the active-subject preference");
        return Err(ApiError::BadRequest(why));
    }
    Ok(())
}

/// Whether a row is the candidate at a position of a delivery, waiting on a person.
pub open spec fn is_filed(
    row: ReviewCandidate,
    envelope: CandidateEnvelope,
    key: Seq<char>,
    at: int,
    now: i64,
) -> bool {
    &&& is_fresh_id(row.id@, ID_CANDIDATE@)
    &&& row.subject_id@ == envelope.subject_id@
    &&& maybe_string(row.conversation_id) == maybe_string(envelope.conversation_id)
    &&& maybe_string(row.agent_id) == maybe_string(envelope.agent_id)
    &&& row.prompt@ == envelope.candidates@[at].prompt@
    &&& row.answer@ == envelope.candidates@[at].answer@
    &&& maybe_string(row.skill_label) == maybe_string(envelope.candidates@[at].skill)
    &&& row.status == CandidateStatus::Pending
    &&& row.source_key@ == key
    &&& row.source_index == at
    &&& row.item_id is None
    &&& row.created_at == now
    &&& row.decided_at is None
}

/// The positions of a delivery that are not on file yet, in order.
pub open spec fn unfiled(count: nat, filed: Seq<i64>) -> Seq<int>
    decreases count,
{
    if count == 0 {
        seq![]
    } else {
        let before = unfiled((count - 1) as nat, filed);
        if filed.contains((count - 1) as i64) {
            before
        } else {
            before.push(count - 1)
        }
    }
}

fn is_filed_at(filed: &[i64], at: i64) -> (yes: bool)
    ensures
        yes == filed@.contains(at),
{
    let mut i: usize = 0;
    while i < filed.len()
        invariant
            i <= filed@.len(),
            forall|k: int| 0 <= k < i ==> filed@[k] != at,
        decreases filed@.len() - i,
    {
        if filed[i] == at {
            return true;
        }
        i += 1;
    }
    false
}

/// Whether rows are those that a delivery adds, in order.
pub open spec fn enqueues_to(
    envelope: CandidateEnvelope,
    key: Seq<char>,
    filed: Seq<i64>,
    now: i64,
    rows: Seq<ReviewCandidate>,
) -> bool {
    let open = unfiled(envelope.candidates@.len(), filed);
    &&& rows.len() == open.len()
    &&& forall|i: int|
        0 <= i < rows.len() ==> is_filed(#[trigger] rows[i], envelope, key, open[i], now)
}

/// The rows that a delivery adds: one for each candidate that is not on file under its
/// key and position. `filed` holds the positions on file under that key.
pub fn enqueue_candidates(
    envelope: &CandidateEnvelope,
    source_key: &str,
    filed: &[i64],
    now: i64,
) -> (rows: Vec<ReviewCandidate>)
    requires
        envelope.candidates@.len() <= i64::MAX,
    ensures
        enqueues_to(*envelope, source_key@, filed@, now, rows@),
{
    let mut rows: Vec<ReviewCandidate> = Vec::new();
    let mut at: usize = 0;
    while at < envelope.candidates.len()
        invariant
            envelope.candidates@.len() <= i64::MAX,
            at <= envelope.candidates@.len(),
            rows@.len() == unfiled(at as nat, filed@).len(),
            forall|i: int|
                0 <= i < rows@.len() ==> is_filed(
                    #[trigger] rows@[i],
                    *envelope,
                    source_key@,
                    unfiled(at as nat, filed@)[i],
                    now,
                ),
        decreases envelope.candidates@.len() - at,
    {
        if !is_filed_at(filed, at as i64) {
            rows.push(
                ReviewCandidate {
                    id: new_id(ID_CANDIDATE),
                    subject_id: envelope.subject_id.clone(),
                    conversation_id: copied(&envelope.conversation_id),
                    agent_id: copied(&envelope.agent_id),
                    prompt: envelope.candidates[at].prompt.clone(),
                    answer: envelope.candidates[at].answer.clone(),
                    skill_label: copied(&envelope.candidates[at].skill),
                    status: CandidateStatus::Pending,
                    source_key: source_key.to_owned(),
                    source_index: at as i64,
                    item_id: None,
                    created_at: now,
                    decided_at: None,
                },
            );
        }
        at += 1;
    }
    rows
}

proof fn nothing_left(count: nat, filed: Seq<i64>)
    requires
        count <= i64::MAX,
        forall|at: int| 0 <= at < count ==> filed.contains(#[trigger] (at as i64)),
    ensures
        unfiled(count, filed).len() == 0,
    decreases count,
{
    if count > 0 {
        assert(filed.contains((count - 1) as i64));
        nothing_left((count - 1) as nat, filed);
    }
}

proof fn unfiled_holds(count: nat, filed: Seq<i64>, at: int)
    requires
        0 <= at < count <= i64::MAX,
        !filed.contains(at as i64),
    ensures
        unfiled(count, filed).contains(at),
    decreases count,
{
    let before = unfiled((count - 1) as nat, filed);
    if at == count - 1 {
        assert(before.push(count - 1)[before.len() as int] == at);
    } else {
        unfiled_holds((count - 1) as nat, filed, at);
        let k = choose|k: int| 0 <= k < before.len() && before[k] == at;
        assert(unfiled(count, filed)[k] == at);
    }
}

/// Delivering again what is on file adds nothing, however much of it was on file before
/// the first time and whenever it comes.
pub proof fn redelivery_files_nothing(
    envelope: CandidateEnvelope,
    key: Seq<char>,
    filed: Seq<i64>,
    now: i64,
    rows: Seq<ReviewCandidate>,
    later: i64,
    again: Seq<ReviewCandidate>,
)
    requires
        envelope.candidates@.len() <= i64::MAX,
        enqueues_to(envelope, key, filed, now, rows),
        enqueues_to(
            envelope,
            key,
            filed + rows.map_values(|row: ReviewCandidate| row.source_index),
            later,
            again,
        ),
    ensures
        again.len() == 0,
{
    let count = envelope.candidates@.len();
    let added = rows.map_values(|row: ReviewCandidate| row.source_index);
    assert forall|at: int| 0 <= at < count implies (filed + added).contains(
        #[trigger] (at as i64),
    ) by {
        if filed.contains(at as i64) {
            let k = choose|k: int| 0 <= k < filed.len() && filed[k] == at as i64;
            assert((filed + added)[k] == at as i64);
        } else {
            unfiled_holds(count, filed, at);
            let open = unfiled(count, filed);
            let k = choose|k: int| 0 <= k < open.len() && open[k] == at;
            assert(is_filed(rows[k], envelope, key, open[k], now));
            assert(added[k] == at as i64);
            assert((filed + added)[filed.len() + k] == at as i64);
        }
    }
    nothing_left(count, filed + added);
}

/// A first delivery is filed whole, in order.
pub proof fn first_delivery_files_all(count: nat)
    ensures
        unfiled(count, seq![]) =~= Seq::new(count, |i: int| i),
    decreases count,
{
    if count > 0 {
        first_delivery_files_all((count - 1) as nat);
    }
}

/// What comes of a person's decision on a candidate: nothing, where it was decided
/// before.
pub open spec fn decides_to(
    row: ReviewCandidate,
    status: CandidateStatus,
    item_id: Option<Seq<char>>,
    at: i64,
    decided: Option<ReviewCandidate>,
) -> bool {
    match decided {
        Some(d) => {
            &&& row.status == CandidateStatus::Pending
            &&& d.status == status
            &&& maybe_string(d.item_id) == item_id
            &&& d.decided_at == Some(at)
            &&& d.id == row.id && d.subject_id == row.subject_id && d.conversation_id
                == row.conversation_id && d.agent_id == row.agent_id && d.prompt == row.prompt
                && d.answer == row.answer && d.skill_label == row.skill_label && d.source_key
                == row.source_key && d.source_index == row.source_index && d.created_at
                == row.created_at
        },
        None => row.status != CandidateStatus::Pending,
    }
}

/// A candidate that a person has decided. `None` where it was decided before.
pub fn decide_candidate(
    row: ReviewCandidate,
    status: CandidateStatus,
    item_id: Option<&str>,
    at: i64,
) -> (decided: Option<ReviewCandidate>)
    ensures
        decides_to(row, status, maybe_text(item_id), at, decided),
        decided is Some <==> row.status == CandidateStatus::Pending,
        decided matches Some(d) ==> d.status == status && d.decided_at == Some(at) && d.id == row.id
            && d.subject_id == row.subject_id && d.prompt == row.prompt && d.answer == row.answer
            && d.skill_label == row.skill_label && d.conversation_id == row.conversation_id
            && d.agent_id == row.agent_id && d.source_key == row.source_key && d.source_index
            == row.source_index && d.created_at == row.created_at,
        decided matches Some(d) ==> match (d.item_id, item_id) {
            (Some(kept), Some(given)) => kept@ == given@,
            (None, None) => true,
            _ => false,
        },
{
    if row.status != CandidateStatus::Pending {
        return None;
    }
    let mut decided: ReviewCandidate = row;
    decided.status = status;
    decided.item_id = owned(item_id);
    decided.decided_at = Some(at);
    Some(decided)
}

/// A candidate that was accepted or rejected cannot be decided again.
pub proof fn a_decision_is_final(
    row: ReviewCandidate,
    status: CandidateStatus,
    item_id: Option<Seq<char>>,
    at: i64,
    decided: ReviewCandidate,
    status_again: CandidateStatus,
    item_id_again: Option<Seq<char>>,
    later: i64,
    again: Option<ReviewCandidate>,
)
    requires
        status != CandidateStatus::Pending,
        decides_to(row, status, item_id, at, Some(decided)),
        decides_to(decided, status_again, item_id_again, later, again),
    ensures
        again is None,
{
}

/// The name of the skill that a candidate belongs to.
pub open spec fn label_of(candidate: ReviewCandidate) -> Seq<char> {
    match candidate.skill_label {
        Some(label) => label@,
        None => DEFAULT_SKILL_LABEL@,
    }
}

/// The name of the skill that a candidate belongs to: its label, reused across a topic,
/// or a common one.
pub fn skill_label(candidate: &ReviewCandidate) -> (label: String)
    ensures
        label@ == label_of(*candidate),
        candidate.skill_label matches Some(own) ==> label@ == own@,
        candidate.skill_label is None ==> label@ == DEFAULT_SKILL_LABEL@,
{
    match &candidate.skill_label {
        Some(label) => label.clone(),
        None => DEFAULT_SKILL_LABEL.to_owned(),
    }
}

/// The skill that accepting a candidate offers to a subject, under the given name. It is
/// part of the deck at once: a person has just accepted it.
pub fn offered_skill<'a>(subject_id: &'a str, label: &'a str) -> (offer: SkillOffer<'a>)
    ensures
        offer.subject_id@ == subject_id@,
        offer.name@ == label@,
        offer.detail is None,
        offer.status == SkillStatus::Active,
        offer.source_id is None,
        BktParams::default.ensures((), offer.params),
{
    SkillOffer {
        subject_id,
        name: label,
        detail: None,
        status: SkillStatus::Active,
        source_id: None,
        params: BktParams::default(),
    }
}

/// The item that accepting a candidate makes: asked for word for word as it was taught,
/// with the same text kept as an accepted alternative.
pub fn offered_item(candidate: &ReviewCandidate, skill_id: &str) -> (item: NewItem)
    ensures
        item.skill_id@ == skill_id@,
        item.kind == ItemKind::Exact,
        item.prompt@ == candidate.prompt@,
        item.choices@.len() == 0,
        item.answer matches AnswerKey::Exact { text, alternatives } && text@ == candidate.answer@
            && alternatives@.len() == 1 && alternatives@[0]@ == candidate.answer@,
        item.answer.grades() == Some(item.kind),
        item.origin == ItemOrigin::Candidate,
        item.origin_model is None,
        item.source_id is None,
        item.source_ref is None,
{
    NewItem {
        skill_id: skill_id.to_owned(),
        kind: ItemKind::Exact,
        prompt: candidate.prompt.clone(),
        choices: Vec::new(),
        answer: AnswerKey::Exact {
            text: candidate.answer.clone(),
            alternatives: vec![candidate.answer.clone()],
        },
        origin: ItemOrigin::Candidate,
        origin_model: None,
        source_id: None,
        source_ref: None,
    }
}

/// What is left to do once the decision on a candidate was written, or was not because
/// someone else had decided first: then the item that was just made has to go.
#[derive(Clone, Debug)]
pub enum AfterDecision {
    /// The item stays.
    Keep,
    /// The item is removed, and the caller is told.
    Withdraw(ApiError),
}

/// What is left to do once the decision on a candidate was written, or was not.
pub fn after_decision(decided: bool) -> (next: AfterDecision)
    ensures
        decided ==> next is Keep,
        !decided ==> (next matches AfterDecision::Withdraw(ApiError::Conflict(why)) && why@
            == "this candidate was already decided"@),
{
    if decided {
        AfterDecision::Keep
    } else {
        AfterDecision::Withdraw(ApiError::conflict("this candidate was already decided"))
    }
}

/// What a delivery adds: its positions that are not on file, each once and in order.
pub proof fn a_delivery_adds_what_is_not_on_file(count: nat, filed: Seq<i64>)
    requires
        count <= i64::MAX,
    ensures
        forall|i: int, j: int|
            #![trigger unfiled(count, filed)[i], unfiled(count, filed)[j]]
            0 <= i < j < unfiled(count, filed).len() ==> unfiled(count, filed)[i] < unfiled(
                count,
                filed,
            )[j],
        forall|at: int| #[trigger]
            unfiled(count, filed).contains(at) <==> 0 <= at < count && !filed.contains(at as i64),
    decreases count,
{
    if count > 0 {
        let before = unfiled((count - 1) as nat, filed);
        let all = unfiled(count, filed);
        a_delivery_adds_what_is_not_on_file((count - 1) as nat, filed);
        assert forall|k: int| 0 <= k < before.len() implies (#[trigger] before[k]) < count - 1 by {
            assert(before.contains(before[k]));
        }
        assert forall|at: int| #[trigger] all.contains(at) <==> 0 <= at < count && !filed.contains(
            at as i64,
        ) by {
            if all.contains(at) {
                let k = choose|k: int| 0 <= k < all.len() && all[k] == at;
                if k < before.len() {
                    assert(before.contains(before[k]));
                }
            }
            if 0 <= at < count && !filed.contains(at as i64) {
                unfiled_holds(count, filed, at);
            }
        }
    }
}

/// A candidate on file is the one that was delivered, at its place, waiting on a person.
pub proof fn a_filed_candidate_waits_as_delivered(
    row: ReviewCandidate,
    envelope: CandidateEnvelope,
    key: Seq<char>,
    at: int,
    now: i64,
)
    requires
        is_filed(row, envelope, key, at, now),
    ensures
        row.status == CandidateStatus::Pending && row.item_id is None && row.decided_at is None,
        row.prompt@ == envelope.candidates@[at].prompt@ && row.answer@
            == envelope.candidates@[at].answer@,
        match (row.skill_label, envelope.candidates@[at].skill) {
            (Some(kept), Some(given)) => kept@ == given@,
            (None, None) => true,
            _ => false,
        },
        match (row.conversation_id, envelope.conversation_id) {
            (Some(kept), Some(given)) => kept@ == given@,
            (None, None) => true,
            _ => false,
        },
        match (row.agent_id, envelope.agent_id) {
            (Some(kept), Some(given)) => kept@ == given@,
            (None, None) => true,
            _ => false,
        },
        row.subject_id@ == envelope.subject_id@ && row.source_key@ == key && row.source_index == at
            && row.created_at == now,
{
}

/// A decision sets the status, the item and the time of a candidate that still waits, and
/// nothing else; a delivery is filed where its version is known and its subject exists.
pub proof fn a_decision_sets_only_what_it_says(
    row: ReviewCandidate,
    status: CandidateStatus,
    item_id: Option<Seq<char>>,
    at: i64,
    decided: Option<ReviewCandidate>,
    v: i64,
    key: Seq<char>,
    subject: Seq<char>,
    known: bool,
)
    requires
        decides_to(row, status, item_id, at, decided),
    ensures
        decided is Some <==> row.status == CandidateStatus::Pending,
        decided matches Some(d) ==> d.status == status && d.decided_at == Some(at) && (d.item_id is Some
            <==> item_id is Some) && (item_id is Some ==> d.item_id->0@ == item_id->0) && d.prompt
            == row.prompt && d.answer == row.answer && d.id == row.id && d.subject_id
            == row.subject_id && d.conversation_id == row.conversation_id && d.agent_id
            == row.agent_id && d.skill_label == row.skill_label && d.source_key == row.source_key
            && d.source_index == row.source_index && d.created_at == row.created_at,
        refusal_of(v, key, subject, known) is None <==> v == 1 && known,
        row.skill_label matches Some(own) ==> label_of(row) == own@,
        row.skill_label is None ==> label_of(row) == "From your chats"@,
{
}

} // verus!
