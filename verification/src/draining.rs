//! Draining the queue of candidates that the host keeps, step by step.
//!
//! Keys are taken one by one, no more of them than were asked for. A key whose value could
//! not be read is not consumed, and what this build cannot make sense of is left for a
//! later one. A delivery counts only once its key was removed: otherwise the next drain
//! would deliver it again.

use crate::json::{
    is_null, items_of, json_is_null, json_items, json_member, json_text, member, text_of,
};
use crate::models::{CandidateEnvelope, CANDIDATE_ENVELOPE_VERSION};
use crate::text::texts;
use vstd::prelude::*;
use vstd::string::*;

verus! {

/// A delivery that was taken off the queue.
#[derive(Clone, Debug)]
pub struct Delivery {
    pub key: String,
    pub envelope: CandidateEnvelope,
}

/// Where a drain stands. `rest` are the keys still to come, `drained` what was taken.
#[derive(Debug)]
pub enum DrainState {
    /// Waiting for the keys.
    Listing { limit: u64 },
    /// Waiting for the value of a key.
    Reading { key: String, rest: Vec<String>, drained: Vec<Delivery> },
    /// Waiting for a value to be decoded.
    Decoding { key: String, rest: Vec<String>, drained: Vec<Delivery> },
    /// Waiting for a key to be removed. It holds a delivery, or it was empty.
    Removing {
        key: String,
        envelope: Option<CandidateEnvelope>,
        rest: Vec<String>,
        drained: Vec<Delivery>,
    },
    /// Nothing is left to do.
    Closed,
}

/// What came of an action.
#[derive(Debug)]
pub enum DrainEvent {
    Listed { reply: serde_json::Value },
    /// What is stored under the key; nothing where it could not be read this time.
    Fetched { reply: Option<serde_json::Value> },
    /// The delivery that the value is; nothing where it has another shape.
    Decoded { envelope: Option<CandidateEnvelope> },
    Removed { done: bool },
}

/// What is to be done next.
#[derive(Debug)]
pub enum DrainAction {
    Fetch { key: String },
    Decode { value: serde_json::Value },
    Remove { key: String },
    Done { drained: Vec<Delivery> },
}

/// The texts among a list of values, in order.
pub open spec fn texts_among(values: Seq<serde_json::Value>) -> Seq<Seq<char>>
    decreases values.len(),
{
    if values.len() == 0 {
        seq![]
    } else {
        let before = texts_among(values.drop_last());
        match json_text(values.last()) {
            Some(text) => before.push(text),
            None => before,
        }
    }
}

/// The keys that a listing names: the texts in its `keys`, or in the listing itself where
/// it has no `keys`.
pub open spec fn keys_in(listed: serde_json::Value) -> Seq<Seq<char>> {
    let list = match json_member(listed, "keys"@) {
        Some(keys) => keys,
        None => listed,
    };
    match json_items(list) {
        Some(values) => texts_among(values),
        None => seq![],
    }
}

/// The first `limit` of a list of keys.
pub open spec fn first_of(keys: Seq<Seq<char>>, limit: u64) -> Seq<Seq<char>> {
    if keys.len() <= limit {
        keys
    } else {
        keys.take(limit as int)
    }
}

/// The keys that one drain looks at: those that a listing names, no more than `limit`.
pub fn keys_to_drain(listed: &serde_json::Value, limit: u64) -> (keys: Vec<String>)
    ensures
        texts(keys@) == first_of(keys_in(*listed), limit),
        keys@.len() <= limit,
{
    let values: Vec<serde_json::Value> = match member(listed, "keys") {
        Some(list) => match items_of(&list) {
            Some(values) => values,
            None => Vec::new(),
        },
        None => match items_of(listed) {
            Some(values) => values,
            None => Vec::new(),
        },
    };
    let ghost all = keys_in(*listed);
    assert(texts_among(values@) =~= all);
    let mut keys: Vec<String> = Vec::new();
    let mut i: usize = 0;
    assert(values@.take(0) =~= seq![]);
    assert(texts(keys@) =~= seq![]);
    while i < values.len() && (keys.len() as u64) < limit
        invariant
            i <= values@.len(),
            keys@.len() <= i,
            keys@.len() <= limit,
            texts(keys@) == texts_among(values@.take(i as int)),
        decreases values@.len() - i,
    {
        proof {
            assert(values@.take(i + 1).drop_last() =~= values@.take(i as int));
            assert(values@.take(i + 1).last() == values@[i as int]);
        }
        let ghost before = texts(keys@);
        if let Some(key) = text_of(&values[i]) {
            keys.push(key);
            assert(texts(keys@) =~= before.push(key@));
        }
        i += 1;
    }
    proof {
        texts_among_lead(values@, i as int);
        if i == values@.len() {
            assert(values@.take(i as int) =~= values@);
        } else {
            assert(texts(keys@) =~= all.take(limit as int));
        }
        assert(texts(keys@) =~= first_of(all, limit));
    }
    keys
}

/// The texts among the first values come first.
proof fn texts_among_lead(values: Seq<serde_json::Value>, upto: int)
    requires
        0 <= upto <= values.len(),
    ensures
        texts_among(values.take(upto)).len() <= texts_among(values).len(),
        texts_among(values).take(texts_among(values.take(upto)).len() as int) == texts_among(
            values.take(upto),
        ),
    decreases values.len(),
{
    if upto == values.len() {
        assert(values.take(upto) =~= values);
        assert(texts_among(values).take(texts_among(values).len() as int) =~= texts_among(values));
    } else {
        let init = values.drop_last();
        texts_among_lead(init, upto);
        assert(init.take(upto) =~= values.take(upto));
        let lead = texts_among(values.take(upto));
        assert(texts_among(values).take(lead.len() as int) =~= texts_among(init).take(
            lead.len() as int,
        ));
    }
}

/// What is stored under a key: the `value` of the reply, or the reply itself where it has
/// none. A `null` is nothing.
pub open spec fn stored_in(reply: serde_json::Value) -> Option<serde_json::Value> {
    let value = match json_member(reply, "value"@) {
        Some(value) => value,
        None => reply,
    };
    if json_is_null(value) {
        None
    } else {
        Some(value)
    }
}

/// What is stored under a key, if anything is.
pub fn stored_value(reply: serde_json::Value) -> (stored: Option<serde_json::Value>)
    ensures
        stored == stored_in(reply),
{
    let value: serde_json::Value = match member(&reply, "value") {
        Some(value) => value,
        None => reply,
    };
    if is_null(&value) {
        None
    } else {
        Some(value)
    }
}

/// What a state has taken so far.
pub open spec fn taken(state: DrainState) -> Seq<Delivery> {
    match state {
        DrainState::Listing { .. } => seq![],
        DrainState::Reading { drained, .. } => drained@,
        DrainState::Decoding { drained, .. } => drained@,
        DrainState::Removing { drained, .. } => drained@,
        DrainState::Closed => seq![],
    }
}

/// What follows when a key is dealt with: the next one, or the end.
pub open spec fn goes_on(
    next: (DrainState, DrainAction),
    left: Seq<Seq<char>>,
    drained: Seq<Delivery>,
) -> bool {
    if left.len() == 0 {
        next.0 is Closed && (next.1 matches DrainAction::Done { drained: d } && d@ == drained)
    } else {
        &&& next.0 matches DrainState::Reading { key, rest, drained: d } && key@ == left[0]
            && texts(rest@) == left.skip(1) && d@ == drained
        &&& next.1 matches DrainAction::Fetch { key } && key@ == left[0]
    }
}

/// What follows when a key is to be removed.
pub open spec fn removes(
    next: (DrainState, DrainAction),
    key: String,
    envelope: Option<CandidateEnvelope>,
    rest: Vec<String>,
    drained: Vec<Delivery>,
) -> bool {
    &&& next.0 == (DrainState::Removing { key, envelope, rest, drained })
    &&& next.1 matches DrainAction::Remove { key: k } && k@ == key@
}

/// Whether a step of a drain is the one that its state and what came of the last action
/// call for. An event that the state does not wait for ends the drain with what it took.
pub open spec fn is_drain_step(
    state: DrainState,
    event: DrainEvent,
    next: (DrainState, DrainAction),
) -> bool {
    match (state, event) {
        (DrainState::Listing { limit }, DrainEvent::Listed { reply }) => goes_on(
            next,
            first_of(keys_in(reply), limit),
            seq![],
        ),
        (DrainState::Reading { key, rest, drained }, DrainEvent::Fetched { reply }) => match reply {
            None => goes_on(next, texts(rest@), drained@),
            Some(found) => match stored_in(found) {
                None => removes(next, key, None, rest, drained),
                Some(value) => next.0 == (DrainState::Decoding { key, rest, drained }) && next.1
                    == (DrainAction::Decode { value }),
            },
        },
        (
            DrainState::Decoding { key, rest, drained },
            DrainEvent::Decoded { envelope },
        ) => match envelope {
            Some(e) => if e.v == CANDIDATE_ENVELOPE_VERSION {
                removes(next, key, Some(e), rest, drained)
            } else {
                goes_on(next, texts(rest@), drained@)
            },
            None => goes_on(next, texts(rest@), drained@),
        },
        (
            DrainState::Removing { key, envelope, rest, drained },
            DrainEvent::Removed { done },
        ) => goes_on(
            next,
            texts(rest@),
            match envelope {
                Some(e) => if done {
                    drained@.push(Delivery { key, envelope: e })
                } else {
                    drained@
                },
                None => drained@,
            },
        ),
        _ => next.0 is Closed && (next.1 matches DrainAction::Done { drained } && drained@ == taken(
            state,
        )),
    }
}

fn go_on(left: Vec<String>, drained: Vec<Delivery>) -> (next: (DrainState, DrainAction))
    ensures
        goes_on(next, texts(left@), drained@),
        steps_left(next.0) <= 3 * left@.len(),
{
    let mut rest: Vec<String> = left;
    if rest.len() == 0 {
        return (DrainState::Closed, DrainAction::Done { drained });
    }
    let key: String = rest.remove(0);
    assert(texts(left@)[0] == left@[0]@);
    assert(texts(rest@) =~= texts(left@).skip(1));
    let wanted: String = key.clone();
    (DrainState::Reading { key, rest, drained }, DrainAction::Fetch { key: wanted })
}

fn remove(
    key: String,
    envelope: Option<CandidateEnvelope>,
    rest: Vec<String>,
    drained: Vec<Delivery>,
) -> (next: (DrainState, DrainAction))
    ensures
        removes(next, key, envelope, rest, drained),
{
    let gone: String = key.clone();
    (DrainState::Removing { key, envelope, rest, drained }, DrainAction::Remove { key: gone })
}

fn ended(state: DrainState) -> (next: (DrainState, DrainAction))
    ensures
        next.0 is Closed,
        next.1 matches DrainAction::Done { drained } && drained@ == taken(state),
{
    let drained: Vec<Delivery> = match state {
        DrainState::Reading { drained, .. } => drained,
        DrainState::Decoding { drained, .. } => drained,
        DrainState::Removing { drained, .. } => drained,
        DrainState::Listing { .. } => Vec::new(),
        DrainState::Closed => Vec::new(),
    };
    assert(drained@ =~= taken(state));
    (DrainState::Closed, DrainAction::Done { drained })
}

/// How many steps a drain may still take.
pub open spec fn steps_left(state: DrainState) -> nat {
    match state {
        DrainState::Listing { .. } => 0,
        DrainState::Reading { rest, .. } => 3 * rest@.len() + 3,
        DrainState::Decoding { rest, .. } => 3 * rest@.len() + 2,
        DrainState::Removing { rest, .. } => 3 * rest@.len() + 1,
        DrainState::Closed => 0,
    }
}

/// The next step of a drain: what it becomes, and what is to be done. Once the keys are
/// known, every step comes closer to the end.
pub fn drain_step(state: DrainState, event: DrainEvent) -> (next: (DrainState, DrainAction))
    ensures
        is_drain_step(state, event, next),
        !(state is Listing || state is Closed) ==> steps_left(next.0) < steps_left(state),
        state is Closed ==> next.0 is Closed,
{
    match (state, event) {
        (DrainState::Listing { limit }, DrainEvent::Listed { reply }) => {
            let drained: Vec<Delivery> = Vec::new();
            assert(drained@ =~= seq![]);
            go_on(keys_to_drain(&reply, limit), drained)
        },
        (DrainState::Reading { key, rest, drained }, DrainEvent::Fetched { reply }) => {
            match reply {
                None => go_on(rest, drained),
                Some(found) => match stored_value(found) {
                    None => remove(key, None, rest, drained),
                    Some(value) => (
                        DrainState::Decoding { key, rest, drained },
                        DrainAction::Decode { value },
                    ),
                },
            }
        },
        (DrainState::Decoding { key, rest, drained }, DrainEvent::Decoded { envelope }) => {
            match envelope {
                Some(e) => if e.v == CANDIDATE_ENVELOPE_VERSION {
                    remove(key, Some(e), rest, drained)
                } else {
                    go_on(rest, drained)
                },
                None => go_on(rest, drained),
            }
        },
        (
            DrainState::Removing { key, envelope, rest, drained },
            DrainEvent::Removed { done },
        ) => {
            let mut kept: Vec<Delivery> = drained;
            if let Some(e) = envelope {
                if done {
                    kept.push(Delivery { key, envelope: e });
                }
            }
            go_on(rest, kept)
        },
        (other, _) => ended(other),
    }
}

/// What a step has taken: what the drain ends with, or what it goes on with.
pub open spec fn taken_by(next: (DrainState, DrainAction)) -> Seq<Delivery> {
    match next.1 {
        DrainAction::Done { drained } => drained@,
        _ => taken(next.0),
    }
}

/// How many keys a state has taken or may still take.
pub open spec fn in_play(state: DrainState) -> nat {
    match state {
        DrainState::Listing { limit } => limit as nat,
        DrainState::Reading { rest, drained, .. } => drained@.len() + 1 + rest@.len(),
        DrainState::Decoding { rest, drained, .. } => drained@.len() + 1 + rest@.len(),
        DrainState::Removing { rest, drained, .. } => drained@.len() + 1 + rest@.len(),
        DrainState::Closed => 0,
    }
}

/// A drain takes no more than it was asked for: no step brings more keys into play, so
/// that what it ends with is within the limit that it started from.
pub proof fn a_drain_stays_within_its_limit(
    state: DrainState,
    event: DrainEvent,
    next: (DrainState, DrainAction),
)
    requires
        is_drain_step(state, event, next),
    ensures
        in_play(next.0) <= in_play(state),
        taken_by(next).len() <= in_play(state),
{
    match (state, event) {
        (DrainState::Listing { limit }, DrainEvent::Listed { reply }) => {
            if let DrainState::Reading { rest, .. } = next.0 {
                assert(texts(rest@).len() == rest@.len());
            }
        },
        (DrainState::Reading { rest, .. }, _) => {
            assert(texts(rest@).len() == rest@.len());
            if let DrainState::Reading { rest: r, .. } = next.0 {
                assert(texts(r@).len() == r@.len());
            }
        },
        (DrainState::Decoding { rest, .. }, _) => {
            assert(texts(rest@).len() == rest@.len());
            if let DrainState::Reading { rest: r, .. } = next.0 {
                assert(texts(r@).len() == r@.len());
            }
        },
        (DrainState::Removing { rest, .. }, _) => {
            assert(texts(rest@).len() == rest@.len());
            if let DrainState::Reading { rest: r, .. } = next.0 {
                assert(texts(r@).len() == r@.len());
            }
        },
        _ => {},
    }
}

/// A key leaves the queue only after it was read: because nothing was there, or because a
/// delivery of a known version was. What could not be read, or made sense of, stays.
pub proof fn a_key_is_read_before_it_is_removed(
    state: DrainState,
    event: DrainEvent,
    next: (DrainState, DrainAction),
)
    requires
        is_drain_step(state, event, next),
        next.1 is Remove,
    ensures
        ({
            ||| state is Reading && (event matches DrainEvent::Fetched { reply: Some(found) }
                && stored_in(found) is None)
            ||| state is Decoding && (event matches DrainEvent::Decoded { envelope: Some(e) } && e.v
                == CANDIDATE_ENVELOPE_VERSION)
        }),
        match (state, next.1) {
            (DrainState::Reading { key, .. }, DrainAction::Remove { key: k }) => k@ == key@,
            (DrainState::Decoding { key, .. }, DrainAction::Remove { key: k }) => k@ == key@,
            _ => false,
        },
{
}

/// Nothing is delivered twice or lost: a delivery is taken exactly when its key was
/// removed, and what was taken before stays taken.
pub proof fn what_is_removed_is_taken(
    state: DrainState,
    event: DrainEvent,
    next: (DrainState, DrainAction),
)
    requires
        is_drain_step(state, event, next),
    ensures
        match (state, event) {
            (
                DrainState::Removing { key, envelope: Some(e), drained, .. },
                DrainEvent::Removed { done: true },
            ) => taken_by(next) == drained@.push(Delivery { key, envelope: e }),
            _ => taken_by(next) == taken(state),
        },
{
}

/// Whether every key that a state has taken or may still take is on a list.
pub open spec fn stays_on(state: DrainState, listed: Seq<Seq<char>>) -> bool {
    &&& forall|i: int|
        0 <= i < taken(state).len() ==> listed.contains((#[trigger] taken(state)[i]).key@)
    &&& match state {
        DrainState::Reading { key, rest, .. } => listed.contains(key@) && all_on(texts(rest@), listed),
        DrainState::Decoding { key, rest, .. } => listed.contains(key@) && all_on(
            texts(rest@),
            listed,
        ),
        DrainState::Removing { key, rest, .. } => listed.contains(key@) && all_on(
            texts(rest@),
            listed,
        ),
        _ => true,
    }
}

/// Whether every key of a list is on another.
pub open spec fn all_on(keys: Seq<Seq<char>>, listed: Seq<Seq<char>>) -> bool {
    forall|i: int| 0 <= i < keys.len() ==> listed.contains(#[trigger] keys[i])
}

/// Only what was listed is taken: a drain that starts from a listing takes no other key.
pub proof fn only_what_was_listed_is_taken(
    state: DrainState,
    event: DrainEvent,
    next: (DrainState, DrainAction),
    listed: Seq<Seq<char>>,
)
    requires
        is_drain_step(state, event, next),
        state is Listing ==> (event matches DrainEvent::Listed { reply } ==> keys_in(reply)
            == listed),
        stays_on(state, listed),
    ensures
        stays_on(next.0, listed),
        forall|i: int|
            0 <= i < taken_by(next).len() ==> listed.contains((#[trigger] taken_by(next)[i]).key@),
{
    what_is_removed_is_taken(state, event, next);
    let before = taken(state);
    let after = taken_by(next);
    assert forall|i: int| 0 <= i < after.len() implies listed.contains((#[trigger] after[i]).key@) by {
        if i < before.len() {
            assert(listed.contains(before[i].key@));
        }
    }
    if let DrainState::Reading { key, rest, .. } = next.0 {
        match (state, event) {
            (DrainState::Listing { limit }, DrainEvent::Listed { reply }) => {
                let left = first_of(keys_in(reply), limit);
                assert(left[0] == listed[0]);
                assert forall|i: int| 0 <= i < texts(rest@).len() implies listed.contains(
                    #[trigger] texts(rest@)[i],
                ) by {
                    assert(texts(rest@)[i] == listed[i + 1]);
                }
            },
            (DrainState::Reading { rest: r, .. }, _) => {
                on_after_first(texts(r@), listed);
            },
            (DrainState::Decoding { rest: r, .. }, _) => {
                on_after_first(texts(r@), listed);
            },
            (DrainState::Removing { rest: r, .. }, _) => {
                on_after_first(texts(r@), listed);
            },
            _ => {},
        }
    }
}

proof fn on_after_first(keys: Seq<Seq<char>>, listed: Seq<Seq<char>>)
    requires
        all_on(keys, listed),
        keys.len() > 0,
    ensures
        listed.contains(keys[0]),
        all_on(keys.skip(1), listed),
{
    assert forall|i: int| 0 <= i < keys.skip(1).len() implies listed.contains(
        #[trigger] keys.skip(1)[i],
    ) by {
        assert(keys.skip(1)[i] == keys[i + 1]);
    }
}

/// The keys that a drain looks at are the first texts of the list, in order and no more than
/// the limit.
pub proof fn the_first_keys_are_drained(keys: Seq<Seq<char>>, limit: u64, i: int)
    requires
        0 <= i < first_of(keys, limit).len(),
    ensures
        first_of(keys, limit)[i] == keys[i],
        first_of(keys, limit).len() <= limit,
        first_of(keys, limit).len() == keys.len() || first_of(keys, limit).len() == limit,
{
}

/// The texts among values: one after the other, each text once, and nothing for what is no
/// text.
pub proof fn texts_are_taken_one_by_one(
    before: Seq<serde_json::Value>,
    after: Seq<serde_json::Value>,
    one: serde_json::Value,
)
    ensures
        texts_among(before + after) == texts_among(before) + texts_among(after),
        json_text(one) is None ==> texts_among(seq![one]).len() == 0,
        json_text(one) matches Some(text) ==> texts_among(seq![one]) == seq![text],
    decreases after.len(),
{
    let single = seq![one];
    assert(single.drop_last() =~= seq![]);
    assert(texts_among(single.drop_last()) =~= seq![]);
    assert(single.last() == one);
    if let Some(text) = json_text(one) {
        assert(texts_among(single) =~= seq![text]);
    }
    let all = before + after;
    if after.len() == 0 {
        assert(all =~= before);
        assert(texts_among(before) + texts_among(after) =~= texts_among(before));
    } else {
        let init = after.drop_last();
        texts_are_taken_one_by_one(before, init, one);
        assert(all.drop_last() =~= before + init);
        assert(all.last() == after.last());
        assert(texts_among(all) =~= texts_among(before) + texts_among(after));
    }
}

/// What is found under a key decides what is done about it: a key that could not be read is
/// passed over, an empty one is removed, and a value is decoded before anything else.
pub proof fn what_is_found_decides_what_is_done(
    key: String,
    rest: Vec<String>,
    drained: Vec<Delivery>,
    reply: Option<serde_json::Value>,
    next: (DrainState, DrainAction),
)
    requires
        is_drain_step(
            DrainState::Reading { key, rest, drained },
            DrainEvent::Fetched { reply },
            next,
        ),
    ensures
        reply is None ==> (next.1 is Fetch || next.1 is Done),
        reply matches Some(found) ==> {
            let value = match json_member(found, "value"@) {
                Some(value) => value,
                None => found,
            };
            &&& json_is_null(value) ==> (next.1 matches DrainAction::Remove { key: k } && k@ == key@)
            &&& !json_is_null(value) ==> next.1 == (DrainAction::Decode { value })
        },
        reply is None && rest@.len() > 0 ==> (next.1 matches DrainAction::Fetch { key: k } && k@
            == rest@[0]@),
        reply is None && rest@.len() == 0 ==> (next.1 matches DrainAction::Done { drained: d } && d@
            == drained@),
{
    if rest@.len() > 0 {
        assert(texts(rest@)[0] == rest@[0]@);
    }
}

/// The keys of a listing stand under `keys`, or are the listing itself where it has none.
pub proof fn a_listing_names_its_keys(
    listed: serde_json::Value,
    list: serde_json::Value,
    values: Seq<serde_json::Value>,
)
    ensures
        json_member(listed, "keys"@) == Some(list) && json_items(list) == Some(values) ==> keys_in(
            listed,
        ) == texts_among(values),
        json_member(listed, "keys"@) is None && json_items(listed) == Some(values) ==> keys_in(
            listed,
        ) == texts_among(values),
        json_member(listed, "keys"@) == Some(list) && json_items(list) is None ==> keys_in(
            listed,
        ).len() == 0,
        json_member(listed, "keys"@) is None && json_items(listed) is None ==> keys_in(listed).len()
            == 0,
{
}

} // verus!
