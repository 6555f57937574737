//! The step-by-step flows: answering an item, closing a sitting, accepting a candidate.

use ryu_tuition::accepting::{accept_step, AcceptAction, AcceptEvent, AcceptState};
use ryu_tuition::answering::{answer_step, begin_answer, AnswerAction, AnswerEvent, AnswerState};
use ryu_tuition::bkt::BktUpdate;
use ryu_tuition::calendar::resolve_tz;
use ryu_tuition::closing::mastery_gain;
use ryu_tuition::double::Double;
use ryu_tuition::draining::{drain_step, Delivery, DrainAction, DrainEvent, DrainState};
use ryu_tuition::error::ApiError;
use ryu_tuition::finishing::{close_step, CloseAction, CloseEvent, CloseState};
use ryu_tuition::host::no_host_message;
use ryu_tuition::models::{
    AnswerKey, Attempt, BktParams, CandidateEnvelope, CandidateStatus, GradedBy, Item, ItemKind, ItemOrigin,
    NewAttempt, ReviewCandidate, Session, SessionStatus, Skill, SkillStatus,
};
use ryu_tuition::service::{AnswerResult, UNMOVED_NOTE};
use ryu_tuition::srs::Review;
use ryu_tuition::store::{create_item, record_attempt};
use ryu_tuition::trajectory::DAY_MS;

fn double(v: f64) -> Double {
    Double { bits: v.to_bits() }
}

fn skill() -> Skill {
    Skill {
        id: "skl_1".into(),
        subject_id: "sub_1".into(),
        name: "Capitals".into(),
        detail: None,
        status: SkillStatus::Active,
        source_id: None,
        params: BktParams::default(),
        mastery: double(0.4),
        ease: double(2.5),
        interval_days: 0,
        reps: 0,
        lapses: 0,
        due_at: None,
        last_reviewed_at: None,
        created_at: 0,
        updated_at: 0,
    }
}

fn item(kind: ItemKind, answer: AnswerKey) -> Item {
    Item {
        id: "itm_1".into(),
        subject_id: "sub_1".into(),
        skill_id: "skl_1".into(),
        kind,
        prompt: "Capital of France?".into(),
        choices: vec![],
        answer,
        origin: ItemOrigin::Human,
        origin_model: None,
        source_id: None,
        source_ref: None,
        version: 1,
        archived: false,
        created_at: 0,
        updated_at: 0,
    }
}

fn exact() -> Item {
    item(ItemKind::Exact, AnswerKey::Exact { text: "Paris".into(), alternatives: vec![] })
}

fn free() -> Item {
    item(ItemKind::Free, AnswerKey::Free { rubric: "Names Paris.".into() })
}

fn stored(new: NewAttempt, item: &Item) -> Attempt {
    record_attempt(new, Some(item), None, 9).expect("recorded")
}

fn raised() -> BktUpdate {
    BktUpdate { before: double(0.4), after: double(0.7), informative: true }
}

/// What a flow of an answer asked for, and how it ended.
struct Run {
    asked: Vec<&'static str>,
    prompt: Option<String>,
    graded: Option<bool>,
    moved_to: Option<Double>,
    end: Result<AnswerResult, ApiError>,
}

/// Carries an answer through, with the slot free or taken, the grade first or not.
fn run(
    it: Item,
    response: &str,
    session: Option<SessionStatus>,
    connected: bool,
    slot_free: bool,
    first_grade: bool,
    update: BktUpdate,
) -> Run {
    let session_id = session.map(|_| "ses_1");
    let mut state = begin_answer(response, session_id, connected);
    let mut event =
        AnswerEvent::Loaded { session, item: Some(it.clone()), skill: Some(skill()) };
    let mut asked = Vec::new();
    let mut prompt_seen = None;
    let mut graded = None;
    let mut moved_to = None;
    loop {
        let (next, action) = answer_step(state, event);
        state = next;
        event = match action {
            AnswerAction::Record { attempt } => {
                asked.push("record");
                AnswerEvent::Recorded { attempt: stored(attempt, &it) }
            }
            AnswerAction::Claim { item_id, .. } => {
                asked.push("claim");
                assert_eq!(item_id, it.id);
                AnswerEvent::Claimed { won: slot_free }
            }
            AnswerAction::Ask { prompt } => {
                asked.push("ask");
                prompt_seen = Some(prompt);
                AnswerEvent::Replied {
                    raw: "Sure: {\"score\": 0.8, \"feedback\": \"Right.\"}".into(),
                    target_mastery: double(0.9),
                }
            }
            AnswerAction::Compute { mastery, correct, .. } => {
                asked.push("compute");
                assert_eq!(mastery, double(0.4));
                graded = Some(correct);
                AnswerEvent::Computed { update, share: double(if correct { 1.0 } else { 0.0 }) }
            }
            AnswerAction::WriteGrade { grading, .. } => {
                asked.push("grade");
                assert_eq!(Some(grading.correct), graded);
                let counts = session.is_none() || slot_free;
                assert_eq!(grading.informative, counts && update.informative);
                // Only a mark against a rubric is more than pass or fail here.
                assert_eq!(grading.score.is_some(), grading.graded_by == GradedBy::Rubric);
                assert_eq!(grading.mastery_after, if counts { update.after } else { double(0.4) });
                AnswerEvent::Graded { written: first_grade }
            }
            AnswerAction::WriteMastery { skill_id, mastery } => {
                asked.push("move");
                assert_eq!(skill_id, "skl_1");
                moved_to = Some(mastery);
                AnswerEvent::MasteryWritten
            }
            AnswerAction::Done { result } => {
                assert!(matches!(state, AnswerState::Closed));
                return Run { asked, prompt: prompt_seen, graded, moved_to, end: Ok(result) };
            }
            AnswerAction::Fail { error } => {
                assert!(matches!(state, AnswerState::Closed));
                return Run { asked, prompt: prompt_seen, graded, moved_to, end: Err(error) };
            }
        };
    }
}

#[test]
fn an_answer_in_a_sitting_is_recorded_claimed_graded_and_only_then_counted() {
    let open = Some(SessionStatus::Active);
    let got = run(exact(), " paris ", open, false, true, true, raised());
    assert_eq!(got.asked, ["record", "claim", "compute", "grade", "move"]);
    assert_eq!(got.moved_to, Some(double(0.7)));
    let result = got.end.expect("settled");
    assert_eq!(result.correct, Some(true));
    assert_eq!(result.score, Some(double(1.0)));
    assert_eq!(result.graded_by, Some(GradedBy::Deterministic));
    assert_eq!(result.mastery_before, double(0.4));
    assert_eq!(result.mastery_after, double(0.7));
    assert!(result.informative);
}

#[test]
fn outside_a_sitting_there_is_no_slot_to_claim() {
    let got = run(exact(), "Lyon", None, false, false, true, raised());
    assert_eq!(got.asked, ["record", "compute", "grade", "move"]);
    assert_eq!(got.graded, Some(false));
}

#[test]
fn a_resubmitted_answer_is_graded_but_not_counted() {
    let open = Some(SessionStatus::Active);
    let got = run(exact(), "Paris", open, true, false, true, raised());
    assert_eq!(got.asked, ["record", "claim", "compute", "grade"]);
    assert_eq!(got.moved_to, None);
    let result = got.end.expect("graded");
    assert_eq!(result.correct, Some(true));
    assert_eq!(result.score, Some(double(1.0)));
    assert_eq!(result.mastery_after, double(0.4));
    assert!(!result.informative);
    assert_eq!(result.note.as_deref(), Some(UNMOVED_NOTE));
    // What cannot be graded says why, slot or no slot.
    let broken = item(ItemKind::Exact, AnswerKey::Malformed { raw: "{".into() });
    let got = run(broken, "Paris", open, true, false, true, raised());
    assert_eq!(got.asked, ["record", "claim"]);
    let result = got.end.expect("recorded");
    assert_eq!(result.correct, None);
    assert_eq!(result.note.as_deref(), Some("this item's stored answer could not be read"));
    // A free response is marked all the same.
    let got = run(free(), "Paris", open, true, false, true, raised());
    assert_eq!(got.asked, ["record", "claim", "ask", "compute", "grade"]);
    let result = got.end.expect("marked");
    assert_eq!(result.correct, Some(true));
    assert_eq!(result.mastery_after, double(0.4));
}

#[test]
fn a_grade_that_was_there_already_moves_nothing() {
    let got = run(exact(), "Paris", None, false, true, false, raised());
    assert_eq!(got.asked, ["record", "compute", "grade"]);
    assert_eq!(got.moved_to, None);
}

#[test]
fn an_uninformative_verdict_is_written_but_moves_nothing() {
    let flat = BktUpdate { before: double(0.4), after: double(0.4), informative: false };
    let got = run(exact(), "Paris", None, false, true, true, flat);
    assert_eq!(got.asked, ["record", "compute", "grade"]);
    let result = got.end.expect("settled");
    assert_eq!(result.correct, Some(true));
    assert!(result.note.is_some());
}

#[test]
fn a_free_response_is_marked_by_a_model_against_its_rubric() {
    let got = run(free(), "Paris, of course", None, true, true, true, raised());
    assert_eq!(got.asked, ["record", "ask", "compute", "grade", "move"]);
    assert_eq!(
        got.prompt.as_deref(),
        Some("Question:\nCapital of France?\n\nRubric:\nNames Paris.\n\nAnswer:\nParis, of course")
    );
    let result = got.end.expect("settled");
    assert_eq!(result.score, Some(double(0.8)));
    assert_eq!(result.correct, Some(true));
    assert_eq!(result.graded_by, Some(GradedBy::Rubric));
    assert_eq!(result.rubric.as_deref(), Some("Names Paris."));
    assert_eq!(result.feedback.as_deref(), Some("Right."));
}

#[test]
fn without_a_host_a_free_response_is_kept_for_later() {
    let got = run(free(), "Paris", None, false, true, true, raised());
    assert_eq!(got.asked, ["record"]);
    let result = got.end.expect("kept");
    assert_eq!(result.correct, None);
    assert_eq!(result.rubric.as_deref(), Some("Names Paris."));
    assert_eq!(result.note.as_deref(), Some(no_host_message()));
}

#[test]
fn an_unreadable_key_is_recorded_and_skipped() {
    let broken = item(ItemKind::Exact, AnswerKey::Malformed { raw: "{".into() });
    let got = run(broken, "Paris", None, true, true, true, raised());
    assert_eq!(got.asked, ["record"]);
    assert_eq!(got.end.expect("recorded").correct, None);
}

#[test]
fn a_closed_sitting_takes_no_answers() {
    let got = run(exact(), "Paris", Some(SessionStatus::Finished), true, true, true, raised());
    assert!(got.asked.is_empty());
    assert_eq!(got.end.expect_err("closed").status(), 409);
}

#[test]
fn an_answer_needs_its_rows() {
    let open = |session_id: Option<&str>, item: Option<Item>, skill: Option<Skill>| {
        let state = begin_answer("x", session_id, false);
        match answer_step(state, AnswerEvent::Loaded { session: None, item, skill }).1 {
            AnswerAction::Fail { error } => (error.status(), error.to_string()),
            other => panic!("{other:?}"),
        }
    };
    assert_eq!(open(None, None, None).0, 404);
    assert_eq!(open(None, Some(exact()), None), (500, "this item's skill is missing".into()));
}

#[test]
fn an_answer_to_an_unknown_sitting_is_recorded_and_graded() {
    let state = begin_answer("Paris", Some("ses_9"), false);
    let loaded =
        AnswerEvent::Loaded { session: None, item: Some(exact()), skill: Some(skill()) };
    let (_, action) = answer_step(state, loaded);
    let AnswerAction::Record { attempt } = action else { panic!("{action:?}") };
    assert_eq!(attempt.session_id.as_deref(), Some("ses_9"));
    assert_eq!(attempt.correct, None);
}

#[test]
fn a_reply_without_json_ends_the_answer_as_an_upstream_failure() {
    let it = free();
    let opening = begin_answer("Paris", None, true);
    let loaded = AnswerEvent::Loaded { session: None, item: Some(it.clone()), skill: Some(skill()) };
    let (recording, action) = answer_step(opening, loaded);
    let AnswerAction::Record { attempt } = action else { panic!("{action:?}") };
    let (marking, action) =
        answer_step(recording, AnswerEvent::Recorded { attempt: stored(attempt, &it) });
    assert!(matches!(action, AnswerAction::Ask { .. }));
    let reply = AnswerEvent::Replied { raw: "fine".into(), target_mastery: double(0.9) };
    let (end, action) = answer_step(marking, reply);
    assert!(matches!(end, AnswerState::Closed));
    let AnswerAction::Fail { error } = action else { panic!("{action:?}") };
    assert_eq!(error.status(), 502);
}

#[test]
fn an_event_that_was_not_asked_for_ends_an_answer() {
    let (end, action) = answer_step(begin_answer("x", None, false), AnswerEvent::MasteryWritten);
    assert!(matches!(end, AnswerState::Closed));
    let AnswerAction::Fail { error } = action else { panic!("{action:?}") };
    assert_eq!(error.status(), 500);
}

fn session(status: SessionStatus) -> Session {
    Session {
        id: "ses_1".into(),
        subject_id: "sub_1".into(),
        planned_minutes: 15,
        status,
        mastery_gain: None,
        summary: None,
        created_at: 0,
        started_at: None,
        finished_at: None,
    }
}

fn attempt_on(skill_id: &str, correct: bool) -> Attempt {
    let mut attempt = Attempt {
        id: "att_1".into(),
        subject_id: "sub_1".into(),
        skill_id: skill_id.into(),
        item_id: "itm_1".into(),
        item_version: 1,
        session_id: Some("ses_1".into()),
        at: 0,
        response: "x".into(),
        correct: None,
        score: None,
        graded_by: None,
        feedback: None,
        latency_ms: None,
        mastery_before: double(0.4),
        mastery_after: double(0.5),
        informative: true,
    };
    attempt.correct = Some(correct);
    attempt
}

/// What a closing asked for, and how it ended.
struct Closing {
    weighed: Vec<(String, usize)>,
    written: Vec<(String, Review)>,
    gain: Option<Option<Double>>,
    end: Result<usize, ApiError>,
}

/// Carries a closing through, with everything graded right on a full scale.
fn close(found: Option<Session>, attempts: Vec<Attempt>, won: bool) -> Closing {
    let tz = resolve_tz("UTC");
    let now = 1_786_348_800_000;
    let mut state = CloseState::Asking;
    let mut event = CloseEvent::Found { session: found };
    let mut weighed = Vec::new();
    let mut written = Vec::new();
    let mut gain_seen = None;
    loop {
        let (next, action) = close_step(state, event, &tz, now);
        state = next;
        event = match action {
            CloseAction::Gather => {
                CloseEvent::Gathered { attempts: attempts.clone(), total: double(0.25) }
            }
            CloseAction::End { gain } => {
                gain_seen = Some(gain);
                assert!(weighed.is_empty());
                CloseEvent::Ended { written: won }
            }
            CloseAction::Weigh { skill_id, outcomes } => {
                weighed.push((skill_id.clone(), outcomes.len()));
                let gone = skill_id == "skl_gone";
                let row = Skill { id: skill_id, ..skill() };
                let skill = if gone { None } else { Some(row) };
                CloseEvent::Weighed { scaled: double(5.0), skill }
            }
            CloseAction::Step { terms } => {
                assert_eq!((terms.quality, terms.miss, terms.interval_days), (5, 0, 1));
                assert_eq!(terms.ease, double(2.5));
                CloseEvent::Stepped { scaled: double(2.5), eased: double(2.6) }
            }
            CloseAction::Write { skill_id, review } => {
                written.push((skill_id, review));
                CloseEvent::Written
            }
            CloseAction::Done { rescheduled } => {
                return Closing { weighed, written, gain: gain_seen, end: Ok(rescheduled) };
            }
            CloseAction::Fail { error } => {
                return Closing { weighed, written, gain: gain_seen, end: Err(error) };
            }
        };
    }
}

fn answers() -> Vec<Attempt> {
    let mut waiting = attempt_on("skl_c", true);
    waiting.correct = None;
    waiting.informative = false;
    vec![
        attempt_on("skl_b", true),
        attempt_on("skl_a", false),
        attempt_on("skl_b", false),
        attempt_on("skl_gone", true),
        waiting,
    ]
}

#[test]
fn each_skill_of_a_sitting_is_reviewed_once_after_it_is_closed() {
    let got = close(Some(session(SessionStatus::Active)), answers(), true);
    let want: Vec<(String, usize)> =
        vec![("skl_a".into(), 1), ("skl_b".into(), 2), ("skl_c".into(), 1), ("skl_gone".into(), 1)];
    assert_eq!(got.weighed, want);
    // Nothing of the third is graded, and the fourth is gone.
    let reviewed: Vec<&str> = got.written.iter().map(|(id, _)| id.as_str()).collect();
    assert_eq!(reviewed, ["skl_a", "skl_b"]);
    let review = got.written[0].1;
    assert_eq!(review.schedule.interval_days, 1);
    assert_eq!(review.schedule.reps, 1);
    assert_eq!(review.schedule.ease, double(2.6));
    assert_eq!(review.due_at, 1_786_348_800_000 / DAY_MS * DAY_MS + DAY_MS);
    assert!(!review.lapsed);
    assert_eq!(got.gain, Some(Some(double(0.25))));
    assert_eq!(got.end.expect("closed"), 2);
}

#[test]
fn a_sitting_without_informative_answers_has_no_gain() {
    let mut flat = attempt_on("skl_a", true);
    flat.informative = false;
    let got = close(Some(session(SessionStatus::Active)), vec![flat.clone()], true);
    assert_eq!(got.gain, Some(None));
    assert_eq!(got.end.expect("closed"), 1);
    assert_eq!(mastery_gain(&[flat], double(0.0)), None);
    assert_eq!(mastery_gain(&[attempt_on("skl_a", true)], double(0.1)), Some(double(0.1)));
}

#[test]
fn closing_again_reviews_nothing() {
    let got = close(Some(session(SessionStatus::Finished)), answers(), true);
    assert!(got.weighed.is_empty());
    assert_eq!(got.end.expect("closed before"), 0);
    // Someone else closed it between the read and the write.
    let got = close(Some(session(SessionStatus::Planned)), answers(), false);
    assert!(got.weighed.is_empty());
    assert_eq!(got.end.expect("closed elsewhere"), 0);
    assert_eq!(close(None, answers(), true).end.expect_err("no such sitting").status(), 404);
    let tz = resolve_tz("UTC");
    let (_, action) = close_step(CloseState::Gathering, CloseEvent::Written, &tz, 0);
    let CloseAction::Fail { error } = action else { panic!("{action:?}") };
    assert_eq!(error.status(), 500);
}

fn candidate(status: CandidateStatus, label: Option<&str>) -> ReviewCandidate {
    ReviewCandidate {
        id: "cnd_1".into(),
        subject_id: "sub_1".into(),
        conversation_id: None,
        agent_id: None,
        prompt: "Capital of France?".into(),
        answer: "Paris".into(),
        skill_label: label.map(str::to_owned),
        status,
        source_key: "k".into(),
        source_index: 0,
        item_id: None,
        created_at: 0,
        decided_at: None,
    }
}

/// Carries an acceptance through: what was asked for, in order, and how it ended.
fn accept(found: Option<ReviewCandidate>, won: bool) -> (Vec<String>, Result<Item, ApiError>) {
    let mut state = AcceptState::Asking;
    let mut event = AcceptEvent::Found { candidate: found };
    let mut asked = Vec::new();
    let mut made = String::new();
    loop {
        let (next, action) = accept_step(state, event);
        state = next;
        event = match action {
            AcceptAction::OfferSkill { subject_id, label } => {
                assert_eq!(subject_id, "sub_1");
                asked.push(format!("skill {label}"));
                AcceptEvent::SkillReady { skill_id: "skl_1".into() }
            }
            AcceptAction::MakeItem { new } => {
                asked.push("item".into());
                let item = create_item(new, Some("sub_1"), 5).expect("valid");
                made = item.id.clone();
                AcceptEvent::Made { item }
            }
            AcceptAction::Decide { item_id } => {
                assert_eq!(item_id, made);
                asked.push("decide".into());
                AcceptEvent::Decided { written: won }
            }
            AcceptAction::RemoveItem { item_id } => {
                assert_eq!(item_id, made);
                asked.push("remove".into());
                AcceptEvent::Removed
            }
            AcceptAction::Done { item } => return (asked, Ok(item)),
            AcceptAction::Fail { error } => return (asked, Err(error)),
        };
    }
}

#[test]
fn an_accepted_candidate_becomes_one_item() {
    let (asked, end) = accept(Some(candidate(CandidateStatus::Pending, Some("Geography"))), true);
    assert_eq!(asked, ["skill Geography", "item", "decide"]);
    let item = end.expect("accepted");
    assert_eq!(item.kind, ItemKind::Exact);
    assert_eq!(item.origin, ItemOrigin::Candidate);
    assert_eq!(item.prompt, "Capital of France?");
    let AnswerKey::Exact { text, alternatives } = &item.answer else { panic!("{item:?}") };
    assert_eq!(text, "Paris");
    assert_eq!(alternatives, &["Paris".to_owned()]);
}

#[test]
fn a_candidate_that_someone_else_decided_leaves_no_item_behind() {
    let (asked, end) = accept(Some(candidate(CandidateStatus::Pending, None)), false);
    assert_eq!(asked, ["skill From your chats", "item", "decide", "remove"]);
    assert_eq!(end.expect_err("decided").status(), 409);
    let (asked, end) = accept(Some(candidate(CandidateStatus::Rejected, None)), true);
    assert!(asked.is_empty());
    assert_eq!(end.expect_err("decided before").status(), 409);
    assert_eq!(accept(None, true).1.expect_err("no such candidate").status(), 404);
    let (_, action) = accept_step(AcceptState::Making, AcceptEvent::Removed);
    let AcceptAction::Fail { error } = action else { panic!("{action:?}") };
    assert_eq!(error.status(), 500);
}

fn json(text: &str) -> serde_json::Value {
    serde_json::from_str(text).expect("JSON")
}

fn envelope(v: i64) -> CandidateEnvelope {
    CandidateEnvelope {
        v,
        subject_id: "sub_1".into(),
        conversation_id: None,
        agent_id: None,
        created_at: None,
        candidates: vec![],
    }
}

/// Carries a drain of a queue through: what was removed, and what was taken.
fn drain(limit: u64) -> (Vec<String>, Vec<Delivery>) {
    let reply = json(r#"{"keys": ["down", "null", "odd", "new", "stuck", "good", "more"]}"#);
    let mut state = DrainState::Listing { limit };
    let mut event = DrainEvent::Listed { reply };
    let mut reading = String::new();
    let mut removed = Vec::new();
    loop {
        let (next, action) = drain_step(state, event);
        state = next;
        event = match action {
            DrainAction::Fetch { key } => {
                reading = key;
                DrainEvent::Fetched {
                    reply: match reading.as_str() {
                        "down" => None,
                        "null" => Some(json(r#"{"value": null}"#)),
                        other => Some(json(&format!("{{\"value\": \"{other}\"}}"))),
                    },
                }
            }
            DrainAction::Decode { value } => {
                assert_eq!(value, reading.as_str());
                DrainEvent::Decoded {
                    envelope: match reading.as_str() {
                        "odd" => None,
                        "new" => Some(envelope(2)),
                        _ => Some(envelope(1)),
                    },
                }
            }
            DrainAction::Remove { key } => {
                assert_eq!(key, reading);
                let done = key != "stuck";
                removed.push(key);
                DrainEvent::Removed { done }
            }
            DrainAction::Done { drained } => {
                assert!(matches!(state, DrainState::Closed));
                return (removed, drained);
            }
        };
    }
}

#[test]
fn a_drain_takes_only_what_it_read_and_removed() {
    let (removed, drained) = drain(50);
    // Left: what could not be read, what has an unknown shape or version.
    assert_eq!(removed, ["null", "stuck", "good", "more"]);
    let taken: Vec<&str> = drained.iter().map(|d| d.key.as_str()).collect();
    assert_eq!(taken, ["good", "more"]);
    assert_eq!(drained[0].envelope.subject_id, "sub_1");
}

#[test]
fn a_drain_stays_within_its_limit() {
    let (removed, drained) = drain(6);
    assert_eq!(removed, ["null", "stuck", "good"]);
    assert_eq!(drained.len(), 1);
    assert!(drain(0).1.is_empty());
    let (end, action) =
        drain_step(DrainState::Listing { limit: 3 }, DrainEvent::Removed { done: true });
    assert!(matches!(end, DrainState::Closed));
    assert!(matches!(action, DrainAction::Done { drained } if drained.is_empty()));
}
