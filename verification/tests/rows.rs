//! The rules that stored rows obey.

use ryu_tuition::calendar::now_ms;
use ryu_tuition::candidates::{
    after_decision, check_envelope, decide_candidate, enqueue_candidates, offered_item,
    offered_skill, skill_label, AfterDecision,
};
use ryu_tuition::double::Double;
use ryu_tuition::due::{list_due_skills, weakest_due, weakest_first};
use ryu_tuition::events::{
    claim_event, claim_review, count_overdue, finite, goal_step, mastery_step, review_ref, review_step,
    EventStep, RECOVERY_COOLDOWN_MS,
};
use ryu_tuition::grade::{grade, Outcome};
use ryu_tuition::models::{
    AnswerKey, Attempt, BktParams, CandidateEnvelope, CandidateStatus, Choice, GradedBy, Item,
    ItemKind, ItemOrigin, NewAttempt, NewCandidate, NewItem, PlannedItem, ReviewCandidate,
    SessionStatus, Skill, SkillStatus, SourceKind, Subject, DEFAULT_EASE, DEFAULT_P_INIT,
};
use ryu_tuition::sittings::{
    bind_session_attempt, check_answerable, create_session, finish_session, next_session_item,
    slots_for, start_session,
};
use ryu_tuition::srs::{Review, Schedule};
use ryu_tuition::store::{
    clamp_limit, create_item, create_source, create_subject, grade_attempt, record_attempt,
    stored_ease, stored_mastery, update_item, update_skill, update_skill_mastery,
    update_skill_schedule, update_subject, upsert_skill, Grading,
    SkillOffer, DEFAULT_LIMIT, MAX_LIMIT,
};
use ryu_tuition::trajectory::{Projection, Trajectory, DAY_MS};

fn double(v: f64) -> Double {
    Double { bits: v.to_bits() }
}

fn value(d: Double) -> f64 {
    f64::from_bits(d.bits)
}

fn offer<'a>(name: &'a str, detail: Option<&'a str>, status: SkillStatus, source: Option<&'a str>) -> SkillOffer<'a> {
    SkillOffer {
        subject_id: "sub_1",
        name,
        detail,
        status,
        source_id: source,
        params: BktParams::default(),
    }
}

fn skill(id: &str, due_at: Option<i64>, status: SkillStatus) -> Skill {
    let mut row = upsert_skill(None, &offer(id, None, status, None), 1);
    row.id = id.into();
    row.due_at = due_at;
    row
}

/// A subject with one active skill and one item on it.
fn seeded() -> (Subject, Skill, Item) {
    let subject = create_subject("Pharmacology II", None, Some("2026-09-14"), Some("Europe/Berlin"));
    let skill = upsert_skill(None, &offered(&subject, "Beta-blocker contraindications"), 1);
    let item = create_item(
        NewItem {
            skill_id: skill.id.clone(),
            kind: ItemKind::Mcq,
            prompt: "Which is an absolute contraindication?".into(),
            choices: vec![
                Choice { id: "a".into(), text: "Severe asthma".into() },
                Choice { id: "b".into(), text: "Mild hypertension".into() },
            ],
            answer: AnswerKey::Mcq { choice_id: "a".into() },
            origin: ItemOrigin::Model,
            origin_model: Some("local/fast".into()),
            source_id: None,
            source_ref: Some("ch. 4, p. 88".into()),
        },
        Some(&subject.id),
        1,
    )
    .expect("gradeable");
    (subject, skill, item)
}

/// An active skill of a subject, offered by name alone.
fn offered<'a>(subject: &'a Subject, name: &'a str) -> SkillOffer<'a> {
    SkillOffer {
        subject_id: &subject.id,
        name,
        detail: None,
        status: SkillStatus::Active,
        source_id: None,
        params: BktParams::default(),
    }
}

fn scheduled(skill: Skill, due_at: i64, reviewed_at: i64) -> Skill {
    let schedule = Schedule { ease: double(2.5), interval_days: 1, reps: 1, lapses: 0 };
    let review = Review { schedule, due_at, lapsed: false };
    update_skill_schedule(skill, &review, reviewed_at, reviewed_at)
}

#[test]
fn subjects_round_trip_including_their_last_column() {
    let created =
        create_subject("Anatomy", Some("Second year"), Some("2026-12-01"), Some("Asia/Tokyo"));
    assert_eq!(created.name, "Anatomy");
    assert_eq!(created.detail.as_deref(), Some("Second year"));
    assert_eq!(created.exam_date.as_deref(), Some("2026-12-01"));
    assert_eq!(created.timezone, "Asia/Tokyo");
    assert_eq!(created.updated_at, created.created_at);
    let updated = update_subject(created, "Anatomy I", None, None, "UTC", 7);
    assert_eq!(updated.name, "Anatomy I");
    assert_eq!(updated.exam_date, None);
}

#[test]
fn a_subject_is_stored_without_the_white_space_around_it() {
    let row = create_subject(
        "  Pharmacology II ",
        Some("  "),
        Some(" 2026-09-14"),
        Some(" Europe/Berlin "),
    );
    assert!(row.id.starts_with("sub_"));
    assert_eq!(row.name, "Pharmacology II");
    assert_eq!(row.detail, None);
    assert_eq!(row.exam_date.as_deref(), Some("2026-09-14"));
    assert_eq!(row.timezone, "Europe/Berlin");
    assert_eq!(row.created_at, row.updated_at);
    let created = row.created_at;
    let id = row.id.clone();
    let edited = update_subject(row, "Pharmacology III", Some("more"), None, "  ", 7);
    assert_eq!(edited.id, id);
    assert_eq!(edited.name, "Pharmacology III");
    assert_eq!(edited.detail.as_deref(), Some("more"));
    assert_eq!(edited.exam_date, None);
    assert_eq!(edited.timezone, "UTC");
    assert_eq!(edited.created_at, created);
    assert_eq!(edited.updated_at, 7);
    assert_eq!(create_subject("x", None, None, None).timezone, "UTC");
}

#[test]
fn a_source_keeps_the_text_it_was_parsed_to() {
    let row = create_source("sub_1", SourceKind::Url, " Ch. 4 ", Some("u"), "  text ", None);
    assert!(row.id.starts_with("src_"));
    assert_eq!(row.title, "Ch. 4");
    assert_eq!(row.parsed_text, "  text ");
    assert_eq!(row.uri.as_deref(), Some("u"));
    assert_eq!(row.parser, None);
}

#[test]
fn a_repeated_skill_name_upserts_instead_of_splitting_the_posterior() {
    let (subject, skill, _) = seeded();
    let offer = offered(&subject, "Beta-blocker contraindications");
    let again = upsert_skill(Some(skill.clone()), &offer, 2);
    assert_eq!(again.id, skill.id);
    // Seeded from the prior, not from zero.
    assert_eq!(again.mastery.bits, DEFAULT_P_INIT);
    assert_eq!(again.ease.bits, DEFAULT_EASE);
}

#[test]
fn an_upsert_promotes_a_proposed_skill_but_never_demotes_or_forgets() {
    let proposed = upsert_skill(
        None,
        &offer("Ion channels", Some("from chapter 3"), SkillStatus::Proposed, Some("src_1")),
        1,
    );
    assert_eq!(proposed.status, SkillStatus::Proposed);
    let accepted =
        upsert_skill(Some(proposed.clone()), &offer("Ion channels", None, SkillStatus::Active, None), 2);
    assert_eq!(accepted.id, proposed.id);
    assert_eq!(accepted.status, SkillStatus::Active);
    assert_eq!(accepted.detail.as_deref(), Some("from chapter 3"));
    assert_eq!(accepted.source_id.as_deref(), Some("src_1"));
    let known = update_skill_mastery(accepted, double(0.77), 3).expect("a number");
    let reproposed =
        upsert_skill(Some(known), &offer("Ion channels", None, SkillStatus::Proposed, None), 4);
    assert_eq!(value(reproposed.mastery), 0.77, "a re-ingest must not reset it");
    assert_eq!(reproposed.status, SkillStatus::Active);
}

#[test]
fn a_second_offer_neither_overwrites_nor_revives() {
    let first = upsert_skill(
        None,
        &offer("Ion channels", Some("from chapter 3"), SkillStatus::Active, Some("src_1")),
        1,
    );
    let again = upsert_skill(
        Some(first),
        &offer("Ion channels", Some("thinner"), SkillStatus::Proposed, Some("src_2")),
        3,
    );
    assert_eq!(again.detail.as_deref(), Some("from chapter 3"));
    assert_eq!(again.source_id.as_deref(), Some("src_1"));
    let archived = skill("put away", None, SkillStatus::Archived);
    let revived = upsert_skill(Some(archived), &offer("put away", None, SkillStatus::Active, None), 4);
    assert_eq!(revived.status, SkillStatus::Archived);
}

#[test]
fn a_rename_does_not_reset_what_is_known() {
    let mut row = skill("old", Some(9), SkillStatus::Active);
    row.mastery = double(0.6);
    row.lapses = 2;
    let wild = BktParams { p_init: double(7.0), ..BktParams::default() };
    let edited = update_skill(row, " new ", Some(" "), SkillStatus::Archived, wild, 5);
    assert_eq!(edited.name, "new");
    assert_eq!(edited.detail, None);
    assert_eq!(edited.status, SkillStatus::Archived);
    assert_eq!(value(edited.params.p_init), 1.0);
    assert_eq!(value(edited.mastery), 0.6);
    assert_eq!(edited.lapses, 2);
    assert_eq!(edited.due_at, Some(9));
}

#[test]
fn a_posterior_is_stored_only_as_a_probability() {
    assert_eq!(value(stored_mastery("skl_1", double(1.5)).expect("finite")), 1.0);
    assert_eq!(value(stored_mastery("skl_1", double(0.3)).expect("finite")), 0.3);
    let row = skill("skl_1", None, SkillStatus::Active);
    let err = update_skill_mastery(row.clone(), double(f64::NAN), 4).expect_err("no number");
    assert_eq!(err.to_string(), "refusing to store a non-finite mastery for skill skl_1");
    let moved = update_skill_mastery(row, double(-0.5), 4).expect("a number");
    assert_eq!(value(moved.mastery), 0.0);
    assert_eq!(moved.updated_at, 4);
    assert_eq!(moved.id, "skl_1");
    assert_eq!(value(stored_ease(double(0.2))), 1.3);
    assert_eq!(value(stored_ease(double(2.0))), 2.0);
    assert_eq!(value(stored_ease(double(f64::NAN))), 1.3);
}

fn new_item(kind: ItemKind, answer: AnswerKey) -> NewItem {
    NewItem {
        skill_id: "skl_1".into(),
        kind,
        prompt: "  Which is an absolute contraindication? ".into(),
        choices: vec![Choice { id: "a".into(), text: "Severe asthma".into() }],
        answer,
        origin: ItemOrigin::Model,
        origin_model: Some("local/fast".into()),
        source_id: None,
        source_ref: Some("ch. 4, p. 88".into()),
    }
}

fn mcq_item() -> Item {
    create_item(
        new_item(ItemKind::Mcq, AnswerKey::Mcq { choice_id: "a".into() }),
        Some("sub_1"),
        3,
    )
    .expect("gradeable")
}

#[test]
fn an_item_whose_answer_key_grades_another_kind_is_refused() {
    let (subject, skill, _) = seeded();
    let wrong = create_item(
        NewItem {
            skill_id: skill.id,
            kind: ItemKind::Numeric,
            prompt: "How many?".into(),
            choices: vec![],
            answer: AnswerKey::Exact { text: "four".into(), alternatives: vec![] },
            origin: ItemOrigin::Human,
            origin_model: None,
            source_id: None,
            source_ref: None,
        },
        Some(&subject.id),
        2,
    );
    assert!(wrong.is_err(), "an ungradeable item must not be storable");
}

#[test]
fn an_item_needs_a_key_of_its_kind_and_a_skill() {
    let err = create_item(
        new_item(ItemKind::Numeric, AnswerKey::Mcq { choice_id: "a".into() }),
        Some("sub_1"),
        3,
    )
    .expect_err("another kind");
    assert_eq!(err.status(), 400);
    assert_eq!(
        err.to_string(),
        "this item is declared `numeric` but its answer key grades a different kind"
    );
    let err = create_item(
        new_item(ItemKind::Mcq, AnswerKey::Mcq { choice_id: "a".into() }),
        None,
        3,
    )
    .expect_err("no skill");
    assert_eq!(err.to_string(), "skill skl_1 does not exist");
}

#[test]
fn items_round_trip_their_answer_key_and_derive_their_subject() {
    let (subject, _, item) = seeded();
    assert_eq!(item.subject_id, subject.id);
    assert_eq!(item.version, 1);
    assert_eq!(item.source_ref.as_deref(), Some("ch. 4, p. 88"));
    assert_eq!(item.choices.len(), 2);
    assert!(matches!(&item.answer, AnswerKey::Mcq { choice_id } if choice_id == "a"));
    // An edit bumps the version, so a past attempt still names what it answered.
    let choices = item.choices.clone();
    let edited = update_item(
        item,
        "Which is absolutely contraindicated?",
        choices,
        AnswerKey::Mcq { choice_id: "b".into() },
        None,
        2,
    )
    .expect("the same kind");
    assert_eq!(edited.version, 2);
    // The kind cannot be changed out from under stored attempts.
    let free = AnswerKey::Free { rubric: "anything".into() };
    assert!(update_item(edited, "x", vec![], free, None, 3).is_err());
}

#[test]
fn an_item_is_stored_trimmed_and_edited_in_place() {
    let item = mcq_item();
    assert!(item.id.starts_with("itm_"));
    assert_eq!(item.subject_id, "sub_1");
    assert_eq!(item.prompt, "Which is an absolute contraindication?");
    assert_eq!(item.version, 1);
    assert!(!item.archived);
    assert_eq!(item.choices.len(), 1);
    let edited = update_item(
        item,
        " Reworded ",
        vec![],
        AnswerKey::Mcq { choice_id: "b".into() },
        None,
        9,
    )
    .expect("same kind");
    assert_eq!(edited.version, 2);
    assert_eq!(edited.prompt, "Reworded");
    assert_eq!(edited.updated_at, 9);
    assert_eq!(edited.created_at, 3);
    assert_eq!(edited.source_ref, None);
}

#[test]
fn a_malformed_answer_survives_reading_but_blocks_rewriting() {
    let (_, _, mut item) = seeded();
    // What a corrupt row is read as.
    item.answer = AnswerKey::Malformed { raw: "{oops".into() };
    let answer = item.answer.clone();
    assert!(update_item(item, "p", vec![], answer, None, 2).is_err());
}

#[test]
fn an_edit_keeps_to_the_kind_and_to_readable_keys() {
    let err = update_item(
        mcq_item(),
        "p",
        vec![],
        AnswerKey::Malformed { raw: "{".into() },
        None,
        9,
    )
    .expect_err("unreadable");
    assert_eq!(err.to_string(), "an item's answer key is unreadable and cannot be rewritten");
    let err = update_item(
        mcq_item(),
        "p",
        vec![],
        AnswerKey::Free { rubric: "r".into() },
        None,
        9,
    )
    .expect_err("another kind");
    assert_eq!(
        err.to_string(),
        "an item's kind cannot change: this answer key grades a different one"
    );
}

fn new_attempt(item_id: &str, skill_id: &str) -> NewAttempt {
    NewAttempt {
        skill_id: skill_id.into(),
        item_id: item_id.into(),
        session_id: None,
        response: "a".into(),
        correct: None,
        score: None,
        graded_by: None,
        feedback: None,
        latency_ms: Some(1200),
        mastery_before: double(0.2),
        mastery_after: double(0.2),
        informative: false,
    }
}

#[test]
fn attempts_take_their_subject_and_version_from_the_item() {
    let (subject, skill, item) = seeded();
    let new = NewAttempt {
        skill_id: skill.id.clone(),
        item_id: item.id.clone(),
        session_id: None,
        response: "a".into(),
        correct: Some(true),
        score: None,
        graded_by: Some(GradedBy::Deterministic),
        feedback: None,
        latency_ms: Some(4_200),
        mastery_before: double(0.20),
        mastery_after: double(0.61),
        informative: true,
    };
    let attempt = record_attempt(new, Some(&item), None, 9).expect("recorded");
    assert_eq!(attempt.subject_id, subject.id);
    assert_eq!(attempt.item_version, item.version);
    assert!(attempt.informative);
    assert!(attempt.at > 0);
    assert_eq!(attempt.graded_by, Some(GradedBy::Deterministic));
    assert_eq!(attempt.latency_ms, Some(4_200));
    // An attempt filed under the wrong skill would move the wrong posterior.
    let stray = NewAttempt {
        skill_id: "skl_other".into(),
        item_id: item.id.clone(),
        session_id: None,
        response: "a".into(),
        correct: Some(true),
        score: None,
        graded_by: None,
        feedback: None,
        latency_ms: None,
        mastery_before: double(0.2),
        mastery_after: double(0.2),
        informative: true,
    };
    assert!(record_attempt(stray, Some(&item), None, 9).is_err());
}

#[test]
fn an_attempt_names_an_item_of_its_skill() {
    let mut item = mcq_item();
    item.version = 4;
    let attempt =
        record_attempt(new_attempt("itm_1", "skl_1"), Some(&item), None, 8).expect("recorded");
    assert!(attempt.id.starts_with("att_"));
    assert_eq!(attempt.subject_id, "sub_1");
    assert_eq!(attempt.item_version, 4);
    assert_eq!(attempt.at, 8);
    assert_eq!(attempt.latency_ms, Some(1200));
    let err = record_attempt(new_attempt("itm_1", "skl_2"), Some(&item), None, 8)
        .expect_err("another skill");
    assert_eq!(err.to_string(), "item itm_1 does not belong to skill skl_2");
    let err = record_attempt(new_attempt("itm_9", "skl_1"), None, None, 8).expect_err("no item");
    assert_eq!(err.to_string(), "item itm_9 does not exist");
}

#[test]
fn a_rubric_grade_lands_exactly_once() {
    let (_, skill, item) = seeded();
    let new = NewAttempt {
        skill_id: skill.id,
        item_id: item.id.clone(),
        session_id: None,
        response: "a long free-response answer".into(),
        correct: None,
        score: None,
        graded_by: None,
        feedback: None,
        latency_ms: None,
        mastery_before: double(0.20),
        mastery_after: double(0.20),
        informative: true,
    };
    let attempt = record_attempt(new, Some(&item), None, 8).expect("recorded");
    assert_eq!(attempt.correct, None);
    let first = Grading {
        correct: true,
        score: Some(double(0.8)),
        graded_by: GradedBy::Rubric,
        feedback: Some("covers three of four rubric points".into()),
        mastery_after: double(0.55),
        informative: true,
    };
    let graded = grade_attempt(attempt, first).expect("ungraded so far");
    // A retried grading call must not move the posterior a second time.
    let retried = Grading {
        correct: false,
        score: None,
        graded_by: GradedBy::Rubric,
        feedback: None,
        mastery_after: double(0.1),
        informative: true,
    };
    assert!(grade_attempt(graded.clone(), retried).is_none());
    assert_eq!(graded.correct, Some(true));
    assert_eq!(value(graded.mastery_after), 0.55);
    assert_eq!(value(graded.mastery_before), 0.20);
    assert_eq!(graded.graded_by, Some(GradedBy::Rubric));
}

fn line(item_id: &str) -> PlannedItem {
    PlannedItem {
        item_id: item_id.into(),
        skill_id: "skl_1".into(),
        est_cost_ms: 60_000,
        est_gain: double(0.1),
    }
}

#[test]
fn a_session_plan_is_ordered_and_each_slot_is_answered_once() {
    let (subject, skill, item) = seeded();
    let second = create_item(
        NewItem {
            skill_id: skill.id.clone(),
            kind: ItemKind::Exact,
            prompt: "Name the receptor.".into(),
            choices: vec![],
            answer: AnswerKey::Exact { text: "beta-1".into(), alternatives: vec!["β1".into()] },
            origin: ItemOrigin::Human,
            origin_model: None,
            source_id: None,
            source_ref: None,
        },
        Some(&subject.id),
        1,
    )
    .expect("gradeable");
    let session = create_session(&subject.id, 20);
    let mut plan = slots_for(
        &session.id,
        &[
            PlannedItem {
                item_id: item.id.clone(),
                skill_id: skill.id.clone(),
                est_cost_ms: 60_000,
                est_gain: double(0.31),
            },
            PlannedItem {
                item_id: second.id.clone(),
                skill_id: skill.id.clone(),
                est_cost_ms: 45_000,
                est_gain: double(0.12),
            },
        ],
    );
    assert_eq!(plan.len(), 2);
    assert_eq!(plan[0].position, 0);
    assert_eq!(plan[0].item_id, item.id);
    assert_eq!(plan[1].est_cost_ms, 45_000);

    let started = start_session(session, 1_000).expect("planned");
    // A second start must not reset the clock the elapsed time is measured from.
    assert!(start_session(started.clone(), 9_000).is_none());

    assert_eq!(plan[next_session_item(&plan).expect("unanswered")].item_id, item.id);
    plan[0] = bind_session_attempt(plan[0].clone(), "att_1").expect("free");
    // A resubmitted answer must not overwrite the one that already counted.
    assert!(bind_session_attempt(plan[0].clone(), "att_2").is_none());
    assert_eq!(plan[next_session_item(&plan).expect("unanswered")].item_id, second.id);

    let status = SessionStatus::Finished;
    let finished =
        finish_session(started, status, Some(double(0.18)), Some("ok"), 2_000).expect("open");
    // Finishing twice would double-count the gain the trajectory averages.
    assert!(finish_session(finished.clone(), status, Some(double(9.9)), None, 3_000).is_none());
    assert_eq!(finished.mastery_gain, Some(double(0.18)));
    assert_eq!(finished.finished_at, Some(2_000));
}

#[test]
fn a_sitting_goes_through_its_states_once() {
    let session = create_session("sub_1", 20);
    assert!(session.id.starts_with("ses_"));
    assert_eq!(session.status, SessionStatus::Planned);
    assert_eq!(session.planned_minutes, 20);
    let mut slots = slots_for(&session.id, &[line("itm_b"), line("itm_a")]);
    assert_eq!(slots.iter().map(|s| s.position).collect::<Vec<_>>(), vec![0, 1]);
    assert_eq!(next_session_item(&slots), Some(0));
    let first = bind_session_attempt(slots[0].clone(), "att_1").expect("free");
    assert_eq!(first.attempt_id.as_deref(), Some("att_1"));
    assert!(bind_session_attempt(first.clone(), "att_2").is_none());
    slots[0] = first;
    assert_eq!(next_session_item(&slots), Some(1));
    slots[1] = bind_session_attempt(slots[1].clone(), "att_3").expect("free");
    assert_eq!(next_session_item(&slots), None);

    let started = start_session(session, 5).expect("planned");
    assert_eq!(started.started_at, Some(5));
    assert!(start_session(started.clone(), 6).is_none());
    let finished =
        finish_session(started, SessionStatus::Finished, Some(double(0.3)), None, 9).expect("open");
    assert_eq!(finished.finished_at, Some(9));
    assert_eq!(value(finished.mastery_gain.expect("a gain")), 0.3);
    assert!(finish_session(finished.clone(), SessionStatus::Finished, None, None, 10).is_none());
    assert!(start_session(finished, 11).is_none());
    assert!(check_answerable(Some(SessionStatus::Active)).is_ok());
    assert!(check_answerable(Some(SessionStatus::Planned)).is_ok());
    assert_eq!(check_answerable(Some(SessionStatus::Finished)).expect_err("closed").status(), 409);
    assert_eq!(check_answerable(Some(SessionStatus::Abandoned)).expect_err("closed").status(), 409);
    assert!(check_answerable(None).is_ok());
}

fn envelope() -> CandidateEnvelope {
    CandidateEnvelope {
        v: 1,
        subject_id: "sub_1".into(),
        conversation_id: Some("conv_1".into()),
        agent_id: None,
        created_at: None,
        candidates: vec![
            NewCandidate { prompt: "p0".into(), answer: "a0".into(), skill: Some("s".into()) },
            NewCandidate { prompt: "p1".into(), answer: "a1".into(), skill: None },
        ],
    }
}

#[test]
fn a_redelivered_candidate_payload_is_a_no_op() {
    let (subject, _, _) = seeded();
    let envelope = CandidateEnvelope {
        v: 1,
        subject_id: subject.id.clone(),
        conversation_id: Some("conv_1".into()),
        agent_id: None,
        created_at: Some("2026-08-10T06:00:00.000Z".into()),
        candidates: vec![
            NewCandidate {
                prompt: "What does a beta-blocker do?".into(),
                answer: "Blocks beta-adrenergic receptors.".into(),
                skill: Some("Beta blockers".into()),
            },
            NewCandidate {
                prompt: "Name one contraindication.".into(),
                answer: "Severe asthma.".into(),
                skill: Some("Beta blockers".into()),
            },
        ],
    };
    let key = "candidate:sub_1:conv_1:abc";
    assert!(check_envelope(&envelope, key, true).is_ok());
    let pending = enqueue_candidates(&envelope, key, &[], 7);
    assert_eq!(pending.len(), 2);
    assert_eq!(pending[0].source_key, key);
    assert!(pending.iter().all(|row| row.status == CandidateStatus::Pending));
    let filed: Vec<i64> = pending.iter().map(|row| row.source_index).collect();
    assert_eq!(enqueue_candidates(&envelope, key, &filed, 8).len(), 0);
    // An unrecognized payload version is refused rather than guessed at.
    let future = CandidateEnvelope { v: 99, ..envelope };
    assert!(check_envelope(&future, "candidate:x:y:z", true).is_err());
}

#[test]
fn a_delivery_files_what_is_not_on_file() {
    let rows = enqueue_candidates(&envelope(), "tuition/candidates/k", &[], 7);
    assert_eq!(rows.len(), 2);
    assert_eq!(rows[0].prompt, "p0");
    assert_eq!(rows[1].source_index, 1);
    assert_eq!(rows[1].status, CandidateStatus::Pending);
    assert_eq!(rows[0].source_key, "tuition/candidates/k");
    assert_eq!(rows[0].conversation_id.as_deref(), Some("conv_1"));
    let filed: Vec<i64> = rows.iter().map(|r| r.source_index).collect();
    assert!(enqueue_candidates(&envelope(), "tuition/candidates/k", &filed, 8).is_empty());
    let rest = enqueue_candidates(&envelope(), "tuition/candidates/k", &[0], 8);
    assert_eq!(rest.len(), 1);
    assert_eq!(rest[0].prompt, "p1");
}

#[test]
fn candidates_for_an_unknown_subject_are_refused() {
    let orphan = CandidateEnvelope {
        v: 1,
        subject_id: "sub_typo".into(),
        conversation_id: None,
        agent_id: None,
        created_at: None,
        candidates: vec![NewCandidate { prompt: "p".into(), answer: "a".into(), skill: None }],
    };
    assert!(check_envelope(&orphan, "candidate:k:3", false).is_err());
}

#[test]
fn a_refused_delivery_says_why() {
    assert!(check_envelope(&envelope(), "k", true).is_ok());
    let err = check_envelope(&envelope(), "k", false).expect_err("unknown subject");
    assert_eq!(
        err.to_string(),
        "subject sub_1 does not exist; check the active-subject preference"
    );
    let later = CandidateEnvelope { v: -27, ..envelope() };
    let err = check_envelope(&later, "k", true).expect_err("unknown version");
    assert_eq!(err.to_string(), "unrecognized candidate payload version -27 under key k");
}

fn candidate(label: Option<&str>) -> ReviewCandidate {
    let mut rows = enqueue_candidates(&envelope(), "k", &[], 7);
    let mut row = rows.remove(0);
    row.skill_label = label.map(str::to_owned);
    row
}

#[test]
fn a_candidate_can_only_be_decided_once() {
    let (subject, _, item) = seeded();
    let envelope = CandidateEnvelope {
        v: 1,
        subject_id: subject.id,
        conversation_id: None,
        agent_id: None,
        created_at: None,
        candidates: vec![NewCandidate { prompt: "p".into(), answer: "a".into(), skill: None }],
    };
    let candidate = enqueue_candidates(&envelope, "candidate:k:1", &[], 1).remove(0);
    let decided = decide_candidate(candidate, CandidateStatus::Accepted, Some(&item.id), 5)
        .expect("undecided");
    assert!(decide_candidate(decided.clone(), CandidateStatus::Rejected, None, 6).is_none());
    assert_eq!(decided.status, CandidateStatus::Accepted);
    assert_eq!(decided.item_id.as_deref(), Some(item.id.as_str()));
    assert_eq!(decided.decided_at, Some(5));
}

#[test]
fn a_lost_decision_is_a_conflict() {
    let decided =
        decide_candidate(candidate(None), CandidateStatus::Accepted, Some("itm_1"), 9).expect("pending");
    assert_eq!(decided.item_id.as_deref(), Some("itm_1"));
    assert_eq!(decided.decided_at, Some(9));
    assert!(decide_candidate(decided, CandidateStatus::Rejected, None, 10).is_none());
    assert!(matches!(after_decision(true), AfterDecision::Keep));
    match after_decision(false) {
        AfterDecision::Withdraw(err) => assert_eq!(err.status(), 409),
        other => panic!("got {other:?}"),
    }
}

#[test]
fn an_accepted_candidate_becomes_an_exact_item_in_the_deck() {
    let row = candidate(None);
    let label = skill_label(&row);
    assert_eq!(label, "From your chats");
    assert_eq!(skill_label(&candidate(Some("Ions"))), "Ions");
    let skill = upsert_skill(None, &offered_skill(&row.subject_id, &label), 3);
    assert_eq!(skill.status, SkillStatus::Active);
    assert_eq!(skill.subject_id, "sub_1");
    let new = offered_item(&row, &skill.id);
    let item = create_item(new, Some(&skill.subject_id), 4).expect("gradeable");
    assert_eq!(item.origin, ItemOrigin::Candidate);
    assert!(matches!(
        grade(item.kind, &item.answer, " A0 "),
        Outcome::Decided { correct: true, .. }
    ));
}

#[test]
fn due_skills_include_new_work_and_overdue_reviews_but_never_proposed_ones() {
    let (subject, skill, _) = seeded();
    let fresh = [skill.clone()];
    assert_eq!(list_due_skills(&fresh, None, now_ms(), 0), vec![0], "new material is plannable");

    let reviewed = [scheduled(skill.clone(), 1_000, 500)];
    let due = list_due_skills(&reviewed, Some(&subject.id), 2_000, 0);
    assert_eq!(due.len(), 1);
    assert_eq!(reviewed[due[0]].due_at, Some(1_000));
    assert_eq!(reviewed[due[0]].reps, 1);
    assert_eq!(reviewed[due[0]].last_reviewed_at, Some(500));
    // A review scheduled for later is not due now.
    assert!(list_due_skills(&reviewed, None, 999, 0).is_empty());
    // A proposed skill is invisible to scheduling entirely, due date or not.
    let [row] = reviewed;
    let name = skill.name.clone();
    let status = SkillStatus::Proposed;
    let proposed = [update_skill(row, &name, None, status, BktParams::default(), 3)];
    assert!(list_due_skills(&proposed, None, 2_000, 0).is_empty());
}

#[test]
fn what_is_due_is_listed_in_order_and_by_subject() {
    let skills = vec![
        skill("new", None, SkillStatus::Active),
        skill("overdue", Some(5), SkillStatus::Active),
        skill("later", Some(50), SkillStatus::Active),
        skill("proposed", Some(5), SkillStatus::Proposed),
        skill("away", None, SkillStatus::Archived),
    ];
    let ids = |order: Vec<usize>| order.iter().map(|i| skills[*i].id.clone()).collect::<Vec<_>>();
    assert_eq!(ids(list_due_skills(&skills, None, 10, 0)), vec!["overdue", "new"]);
    assert_eq!(ids(list_due_skills(&skills, Some("sub_1"), 10, 1)), vec!["overdue"]);
    assert!(list_due_skills(&skills, Some("sub_2"), 10, 0).is_empty());
}

#[test]
fn a_brand_new_skill_is_due_immediately() {
    let subject = create_subject("Chemistry", None, None, None);
    let fresh = upsert_skill(None, &offered(&subject, "Mole concept"), 1);
    assert!(fresh.due_at.is_none(), "a new skill starts with no due date");
    let due = list_due_skills(&[fresh], Some(&subject.id), 1_786_348_800_000, 50);
    assert_eq!(due, vec![0], "a never-reviewed skill must be due");
}

#[test]
fn an_overdue_review_sorts_before_brand_new_material() {
    let now = 1_786_348_800_000;
    let subject = create_subject("Chemistry", None, None, None);
    let new_skill = upsert_skill(None, &offered(&subject, "Aaa new"), 1);
    let reviewed = upsert_skill(None, &offered(&subject, "Zzz reviewed"), 1);
    let reviewed = scheduled(reviewed, now - 1000, now - 1000);
    let skills = [new_skill, reviewed];
    assert_eq!(list_due_skills(&skills, Some(&subject.id), now, 50), vec![1, 0]);
}

#[test]
fn the_weakest_come_first_and_ties_go_by_id() {
    let mut skills = vec![
        skill("b", None, SkillStatus::Active),
        skill("c", Some(1), SkillStatus::Active),
        skill("a", None, SkillStatus::Active),
        skill("d", None, SkillStatus::Proposed),
    ];
    skills[1].mastery = double(0.05);
    skills[3].mastery = double(0.9);
    assert_eq!(weakest_first(&skills), vec![1, 2, 0, 3]);
    // Proposed skills are not due, and the cut falls on the strongest.
    assert_eq!(weakest_due(&skills, None, 5, 10), vec![1, 2, 0]);
    assert_eq!(weakest_due(&skills, None, 5, 2), vec![1, 2]);
    assert_eq!(weakest_due(&skills, None, 0, 10), vec![2, 0]);
    assert!(weakest_due(&skills, Some("sub_2"), 5, 10).is_empty());
    assert!(weakest_first(&[]).is_empty());
}

#[test]
fn the_longest_overdue_comes_first() {
    let skills = vec![
        skill("b_new", None, SkillStatus::Active),
        skill("a_new", None, SkillStatus::Active),
        skill("late", Some(9), SkillStatus::Active),
        skill("later", Some(4), SkillStatus::Active),
        skill("also", Some(9), SkillStatus::Active),
    ];
    assert_eq!(list_due_skills(&skills, None, 10, 10), vec![3, 4, 2, 1, 0]);
}

#[test]
fn list_limits_are_clamped_before_they_reach_sql() {
    assert_eq!(clamp_limit(0), DEFAULT_LIMIT);
    assert_eq!(clamp_limit(-5), DEFAULT_LIMIT);
    assert_eq!(clamp_limit(10), 10);
    assert_eq!(clamp_limit(i64::MAX), MAX_LIMIT);
}

#[test]
fn an_event_claim_holds_for_its_cooldown_and_can_be_cleared() {
    let day = 24 * 3_600_000;
    let (won, at_risk) = claim_event(None, 0, day);
    assert!(won);
    let (won, at_risk) = claim_event(at_risk, day - 1, day);
    assert!(!won);
    assert!(claim_event(at_risk, day, day).0);
    // A different event is a different mark.
    let (won, review_due) = claim_event(None, 0, day);
    assert!(won);
    assert!(!claim_event(review_due, 1, day).0);
    // Once its mark is cleared, it speaks again.
    assert!(claim_event(None, 2, day).0);
}

#[test]
fn a_refused_claim_leaves_the_mark_where_it_was() {
    let (won, mark) = claim_event(Some(1_000), 1_499, 500);
    assert!(!won);
    assert_eq!(mark, Some(1_000));
    assert_eq!(claim_event(mark, 1_500, 500), (true, Some(1_500)));
    assert!(claim_event(Some(i64::MIN), i64::MAX, i64::MAX).0);
    assert!(!claim_event(Some(i64::MAX), i64::MIN, 0).0);
    assert_eq!(RECOVERY_COOLDOWN_MS, 30 * DAY_MS);
}

#[test]
fn only_scheduled_reviews_are_announced() {
    let due = vec![
        skill("overdue", Some(5), SkillStatus::Active),
        skill("new", None, SkillStatus::Active),
    ];
    assert_eq!(count_overdue(&due), 1);
    assert_eq!(review_step(&due), EventStep::Raise);
    assert_eq!(review_step(&due[1..]), EventStep::Skip);
    let utc = ryu_tuition::calendar::resolve_tz("UTC");
    assert_eq!(review_ref(&utc, 86_400_000 + 5), "86400000");
    assert_eq!(review_ref(&utc, -5), "-86400000");
}

#[test]
fn reviews_are_announced_once_on_a_day_of_any_length() {
    // 25 October 2026 has twenty-five hours in Berlin.
    let berlin = ryu_tuition::calendar::resolve_tz("Europe/Berlin");
    let first = 1_792_879_500_000;
    let later = first + DAY_MS + 1_800_000;
    assert_eq!(review_ref(&berlin, first), review_ref(&berlin, later));
    let (won, mark) = claim_review(None, first);
    assert!(won);
    assert_eq!(claim_review(mark, later), (false, Some(first)));
    // The next day has a mark of its own.
    assert_ne!(review_ref(&berlin, first), review_ref(&berlin, first + 2 * DAY_MS));
}

fn history(before: f64, after: f64) -> Attempt {
    let mut attempt =
        record_attempt(new_attempt("itm_1", "skl_1"), Some(&mcq_item()), None, 8).expect("recorded");
    attempt.mastery_before = double(before);
    attempt.mastery_after = double(after);
    attempt
}

#[test]
fn only_a_skill_that_had_passed_can_drop() {
    let threshold = double(0.8);
    let passed = [history(0.4, 0.85), history(0.85, 0.6)];
    assert_eq!(mastery_step(double(0.6), &passed, threshold), EventStep::Raise);
    assert_eq!(mastery_step(double(0.8), &passed, threshold), EventStep::Clear);
    let never = [history(0.2, 0.4)];
    assert_eq!(mastery_step(double(0.4), &never, threshold), EventStep::Clear);
    assert_eq!(mastery_step(double(0.2), &[], threshold), EventStep::Clear);
}

#[test]
fn a_goal_is_at_risk_only_where_a_projection_says_so() {
    let projection = |at_risk: bool| {
        Trajectory::Projected(Projection {
            remaining_mastery: double(1.0),
            rate_per_session: double(0.1),
            sessions_needed: double(10.0),
            days_remaining: 3,
            sessions_available: double(3.0),
            at_risk,
        })
    };
    assert_eq!(goal_step(true, Some(&projection(true))), EventStep::Raise);
    assert_eq!(goal_step(true, Some(&projection(false))), EventStep::Clear);
    assert_eq!(goal_step(false, Some(&projection(true))), EventStep::Skip);
    assert_eq!(
        goal_step(true, Some(&Trajectory::Unknown { sessions: 1, needed: 3 })),
        EventStep::Skip
    );
    assert_eq!(goal_step(true, None), EventStep::Skip);
}

#[test]
fn an_infinite_projection_is_reported_as_absent_not_as_a_number() {
    assert_eq!(finite(double(f64::INFINITY)), None);
    assert_eq!(finite(double(f64::NAN)), None);
    assert_eq!(finite(double(12.0)), Some(double(12.0)));
}
