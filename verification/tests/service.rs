//! Answering, logging, closing a sitting, and reading model replies.

use ryu_tuition::bkt::{BktUpdate, Projection};
use ryu_tuition::closing::{closes, group_by_skill, informative_moves, skill_mastery};
use ryu_tuition::double::Double;
use ryu_tuition::generation::{
    accept_proposals, generation_prompt, grading_prompt, material, read_generation, Proposal,
    MAX_GENERATION_CONTEXT_CHARS,
};
use ryu_tuition::grade::{grade, Outcome};
use ryu_tuition::host::no_host_message;
use ryu_tuition::models::{
    AnswerKey, Attempt, BktParams, GradedBy, Item, ItemKind, ItemOrigin, NewAttempt, Session,
    SessionStatus, Skill, SkillStatus, Source, SourceKind,
};
use ryu_tuition::reply::{extract_json, object_text, read_mark};
use ryu_tuition::service::{
    grading_of, logged_attempt, logged_result, moves_posterior, next_step, open_answer,
    settled_result, unsettled_result, AnswerStep, Verdict, UNMOVED_NOTE,
};
use ryu_tuition::store::record_attempt;

fn double(v: f64) -> Double {
    Double { bits: v.to_bits() }
}

fn value(d: Double) -> f64 {
    f64::from_bits(d.bits)
}

fn skill() -> Skill {
    Skill {
        id: "skl_1".into(),
        subject_id: "sub_1".into(),
        name: "Beta blockers".into(),
        detail: None,
        status: SkillStatus::Active,
        source_id: None,
        params: BktParams::default(),
        mastery: double(0.4),
        ease: double(2.5),
        interval_days: 0,
        reps: 0,
        lapses: 0,
        due_at: Some(7),
        last_reviewed_at: None,
        created_at: 0,
        updated_at: 0,
    }
}

fn item(kind: ItemKind, answer: AnswerKey) -> Item {
    Item {
        id: "itm_1".into(),
        subject_id: "sub_1".into(),
        skill_id: "skl_1".into(),
        kind,
        prompt: "Capital of France?".into(),
        choices: vec![],
        answer,
        origin: ItemOrigin::Human,
        origin_model: None,
        source_id: None,
        source_ref: None,
        version: 3,
        archived: false,
        created_at: 0,
        updated_at: 0,
    }
}

fn recorded(new: NewAttempt, item: &Item) -> Attempt {
    record_attempt(new, Some(item), None, 9).expect("recorded")
}

#[test]
fn json_is_recovered_from_a_fenced_reply() {
    let raw =
        "Sure!\n```json\n{\"score\": 0.75, \"feedback\": \"Close.\"}\n```\nHope that helps.";
    let parsed = extract_json(raw).expect("must recover the object");
    assert_eq!(parsed["score"], 0.75);
}

#[test]
fn a_brace_inside_a_string_does_not_end_the_object() {
    let raw = r#"{"feedback": "use a } brace", "score": 1}"#;
    let parsed = extract_json(raw).expect("must parse");
    assert_eq!(parsed["score"], 1);
    assert_eq!(parsed["feedback"], "use a } brace");
}

#[test]
fn an_unterminated_object_yields_nothing_rather_than_panicking() {
    assert!(extract_json("{\"score\": 1").is_none());
    assert!(extract_json("no json here").is_none());
    assert!(extract_json("").is_none());
}

#[test]
fn the_first_balanced_object_is_taken_whole() {
    assert_eq!(object_text("a {b {c} \"}\\\"}\" d} {e}").as_deref(), Some("{b {c} \"}\\\"}\" d}"));
    assert_eq!(object_text("}{}").as_deref(), Some("{}"));
    // Balanced, but no JSON.
    assert!(extract_json("{b {c} d}").is_none());
}

#[test]
fn a_mark_is_cut_off_rather_than_trusted() {
    let target = double(0.9);
    let high = read_mark("{\"score\": 7, \"feedback\": \"Good.\"}", target).expect("a mark");
    assert_eq!(value(high.score), 1.0);
    assert!(high.correct);
    assert_eq!(high.feedback.as_deref(), Some("Good."));
    let edge = read_mark("here: {\"score\": 0.6}", target).expect("a mark");
    assert!(edge.correct);
    assert_eq!(edge.feedback, None);
    let low = read_mark("{\"score\": 0.59}", target).expect("a mark");
    assert!(!low.correct);
    let none = read_mark("{\"feedback\": 3}", target).expect("a mark");
    assert_eq!(value(none.score), 0.0);
    assert!(!none.correct);
    assert_eq!(none.feedback, None);
    let negative = read_mark("{\"score\": -2}", target).expect("a mark");
    assert_eq!(value(negative.score), 0.0);
    // A target below the usual bar lowers the bar.
    assert!(read_mark("{\"score\": 0.3}", double(0.25)).expect("a mark").correct);
    let err = read_mark("I would say it is fine", target).expect_err("no JSON");
    assert_eq!(err.status(), 502);
    assert_eq!(err.to_string(), "the grading model did not return JSON");
    assert!(read_mark("{not json}", target).is_err());
}

#[test]
fn an_answer_is_recorded_ungraded_before_anything_else() {
    let it = item(ItemKind::Mcq, AnswerKey::Mcq { choice_id: "a".into() });
    let opening = open_answer(Some(&it), Some(&skill()), "a", Some("ses_1")).expect("opens");
    assert_eq!(opening.item_id, "itm_1");
    assert_eq!(opening.skill_id, "skl_1");
    assert_eq!(opening.session_id.as_deref(), Some("ses_1"));
    assert_eq!(opening.correct, None);
    assert!(!opening.informative);
    assert_eq!(value(opening.mastery_after), 0.4);
    assert_eq!(
        open_answer(None, Some(&skill()), "a", None).expect_err("no item").status(),
        404
    );
    let lost = open_answer(Some(&it), None, "a", None).expect_err("no skill");
    assert_eq!(lost.to_string(), "this item's skill is missing");
}

#[test]
fn an_objective_answer_is_settled_and_moves_the_posterior_once() {
    let it = item(ItemKind::Mcq, AnswerKey::Mcq { choice_id: "a".into() });
    let outcome = grade(it.kind, &it.answer, "A");
    let step = next_step(outcome, false);
    let (correct, graded_by, blanks) = match step {
        AnswerStep::Settle { correct, graded_by, blanks, score } => {
            assert_eq!((score.hits, score.of), (1, 1));
            (correct, graded_by, blanks)
        }
        other => panic!("got {other:?}"),
    };
    assert!(correct);
    let attempt = recorded(
        open_answer(Some(&it), Some(&skill()), "A", None).expect("opens"),
        &it,
    );
    assert_eq!(attempt.item_version, 3);
    let verdict = Verdict {
        correct,
        score: double(1.0),
        graded_by,
        blanks,
        rubric: None,
        feedback: None,
    };
    let update = BktUpdate { before: double(0.4), after: double(0.8), informative: true };
    let grading = grading_of(&verdict, &update);
    assert_eq!(grading.graded_by, GradedBy::Deterministic);
    assert_eq!(grading.score, None, "a pass or fail keeps no score");
    assert_eq!(value(grading.mastery_after), 0.8);
    let cloze = Verdict { blanks: vec![true, false], score: double(0.5), ..verdict.clone() };
    assert_eq!(grading_of(&cloze, &update).score, Some(double(0.5)));
    let marked = Verdict { graded_by: GradedBy::Rubric, score: double(0.8), ..verdict.clone() };
    assert_eq!(grading_of(&marked, &update).score, Some(double(0.8)));
    assert!(moves_posterior(true, &update));
    assert!(!moves_posterior(false, &update));
    let result = settled_result(attempt.clone(), verdict.clone(), &update, true);
    assert_eq!(value(result.mastery_after), 0.8);
    assert!(result.informative);
    assert_eq!(result.note, None);
    // Someone else graded it first: nothing moves, and the learner is told.
    let lost = settled_result(attempt, verdict, &update, false);
    assert_eq!(value(lost.mastery_after), 0.4);
    assert!(!lost.informative);
    assert_eq!(lost.note.as_deref(), Some(UNMOVED_NOTE));
}

#[test]
fn what_cannot_be_graded_is_not_wrong() {
    let it = item(ItemKind::Mcq, AnswerKey::Malformed { raw: "{".into() });
    match next_step(grade(it.kind, &it.answer, "a"), true) {
        AnswerStep::Stop { rubric, note } => {
            assert_eq!(rubric, None);
            assert_eq!(note, "this item's stored answer could not be read");
        }
        other => panic!("got {other:?}"),
    }
    let attempt = recorded(
        open_answer(Some(&it), Some(&skill()), "a", None).expect("opens"),
        &it,
    );
    let result = unsettled_result(attempt, None, "why".into());
    assert_eq!(result.correct, None);
    assert_eq!(value(result.mastery_after), 0.4);
    assert!(!result.informative);
    assert_eq!(result.note.as_deref(), Some("why"));
}

#[test]
fn a_free_response_waits_for_a_model() {
    let free = || Outcome::NeedsRubric { rubric: "Names both.".into() };
    match next_step(free(), false) {
        AnswerStep::Stop { rubric, note } => {
            assert_eq!(rubric.as_deref(), Some("Names both."));
            assert_eq!(note, no_host_message());
        }
        other => panic!("got {other:?}"),
    }
    match next_step(free(), true) {
        AnswerStep::Mark { rubric } => assert_eq!(rubric, "Names both."),
        other => panic!("got {other:?}"),
    }
}

#[test]
fn practice_outside_the_app_is_a_real_attempt_without_an_item() {
    let update = BktUpdate { before: double(0.4), after: double(0.7), informative: true };
    let new = logged_attempt(&skill(), true, None, &update);
    assert_eq!(new.item_id, "");
    assert_eq!(new.response, "practised outside the app");
    assert_eq!(new.feedback, None);
    assert_eq!(new.correct, Some(true));
    let attempt = record_attempt(new, None, Some("sub_1"), 5).expect("recorded");
    assert_eq!(attempt.subject_id, "sub_1");
    assert_eq!(attempt.item_version, 0);
    let result = logged_result(attempt, true, Some("past paper"), &update);
    assert_eq!(value(result.score.expect("a score")), 1.0);
    assert_eq!(result.feedback.as_deref(), Some("past paper"));
    assert_eq!(value(result.mastery_after), 0.7);
    let noted = logged_attempt(&skill(), false, Some("a lesson"), &update);
    assert_eq!(noted.response, "a lesson");
    assert_eq!(noted.score, None);
    let err = record_attempt(noted, None, None, 5).expect_err("no such skill");
    assert_eq!(err.to_string(), "skill skl_1 does not exist");
}

fn attempt(skill_id: &str, correct: Option<bool>, before: f64, after: f64, informative: bool) -> Attempt {
    Attempt {
        id: "att_1".into(),
        subject_id: "sub_1".into(),
        skill_id: skill_id.into(),
        item_id: "itm_1".into(),
        session_id: Some("ses_1".into()),
        item_version: 1,
        response: String::new(),
        correct,
        score: None,
        graded_by: None,
        feedback: None,
        latency_ms: None,
        mastery_before: double(before),
        mastery_after: double(after),
        informative,
        at: 0,
    }
}

#[test]
fn a_sitting_is_grouped_by_skill_in_order() {
    let attempts = vec![
        attempt("skl_b", Some(true), 0.1, 0.3, true),
        attempt("skl_a", None, 0.2, 0.2, false),
        attempt("skl_b", Some(false), 0.3, 0.2, true),
    ];
    let groups = group_by_skill(&attempts);
    let plain: Vec<(&str, Vec<Option<bool>>)> = groups
        .iter()
        .map(|g| (g.skill_id.as_str(), g.outcomes.iter().map(|o| o.correct).collect()))
        .collect();
    assert_eq!(
        plain,
        vec![("skl_a", vec![None]), ("skl_b", vec![Some(true), Some(false)])]
    );
    let moves: Vec<(f64, f64)> =
        informative_moves(&attempts).iter().map(|(b, a)| (value(*b), value(*a))).collect();
    assert_eq!(moves, vec![(0.1, 0.3), (0.3, 0.2)]);
    assert!(informative_moves(&attempts[1..2]).is_empty());
}

#[test]
fn a_sitting_is_closed_once() {
    let mut session = Session {
        id: "ses_1".into(),
        subject_id: "sub_1".into(),
        planned_minutes: 15,
        status: SessionStatus::Active,
        mastery_gain: None,
        summary: None,
        created_at: 0,
        started_at: Some(1),
        finished_at: None,
    };
    assert!(closes(Some(&session)).expect("there"));
    session.status = SessionStatus::Finished;
    assert!(!closes(Some(&session)).expect("there"));
    assert_eq!(closes(None).expect_err("gone").to_string(), "session not found");
}

fn source(text: &str) -> Source {
    Source {
        id: "src_1".into(),
        subject_id: "sub_1".into(),
        kind: SourceKind::Text,
        title: "Chapter".into(),
        uri: None,
        parsed_text: text.into(),
        parser: None,
        created_at: 0,
    }
}

#[test]
fn generation_is_grounded_in_the_learners_material() {
    assert_eq!(material(&[]), "");
    assert_eq!(material(&[source("one"), source("two")]), "one\n\ntwo");
    let long = "é".repeat(MAX_GENERATION_CONTEXT_CHARS + 10);
    assert_eq!(material(&[source(&long)]).chars().count(), MAX_GENERATION_CONTEXT_CHARS);
    let mut s = skill();
    assert_eq!(
        generation_prompt(&s, 12, "text"),
        "Skill: Beta blockers\n\n\nWrite 12 questions.\n\nSource material:\ntext"
    );
    s.detail = Some("and why".into());
    assert_eq!(
        generation_prompt(&s, 5, ""),
        "Skill: Beta blockers\nand why\n\nWrite 5 questions.\n\nSource material:\n"
    );
    assert_eq!(grading_prompt("q", "r", "a"), "Question:\nq\n\nRubric:\nr\n\nAnswer:\na");
}

fn proposal(kind: &str, prompt: Option<&str>, answer: Option<AnswerKey>) -> Proposal {
    Proposal {
        kind: Some(kind.into()),
        prompt: prompt.map(str::to_owned),
        choices: vec![],
        answer,
    }
}

#[test]
fn only_usable_proposals_become_items() {
    let exact = || Some(AnswerKey::Exact { text: "x".into(), alternatives: vec![] });
    let proposals = vec![
        proposal("free", Some("why?"), Some(AnswerKey::Free { rubric: "r".into() })),
        proposal("exact", None, exact()),
        proposal("exact", Some("what?"), Some(AnswerKey::Malformed { raw: "?".into() })),
        proposal("exact", Some("which?"), exact()),
        proposal("exact", Some("no answer"), None),
        proposal("exact", Some("one too many"), exact()),
    ];
    let items = accept_proposals(proposals, 5, "skl_1", Some("src_1"));
    assert_eq!(items.len(), 1);
    assert_eq!(items[0].prompt, "which?");
    assert_eq!(items[0].kind, ItemKind::Exact);
    assert_eq!(items[0].origin, ItemOrigin::Model);
    assert_eq!(items[0].origin_model.as_deref(), Some("tuition-generation-model"));
    assert_eq!(items[0].source_id.as_deref(), Some("src_1"));
}

#[test]
fn a_report_line_carries_the_projection() {
    let projection = Projection {
        from: double(0.4),
        target: double(0.9),
        steps: Some(3),
        reached: double(0.93),
    };
    let line = skill_mastery(&skill(), &projection);
    assert_eq!(line.skill_id, "skl_1");
    assert_eq!(line.name, "Beta blockers");
    assert_eq!(line.correct_answers_to_target, Some(3));
    assert_eq!(line.due_at, Some(7));
}

#[test]
fn drafts_are_read_off_a_generation_reply() {
    let raw = "Here you go: {\"items\": [{\"kind\": \"exact\", \"prompt\": \"p\", \
               \"answer\": {\"text\": \"t\"}}, {\"kind\": 4, \"choices\": []}, 7]}";
    let drafts = read_generation(raw).expect("JSON");
    assert_eq!(drafts.len(), 3);
    assert_eq!(drafts[0].kind.as_deref(), Some("exact"));
    assert_eq!(drafts[0].prompt.as_deref(), Some("p"));
    assert_eq!(drafts[0].answer.as_ref().expect("there")["text"], "t");
    assert!(drafts[0].choices.is_none());
    assert_eq!(drafts[1].kind, None);
    assert!(drafts[1].choices.is_some());
    assert!(drafts[2].prompt.is_none());
    assert!(read_generation("{\"items\": 3}").expect("JSON").is_empty());
    assert!(read_generation("{}").expect("JSON").is_empty());
    let err = read_generation("nothing to see").expect_err("no JSON");
    assert_eq!(err.status(), 502);
    assert_eq!(err.to_string(), "the generation model did not return JSON");
    let first = read_generation(raw).expect("JSON").remove(0);
    let answer = AnswerKey::Exact { text: "t".into(), alternatives: vec![] };
    let proposal = first.completed(None, Some(answer));
    assert_eq!(proposal.prompt.as_deref(), Some("p"));
    assert!(proposal.choices.is_empty());
    assert!(proposal.answer.is_some());
}
