//! Domain values, ids, zones and day boundaries.

use ryu_tuition::calendar::{
    day_start_ms, day_start_plus_days, exam_at_ms, new_id, now_ms, resolve_tz, Tz,
};
use ryu_tuition::double::Double;
use ryu_tuition::models::{
    default_origin, one, AnswerKey, BktParams, CandidateStatus, GradedBy, ItemKind, ItemOrigin,
    SessionStatus, SkillStatus, SourceKind, Subject, Tolerance, TuitionSettings,
    CANDIDATE_ENVELOPE_VERSION, ID_SKILL,
};

fn double(v: f64) -> Double {
    Double { bits: v.to_bits() }
}

fn value(d: Double) -> f64 {
    f64::from_bits(d.bits)
}

#[test]
fn ids_carry_their_prefix_and_do_not_repeat() {
    let a = new_id(ID_SKILL);
    let b = new_id(ID_SKILL);
    assert!(a.starts_with("skl_"));
    assert_ne!(a, b);
    assert_eq!(a.len(), 36);
    assert!(a[4..].chars().all(|c| c.is_ascii_digit() || ('a'..='f').contains(&c)));
    assert_eq!(&a[16..17], "4");
}

#[test]
fn day_start_is_local_midnight_not_utc_midnight() {
    let tz = resolve_tz("Asia/Tokyo");
    let at = 1_786_373_880_000;
    let start = day_start_ms(&tz, at);
    assert!(start <= at);
    assert!(at - start < 24 * 3_600_000);
    assert_ne!(start, day_start_ms(&resolve_tz("UTC"), at));
    // 2026-08-09T15:00:00Z is midnight in Tokyo.
    assert_eq!(start, 1_786_287_600_000);
}

#[test]
fn day_start_is_idempotent() {
    let tz = resolve_tz("Europe/Berlin");
    let at = now_ms();
    let once = day_start_ms(&tz, at);
    assert_eq!(once, day_start_ms(&tz, once));
}

#[test]
fn adding_days_lands_on_a_day_boundary_across_a_dst_change() {
    let tz = resolve_tz("Europe/Berlin");
    let before = day_start_ms(&tz, 1_774_494_000_000);
    let after = day_start_plus_days(&tz, before, 4);
    assert_eq!(after, day_start_ms(&tz, after));
    let span_hours = (after - before) / 3_600_000;
    assert_eq!(span_hours, 95);
}

#[test]
fn unknown_timezone_falls_back_to_utc_instead_of_failing() {
    assert_eq!(resolve_tz("Middle/Earth").name, "UTC");
    assert_eq!(resolve_tz("").name, "UTC");
    assert_eq!(resolve_tz("  Europe/Berlin ").name, "Europe/Berlin");
}

#[test]
fn a_midnight_that_does_not_exist_starts_the_day_at_the_next_hour() {
    // Cuba springs forward at midnight: 2026-03-08 begins at 01:00, which is 05:00Z.
    let tz = resolve_tz("America/Havana");
    let noon = 1_772_985_600_000; // 2026-03-08T16:00:00Z
    assert_eq!(day_start_ms(&tz, noon), 1_772_946_000_000);
}

#[test]
fn an_instant_outside_the_calendar_is_its_own_boundary() {
    let tz = resolve_tz("Asia/Tokyo");
    assert_eq!(day_start_ms(&tz, i64::MAX), i64::MAX);
    assert_eq!(day_start_ms(&tz, i64::MIN), i64::MIN);
    assert_eq!(day_start_plus_days(&tz, i64::MAX, 1), i64::MAX);
    let now = 1_786_373_880_000;
    assert_eq!(day_start_plus_days(&tz, now, u32::MAX), now);
    let nowhere = Tz { name: "Middle/Earth".into() };
    assert_eq!(day_start_ms(&nowhere, now), now);
}

fn subject(exam_date: Option<&str>, timezone: &str) -> Subject {
    Subject {
        id: "sub_1".into(),
        name: "Anatomy".into(),
        detail: None,
        exam_date: exam_date.map(str::to_owned),
        timezone: timezone.into(),
        created_at: 0,
        updated_at: 0,
    }
}

#[test]
fn an_exam_starts_with_its_own_local_day() {
    // 2026-09-14T00:00 in Berlin is 2026-09-13T22:00Z.
    assert_eq!(exam_at_ms(&subject(Some("2026-09-14"), "Europe/Berlin")), Some(1_789_336_800_000));
    // In Auckland noon in UTC belongs to the next day already; the exam day does not.
    let tz = resolve_tz("Pacific/Auckland");
    let start = exam_at_ms(&subject(Some(" 2026-09-14 "), "Pacific/Auckland")).expect("readable");
    assert_eq!(start, 1_789_300_800_000); // 2026-09-13T12:00:00Z
    assert_eq!(start, day_start_ms(&tz, start));
    assert_eq!(exam_at_ms(&subject(Some("soon"), "UTC")), None);
    assert_eq!(exam_at_ms(&subject(Some("2026-02-30"), "UTC")), None);
    assert_eq!(exam_at_ms(&subject(None, "UTC")), None);
    // An unknown zone counts as UTC.
    assert_eq!(exam_at_ms(&subject(Some("1970-01-02"), "Middle/Earth")), Some(86_400_000));
    assert_eq!(subject(None, " Asia/Tokyo ").tz().name, "Asia/Tokyo");
}

#[test]
fn answer_keys_name_the_kind_they_grade() {
    let key = AnswerKey::Numeric {
        expected: "9.81".into(),
        tolerance: Tolerance::RelativePercent { value: "1".into() },
    };
    assert_eq!(key.kind(), Some(ItemKind::Numeric));
    assert_eq!(AnswerKey::Mcq { choice_id: "a".into() }.kind(), Some(ItemKind::Mcq));
    assert_eq!(AnswerKey::Cloze { blanks: vec![] }.kind(), Some(ItemKind::Cloze));
    assert_eq!(
        AnswerKey::Exact { text: "a".into(), alternatives: vec![] }.kind(),
        Some(ItemKind::Exact)
    );
    assert_eq!(AnswerKey::Free { rubric: "r".into() }.kind(), Some(ItemKind::Free));
    assert_eq!(AnswerKey::Malformed { raw: "{ not json".into() }.kind(), None);
}

#[test]
fn enum_columns_degrade_to_the_safe_value_never_the_flattering_one() {
    assert_eq!(SkillStatus::parse("beleived"), SkillStatus::Proposed);
    assert_eq!(ItemKind::parse("mcqq"), ItemKind::Free);
    assert_eq!(GradedBy::parse(""), GradedBy::Rubric);
    assert_eq!(CandidateStatus::parse("?"), CandidateStatus::Pending);
    assert_eq!(SessionStatus::parse("?"), SessionStatus::Planned);
    assert_eq!(SourceKind::parse("?"), SourceKind::Text);
    assert_eq!(ItemOrigin::parse("?"), ItemOrigin::Model);
}

#[test]
fn every_stored_word_reads_back_as_itself() {
    for kind in [
        ItemKind::Mcq,
        ItemKind::Cloze,
        ItemKind::Numeric,
        ItemKind::Exact,
        ItemKind::Free,
    ] {
        assert_eq!(ItemKind::parse(kind.as_str()), kind);
        assert_eq!(kind.is_objective(), kind != ItemKind::Free);
    }
    for status in [SkillStatus::Proposed, SkillStatus::Active, SkillStatus::Archived] {
        assert_eq!(SkillStatus::parse(status.as_str()), status);
    }
    for kind in [SourceKind::File, SourceKind::Url, SourceKind::Text] {
        assert_eq!(SourceKind::parse(kind.as_str()), kind);
    }
    for origin in [ItemOrigin::Model, ItemOrigin::Human, ItemOrigin::Candidate] {
        assert_eq!(ItemOrigin::parse(origin.as_str()), origin);
    }
    for by in [GradedBy::Deterministic, GradedBy::Rubric] {
        assert_eq!(GradedBy::parse(by.as_str()), by);
    }
    for status in [
        SessionStatus::Planned,
        SessionStatus::Active,
        SessionStatus::Finished,
        SessionStatus::Abandoned,
    ] {
        assert_eq!(SessionStatus::parse(status.as_str()), status);
    }
    for status in [
        CandidateStatus::Pending,
        CandidateStatus::Accepted,
        CandidateStatus::Rejected,
    ] {
        assert_eq!(CandidateStatus::parse(status.as_str()), status);
    }
    assert_eq!(ItemKind::Mcq.as_str(), "mcq");
    assert_eq!(SessionStatus::Abandoned.as_str(), "abandoned");
}

#[test]
fn bkt_params_are_clamped_into_the_unit_interval() {
    let wild = BktParams {
        p_init: double(1.7),
        p_transit: double(-0.2),
        p_slip: double(f64::NAN),
        p_guess: double(0.25),
    }
    .clamped();
    assert_eq!(value(wild.p_init), 1.0);
    assert_eq!(value(wild.p_transit), 0.0);
    assert_eq!(value(wild.p_slip), 0.0);
    assert_eq!(value(wild.p_guess), 0.25);
}

#[test]
fn defaults_are_the_documented_constants() {
    let s = TuitionSettings::default();
    assert_eq!(value(s.ready_threshold), 0.80);
    assert_eq!(value(s.target_mastery), 0.90);
    assert_eq!(s.per_skill_item_cap, 5);
    assert_eq!(s.trajectory_min_sessions, 3);
    assert_eq!(value(s.sessions_per_day), 1.0);
    assert_eq!(value(s.at_risk_overrun), 1.15);
    assert_eq!(s.default_item_seconds, 60);
    assert_eq!(s.trajectory_window, 10);
    let p = BktParams::default();
    assert_eq!(value(p.p_init), 0.20);
    assert_eq!(value(p.p_transit), 0.15);
    assert_eq!(value(p.p_slip), 0.10);
    assert_eq!(value(p.p_guess), 0.20);
    assert_eq!(default_origin(), ItemOrigin::Human);
    assert_eq!(one(), CANDIDATE_ENVELOPE_VERSION);
}

#[test]
fn the_clock_stands_after_the_epoch() {
    assert!(now_ms() > 1_600_000_000_000);
}

#[test]
fn a_key_that_did_not_decode_is_kept_and_never_written() {
    let key = AnswerKey::decoded("{ not json", None);
    assert!(matches!(&key, AnswerKey::Malformed { raw } if raw == "{ not json"));
    assert_eq!(key.kind(), None);
    let err = key.check_writable().expect_err("unreadable");
    assert_eq!(err.to_string(), "an item's answer key is unreadable and cannot be rewritten");
    let numeric = AnswerKey::Numeric {
        expected: "9.81".into(),
        tolerance: Tolerance::RelativePercent { value: "1".into() },
    };
    assert!(numeric.check_writable().is_ok());
    let read = AnswerKey::decoded("stored", Some(numeric));
    assert_eq!(read.kind(), Some(ItemKind::Numeric));
}
