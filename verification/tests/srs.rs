//! The review ladder, quality grades and day boundaries.

use ryu_tuition::calendar::{day_start_ms, resolve_tz, Tz};
use ryu_tuition::double::Double;
use ryu_tuition::models::{DEFAULT_EASE, MIN_EASE};
use ryu_tuition::srs::{
    credits, review_terms, scale_interval, Outcome, Review, Schedule, LAPSE_INTERVAL_DAYS,
    MAX_INTERVAL_DAYS,
};

fn double(v: f64) -> Double {
    Double { bits: v.to_bits() }
}

fn value(d: Double) -> f64 {
    f64::from_bits(d.bits)
}

fn close(a: f64, b: f64) -> bool {
    (a - b).abs() < 1e-9
}

/// A review with the two products of its step done in floating point.
fn review(prev: Schedule, q: u8, tz: &Tz, now: i64) -> Review {
    let terms = review_terms(prev, q);
    let ease = value(terms.ease);
    let scaled = f64::from(terms.interval_days) * ease;
    let miss = f64::from(terms.miss);
    let eased = ease + (0.1 - miss * (0.08 + miss * 0.02));
    ryu_tuition::srs::review(prev, q, double(scaled), double(eased), tz, now)
}

/// The grade of a session, with its mean taken in floating point.
fn quality(outcomes: &[Outcome]) -> Option<u8> {
    let credits = credits(outcomes);
    let total: f64 = credits.iter().map(|c| value(*c)).sum();
    let ratio = total / credits.len() as f64;
    ryu_tuition::srs::quality(outcomes, double(5.0 * ratio))
}

#[test]
fn the_quality_grade_is_derived_from_what_was_answered() {
    let cases: [(&str, &[(Option<bool>, Option<f64>)], Option<u8>); 8] = [
        (
            "a clean sweep is a 5",
            &[(Some(true), None), (Some(true), None), (Some(true), None)],
            Some(5),
        ),
        (
            "everything wrong is a 0, which lapses the skill",
            &[(Some(false), None), (Some(false), None)],
            Some(0),
        ),
        (
            "half right rounds to the middle of the scale",
            &[(Some(true), None), (Some(false), None)],
            Some(3),
        ),
        (
            "partial credit counts as partial, not as a failure",
            &[(Some(false), Some(0.75)), (Some(true), Some(1.0))],
            Some(4),
        ),
        (
            "an ungraded free response contributes nothing, either way",
            &[(Some(true), None), (None, None)],
            Some(5),
        ),
        (
            "a session with nothing graded yet yields no grade at all",
            &[(None, None), (None, None)],
            None,
        ),
        ("an empty session yields no grade", &[], None),
        (
            "a corrupt score falls back to the pass/fail flag",
            &[(Some(true), Some(f64::NAN))],
            Some(5),
        ),
    ];
    for (name, outcomes, expect) in cases {
        let outcomes: Vec<Outcome> = outcomes
            .iter()
            .map(|(correct, score)| Outcome { correct: *correct, score: score.map(double) })
            .collect();
        assert_eq!(quality(&outcomes), expect, "{name}");
    }
}

#[test]
fn the_interval_ladder_climbs_one_two_six_then_by_ease() {
    let tz = resolve_tz("UTC");
    let now = 1_786_000_000_000;
    let mut state = Schedule::default();

    state = review(state, 5, &tz, now).schedule;
    assert_eq!((state.reps, state.interval_days), (1, 1));
    state = review(state, 5, &tz, now).schedule;
    assert_eq!((state.reps, state.interval_days), (2, 6));
    let third = review(state, 5, &tz, now);
    assert_eq!(third.schedule.reps, 3);
    assert_eq!(third.schedule.interval_days, (6.0f64 * value(state.ease)).ceil() as u32);
    assert!(third.schedule.interval_days > 6);
}

#[test]
fn ease_moves_by_the_sm2_formula_and_never_below_the_floor() {
    let tz = resolve_tz("UTC");
    let now = 1_786_000_000_000;
    let default_ease = f64::from_bits(DEFAULT_EASE);
    let table: &[(u8, f64)] = &[(5, 0.1), (4, 0.0), (3, -0.14)];
    for (q, delta) in table {
        let got = value(review(Schedule::default(), *q, &tz, now).schedule.ease);
        assert!(
            close(got, default_ease + delta),
            "q={q}: expected {}, got {got}",
            default_ease + delta
        );
    }
    let mut state = Schedule::default();
    for _ in 0..40 {
        state = review(state, 3, &tz, 1_786_000_000_000).schedule;
    }
    assert!(close(value(state.ease), f64::from_bits(MIN_EASE)));
}

#[test]
fn a_failed_review_lapses_to_tomorrow_without_also_decaying_the_ease() {
    let tz = resolve_tz("UTC");
    let now = 1_786_000_000_000;
    let studied = Schedule { ease: double(2.6), interval_days: 30, reps: 5, lapses: 0 };
    let got = review(studied, 2, &tz, now);
    assert!(got.lapsed);
    assert_eq!(got.schedule.reps, 0);
    assert_eq!(got.schedule.interval_days, LAPSE_INTERVAL_DAYS);
    assert_eq!(got.schedule.lapses, 1);
    assert!(close(value(got.schedule.ease), 2.6));
}

#[test]
fn a_session_at_2358_schedules_the_same_day_as_one_at_0002_the_next_morning() {
    let tz = resolve_tz("Asia/Tokyo");
    let late = 1_786_373_880_000;
    let early = late + 4 * 60_000;

    let after_late = review(Schedule::default(), 5, &tz, late);
    let after_early = review(Schedule::default(), 5, &tz, early);

    assert_eq!(after_late.due_at, day_start_ms(&tz, after_late.due_at));
    assert_eq!(after_early.due_at, day_start_ms(&tz, after_early.due_at));
    assert_eq!(after_late.due_at - day_start_ms(&tz, late), 24 * 3_600_000);
    assert_eq!(after_early.due_at - after_late.due_at, 24 * 3_600_000);
}

#[test]
fn an_absurd_stored_interval_still_produces_a_future_due_date() {
    let tz = resolve_tz("Europe/Berlin");
    let now = 1_786_000_000_000;
    let absurd = Schedule { ease: double(2.5), interval_days: u32::MAX, reps: 9, lapses: 0 };
    let got = review(absurd, 5, &tz, now);
    assert_eq!(got.schedule.interval_days, MAX_INTERVAL_DAYS);
    assert!(got.due_at > now);
    assert_eq!(got.due_at, day_start_ms(&tz, got.due_at));
}

#[test]
fn a_corrupt_ease_is_repaired_rather_than_propagated() {
    let tz = resolve_tz("UTC");
    let now = 1_786_000_000_000;
    let corrupt = Schedule { ease: double(f64::NAN), interval_days: 10, reps: 4, lapses: 0 };
    let got = review(corrupt, 5, &tz, now).schedule;
    let min_ease = f64::from_bits(MIN_EASE);
    assert!(value(got.ease).is_finite());
    assert!(value(got.ease) >= min_ease);
    assert!(got.interval_days >= 1);

    let below_floor = Schedule { ease: double(0.2), ..corrupt };
    let got = review(below_floor, 3, &tz, now).schedule;
    assert!(close(value(got.ease), min_ease));
}

#[test]
fn a_scaled_interval_is_read_off_whole() {
    for days in [1u32, 2, 3, 7, 16, 100, 1023, 1024, 2049, 3649] {
        assert_eq!(scale_interval(double(f64::from(days))), days);
    }
    assert_eq!(scale_interval(double(15.75)), 16);
    assert_eq!(scale_interval(double(15.000000000000002)), 16);
    assert_eq!(scale_interval(double(0.25)), 1);
    assert_eq!(scale_interval(double(1.0)), 1);
    assert_eq!(scale_interval(double(1.0000000000000002)), 2);
    assert_eq!(scale_interval(double(3649.25)), MAX_INTERVAL_DAYS);
    assert_eq!(scale_interval(double(3650.0)), MAX_INTERVAL_DAYS);
    assert_eq!(scale_interval(double(1e300)), MAX_INTERVAL_DAYS);
    assert_eq!(scale_interval(double(f64::INFINITY)), 1);
    assert_eq!(scale_interval(double(f64::NAN)), 1);
    assert_eq!(scale_interval(double(0.0)), 1);
    assert_eq!(scale_interval(double(-4.0)), 1);
}

#[test]
fn a_lapse_count_saturates() {
    let tz = resolve_tz("UTC");
    let worn = Schedule { ease: double(2.0), interval_days: 3, reps: 4, lapses: u32::MAX };
    assert_eq!(review(worn, 0, &tz, 0).schedule.lapses, u32::MAX);
}

#[test]
fn a_review_works_on_usable_terms() {
    let prev = Schedule { ease: double(f64::NAN), interval_days: 0, reps: 3, lapses: 0 };
    let terms = review_terms(prev, 9);
    assert_eq!(terms.quality, 5);
    assert_eq!(terms.miss, 0);
    assert_eq!(terms.interval_days, 1);
    assert_eq!(terms.ease.bits, DEFAULT_EASE);
    let floored = review_terms(Schedule { ease: double(0.2), interval_days: 4, ..prev }, 3);
    assert_eq!(floored.miss, 2);
    assert_eq!(floored.interval_days, 4);
    assert_eq!(floored.ease.bits, MIN_EASE);
}

#[test]
fn halves_of_the_quality_scale_round_up() {
    let graded = [Outcome { correct: Some(true), score: None }];
    let table = [(0.49, 0), (0.5, 1), (1.5, 2), (2.49, 2), (2.5, 3), (3.5, 4), (4.5, 5), (9.0, 5)];
    for (scaled, want) in table {
        assert_eq!(ryu_tuition::srs::quality(&graded, double(scaled)), Some(want));
    }
    assert_eq!(ryu_tuition::srs::quality(&graded, double(-1.0)), Some(0));
    assert_eq!(ryu_tuition::srs::quality(&[], double(5.0)), None);
}
