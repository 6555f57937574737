//! The exam trajectory around its sums and quotients.

use ryu_tuition::double::Double;
use ryu_tuition::models::{Session, SessionStatus, TuitionSettings};
use ryu_tuition::trajectory::{
    days_remaining, recorded_gains, trailing_gains, Figures, Horizon, Trajectory, AT_RISK_MARGIN,
    DAY_MS, DEFAULT_TARGET_MASTERY, MIN_SESSIONS_FOR_TRAJECTORY, TRAILING_SESSIONS,
};

const NOW: i64 = 1_786_348_800_000;

fn double(v: f64) -> Double {
    Double { bits: v.to_bits() }
}

fn value(d: Double) -> f64 {
    f64::from_bits(d.bits)
}

fn target() -> f64 {
    f64::from_bits(DEFAULT_TARGET_MASTERY)
}

fn exam_in(days: i64) -> i64 {
    NOW + days * DAY_MS
}

fn rate_per_session(gains: &[f64]) -> f64 {
    let gains: Vec<Double> = gains.iter().map(|g| double(*g)).collect();
    let window = trailing_gains(&gains, TRAILING_SESSIONS);
    if window.is_empty() {
        return 0.0;
    }
    window.iter().map(|g| value(*g)).sum::<f64>() / window.len() as f64
}

fn project(
    masteries: &[f64],
    gains: &[f64],
    exam_at: i64,
    now: i64,
    sessions_per_day: f64,
    target: f64,
) -> Trajectory {
    let remaining: f64 = masteries.iter().map(|m| (target - m).max(0.0)).sum();
    let rate = rate_per_session(gains);
    let available = days_remaining(exam_at, now) as f64 * sessions_per_day.max(0.0);
    let figures = Figures {
        remaining: double(remaining),
        rate: double(rate),
        quotient: double(remaining / rate),
        available: double(available),
        limit: double(available * (1.0 + f64::from_bits(AT_RISK_MARGIN))),
    };
    ryu_tuition::trajectory::project(gains.len(), &Horizon::default(), &figures, exam_at, now)
}

#[test]
fn below_three_sessions_it_refuses_to_project() {
    for count in 0..MIN_SESSIONS_FOR_TRAJECTORY {
        let gains = vec![0.1; count];
        let verdict = project(&[0.2], &gains, exam_in(30), NOW, 1.0, target());
        assert_eq!(
            verdict,
            Trajectory::Unknown { sessions: count, needed: MIN_SESSIONS_FOR_TRAJECTORY }
        );
    }
}

#[test]
fn unknown_is_not_on_track() {
    let verdict = project(&[0.0], &[0.1], exam_in(1), NOW, 1.0, target());
    assert!(!matches!(verdict, Trajectory::Projected(_)));
}

#[test]
fn a_comfortable_pace_is_not_at_risk() {
    let skills = [0.1, 0.1];
    let gains = [0.2, 0.2, 0.2, 0.2];
    match project(&skills, &gains, exam_in(30), NOW, 1.0, target()) {
        Trajectory::Projected(p) => {
            assert!(!p.at_risk);
            assert!((value(p.sessions_needed) - 8.0).abs() < 1e-9, "{p:?}");
            assert!((value(p.sessions_available) - 30.0).abs() < 1e-9);
        }
        other => panic!("expected a projection, got {other:?}"),
    }
}

#[test]
fn falling_behind_is_flagged() {
    let skills = [0.0, 0.0, 0.0];
    let gains = [0.05, 0.05, 0.05, 0.05];
    match project(&skills, &gains, exam_in(10), NOW, 1.0, target()) {
        Trajectory::Projected(p) => assert!(p.at_risk, "{p:?}"),
        other => panic!("got {other:?}"),
    }
}

#[test]
fn the_margin_keeps_a_borderline_pace_quiet() {
    let skills = [-0.1];
    let gains = [0.1, 0.1, 0.1];
    match project(&skills, &gains, exam_in(10), NOW, 1.0, target()) {
        Trajectory::Projected(p) => {
            assert!((value(p.sessions_needed) - 10.0).abs() < 1e-9, "{p:?}");
            assert!(!p.at_risk, "exactly at capacity must stay quiet: {p:?}");
        }
        other => panic!("got {other:?}"),
    }
}

#[test]
fn a_finished_syllabus_is_on_track_even_at_a_zero_rate() {
    let skills = [0.95, 1.0];
    let gains = [0.0, 0.0, 0.0];
    match project(&skills, &gains, exam_in(1), NOW, 1.0, target()) {
        Trajectory::Projected(p) => {
            assert!(!p.at_risk);
            assert_eq!(value(p.remaining_mastery), 0.0);
            assert_eq!(value(p.sessions_needed), 0.0);
        }
        other => panic!("got {other:?}"),
    }
}

#[test]
fn no_progress_with_work_left_is_at_risk_and_says_so_without_inventing_a_number() {
    let skills = [0.2];
    let gains = [0.0, 0.0, 0.0, 0.0];
    match project(&skills, &gains, exam_in(30), NOW, 1.0, target()) {
        Trajectory::Projected(p) => {
            assert!(p.at_risk);
            assert!(value(p.sessions_needed).is_infinite());
        }
        other => panic!("got {other:?}"),
    }
}

#[test]
fn a_bad_session_is_kept_in_the_rate_not_discarded() {
    assert!((rate_per_session(&[0.2, -0.1, 0.2]) - 0.1).abs() < 1e-12);
}

#[test]
fn only_the_trailing_window_counts() {
    let mut gains = vec![10.0; 5];
    gains.extend(vec![0.1; TRAILING_SESSIONS]);
    assert!((rate_per_session(&gains) - 0.1).abs() < 1e-12);
}

#[test]
fn a_past_exam_date_gives_zero_available_sessions_rather_than_negative() {
    let skills = [0.1];
    let gains = [0.1, 0.1, 0.1];
    match project(&skills, &gains, NOW - 5 * DAY_MS, NOW, 1.0, target()) {
        Trajectory::Projected(p) => {
            assert_eq!(p.days_remaining, 0);
            assert_eq!(value(p.sessions_available), 0.0);
            assert!(p.at_risk);
        }
        other => panic!("got {other:?}"),
    }
}

fn session(gain: Option<f64>, finished_at: i64) -> Session {
    Session {
        id: format!("ses_{finished_at}"),
        subject_id: "sub_1".into(),
        planned_minutes: 15,
        status: SessionStatus::Finished,
        mastery_gain: gain.map(double),
        summary: None,
        created_at: 0,
        started_at: None,
        finished_at: Some(finished_at),
    }
}

#[test]
fn gains_are_read_oldest_first_and_sessions_without_one_are_dropped() {
    let newest_first = vec![
        session(Some(0.3), 30),
        session(None, 20),
        session(Some(0.1), 10),
    ];
    let gains: Vec<f64> = recorded_gains(&newest_first).iter().map(|g| value(*g)).collect();
    assert_eq!(gains, vec![0.1, 0.3]);
}

#[test]
fn the_horizon_comes_from_the_settings() {
    let mut settings = TuitionSettings::default();
    assert_eq!(Horizon::of(&settings), Horizon { min_sessions: 3, window: 10 });
    settings.trajectory_min_sessions = 5;
    settings.trajectory_window = 20;
    let horizon = Horizon::of(&settings);
    let figures = Figures {
        remaining: double(1.0),
        rate: double(0.1),
        quotient: double(10.0),
        available: double(3.0),
        limit: double(3.45),
    };
    assert_eq!(
        ryu_tuition::trajectory::project(4, &horizon, &figures, exam_in(3), NOW),
        Trajectory::Unknown { sessions: 4, needed: 5 }
    );
    assert!(matches!(
        ryu_tuition::trajectory::project(5, &horizon, &figures, exam_in(3), NOW),
        Trajectory::Projected(p) if p.at_risk && p.days_remaining == 3
    ));
}

#[test]
fn days_to_an_exam_do_not_overflow() {
    assert_eq!(days_remaining(i64::MAX, i64::MIN), 213_503_982_334);
    assert_eq!(days_remaining(i64::MIN, i64::MAX), 0);
    assert_eq!(days_remaining(NOW + DAY_MS - 1, NOW), 0);
    assert_eq!(days_remaining(NOW + DAY_MS, NOW), 1);
}

#[test]
fn the_newest_session_moves_the_rate() {
    let mut newest_first: Vec<Session> =
        (0..20).map(|i| session(Some(0.1), 1_000 - i)).collect();
    let rate = |sessions: &[Session]| {
        let kept = trailing_gains(&recorded_gains(sessions), 20);
        kept.iter().map(|g| value(*g)).sum::<f64>() / kept.len() as f64
    };
    let before = rate(&newest_first);
    newest_first[0].mastery_gain = Some(double(0.5));
    assert_eq!(recorded_gains(&newest_first).last(), Some(&double(0.5)));
    assert!(rate(&newest_first) > before);
}

#[test]
fn enough_sessions_are_read_to_tell_too_few() {
    assert_eq!(Horizon { min_sessions: 3, window: 10 }.sessions_to_read(), 10);
    assert_eq!(Horizon { min_sessions: 12, window: 10 }.sessions_to_read(), 12);
}
