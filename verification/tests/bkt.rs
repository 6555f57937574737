//! The Bayes step around its arithmetic, and the forward projection.

use ryu_tuition::bkt::{self, BayesStep, BktUpdate, Projection};
use ryu_tuition::double::{clamp01, Double};
use ryu_tuition::models::{BktParams, ItemKind};

fn double(v: f64) -> Double {
    Double { bits: v.to_bits() }
}

fn value(d: Double) -> f64 {
    f64::from_bits(d.bits)
}

fn close(a: f64, b: f64) -> bool {
    (a - b).abs() < 1e-9
}

fn params(p_init: f64, p_transit: f64, p_slip: f64, p_guess: f64) -> BktParams {
    BktParams {
        p_init: double(p_init),
        p_transit: double(p_transit),
        p_slip: double(p_slip),
        p_guess: double(p_guess),
    }
}

/// The Bayes step with its arithmetic done in floating point.
fn update(mastery: f64, params: BktParams, guess: f64, correct: bool) -> BktUpdate {
    let prior = bkt::prior(double(mastery), params, double(guess));
    let m = value(prior.mastery);
    let slip = value(prior.params.p_slip);
    let guess = value(prior.guess);
    let (numerator, denominator) = if correct {
        let known = m * (1.0 - slip);
        (known, known + (1.0 - m) * guess)
    } else {
        let known = m * slip;
        (known, known + (1.0 - m) * (1.0 - guess))
    };
    let posterior = numerator / denominator;
    let learned = posterior + (1.0 - posterior) * value(prior.params.p_transit);
    let step = BayesStep {
        denominator: double(denominator),
        posterior: double(posterior),
        learned: double(learned),
    };
    bkt::update(&prior, &step)
}

fn guess_rate(params: BktParams, kind: ItemKind, choices: usize) -> f64 {
    value(bkt::guess_rate(params, kind, choices, double(1.0 / choices as f64)))
}

fn correct_answers_to_target(mastery: f64, params: BktParams, guess: f64, target: f64) -> Projection {
    bkt::correct_answers_to_target(double(mastery), double(target), |m| {
        update(value(m), params, guess, true)
    })
}

#[test]
fn the_posterior_update_matches_hand_computed_bayes() {
    let default = params(0.20, 0.15, 0.10, 0.20);
    let cases: [(&str, f64, BktParams, f64, bool, f64, bool); 6] = [
        (
            "correct answer raises the posterior",
            0.5,
            default,
            0.20,
            true,
            0.45 / 0.55 + (1.0 - 0.45 / 0.55) * 0.15,
            true,
        ),
        (
            "wrong answer lowers it, but the transition still lifts it a little",
            0.5,
            default,
            0.20,
            false,
            0.05 / 0.45 + (1.0 - 0.05 / 0.45) * 0.15,
            true,
        ),
        (
            "a certain-knowledge prior is not moved by a correct answer",
            1.0,
            default,
            0.20,
            true,
            1.0,
            true,
        ),
        (
            "impossible outcome leaves the posterior alone instead of producing NaN",
            1.0,
            params(0.20, 0.15, 0.0, 0.20),
            0.20,
            false,
            1.0,
            false,
        ),
        (
            "an unguessable item answered right from a zero prior is also degenerate",
            0.0,
            params(0.0, 0.15, 0.10, 0.0),
            0.0,
            true,
            0.0,
            false,
        ),
        (
            "a hand-edited out-of-range prior is clamped, not propagated",
            4.2,
            default,
            0.20,
            true,
            1.0,
            true,
        ),
    ];
    for (name, mastery, params, guess, correct, expect_after, expect_informative) in cases {
        let got = update(mastery, params, guess, correct);
        let after = value(got.after);
        assert!(close(after, expect_after), "{name}: expected {expect_after}, got {after}");
        assert_eq!(got.informative, expect_informative, "{name}");
        assert!(after.is_finite(), "{name}: produced a non-finite posterior");
    }
}

#[test]
fn the_guess_rate_floor_is_per_item_kind() {
    let p = params(0.20, 0.15, 0.10, 0.20);
    let cases: &[(&str, ItemKind, usize, f64)] = &[
        ("two-choice mcq floors at 1/2", ItemKind::Mcq, 2, 0.5),
        ("four-choice mcq floors at 1/4", ItemKind::Mcq, 4, 0.25),
        ("five-choice mcq is exactly the stored rate", ItemKind::Mcq, 5, 0.20),
        ("ten-choice mcq keeps the stored rate", ItemKind::Mcq, 10, 0.20),
        ("one-choice mcq is not floored to certainty", ItemKind::Mcq, 1, 0.20),
        ("zero-choice mcq is not floored either", ItemKind::Mcq, 0, 0.20),
        ("cloze has no structural floor", ItemKind::Cloze, 4, 0.20),
        ("numeric has no structural floor", ItemKind::Numeric, 0, 0.20),
        ("free response has no structural floor", ItemKind::Free, 0, 0.20),
    ];
    for (name, kind, choices, expect) in cases {
        let got = guess_rate(p, *kind, *choices);
        assert!(close(got, *expect), "{name}: expected {expect}, got {got}");
    }
}

#[test]
fn grading_a_two_choice_item_at_the_four_choice_rate_over_credits_it() {
    let p = params(0.20, 0.15, 0.10, 0.20);
    let two = value(update(0.5, p, guess_rate(p, ItemKind::Mcq, 2), true).after);
    let four = value(update(0.5, p, guess_rate(p, ItemKind::Mcq, 4), true).after);
    let unfloored = value(update(0.5, p, value(p.p_guess), true).after);
    assert!(two < four);
    assert!(four < unfloored);
}

#[test]
fn the_projection_agrees_with_actually_applying_the_updates() {
    let p = params(0.20, 0.15, 0.10, 0.20);
    let guess = guess_rate(p, ItemKind::Mcq, 2);
    let projection = correct_answers_to_target(0.2, p, guess, 0.9);
    let steps = projection.steps.expect("0.9 is reachable from 0.2");

    let mut m = 0.2;
    for _ in 0..steps {
        m = value(update(m, p, guess, true).after);
    }
    assert!(m >= 0.9, "replaying {steps} updates must reach the target");
    assert!(close(m, value(projection.reached)));

    let mut short = 0.2;
    for _ in 0..steps.saturating_sub(1) {
        short = value(update(short, p, guess, true).after);
    }
    assert!(short < 0.9);
}

#[test]
fn the_projection_reports_unreachable_rather_than_a_number_nobody_would_act_on() {
    let p = params(0.20, 0.0, 0.45, 0.45);
    let projection = correct_answers_to_target(0.2, p, 0.45, 0.99);
    assert_eq!(projection.steps, None);
    assert!(value(projection.reached) < 0.99);
    assert!(value(projection.reached).is_finite());
    assert!(value(projection.reached) > value(projection.from));
}

#[test]
fn a_degenerate_step_ends_the_projection_instead_of_spinning_to_the_cap() {
    let p = params(0.0, 0.15, 0.10, 0.0);
    let projection = correct_answers_to_target(0.0, p, 0.0, 0.9);
    assert_eq!(projection.steps, None);
    assert!(close(value(projection.reached), 0.0));
}

#[test]
fn already_at_target_needs_no_further_answers() {
    let p = params(0.20, 0.15, 0.10, 0.20);
    let projection = correct_answers_to_target(0.95, p, 0.20, 0.9);
    assert_eq!(projection.steps, Some(0));
    assert!(close(value(projection.reached), 0.95));
}

#[test]
fn a_denominator_at_the_threshold_carries_nothing() {
    let prior = bkt::prior(double(0.4), BktParams::default(), double(0.2));
    let step = |denominator: f64, posterior: f64| BayesStep {
        denominator: double(denominator),
        posterior: double(posterior),
        learned: double(0.7),
    };
    assert!(!bkt::update(&prior, &step(1e-12, 0.5)).informative);
    assert!(!bkt::update(&prior, &step(f64::INFINITY, 0.5)).informative);
    assert!(!bkt::update(&prior, &step(f64::NAN, 0.5)).informative);
    assert!(!bkt::update(&prior, &step(0.5, f64::NAN)).informative);
    let moved = bkt::update(&prior, &step(1.1e-12, 0.5));
    assert!(moved.informative);
    assert_eq!(value(moved.after), 0.7);
    assert_eq!(value(moved.before), 0.4);
}

#[test]
fn doubles_order_as_their_values_do() {
    let values = [f64::NEG_INFINITY, -2.5, -0.0, 0.0, 1e-300, 0.3, 1.0, 7.25, f64::INFINITY, f64::NAN];
    for a in values {
        for b in values {
            let (x, y) = (double(a), double(b));
            assert_eq!(x.ge(y), a >= b, "{a} >= {b}");
            assert_eq!(x.lt(y), a < b, "{a} < {b}");
            assert_eq!(x.is_before(y), a.total_cmp(&b).is_lt(), "{a} before {b}");
            if a != 0.0 || b != 0.0 {
                assert_eq!(value(x.max(y)).to_bits(), a.max(b).to_bits(), "max {a} {b}");
                assert_eq!(value(x.min(y)).to_bits(), a.min(b).to_bits(), "min {a} {b}");
            }
        }
        assert_eq!(double(a).is_finite(), a.is_finite());
        assert_eq!(double(a).is_nan(), a.is_nan());
        let unit = if a.is_finite() { a.clamp(0.0, 1.0) } else { 0.0 };
        assert_eq!(value(clamp01(double(a))).to_bits(), unit.to_bits(), "clamp {a}");
    }
}

#[test]
fn the_projected_count_is_the_least_that_meets_the_target() {
    let p = params(0.2, 0.15, 0.1, 0.2);
    let projection = correct_answers_to_target(0.2, p, 0.2, 0.9);
    let steps = projection.steps.expect("reachable");
    let mut m = 0.2;
    for _ in 0..steps {
        assert!(m < 0.9);
        m = value(update(m, p, 0.2, true).after);
    }
    assert!(m >= 0.9);
    assert_eq!(value(projection.reached), m);
}
