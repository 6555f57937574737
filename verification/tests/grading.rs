//! Objective grading, exact decimals and text folding.

use ryu_tuition::decimal::{Decimal, MAX_DECIMAL_DIGITS};
use ryu_tuition::grade::{fold, grade, Outcome, Score};
use ryu_tuition::models::{AnswerKey, GradedBy, ItemKind, Tolerance};

fn abs(value: &str) -> Tolerance {
    Tolerance::Absolute { value: value.into() }
}

fn is_correct(outcome: &Outcome) -> bool {
    matches!(outcome, Outcome::Decided { correct: true, .. })
}

#[test]
fn the_floating_point_case_this_module_exists_for() {
    let key = AnswerKey::Numeric { expected: "0.3".into(), tolerance: abs("0") };
    assert!(is_correct(&grade(ItemKind::Numeric, &key, "0.3")));
    assert!(is_correct(&grade(ItemKind::Numeric, &key, "0.30")));
    assert!(is_correct(&grade(ItemKind::Numeric, &key, ".3")));
    assert!(!is_correct(&grade(ItemKind::Numeric, &key, "0.31")));
}

#[test]
fn a_tolerance_boundary_is_inclusive_and_exact() {
    let key = AnswerKey::Numeric { expected: "10".into(), tolerance: abs("0.5") };
    assert!(is_correct(&grade(ItemKind::Numeric, &key, "10.5")));
    assert!(is_correct(&grade(ItemKind::Numeric, &key, "9.5")));
    assert!(!is_correct(&grade(ItemKind::Numeric, &key, "10.51")));
}

#[test]
fn relative_tolerance_scales_with_the_expected_value() {
    let key = AnswerKey::Numeric {
        expected: "200".into(),
        tolerance: Tolerance::RelativePercent { value: "5".into() },
    };
    assert!(is_correct(&grade(ItemKind::Numeric, &key, "210")));
    assert!(is_correct(&grade(ItemKind::Numeric, &key, "190")));
    assert!(!is_correct(&grade(ItemKind::Numeric, &key, "210.01")));
}

#[test]
fn a_negative_expected_value_uses_the_magnitude_for_relative_tolerance() {
    let key = AnswerKey::Numeric {
        expected: "-200".into(),
        tolerance: Tolerance::RelativePercent { value: "5".into() },
    };
    assert!(is_correct(&grade(ItemKind::Numeric, &key, "-210")));
    assert!(!is_correct(&grade(ItemKind::Numeric, &key, "-211")));
}

#[test]
fn thousands_separators_are_accepted_but_exponents_are_not() {
    let key = AnswerKey::Numeric { expected: "1024".into(), tolerance: abs("0") };
    assert!(is_correct(&grade(ItemKind::Numeric, &key, "1,024")));
    assert!(!is_correct(&grade(ItemKind::Numeric, &key, "1.024e3")));
}

#[test]
fn a_non_numeric_response_is_wrong_but_a_corrupt_row_is_ungradeable() {
    let key = AnswerKey::Numeric { expected: "5".into(), tolerance: abs("0") };
    let learner_wrong = grade(ItemKind::Numeric, &key, "banana");
    assert!(matches!(learner_wrong, Outcome::Decided { correct: false, .. }));
    assert!(learner_wrong.is_informative());

    let broken = AnswerKey::Numeric { expected: "not a number".into(), tolerance: abs("0") };
    let ours_broken = grade(ItemKind::Numeric, &broken, "5");
    assert!(matches!(ours_broken, Outcome::Ungradeable { .. }));
    assert!(!ours_broken.is_informative());
}

#[test]
fn a_malformed_answer_key_never_produces_a_verdict() {
    let key = AnswerKey::Malformed { raw: "{{{".into() };
    let outcome = grade(ItemKind::Mcq, &key, "a");
    assert!(matches!(outcome, Outcome::Ungradeable { .. }));
    assert!(!outcome.is_informative());
}

#[test]
fn a_kind_that_disagrees_with_its_answer_is_refused() {
    let key = AnswerKey::Exact { text: "paris".into(), alternatives: vec![] };
    let outcome = grade(ItemKind::Numeric, &key, "paris");
    assert!(matches!(outcome, Outcome::Ungradeable { .. }), "{outcome:?}");
    match outcome {
        Outcome::Ungradeable { reason } => assert_eq!(
            reason,
            "this item is stored as 'numeric' but its answer is a 'exact' answer"
        ),
        other => panic!("got {other:?}"),
    }
}

#[test]
fn exact_match_folds_case_and_whitespace_and_accepts_alternatives() {
    let key = AnswerKey::Exact {
        text: "Nitrogen".into(),
        alternatives: vec!["N2".into(), "N₂".into()],
    };
    assert!(is_correct(&grade(ItemKind::Exact, &key, "  nitrogen ")));
    assert!(is_correct(&grade(ItemKind::Exact, &key, "n2")));
    assert!(is_correct(&grade(ItemKind::Exact, &key, "N₂")));
    assert!(!is_correct(&grade(ItemKind::Exact, &key, "oxygen")));
}

#[test]
fn multiple_choice_compares_the_chosen_id() {
    let key = AnswerKey::Mcq { choice_id: "c2".into() };
    assert!(is_correct(&grade(ItemKind::Mcq, &key, "c2")));
    assert!(!is_correct(&grade(ItemKind::Mcq, &key, "c1")));
}

#[test]
fn cloze_gives_partial_credit_per_blank() {
    let key = AnswerKey::Cloze {
        blanks: vec![
            vec!["mitochondria".into()],
            vec!["atp".into(), "adenosine triphosphate".into()],
            vec!["cytoplasm".into()],
        ],
    };
    match grade(ItemKind::Cloze, &key, "mitochondria|ATP|nucleus") {
        Outcome::Decided { correct, score, blanks, .. } => {
            assert!(!correct);
            let share = score.hits as f64 / score.of as f64;
            assert!((share - 2.0 / 3.0).abs() < 1e-12);
            assert_eq!(blanks, vec![true, true, false]);
        }
        other => panic!("expected a decided outcome, got {other:?}"),
    }
    assert!(is_correct(&grade(
        ItemKind::Cloze,
        &key,
        "Mitochondria | adenosine triphosphate | cytoplasm"
    )));
}

#[test]
fn an_unanswered_cloze_blank_is_wrong_not_vacuously_right() {
    let key = AnswerKey::Cloze { blanks: vec![vec!["a".into()], vec!["b".into()]] };
    match grade(ItemKind::Cloze, &key, "a") {
        Outcome::Decided { blanks, correct, .. } => {
            assert_eq!(blanks, vec![true, false]);
            assert!(!correct);
        }
        other => panic!("got {other:?}"),
    }
}

#[test]
fn free_response_is_the_only_kind_that_reaches_a_model_and_carries_its_rubric() {
    let key = AnswerKey::Free { rubric: "Names both causes and links them.".into() };
    match grade(ItemKind::Free, &key, "anything") {
        Outcome::NeedsRubric { rubric } => {
            assert!(rubric.contains("Names both causes"));
        }
        other => panic!("free response must not be decided here, got {other:?}"),
    }
}

#[test]
fn every_objective_kind_reports_itself_as_deterministic() {
    let cases = [
        (ItemKind::Mcq, AnswerKey::Mcq { choice_id: "a".into() }, "a"),
        (ItemKind::Exact, AnswerKey::Exact { text: "a".into(), alternatives: vec![] }, "a"),
        (ItemKind::Cloze, AnswerKey::Cloze { blanks: vec![vec!["a".into()]] }, "a"),
        (
            ItemKind::Numeric,
            AnswerKey::Numeric { expected: "1".into(), tolerance: abs("0") },
            "1",
        ),
    ];
    for (kind, key, response) in cases {
        match grade(kind, &key, response) {
            Outcome::Decided { graded_by, .. } => {
                assert_eq!(graded_by, GradedBy::Deterministic, "{}", kind.as_str());
            }
            other => panic!("{} was not decided: {other:?}", kind.as_str()),
        }
    }
}

#[test]
fn absurdly_long_numbers_are_refused_rather_than_wrapping() {
    let key = AnswerKey::Numeric { expected: "1".into(), tolerance: abs("0") };
    let huge = "9".repeat(MAX_DECIMAL_DIGITS + 5);
    assert!(matches!(
        grade(ItemKind::Numeric, &key, &huge),
        Outcome::Decided { correct: false, .. }
    ));
    let broken_key = AnswerKey::Numeric { expected: huge, tolerance: abs("0") };
    assert!(matches!(
        grade(ItemKind::Numeric, &broken_key, "1"),
        Outcome::Ungradeable { .. }
    ));
}

#[test]
fn decimal_parsing_table() {
    assert!(Decimal::parse("").is_none());
    assert!(Decimal::parse("   ").is_none());
    assert!(Decimal::parse(".").is_none());
    assert!(Decimal::parse("1.2.3").is_none());
    assert!(Decimal::parse("--1").is_none());
    assert!(Decimal::parse("1 2").is_none());
    assert_eq!(Decimal::parse("-0.50"), Decimal::parse("-0.50"));
    let a = Decimal::parse("0.5").expect("parses");
    let b = Decimal::parse("0.50").expect("parses");
    assert!(a.le(b).expect("aligns") && b.le(a).expect("aligns"));
}

#[test]
fn decimals_keep_their_digits_and_their_scale() {
    assert_eq!(Decimal::parse(" -1,024.50 "), Some(Decimal { mantissa: -102450, scale: 2 }));
    assert_eq!(Decimal::parse("+7"), Some(Decimal { mantissa: 7, scale: 0 }));
    assert_eq!(Decimal::parse("1_000"), Some(Decimal { mantissa: 1000, scale: 0 }));
    assert_eq!(Decimal::parse("5."), Some(Decimal { mantissa: 5, scale: 0 }));
    assert_eq!(Decimal::parse("+-1"), None);
    assert_eq!(Decimal::parse(","), None);
    let most = "1".repeat(MAX_DECIMAL_DIGITS);
    assert!(Decimal::parse(&most).is_some());
    assert!(Decimal::parse(&format!("{most}1")).is_none());
}

#[test]
fn decimal_arithmetic_is_exact() {
    let a = Decimal { mantissa: 25, scale: 1 };
    let b = Decimal { mantissa: 3, scale: 0 };
    assert_eq!(Decimal::align(a, b), Some((25, 30)));
    assert_eq!(a.abs_difference(b), Some(Decimal { mantissa: 5, scale: 1 }));
    assert_eq!(b.abs_difference(a), Some(Decimal { mantissa: 5, scale: 1 }));
    assert_eq!(a.le(b), Some(true));
    assert_eq!(b.le(a), Some(false));
    assert_eq!(
        Decimal { mantissa: -200, scale: 0 }.percent_of(Decimal { mantissa: 5, scale: 0 }),
        Some(Decimal { mantissa: 1000, scale: 2 })
    );
    // Ten to the thirty-ninth does not fit, so the two cannot be brought to one scale.
    let fine = Decimal { mantissa: 1, scale: 39 };
    assert_eq!(Decimal::align(b, fine), None);
    assert_eq!(b.le(fine), None);
    assert_eq!(b.abs_difference(fine), None);
    assert_eq!(Decimal { mantissa: i128::MIN, scale: 0 }.percent_of(b), None);
    assert_eq!(Decimal { mantissa: i128::MAX, scale: 0 }.percent_of(a), None);
}

#[test]
fn numbers_too_far_apart_in_scale_are_not_compared() {
    let key = AnswerKey::Numeric {
        expected: "999999999999999999999999999999".into(),
        tolerance: abs("0"),
    };
    match grade(ItemKind::Numeric, &key, ".000000000000000000000000000001") {
        Outcome::Ungradeable { reason } => {
            assert_eq!(reason, "the answer has too many digits to compare");
        }
        other => panic!("got {other:?}"),
    }
}

#[test]
fn a_tolerance_that_cannot_be_read_is_not_the_learners_fault() {
    let key = AnswerKey::Numeric { expected: "1".into(), tolerance: abs("a bit") };
    match grade(ItemKind::Numeric, &key, "1") {
        Outcome::Ungradeable { reason } => {
            assert_eq!(reason, "this item's tolerance could not be read");
        }
        other => panic!("got {other:?}"),
    }
    // A negative tolerance admits nothing, not even the expected value.
    let negative = AnswerKey::Numeric {
        expected: "100".into(),
        tolerance: Tolerance::RelativePercent { value: "-5".into() },
    };
    assert!(!is_correct(&grade(ItemKind::Numeric, &negative, "100")));
}

#[test]
fn a_cloze_item_without_blanks_is_refused() {
    let key = AnswerKey::Cloze { blanks: vec![] };
    match grade(ItemKind::Cloze, &key, "a") {
        Outcome::Ungradeable { reason } => assert_eq!(reason, "this cloze item has no blanks"),
        other => panic!("got {other:?}"),
    }
    // The empty text is accepted on paper; an empty blank is wrong all the same.
    let vacuous = AnswerKey::Cloze { blanks: vec![vec!["".into()]] };
    match grade(ItemKind::Cloze, &vacuous, "  ") {
        Outcome::Decided { correct, score, blanks, .. } => {
            assert!(!correct);
            assert_eq!(score, Score { hits: 0, of: 1 });
            assert_eq!(blanks, vec![false]);
        }
        other => panic!("got {other:?}"),
    }
}

#[test]
fn folding_lowers_case_and_collapses_white_space() {
    assert_eq!(fold("  Beta\t Blockers\n"), "beta blockers");
    assert_eq!(fold("ÜBER\u{00a0}ÄRA"), "über ära");
    assert_eq!(fold(" \u{3000} "), "");
    assert_eq!(fold("one"), "one");
}

#[test]
fn folding_keeps_words_and_is_done_once() {
    for text in ["", "  ", " The  Quick\tFOX\n", "a", "ÄÖ ß  Σίσυφος "] {
        let once = fold(text);
        assert_eq!(fold(&once), once);
        assert_eq!(once.split_whitespace().count(), text.split_whitespace().count());
        assert_eq!(once, once.split_whitespace().collect::<Vec<_>>().join(" "));
    }
    assert_eq!(fold(" The  Quick\tFOX\n"), fold("the QUICK fox"));
    assert_ne!(fold("thequick fox"), fold("the quick fox"));
}
