//! Spaced repetition over skills: how many days until a skill is owed again.
//!
//! The interval is whole days from a day boundary in the learner's zone. The quality
//! grade comes from outcomes, never from a feeling. The two products that need
//! floating-point arithmetic — the scaled interval and the moved ease — are handed in as
//! results; the ladder itself is decided here.

use crate::calendar::{
    day_start_after, day_start_plus_days, instant_of, local_day_at, Tz, MAX_DAY,
};
use crate::double::{Double, ONE, ZERO};
use crate::models::{Attempt, Skill, DEFAULT_EASE, MIN_EASE};
use vstd::prelude::*;

verus! {

/// The lowest quality that counts as a pass.
pub const PASSING_QUALITY: u8 = 3;

/// The top of the quality scale.
pub const MAX_QUALITY: u8 = 5;

/// The first interval of the ladder.
pub const FIRST_INTERVAL_DAYS: u32 = 1;

/// The second interval of the ladder.
pub const SECOND_INTERVAL_DAYS: u32 = 6;

/// Where a lapse puts the skill: tomorrow, from scratch.
pub const LAPSE_INTERVAL_DAYS: u32 = 1;

/// Ceiling on an interval: ten years, well inside the calendar.
pub const MAX_INTERVAL_DAYS: u32 = 3650;

/// The bit pattern of 3650.0, the ceiling on an interval.
pub const MAX_INTERVAL: u64 = 0x40ac_8400_0000_0000;

/// The scheduling half of a skill's state.
#[derive(Clone, Copy, Debug, PartialEq, Eq, Structural)]
pub struct Schedule {
    pub ease: Double,
    pub interval_days: u32,
    pub reps: u32,
    pub lapses: u32,
}

impl Default for Schedule {
    /// A never-reviewed skill.
    fn default() -> (schedule: Self)
        ensures
            schedule == (Schedule {
                ease: Double { bits: DEFAULT_EASE },
                interval_days: 0,
                reps: 0,
                lapses: 0,
            }),
    {
        Schedule { ease: Double { bits: DEFAULT_EASE }, interval_days: 0, reps: 0, lapses: 0 }
    }
}

impl Schedule {
    /// The scheduling half of a skill.
    pub fn of(skill: &Skill) -> (schedule: Self)
        ensures
            schedule == (Schedule {
                ease: skill.ease,
                interval_days: skill.interval_days,
                reps: skill.reps,
                lapses: skill.lapses,
            }),
    {
        Schedule {
            ease: skill.ease,
            interval_days: skill.interval_days,
            reps: skill.reps,
            lapses: skill.lapses,
        }
    }
}

/// What a review produced.
#[derive(Clone, Copy, Debug, PartialEq, Eq, Structural)]
pub struct Review {
    pub schedule: Schedule,
    /// A day boundary in the subject's zone.
    pub due_at: i64,
    /// Whether the quality was below a pass.
    pub lapsed: bool,
}

/// One graded answer, reduced to what the quality grade needs.
#[derive(Clone, Copy, Debug, PartialEq, Eq, Structural)]
pub struct Outcome {
    /// `None` while an answer is still awaiting its mark.
    pub correct: Option<bool>,
    /// Partial credit in `[0,1]`.
    pub score: Option<Double>,
}

impl Outcome {
    /// The outcome on a stored attempt. Whether the attempt moved the posterior plays
    /// no part: a wrong answer under degenerate parameters is still a wrong answer.
    pub fn of(attempt: &Attempt) -> (outcome: Self)
        ensures
            outcome == (Outcome { correct: attempt.correct, score: attempt.score }),
    {
        Outcome { correct: attempt.correct, score: attempt.score }
    }
}

/// The credit of one graded answer: its score where it has a usable one, all or nothing
/// otherwise.
pub open spec fn credit_of(correct: bool, score: Option<Double>) -> Double {
    match score {
        Some(s) => if s.finite() {
            s.clamped(Double { bits: ZERO }, Double { bits: ONE })
        } else if correct {
            Double { bits: ONE }
        } else {
            Double { bits: ZERO }
        },
        None => if correct {
            Double { bits: ONE }
        } else {
            Double { bits: ZERO }
        },
    }
}

/// The credits of the graded answers, in order; answers awaiting a mark contribute none.
pub open spec fn credits_of(outcomes: Seq<Outcome>) -> Seq<Double>
    decreases outcomes.len(),
{
    if outcomes.len() == 0 {
        seq![]
    } else {
        let before = credits_of(outcomes.drop_last());
        match outcomes.last().correct {
            Some(correct) => before.push(credit_of(correct, outcomes.last().score)),
            None => before,
        }
    }
}

/// The credits whose mean is the share of a session that was right. With none there is
/// no evidence, and the schedule is to be left alone.
pub fn credits(outcomes: &[Outcome]) -> (credits: Vec<Double>)
    ensures
        credits@ == credits_of(outcomes@),
        forall|i: int| 0 <= i < credits@.len() ==> (#[trigger] credits@[i]).is_share(),
{
    let mut credits: Vec<Double> = Vec::new();
    let mut i: usize = 0;
    let zero: Double = Double { bits: ZERO };
    let one: Double = Double { bits: ONE };
    assert(outcomes@.take(0) =~= seq![]);
    while i < outcomes.len()
        invariant
            i <= outcomes@.len(),
            zero == (Double { bits: ZERO }),
            one == (Double { bits: ONE }),
            credits@ == credits_of(outcomes@.take(i as int)),
            forall|k: int| 0 <= k < credits@.len() ==> (#[trigger] credits@[k]).is_share(),
        decreases outcomes@.len() - i,
    {
        proof {
            assert(outcomes@.take(i + 1).drop_last() =~= outcomes@.take(i as int));
            assert(outcomes@.take(i + 1).last() == outcomes@[i as int]);
        }
        if let Some(correct) = outcomes[i].correct {
            let flat: Double = if correct {
                one
            } else {
                zero
            };
            let credit: Double = match outcomes[i].score {
                Some(score) => if score.is_finite() {
                    score.clamp(zero, one)
                } else {
                    flat
                },
                None => flat,
            };
            credits.push(credit);
        }
        i += 1;
    }
    assert(outcomes@.take(i as int) =~= outcomes@);
    credits
}

/// The bit pattern of 0.5, where the quality scale rounds up to 1.
pub const ROUNDS_TO_1: u64 = 0x3fe0_0000_0000_0000;

/// The bit pattern of 1.5.
pub const ROUNDS_TO_2: u64 = 0x3ff8_0000_0000_0000;

/// The bit pattern of 2.5.
pub const ROUNDS_TO_3: u64 = 0x4004_0000_0000_0000;

/// The bit pattern of 3.5.
pub const ROUNDS_TO_4: u64 = 0x400c_0000_0000_0000;

/// The bit pattern of 4.5.
pub const ROUNDS_TO_5: u64 = 0x4012_0000_0000_0000;

/// The grade nearest to a number, halves rounded up, cut off to the quality scale.
pub open spec fn nearest_grade(v: Double) -> u8 {
    if v.at_least(Double { bits: ROUNDS_TO_5 }) {
        5
    } else if v.at_least(Double { bits: ROUNDS_TO_4 }) {
        4
    } else if v.at_least(Double { bits: ROUNDS_TO_3 }) {
        3
    } else if v.at_least(Double { bits: ROUNDS_TO_2 }) {
        2
    } else if v.at_least(Double { bits: ROUNDS_TO_1 }) {
        1
    } else {
        0
    }
}

/// The quality grade of a session. `scaled` is the mean of its credits times the top of
/// the scale. With nothing graded there is no grade, and the schedule is to be left
/// alone.
pub fn quality(outcomes: &[Outcome], scaled: Double) -> (grade: Option<u8>)
    ensures
        grade is None <==> credits_of(outcomes@).len() == 0,
        grade matches Some(q) ==> q == nearest_grade(scaled) && q <= MAX_QUALITY,
{
    let given: Vec<Double> = credits(outcomes);
    if given.len() == 0 {
        return None;
    }
    if scaled.ge(Double { bits: ROUNDS_TO_5 }) {
        Some(5)
    } else if scaled.ge(Double { bits: ROUNDS_TO_4 }) {
        Some(4)
    } else if scaled.ge(Double { bits: ROUNDS_TO_3 }) {
        Some(3)
    } else if scaled.ge(Double { bits: ROUNDS_TO_2 }) {
        Some(2)
    } else if scaled.ge(Double { bits: ROUNDS_TO_1 }) {
        Some(1)
    } else {
        Some(0)
    }
}

/// The ease a review works with: never below the floor, and the default where what is
/// stored is no number.
pub open spec fn usable_ease(ease: Double) -> Double {
    if ease.finite() {
        ease.larger(Double { bits: MIN_EASE })
    } else {
        Double { bits: DEFAULT_EASE }
    }
}

/// The ease a review works with.
pub fn repaired_ease(ease: Double) -> (usable: Double)
    ensures
        usable == usable_ease(ease),
        usable.finite(),
        usable.at_least(Double { bits: MIN_EASE }),
{
    if ease.is_finite() {
        ease.max(Double { bits: MIN_EASE })
    } else {
        Double { bits: DEFAULT_EASE }
    }
}

/// What the two products of a review are taken of.
#[derive(Clone, Copy, Debug, PartialEq, Eq, Structural)]
pub struct ReviewTerms {
    /// The quality, cut off to the scale.
    pub quality: u8,
    /// How far the quality is from the top of the scale.
    pub miss: u8,
    /// The interval to scale: at least one day.
    pub interval_days: u32,
    /// The ease to scale it by, and to move.
    pub ease: Double,
}

/// What the two products of a review of quality `q` are taken of.
pub open spec fn terms_of(prev: Schedule, q: u8) -> ReviewTerms {
    let quality = if q < MAX_QUALITY {
        q
    } else {
        MAX_QUALITY
    };
    ReviewTerms {
        quality,
        miss: (MAX_QUALITY - quality) as u8,
        interval_days: if prev.interval_days < 1 {
            1
        } else {
            prev.interval_days
        },
        ease: usable_ease(prev.ease),
    }
}

/// What the two products of a review of quality `q` are taken of. A row that arrives
/// without an interval counts as one day, or it would be owed every day with no way out.
pub fn review_terms(prev: Schedule, q: u8) -> (terms: ReviewTerms)
    ensures
        terms == terms_of(prev, q),
{
    let quality: u8 = if q < MAX_QUALITY {
        q
    } else {
        MAX_QUALITY
    };
    ReviewTerms {
        quality,
        miss: MAX_QUALITY - quality,
        interval_days: if prev.interval_days < 1 {
            1
        } else {
            prev.interval_days
        },
        ease: repaired_ease(prev.ease),
    }
}

/// The least whole number that is not less than a number above 0 and below 2^52, read off
/// its bit pattern.
pub open spec fn rounded_up(v: Double) -> int {
    let exponent = v.bits as int / 0x10_0000_0000_0000;
    let mantissa = 0x10_0000_0000_0000 + v.bits as int % 0x10_0000_0000_0000;
    if exponent < 1023 {
        1
    } else {
        let unit = pow2((1075 - exponent) as nat);
        mantissa / unit + if mantissa % unit == 0 {
            0int
        } else {
            1int
        }
    }
}

/// Two to the power of `n`.
pub open spec fn pow2(n: nat) -> int
    decreases n,
{
    if n == 0 {
        1
    } else {
        2 * pow2((n - 1) as nat)
    }
}

/// The days that a scaled interval stands for, rounded up: never less than the first
/// interval, and never more than the ceiling.
pub open spec fn interval_from(scaled: Double) -> u32 {
    if !scaled.finite() || !(Double { bits: ZERO }).below(scaled) {
        FIRST_INTERVAL_DAYS
    } else if scaled.at_least(Double { bits: MAX_INTERVAL }) {
        MAX_INTERVAL_DAYS
    } else {
        rounded_up(scaled) as u32
    }
}

/// The least whole number that is not less than a number below the ceiling.
fn round_up(v: Double) -> (days: u32)
    requires
        (Double { bits: ZERO }).below(v),
        !v.at_least(Double { bits: MAX_INTERVAL }),
    ensures
        days == rounded_up(v),
{
    let exponent: u64 = v.bits / 0x10_0000_0000_0000;
    let fraction: u64 = v.bits % 0x10_0000_0000_0000;
    if exponent < 1023 {
        return 1;
    }
    assert(exponent <= 0x40a);
    let mut rest: u64 = 0x10_0000_0000_0000 + fraction;
    let mut exact: bool = true;
    let steps: u64 = 1075 - exponent;
    let mut i: u64 = 0;
    let ghost start = rest as int;
    assert(start / 1 == start);
    while i < steps
        invariant
            i <= steps,
            steps <= 52,
            0 <= start,
            rest == start / pow2(i as nat),
            exact == (start % pow2(i as nat) == 0),
        decreases steps - i,
    {
        proof {
            pow2_positive(i as nat);
            halved(start, pow2(i as nat));
        }
        exact = exact && rest % 2 == 0;
        rest = rest / 2;
        i += 1;
    }
    proof {
        assert(steps >= 41);
        small_whole(start, steps as nat);
    }
    if exact {
        rest as u32
    } else {
        rest as u32 + 1
    }
}

/// Dividing by twice a unit is dividing by the unit, and then by two.
proof fn halved(n: int, unit: int)
    requires
        0 <= n,
        1 <= unit,
    ensures
        n / (2 * unit) == (n / unit) / 2,
        n % (2 * unit) == 0 <==> n % unit == 0 && (n / unit) % 2 == 0,
{
    let whole = n / unit;
    let part = n % unit;
    let half = whole / 2;
    let odd = whole % 2;
    vstd::arithmetic::div_mod::lemma_fundamental_div_mod(n, unit);
    assert(0 <= part < unit) by (nonlinear_arith)
        requires
            part == n % unit,
            1 <= unit,
    ;
    let left = odd * unit + part;
    assert(n == half * (2 * unit) + left) by (nonlinear_arith)
        requires
            n == unit * whole + part,
            whole == 2 * half + odd,
            left == odd * unit + part,
    ;
    assert(0 <= left < 2 * unit) by (nonlinear_arith)
        requires
            left == odd * unit + part,
            0 <= odd <= 1,
            0 <= part < unit,
    ;
    vstd::arithmetic::div_mod::lemma_fundamental_div_mod_converse(n, 2 * unit, half, left);
    assert(left == 0 <==> odd == 0 && part == 0) by (nonlinear_arith)
        requires
            left == odd * unit + part,
            0 <= odd <= 1,
            0 <= part < unit,
    ;
}

proof fn pow2_positive(n: nat)
    ensures
        pow2(n) >= 1,
    decreases n,
{
    if n > 0 {
        pow2_positive((n - 1) as nat);
    }
}

proof fn pow2_grows(m: nat, n: nat)
    requires
        m <= n,
    ensures
        1 <= pow2(m) <= pow2(n),
    decreases n,
{
    pow2_positive(m);
    if m < n {
        pow2_grows(m, (n - 1) as nat);
    }
}

/// Fifty-three bits, shifted down by at least forty-one, leave twelve.
proof fn small_whole(start: int, steps: nat)
    requires
        0 <= start < 0x20_0000_0000_0000,
        steps >= 41,
    ensures
        0 <= start / pow2(steps) < 4096,
{
    pow2_grows(41, steps);
    assert(pow2(41) == 0x200_0000_0000) by {
        reveal_with_fuel(pow2, 42);
    }
    let p = pow2(steps);
    assert(0 <= start / p < 4096) by (nonlinear_arith)
        requires
            0 <= start < 0x20_0000_0000_0000,
            p >= 0x200_0000_0000,
    ;
}

/// The days that a scaled interval stands for, rounded up, saturating at the ceiling.
pub fn scale_interval(scaled: Double) -> (days: u32)
    ensures
        days == interval_from(scaled),
{
    let zero: Double = Double { bits: ZERO };
    let ceiling: Double = Double { bits: MAX_INTERVAL };
    if !scaled.is_finite() || !zero.lt(scaled) {
        return FIRST_INTERVAL_DAYS;
    }
    if scaled.ge(ceiling) {
        return MAX_INTERVAL_DAYS;
    }
    round_up(scaled)
}

/// An interval cut off to at least a day and at most the ceiling.
pub open spec fn within_calendar(days: u32) -> u32 {
    if days < 1 {
        1
    } else if days > MAX_INTERVAL_DAYS {
        MAX_INTERVAL_DAYS
    } else {
        days
    }
}

/// One more, saturating.
pub open spec fn one_more(n: u32) -> u32 {
    if n == u32::MAX {
        n
    } else {
        (n + 1) as u32
    }
}

/// The schedule after a review of quality `q`. Over the terms of the review, `scaled` is
/// the interval times the ease, and `eased` is the ease plus
/// 0.1 − miss × (0.08 + miss × 0.02).
pub open spec fn next_schedule(prev: Schedule, q: u8, scaled: Double, eased: Double) -> Schedule {
    if q < PASSING_QUALITY {
        Schedule {
            ease: usable_ease(prev.ease),
            interval_days: LAPSE_INTERVAL_DAYS,
            reps: 0,
            lapses: one_more(prev.lapses),
        }
    } else {
        let reps = one_more(prev.reps);
        Schedule {
            ease: (Double { bits: MIN_EASE }).larger(eased),
            interval_days: within_calendar(
                if reps == 1 {
                    FIRST_INTERVAL_DAYS
                } else if reps == 2 {
                    SECOND_INTERVAL_DAYS
                } else {
                    interval_from(scaled)
                },
            ),
            reps,
            lapses: prev.lapses,
        }
    }
}

/// The step of the ladder.
///
/// The interval is computed with the ease from before the review. A lapse does not touch
/// the ease: starting over tomorrow is the whole penalty.
pub fn review(
    prev: Schedule,
    q: u8,
    scaled: Double,
    eased: Double,
    tz: &Tz,
    now: i64,
) -> (review: Review)
    ensures
        review.schedule == next_schedule(prev, q, scaled, eased),
        review.lapsed == (q < PASSING_QUALITY),
        review.due_at == day_start_after(tz.name@, now, review.schedule.interval_days),
        1 <= review.schedule.interval_days <= MAX_INTERVAL_DAYS,
        review.schedule.ease.at_least(Double { bits: MIN_EASE }),
        // A lapse: tomorrow, from scratch, counted; the ease as it was, but for the floor.
        q < 3 ==> review.lapsed && review.schedule.interval_days == 1 && review.schedule.reps == 0,
        q < 3 && prev.lapses < u32::MAX ==> review.schedule.lapses == prev.lapses + 1,
        q < 3 && prev.ease.finite() && prev.ease.at_least(Double { bits: MIN_EASE })
            ==> review.schedule.ease == prev.ease,
        q < 3 && prev.ease.finite() && prev.ease.below(Double { bits: MIN_EASE })
            ==> review.schedule.ease.bits == MIN_EASE,
        q < 3 && !prev.ease.finite() ==> review.schedule.ease.bits == DEFAULT_EASE,
        // A pass: one step up the ladder, which starts with one day and then six, and then goes
        // by the product alone.
        q >= 3 ==> !review.lapsed && review.schedule.lapses == prev.lapses,
        q >= 3 && prev.reps < u32::MAX ==> review.schedule.reps == prev.reps + 1,
        q >= 3 && prev.reps == 0 ==> review.schedule.interval_days == 1,
        q >= 3 && prev.reps == 1 ==> review.schedule.interval_days == 6,
        q >= 3 && prev.reps >= 2 && scaled.at_least(Double { bits: 0x40ac_8400_0000_0000 })
            && scaled.finite() ==> review.schedule.interval_days == 3650,
        q >= 3 && prev.reps >= 2 && (!scaled.finite() || !(Double { bits: ZERO }).below(scaled))
            ==> review.schedule.interval_days == 1,
        q >= 3 && prev.reps >= 2 && 0 < scaled.bits < 0x3ff0_0000_0000_0000
            ==> review.schedule.interval_days == 1,
        q >= 3 && prev.reps >= 2 && 0x3ff0_0000_0000_0000 <= scaled.bits < 0x40ac_8400_0000_0000
            ==> {
            let size = 0x10_0000_0000_0000 + scaled.bits % 0x10_0000_0000_0000;
            let day = vstd::arithmetic::power2::pow2(
                (1075 - scaled.bits / 0x10_0000_0000_0000) as nat,
            );
            (review.schedule.interval_days - 1) * day < size <= review.schedule.interval_days * day
        },
        q >= 3 && eased.at_least(Double { bits: MIN_EASE }) ==> review.schedule.ease == eased,
        q >= 3 && !eased.at_least(Double { bits: MIN_EASE }) ==> review.schedule.ease.bits
            == MIN_EASE,
{
    proof {
        the_interval_is_the_product_rounded_up(scaled);
    }
    let ease: Double = repaired_ease(prev.ease);
    let lapsed: bool = q < PASSING_QUALITY;
    let schedule: Schedule = if lapsed {
        Schedule {
            ease,
            interval_days: LAPSE_INTERVAL_DAYS,
            reps: 0,
            lapses: prev.lapses.saturating_add(1),
        }
    } else {
        let reps: u32 = prev.reps.saturating_add(1);
        let days: u32 = if reps == 1 {
            FIRST_INTERVAL_DAYS
        } else if reps == 2 {
            SECOND_INTERVAL_DAYS
        } else {
            scale_interval(scaled)
        };
        let floor: Double = Double { bits: MIN_EASE };
        Schedule {
            ease: floor.max(eased),
            interval_days: if days < 1 {
                1
            } else if days > MAX_INTERVAL_DAYS {
                MAX_INTERVAL_DAYS
            } else {
                days
            },
            reps,
            lapses: prev.lapses,
        }
    };
    Review {
        schedule,
        due_at: day_start_plus_days(tz, now, schedule.interval_days),
        lapsed,
    }
}

proof fn pow2_is_two_to_the_power(n: nat)
    ensures
        pow2(n) == vstd::arithmetic::power2::pow2(n),
    decreases n,
{
    if n == 0 {
        vstd::arithmetic::power2::lemma2_to64();
    } else {
        pow2_is_two_to_the_power((n - 1) as nat);
        vstd::arithmetic::power2::lemma_pow2_unfold(n);
    }
}

/// The days that a scaled interval stands for are the least that are not less than it, at
/// least one, and at most ten years: with the number written as `size / day`, one day less
/// would be too few.
pub proof fn the_interval_is_the_product_rounded_up(scaled: Double)
    ensures
        1 <= interval_from(scaled) <= 3650,
        scaled.at_least(Double { bits: 0x40ac_8400_0000_0000 }) && scaled.finite() ==> interval_from(
            scaled,
        ) == 3650,
        !scaled.finite() || !(Double { bits: ZERO }).below(scaled) ==> interval_from(scaled) == 1,
        0 < scaled.bits < 0x3ff0_0000_0000_0000 ==> interval_from(scaled) == 1,
        0x3ff0_0000_0000_0000 <= scaled.bits < 0x40ac_8400_0000_0000 ==> {
            let size = 0x10_0000_0000_0000 + scaled.bits % 0x10_0000_0000_0000;
            let day = vstd::arithmetic::power2::pow2(
                (1075 - scaled.bits / 0x10_0000_0000_0000) as nat,
            );
            (interval_from(scaled) - 1) * day < size <= interval_from(scaled) * day
        },
{
    if 0x3ff0_0000_0000_0000 <= scaled.bits < 0x40ac_8400_0000_0000 {
        let exponent = scaled.bits as int / 0x10_0000_0000_0000;
        let size = 0x10_0000_0000_0000 + scaled.bits as int % 0x10_0000_0000_0000;
        assert(1023 <= exponent <= 0x40a);
        let n = (1075 - exponent) as nat;
        pow2_is_two_to_the_power(n);
        pow2_positive(n);
        let day = pow2(n);
        let whole = size / day;
        let part = size % day;
        vstd::arithmetic::div_mod::lemma_fundamental_div_mod(size, day);
        assert(0 <= part < day) by (nonlinear_arith)
            requires
                part == size % day,
                day >= 1,
        ;
        let days = rounded_up(scaled);
        assert(days == whole + if part == 0 {
            0int
        } else {
            1int
        });
        assert((days - 1) * day < size <= days * day) by (nonlinear_arith)
            requires
                size == day * whole + part,
                0 <= part < day,
                days == whole + (if part == 0 {
                    0int
                } else {
                    1int
                }),
        ;
        the_product_stays_below(size, n, exponent, scaled.bits as int);
    }
}

/// What is below 3650.0 rounds up to no more than 3650, and no less than one.
proof fn the_product_stays_below(size: int, n: nat, exponent: int, bits: int)
    requires
        n == 1075 - exponent,
        1023 <= exponent <= 0x40a,
        bits == exponent * 0x10_0000_0000_0000 + (size - 0x10_0000_0000_0000),
        0x10_0000_0000_0000 <= size < 0x20_0000_0000_0000,
        bits < 0x40ac_8400_0000_0000,
    ensures
        1 <= size / pow2(n),
        size / pow2(n) < 3650,
{
    pow2_grows(41, n);
    assert(pow2(41) == 0x200_0000_0000) by {
        reveal_with_fuel(pow2, 42);
    }
    assert(pow2(42) == 0x400_0000_0000) by {
        reveal_with_fuel(pow2, 43);
    }
    let p = pow2(n);
    pow2_grows(n, 52);
    assert(pow2(52) == 0x10_0000_0000_0000) by {
        reveal_with_fuel(pow2, 53);
    }
    if n == 41 {
        assert(size < 0x10_0000_0000_0000 + 0xc_8400_0000_0000);
        assert(size / 0x200_0000_0000 < 3650);
    } else {
        pow2_grows(42, n);
        assert(size / p < 2048) by (nonlinear_arith)
            requires
                0 <= size < 0x20_0000_0000_0000,
                p >= 0x400_0000_0000,
        ;
    }
    assert(size / p >= 1) by (nonlinear_arith)
        requires
            size >= 0x10_0000_0000_0000,
            1 <= p <= 0x10_0000_0000_0000,
    ;
}

/// Past its first two steps the ladder goes by the product alone: skills that are passed and
/// whose interval times ease comes to the same are owed after the same number of days,
/// whatever else is on record of them.
pub proof fn the_ladder_climbs_by_the_product_alone(
    one: Schedule,
    other: Schedule,
    q: u8,
    r: u8,
    scaled: Double,
    eased: Double,
    moved: Double,
)
    requires
        one.reps >= 2,
        other.reps >= 2,
        q >= 3,
        r >= 3,
    ensures
        next_schedule(one, q, scaled, eased).interval_days == next_schedule(
            other,
            r,
            scaled,
            moved,
        ).interval_days,
        0x3ff0_0000_0000_0000 <= scaled.bits < 0x40ac_8400_0000_0000 ==> {
            let size = 0x10_0000_0000_0000 + scaled.bits % 0x10_0000_0000_0000;
            let day = vstd::arithmetic::power2::pow2(
                (1075 - scaled.bits / 0x10_0000_0000_0000) as nat,
            );
            let days = next_schedule(one, q, scaled, eased).interval_days;
            (days - 1) * day < size <= days * day
        },
        scaled.at_least(Double { bits: 0x40ac_8400_0000_0000 }) && scaled.finite()
            ==> next_schedule(one, q, scaled, eased).interval_days == 3650,
{
    the_interval_is_the_product_rounded_up(scaled);
}

/// How a review moves the ease and the counts: a pass takes the moved ease, but never less
/// than 1.3, counts one more repetition and no lapse; a lapse keeps the ease, counts a lapse
/// and starts the repetitions over. Neither depends on the interval.
pub proof fn a_review_moves_ease_and_counts(
    prev: Schedule,
    q: u8,
    scaled: Double,
    eased: Double,
    longer: u32,
)
    ensures
        ({
            let next = next_schedule(prev, q, scaled, eased);
            let same = next_schedule(Schedule { interval_days: longer, ..prev }, q, scaled, eased);
            &&& next == same
            &&& q >= 3 && eased.at_least(Double { bits: 0x3ff4_cccc_cccc_cccd }) ==> next.ease
                == eased
            &&& q >= 3 && !eased.at_least(Double { bits: 0x3ff4_cccc_cccc_cccd }) ==> next.ease.bits
                == 0x3ff4_cccc_cccc_cccd
            &&& q >= 3 && prev.reps < u32::MAX ==> next.reps == prev.reps + 1
            &&& q >= 3 ==> next.lapses == prev.lapses
            &&& q >= 3 && prev.reps == 0 ==> next.interval_days == 1
            &&& q >= 3 && prev.reps == 1 ==> next.interval_days == 6
            &&& q < 3 ==> next.reps == 0 && next.interval_days == 1
            &&& q < 3 && prev.lapses < u32::MAX ==> next.lapses == prev.lapses + 1
            &&& q < 3 && prev.ease.finite() && prev.ease.at_least(
                Double { bits: 0x3ff4_cccc_cccc_cccd },
            ) ==> next.ease == prev.ease
        }),
{
}

/// The credits of a session are those of its answers, one after the other: an answer that
/// awaits its mark gives none, one with a usable score gives that score cut off to `[0,1]`,
/// and any other all or nothing.
pub proof fn each_graded_answer_gives_its_credit(
    before: Seq<Outcome>,
    after: Seq<Outcome>,
    one: Outcome,
)
    ensures
        credits_of(before + after) == credits_of(before) + credits_of(after),
        one.correct is None ==> credits_of(seq![one]).len() == 0,
        one.correct is Some ==> credits_of(seq![one]).len() == 1,
        one.correct is Some && one.score is None ==> credits_of(seq![one])[0].bits == (
        if one.correct == Some(true) {
            ONE
        } else {
            ZERO
        }),
        one.correct matches Some(right) ==> one.score matches Some(score) ==> {
            let credit = credits_of(seq![one])[0];
            &&& score.is_share() ==> credit == score
            &&& score.finite() && (Double { bits: ONE }).below(score) ==> credit.bits == ONE
            &&& score.finite() && score.below(Double { bits: ZERO }) ==> credit.bits == ZERO
            &&& !score.finite() ==> credit.bits == if right {
                ONE
            } else {
                ZERO
            }
        },
    decreases after.len(),
{
    let single = seq![one];
    assert(single.drop_last() =~= seq![]);
    assert(single.last() == one);
    assert(credits_of(single.drop_last()) =~= seq![]);
    let all = before + after;
    if after.len() == 0 {
        assert(all =~= before);
        assert(credits_of(before) + credits_of(after) =~= credits_of(before));
    } else {
        let init = after.drop_last();
        each_graded_answer_gives_its_credit(before, init, one);
        assert(all.drop_last() =~= before + init);
        assert(all.last() == after.last());
        assert(credits_of(all) =~= credits_of(before) + credits_of(after));
    }
}

/// The quality grade is the nearest whole grade, halves going up: a session of a greater mean
/// never has a smaller grade, and each grade starts at the half below it.
pub proof fn the_grade_is_the_nearest(v: Double, more: Double)
    ensures
        more.at_least(v) ==> nearest_grade(v) <= nearest_grade(more),
        nearest_grade(v) >= 1 <==> v.at_least(Double { bits: 0x3fe0_0000_0000_0000 }),
        nearest_grade(v) >= 2 <==> v.at_least(Double { bits: 0x3ff8_0000_0000_0000 }),
        nearest_grade(v) >= 3 <==> v.at_least(Double { bits: 0x4004_0000_0000_0000 }),
        nearest_grade(v) >= 4 <==> v.at_least(Double { bits: 0x400c_0000_0000_0000 }),
        nearest_grade(v) >= 5 <==> v.at_least(Double { bits: 0x4012_0000_0000_0000 }),
        nearest_grade(v) <= 5,
{
}

/// What a review works with: the quality cut off at five, how far it is from five, at least
/// one day, and an ease of at least 1.3, or 2.5 where what is stored is no number.
pub proof fn a_review_works_with_what_is_usable(prev: Schedule, q: u8)
    ensures
        ({
            let terms = terms_of(prev, q);
            &&& q <= 5 ==> terms.quality == q
            &&& q > 5 ==> terms.quality == 5
            &&& terms.miss + terms.quality == 5
            &&& prev.interval_days >= 1 ==> terms.interval_days == prev.interval_days
            &&& prev.interval_days == 0 ==> terms.interval_days == 1
            &&& prev.ease.finite() && prev.ease.at_least(Double { bits: 0x3ff4_cccc_cccc_cccd })
                ==> terms.ease == prev.ease
            &&& prev.ease.finite() && prev.ease.below(Double { bits: 0x3ff4_cccc_cccc_cccd })
                ==> terms.ease.bits == 0x3ff4_cccc_cccc_cccd
            &&& !prev.ease.finite() ==> terms.ease.bits == 0x4004_0000_0000_0000
        }),
{
}

/// A lapse starts the ladder over and is counted; it leaves the ease as it was, but for
/// the floor.
pub proof fn a_lapse_starts_over(prev: Schedule, q: u8, scaled: Double, eased: Double)
    requires
        q < PASSING_QUALITY,
    ensures
        ({
            let next = next_schedule(prev, q, scaled, eased);
            &&& next.reps == 0
            &&& next.interval_days == 1
            &&& next.lapses >= prev.lapses
            &&& prev.lapses < u32::MAX ==> next.lapses == prev.lapses + 1
            &&& prev.ease.finite() && prev.ease.at_least(Double { bits: MIN_EASE }) ==> next.ease
                == prev.ease
        }),
{
}

/// The ladder of a skill that is always passed starts with one day and then six,
/// whatever its ease.
pub proof fn the_ladder_starts_fixed(
    first: Schedule,
    q: u8,
    r: u8,
    scaled: Double,
    eased: Double,
    scaled_again: Double,
    eased_again: Double,
)
    requires
        first.reps == 0,
        PASSING_QUALITY <= q,
        PASSING_QUALITY <= r,
    ensures
        ({
            let second = next_schedule(first, q, scaled, eased);
            let third = next_schedule(second, r, scaled_again, eased_again);
            &&& second.interval_days == 1 && second.reps == 1
            &&& third.interval_days == 6 && third.reps == 2
            &&& third.lapses == first.lapses
        }),
{
}

/// The hour of a review does not move the day it is owed: two reviews on one local day
/// that come to the same interval are owed at the same instant.
pub proof fn a_late_review_is_owed_on_the_same_day(
    zone: Seq<char>,
    early: i64,
    late: i64,
    day: i32,
    days: u32,
)
    requires
        local_day_at(zone, early) == Some(day),
        local_day_at(zone, late) == Some(day),
        day + days <= MAX_DAY,
        instant_of(zone, (day + days) as i32, 12) is Some,
    ensures
        day_start_after(zone, early, days) == day_start_after(zone, late, days),
{
}

} // verus!
