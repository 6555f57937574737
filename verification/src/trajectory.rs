//! Exam trajectory: "will I be ready in time", and when to refuse to answer.
//!
//! A projection from too little history is no answer, so refusing is a result of its
//! own. The sums and quotients are floating-point arithmetic and are handed in; which of
//! them count, and what they amount to, is decided here.

use crate::double::{Double, INFINITY_BITS, ZERO};
use crate::models::{Session, TuitionSettings};
use vstd::prelude::*;

verus! {

/// Sessions of history required before any projection is made.
pub const MIN_SESSIONS_FOR_TRAJECTORY: usize = 3;

/// How many recent sessions the learning rate is averaged over.
pub const TRAILING_SESSIONS: usize = 10;

/// Fraction by which projected effort must exceed available effort before the
/// trajectory is called at risk: the bit pattern of 0.15.
pub const AT_RISK_MARGIN: u64 = 0x3fc3_3333_3333_3333;

/// Mastery at or above which a skill needs no further work: the bit pattern of 0.90.
pub const DEFAULT_TARGET_MASTERY: u64 = 0x3fec_cccc_cccc_cccd;

/// Milliseconds in a day.
pub const DAY_MS: i64 = 86_400_000;

/// What the projection concluded.
#[derive(Clone, Copy, Debug, PartialEq, Eq, Structural)]
pub enum Trajectory {
    /// Not enough history to say anything. Not an error, and not "on track".
    Unknown { sessions: usize, needed: usize },
    /// A projection was made.
    Projected(Projection),
}

/// A made projection, with every input it was made from.
#[derive(Clone, Copy, Debug, PartialEq, Eq, Structural)]
pub struct Projection {
    /// Total mastery still to be gained across every unmastered skill.
    pub remaining_mastery: Double,
    /// Mean mastery gained per session, over the trailing window.
    pub rate_per_session: Double,
    /// `remaining_mastery / rate_per_session`.
    pub sessions_needed: Double,
    /// Days until the exam.
    pub days_remaining: i64,
    /// Sessions those days allow.
    pub sessions_available: Double,
    pub at_risk: bool,
}

/// How much history a projection takes.
#[derive(Clone, Copy, Debug, PartialEq, Eq, Structural)]
pub struct Horizon {
    /// Below this many sessions nothing is projected.
    pub min_sessions: usize,
    /// Sessions the rate is averaged over.
    pub window: usize,
}

impl Default for Horizon {
    fn default() -> (horizon: Self)
        ensures
            horizon == (Horizon {
                min_sessions: MIN_SESSIONS_FOR_TRAJECTORY,
                window: TRAILING_SESSIONS,
            }),
    {
        Horizon { min_sessions: MIN_SESSIONS_FOR_TRAJECTORY, window: TRAILING_SESSIONS }
    }
}

impl Horizon {
    /// The horizon that the settings ask for.
    pub fn of(settings: &TuitionSettings) -> (horizon: Self)
        ensures
            horizon.min_sessions == settings.trajectory_min_sessions,
            horizon.window == settings.trajectory_window,
    {
        Horizon {
            min_sessions: settings.trajectory_min_sessions as usize,
            window: settings.trajectory_window as usize,
        }
    }

    /// How many of the newest sessions a projection has to know: those it averages, and
    /// enough of them to tell whether there are too few.
    pub fn sessions_to_read(&self) -> (sessions: usize)
        ensures
            sessions == sessions_needed(*self),
    {
        if self.window >= self.min_sessions {
            self.window
        } else {
            self.min_sessions
        }
    }
}

/// The numbers a projection is made from.
#[derive(Clone, Copy, Debug, PartialEq, Eq, Structural)]
pub struct Figures {
    /// Sum of what each skill lacks to the target.
    pub remaining: Double,
    /// Mean gain over the trailing window.
    pub rate: Double,
    /// `remaining / rate`.
    pub quotient: Double,
    /// Days until the exam times sessions per day.
    pub available: Double,
    /// The sessions that may be needed before the goal is at risk.
    pub limit: Double,
}

/// The last `window` gains.
pub open spec fn trailing(gains: Seq<Double>, window: nat) -> Seq<Double> {
    if gains.len() > window {
        gains.skip(gains.len() - window)
    } else {
        gains
    }
}

/// The gains the learning rate is averaged over: the last `window` of them, oldest
/// first. Sessions that went badly are kept; they are evidence too.
pub fn trailing_gains(gains: &[Double], window: usize) -> (kept: Vec<Double>)
    ensures
        kept@ == trailing(gains@, window as nat),
{
    let mut i: usize = if gains.len() > window {
        gains.len() - window
    } else {
        0
    };
    let ghost from = i as int;
    let mut kept: Vec<Double> = Vec::new();
    while i < gains.len()
        invariant
            0 <= from <= i <= gains@.len(),
            kept@ == gains@.subrange(from, i as int),
        decreases gains@.len() - i,
    {
        kept.push(gains[i]);
        i += 1;
        assert(kept@ =~= gains@.subrange(from, i as int));
    }
    assert(kept@ =~= trailing(gains@, window as nat));
    kept
}

/// The recorded gains of a list of sessions, in reverse. A session that recorded none
/// was abandoned before anything was graded, and does not count as a zero.
pub open spec fn gains_of(newest_first: Seq<Session>) -> Seq<Double>
    decreases newest_first.len(),
{
    if newest_first.len() == 0 {
        seq![]
    } else {
        let later = gains_of(newest_first.skip(1));
        match newest_first[0].mastery_gain {
            Some(gain) => later.push(gain),
            None => later,
        }
    }
}

/// The gains that sessions recorded, oldest first, from the sessions newest first.
pub fn recorded_gains(newest_first: &[Session]) -> (gains: Vec<Double>)
    ensures
        gains@ == gains_of(newest_first@),
{
    let mut gains: Vec<Double> = Vec::new();
    let mut i: usize = newest_first.len();
    assert(newest_first@.skip(i as int) =~= seq![]);
    while i > 0
        invariant
            i <= newest_first@.len(),
            gains@ == gains_of(newest_first@.skip(i as int)),
        decreases i,
    {
        i -= 1;
        proof {
            let rest = newest_first@.skip(i as int);
            assert(rest.skip(1) =~= newest_first@.skip(i + 1));
            assert(rest[0] == newest_first@[i as int]);
        }
        if let Some(gain) = newest_first[i].mastery_gain {
            gains.push(gain);
        }
    }
    assert(newest_first@.skip(0) =~= newest_first@);
    gains
}

/// The newest gain is the last one averaged: where the newest session recorded a gain, the
/// gains that count end with it, and another gain in its place changes that one and no
/// other.
pub proof fn the_newest_gain_counts(
    newest_first: Seq<Session>,
    gain: Double,
    window: nat,
    changed: Session,
    other: Double,
)
    requires
        newest_first.len() > 0,
        newest_first[0].mastery_gain == Some(gain),
        changed.mastery_gain == Some(other),
        window >= 1,
    ensures
        ({
            let kept = trailing(gains_of(newest_first), window);
            &&& kept.len() > 0
            &&& kept.last() == gain
            &&& trailing(gains_of(newest_first.update(0, changed)), window) == kept.update(
                kept.len() - 1,
                other,
            )
        }),
{
    let later = gains_of(newest_first.skip(1));
    let swapped = newest_first.update(0, changed);
    assert(swapped.skip(1) =~= newest_first.skip(1));
    assert(gains_of(newest_first) == later.push(gain));
    assert(gains_of(swapped) == later.push(other));
    let kept = trailing(gains_of(newest_first), window);
    assert(trailing(gains_of(swapped), window) =~= kept.update(kept.len() - 1, other));
}

/// The gains of two lists of sessions, one behind the other.
proof fn gains_add(newer: Seq<Session>, older: Seq<Session>)
    ensures
        gains_of(newer + older) == gains_of(older) + gains_of(newer),
    decreases newer.len(),
{
    let all = newer + older;
    if newer.len() == 0 {
        assert(all =~= older);
        assert(gains_of(older) + gains_of(newer) =~= gains_of(older));
    } else {
        gains_add(newer.skip(1), older);
        assert(all.skip(1) =~= newer.skip(1) + older);
        assert(all[0] == newer[0]);
        assert(gains_of(all) =~= gains_of(older) + gains_of(newer));
    }
}

/// There are at most as many gains as sessions, and as many where each recorded one.
proof fn gains_counted(sessions: Seq<Session>)
    ensures
        gains_of(sessions).len() <= sessions.len(),
        (forall|i: int| 0 <= i < sessions.len() ==> (#[trigger] sessions[i]).mastery_gain is Some)
            ==> gains_of(sessions).len() == sessions.len(),
    decreases sessions.len(),
{
    if sessions.len() > 0 {
        let rest = sessions.skip(1);
        gains_counted(rest);
        if forall|i: int| 0 <= i < sessions.len() ==> (#[trigger] sessions[i]).mastery_gain is Some {
            assert(sessions[0].mastery_gain is Some);
            assert forall|i: int| 0 <= i < rest.len() implies (
            #[trigger] rest[i]).mastery_gain is Some by {
                assert(rest[i] == sessions[i + 1]);
            }
        }
    }
}

/// How many of the newest sessions a projection has to know.
pub open spec fn sessions_needed(horizon: Horizon) -> usize {
    if horizon.window >= horizon.min_sessions {
        horizon.window
    } else {
        horizon.min_sessions
    }
}

/// The newest sessions that recorded a gain, as many as a horizon asks for, say all that
/// older ones could add: the same gains are averaged, and there is too little history
/// exactly where there is.
pub proof fn older_sessions_add_nothing(newest_first: Seq<Session>, horizon: Horizon)
    requires
        forall|i: int|
            0 <= i < newest_first.len() ==> (#[trigger] newest_first[i]).mastery_gain is Some,
        newest_first.len() >= sessions_needed(horizon),
    ensures
        ({
            let read = newest_first.take(sessions_needed(horizon) as int);
            &&& trailing(gains_of(read), horizon.window as nat) == trailing(
                gains_of(newest_first),
                horizon.window as nat,
            )
            &&& gains_of(read).len() < horizon.min_sessions <==> gains_of(newest_first).len()
                < horizon.min_sessions
        }),
{
    let n = sessions_needed(horizon) as int;
    let read = newest_first.take(n);
    let older = newest_first.skip(n);
    assert(newest_first =~= read + older);
    gains_add(read, older);
    gains_counted(newest_first);
    assert forall|i: int| 0 <= i < read.len() implies (#[trigger] read[i]).mastery_gain is Some by {
        assert(read[i] == newest_first[i]);
    }
    gains_counted(read);
    assert(trailing(gains_of(read), horizon.window as nat) =~= trailing(
        gains_of(newest_first),
        horizon.window as nat,
    ));
}

/// Whole days from `now` to the exam; none once it is past.
pub open spec fn days_until(exam_at: i64, now: i64) -> int {
    if exam_at > now {
        (exam_at - now) / DAY_MS as int
    } else {
        0
    }
}

/// Whole days from `now` to the exam; none once it is past.
pub fn days_remaining(exam_at: i64, now: i64) -> (days: i64)
    ensures
        days == days_until(exam_at, now),
        0 <= days,
{
    if exam_at > now {
        let span: i128 = exam_at as i128 - now as i128;
        (span / DAY_MS as i128) as i64
    } else {
        0
    }
}

/// What the figures amount to.
pub open spec fn concluded(figures: Figures, days: int) -> Projection {
    if (Double { bits: ZERO }).at_least(figures.remaining) {
        Projection {
            remaining_mastery: Double { bits: ZERO },
            rate_per_session: figures.rate,
            sessions_needed: Double { bits: ZERO },
            days_remaining: days as i64,
            sessions_available: figures.available,
            at_risk: false,
        }
    } else {
        let needed = if (Double { bits: ZERO }).below(figures.rate) {
            figures.quotient
        } else {
            Double { bits: INFINITY_BITS }
        };
        Projection {
            remaining_mastery: figures.remaining,
            rate_per_session: figures.rate,
            sessions_needed: needed,
            days_remaining: days as i64,
            sessions_available: figures.available,
            at_risk: figures.limit.below(needed),
        }
    }
}

/// Projects whether the syllabus will be covered before the exam.
///
/// With too few sessions nothing is projected. Nothing left to learn is on track,
/// whatever the rate; work left with no progress needs endless sessions.
pub fn project(
    sessions: usize,
    horizon: &Horizon,
    figures: &Figures,
    exam_at: i64,
    now: i64,
) -> (trajectory: Trajectory)
    ensures
        trajectory == (if sessions < horizon.min_sessions {
            Trajectory::Unknown { sessions, needed: horizon.min_sessions }
        } else {
            Trajectory::Projected(concluded(*figures, days_until(exam_at, now)))
        }),
        // Too little history is no projection, and enough of it is one.
        trajectory is Unknown <==> sessions < horizon.min_sessions,
        trajectory matches Trajectory::Unknown { sessions: had, needed } ==> had == sessions && needed
            == horizon.min_sessions,
        // What a projection says: nothing left is on track; otherwise so many sessions as what is
        // left holds the rate, endless where there is no progress, at risk where that is more
        // than the limit.
        trajectory matches Trajectory::Projected(p) ==> {
            let done = (Double { bits: ZERO }).at_least(figures.remaining);
            let moving = (Double { bits: ZERO }).below(figures.rate);
            &&& p.rate_per_session == figures.rate
            &&& p.sessions_available == figures.available
            &&& done ==> p.remaining_mastery.bits == 0 && p.sessions_needed.bits == 0 && !p.at_risk
            &&& !done ==> p.remaining_mastery == figures.remaining
            &&& !done && moving ==> p.sessions_needed == figures.quotient
            &&& !done && !moving ==> p.sessions_needed.bits == 0x7ff0_0000_0000_0000
            &&& !done ==> (p.at_risk <==> figures.limit.below(p.sessions_needed))
            &&& exam_at <= now ==> p.days_remaining == 0
            &&& exam_at > now ==> 0 <= exam_at - now - p.days_remaining * 86_400_000 < 86_400_000
        },
{
    proof {
        days_are_whole(exam_at, now);
    }
    if sessions < horizon.min_sessions {
        return Trajectory::Unknown { sessions, needed: horizon.min_sessions };
    }
    let zero: Double = Double { bits: ZERO };
    let days: i64 = days_remaining(exam_at, now);
    if zero.ge(figures.remaining) {
        return Trajectory::Projected(
            Projection {
                remaining_mastery: zero,
                rate_per_session: figures.rate,
                sessions_needed: zero,
                days_remaining: days,
                sessions_available: figures.available,
                at_risk: false,
            },
        );
    }
    let needed: Double = if zero.lt(figures.rate) {
        figures.quotient
    } else {
        Double { bits: INFINITY_BITS }
    };
    Trajectory::Projected(
        Projection {
            remaining_mastery: figures.remaining,
            rate_per_session: figures.rate,
            sessions_needed: needed,
            days_remaining: days,
            sessions_available: figures.available,
            at_risk: figures.limit.lt(needed),
        },
    )
}

/// Work left and no progress is at risk, unless the sessions available are endless too.
pub proof fn no_progress_is_at_risk(figures: Figures, days: int)
    requires
        (Double { bits: ZERO }).below(figures.remaining),
        !(Double { bits: ZERO }).below(figures.rate),
        figures.limit.finite(),
    ensures
        concluded(figures, days).at_risk,
{
}

/// A finished syllabus is never at risk.
pub proof fn a_finished_syllabus_is_on_track(figures: Figures, days: int)
    requires
        (Double { bits: ZERO }).at_least(figures.remaining),
    ensures
        !concluded(figures, days).at_risk,
{
}

/// The days until an exam are the whole days that fit: none once it is past.
pub proof fn days_are_whole(exam_at: i64, now: i64)
    ensures
        exam_at <= now ==> days_until(exam_at, now) == 0,
        exam_at > now ==> 0 <= exam_at - now - days_until(exam_at, now) * 86_400_000 < 86_400_000,
        0 <= days_until(exam_at, now) <= i64::MAX,
{
}

/// The gains that count are the newest ones, as many as the window holds, in their order.
pub proof fn the_window_holds_the_newest_gains(gains: Seq<Double>, window: nat)
    ensures
        gains.len() <= window ==> trailing(gains, window) == gains,
        gains.len() > window ==> trailing(gains, window).len() == window,
        forall|i: int|
            0 <= i < trailing(gains, window).len() ==> #[trigger] trailing(gains, window)[i]
                == gains[gains.len() - trailing(gains, window).len() + i],
{
}

/// Gains are taken oldest first, one from each session that recorded one and none from any
/// other.
pub proof fn gains_are_taken_oldest_first(newer: Seq<Session>, older: Seq<Session>, one: Session)
    ensures
        gains_of(newer + older) == gains_of(older) + gains_of(newer),
        one.mastery_gain is None ==> gains_of(seq![one]).len() == 0,
        one.mastery_gain matches Some(gain) ==> gains_of(seq![one]) == seq![gain],
{
    gains_add(newer, older);
    let single = seq![one];
    assert(single.skip(1) =~= seq![]);
    assert(gains_of(single.skip(1)) =~= seq![]);
    if let Some(gain) = one.mastery_gain {
        assert(gains_of(single) =~= seq![gain]);
    }
}

/// A projection divides what is left by the pace: nothing left is on track, no pace is endless,
/// and the goal is at risk exactly where more sessions are needed than the limit. What it was
/// made from goes with it.
pub proof fn a_projection_divides_what_is_left_by_the_pace(figures: Figures, days: int)
    requires
        0 <= days <= i64::MAX,
    ensures
        ({
            let p = concluded(figures, days);
            let done = (Double { bits: 0 }).at_least(figures.remaining);
            let moving = (Double { bits: 0 }).below(figures.rate);
            &&& p.rate_per_session == figures.rate && p.sessions_available == figures.available
                && p.days_remaining == days
            &&& done ==> p.remaining_mastery.bits == 0 && p.sessions_needed.bits == 0 && !p.at_risk
            &&& !done ==> p.remaining_mastery == figures.remaining
            &&& !done && moving ==> p.sessions_needed == figures.quotient
            &&& !done && !moving ==> p.sessions_needed.bits == 0x7ff0_0000_0000_0000
            &&& !done ==> (p.at_risk <==> figures.limit.below(p.sessions_needed))
        }),
{
}

} // verus!
