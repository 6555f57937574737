//! Bayesian Knowledge Tracing: what one graded answer does to the mastery number.
//!
//! The Bayes step itself is floating-point arithmetic and is handed in as its results.
//! What is decided here is what goes into it, whether its result carries information at
//! all, and how far a run of right answers is followed.
//!
//! A degenerate denominator is not an error but an uninformative attempt: the posterior
//! stays exactly where it was.

use crate::double::{clamp01, Double, ONE, ZERO};
use crate::models::{BktParams, ItemKind};
use vstd::prelude::*;

verus! {

/// Denominators at or below this carry no information: the bit pattern of 1e-12.
pub const DENOMINATOR_EPSILON: u64 = 0x3d71_9799_812d_ea11;

/// Ceiling on the steps of the forward projection.
pub const MAX_PROJECTION_STEPS: u32 = 20;

/// The outcome of one step, carrying both endpoints.
#[derive(Clone, Copy, Debug, PartialEq, Eq, Structural)]
pub struct BktUpdate {
    pub before: Double,
    pub after: Double,
    /// `false` when there was nothing to condition on and `after == before`.
    pub informative: bool,
}

/// What goes into a Bayes step: every number cut off to `[0,1]`.
#[derive(Clone, Copy, Debug, PartialEq, Eq, Structural)]
pub struct Prior {
    pub mastery: Double,
    pub params: BktParams,
    pub guess: Double,
}

/// What the arithmetic of a Bayes step gave.
#[derive(Clone, Copy, Debug, PartialEq, Eq, Structural)]
pub struct BayesStep {
    /// The probability of the observed answer: `m(1-slip) + (1-m)guess` for a right
    /// one, `m·slip + (1-m)(1-guess)` for a wrong one.
    pub denominator: Double,
    /// The first term of the denominator divided by the denominator.
    pub posterior: Double,
    /// The posterior after the learning transition: `post + (1-post)·transit`.
    pub learned: Double,
}

/// The guess rate an item is graded with: the skill's own, but for a multiple-choice
/// item with at least two choices never less than chance.
pub open spec fn effective_guess(
    params: BktParams,
    kind: ItemKind,
    choice_count: nat,
    chance: Double,
) -> Double {
    let base = params.in_unit().p_guess;
    if kind == ItemKind::Mcq && choice_count >= 2 {
        base.larger(chance)
    } else {
        base
    }
}

/// The guess rate to grade one item with. `chance` is one divided by the number of
/// choices; it counts only for a multiple-choice item with at least two.
///
/// An item with fewer choices is malformed and keeps the stored rate: a chance of one
/// would make every wrong answer uninformative.
pub fn guess_rate(params: BktParams, kind: ItemKind, choice_count: usize, chance: Double) -> (rate:
    Double)
    ensures
        rate == effective_guess(params, kind, choice_count as nat, chance),
        // Only a multiple-choice item with a choice to make has a floor.
        kind != ItemKind::Mcq || choice_count < 2 ==> rate == params.p_guess.share(),
        kind == ItemKind::Mcq && choice_count >= 2 && !chance.nan() ==> rate.at_least(chance)
            && rate.at_least(params.p_guess.share()) && (rate == chance || rate
            == params.p_guess.share()),
{
    let base: Double = clamp01(params.clamped().p_guess);
    proof {
        crate::double::share_is_idempotent(params.p_guess);
    }
    if kind == ItemKind::Mcq && choice_count >= 2 {
        base.max(chance)
    } else {
        base
    }
}

/// What goes into a Bayes step. Nothing is trusted: a stored number that is out of
/// range would make every posterior derived from it meaningless.
pub fn prior(mastery: Double, params: BktParams, guess: Double) -> (prior: Prior)
    ensures
        prior == (Prior {
            mastery: mastery.share(),
            params: params.in_unit(),
            guess: guess.share(),
        }),
        prior.mastery.is_share() && prior.params.well_formed() && prior.guess.is_share(),
        mastery.is_share() ==> prior.mastery == mastery,
        guess.is_share() ==> prior.guess == guess,
        params.p_slip.is_share() ==> prior.params.p_slip == params.p_slip,
        params.p_transit.is_share() ==> prior.params.p_transit == params.p_transit,
        params.p_guess.is_share() ==> prior.params.p_guess == params.p_guess,
        params.p_init.is_share() ==> prior.params.p_init == params.p_init,
{
    Prior { mastery: clamp01(mastery), params: params.clamped(), guess: clamp01(guess) }
}

/// Whether the result of a Bayes step says anything.
pub open spec fn carries_information(step: BayesStep) -> bool {
    &&& step.denominator.finite()
    &&& (Double { bits: DENOMINATOR_EPSILON }).below(step.denominator)
    &&& step.posterior.finite()
}

/// What a Bayes step does to the posterior.
pub open spec fn updated(before: Double, step: BayesStep) -> BktUpdate {
    if carries_information(step) {
        BktUpdate { before, after: step.learned.share(), informative: true }
    } else {
        BktUpdate { before, after: before, informative: false }
    }
}

/// What a Bayes step does to the posterior. A number that is no probability never
/// becomes one: it is either cut off or the posterior stays where it was.
pub fn update(prior: &Prior, step: &BayesStep) -> (update: BktUpdate)
    ensures
        update == updated(prior.mastery, *step),
        !update.informative ==> update.after == update.before,
        prior.mastery.is_share() ==> update.after.is_share(),
        update.before == prior.mastery,
        // It says something exactly where the observed answer was possible at all.
        update.informative <==> step.denominator.finite() && step.posterior.finite() && (Double {
            bits: 0x3d71_9799_812d_ea11,
        }).below(step.denominator),
        // Then it lands on what was learned, wherever it started from.
        update.informative && step.learned.is_share() ==> update.after == step.learned,
        update.informative && (Double { bits: ONE }).below(step.learned) && step.learned.finite()
            ==> update.after.bits == ONE,
        update.informative && (step.learned.below(Double { bits: ZERO }) || !step.learned.finite())
            ==> update.after.bits == ZERO,
{
    let floor: Double = Double { bits: DENOMINATOR_EPSILON };
    if !step.denominator.is_finite() || !floor.lt(step.denominator)
        || !step.posterior.is_finite() {
        return BktUpdate { before: prior.mastery, after: prior.mastery, informative: false };
    }
    BktUpdate { before: prior.mastery, after: clamp01(step.learned), informative: true }
}

/// "So many more correct at this difficulty reach the target."
#[derive(Clone, Copy, Debug, PartialEq, Eq, Structural)]
pub struct Projection {
    pub from: Double,
    pub target: Double,
    /// Consecutive correct answers needed. `Some(0)` when already there, `None` when the
    /// target is not reached within the ceiling.
    pub steps: Option<u32>,
    /// The posterior after those steps, or after the last one taken.
    pub reached: Double,
}

/// Where a forward projection stands.
#[derive(Clone, Copy, Debug, PartialEq, Eq, Structural)]
pub struct ProjectionWalk {
    pub from: Double,
    pub target: Double,
    /// The posterior so far.
    pub mastery: Double,
    /// Right answers followed so far.
    pub taken: u32,
}

/// The projection that a run of right answers gives, `updates` being what each would do
/// in turn: it ends at the target, at the ceiling, or at the first answer that carries
/// no information.
pub open spec fn projected(
    from: Double,
    target: Double,
    mastery: Double,
    taken: nat,
    updates: Seq<BktUpdate>,
) -> Projection
    decreases updates.len(),
{
    if mastery.at_least(target) {
        Projection { from, target, steps: Some(taken as u32), reached: mastery }
    } else if taken >= MAX_PROJECTION_STEPS || updates.len() == 0 || !updates[0].informative {
        Projection { from, target, steps: None, reached: mastery }
    } else {
        projected(from, target, updates[0].after, taken + 1, updates.skip(1))
    }
}

impl ProjectionWalk {
    /// Within the ceiling.
    pub open spec fn well_formed(self) -> bool {
        self.taken <= MAX_PROJECTION_STEPS
    }

    /// What the walk comes to, if the next right answers do what `updates` says.
    pub open spec fn outcome(self, updates: Seq<BktUpdate>) -> Projection {
        projected(self.from, self.target, self.mastery, self.taken as nat, updates)
    }

    /// The start of a projection.
    pub fn start(mastery: Double, target: Double) -> (walk: Self)
        ensures
            walk == (ProjectionWalk {
                from: mastery.share(),
                target: target.share(),
                mastery: mastery.share(),
                taken: 0,
            }),
            walk.well_formed(),
    {
        let from: Double = clamp01(mastery);
        ProjectionWalk { from, target: clamp01(target), mastery: from, taken: 0 }
    }

    /// Whether the projection is complete: at the target or at the ceiling.
    pub open spec fn complete(self) -> bool {
        self.mastery.at_least(self.target) || self.taken >= MAX_PROJECTION_STEPS
    }

    /// The projection, once it is complete.
    pub fn finished(&self) -> (projection: Option<Projection>)
        requires
            self.well_formed(),
        ensures
            projection is Some <==> self.complete(),
            projection matches Some(p) ==> forall|updates: Seq<BktUpdate>| #[trigger]
                self.outcome(updates) == p,
    {
        if self.mastery.ge(self.target) {
            Some(
                Projection {
                    from: self.from,
                    target: self.target,
                    steps: Some(self.taken),
                    reached: self.mastery,
                },
            )
        } else if self.taken >= MAX_PROJECTION_STEPS {
            Some(self.given_up())
        } else {
            None
        }
    }

    /// The projection of a target that is not reached.
    fn given_up(&self) -> (projection: Projection)
        ensures
            projection == (Projection {
                from: self.from,
                target: self.target,
                steps: None,
                reached: self.mastery,
            }),
    {
        Projection { from: self.from, target: self.target, steps: None, reached: self.mastery }
    }

    /// Follows one more right answer. An answer that carries no information ends the
    /// walk: no number of further ones would change anything.
    pub fn advance(&self, next: &BktUpdate) -> (result: Result<ProjectionWalk, Projection>)
        requires
            self.well_formed(),
            !self.complete(),
        ensures
            result is Ok <==> next.informative,
            result matches Ok(walk) ==> walk == (ProjectionWalk {
                mastery: next.after,
                taken: (self.taken + 1) as u32,
                ..*self
            }) && walk.well_formed() && forall|rest: Seq<BktUpdate>| #[trigger]
                walk.outcome(rest) == self.outcome(seq![*next] + rest),
            result matches Err(p) ==> forall|rest: Seq<BktUpdate>|
                p == #[trigger] self.outcome(seq![*next] + rest),
    {
        if !next.informative {
            return Err(self.given_up());
        }
        let walk: ProjectionWalk = ProjectionWalk {
            from: self.from,
            target: self.target,
            mastery: next.after,
            taken: self.taken + 1,
        };
        proof {
            assert forall|rest: Seq<BktUpdate>| #[trigger] walk.outcome(rest) == self.outcome(
                seq![*next] + rest,
            ) by {
                assert((seq![*next] + rest).skip(1) =~= rest);
            }
        }
        Ok(walk)
    }
}

/// A projection never promises more steps than the ceiling, and where it names a number
/// of steps the target is reached.
pub proof fn projection_is_honest(
    from: Double,
    target: Double,
    mastery: Double,
    taken: nat,
    updates: Seq<BktUpdate>,
)
    requires
        taken <= MAX_PROJECTION_STEPS,
    ensures
        ({
            let p = projected(from, target, mastery, taken, updates);
            &&& p.steps matches Some(n) ==> taken <= n <= MAX_PROJECTION_STEPS && p.reached.at_least(
                target,
            )
            &&& p.steps is None ==> !p.reached.at_least(target)
            &&& mastery.at_least(target) ==> p.steps == Some(taken as u32)
        }),
    decreases updates.len(),
{
    if !mastery.at_least(target) && taken < MAX_PROJECTION_STEPS && updates.len() > 0
        && updates[0].informative {
        projection_is_honest(from, target, updates[0].after, taken + 1, updates.skip(1));
    }
}

/// The posterior after `i` right answers, `step` being what a right answer does.
pub open spec fn posterior(step: spec_fn(Double) -> BktUpdate, from: Double, i: nat) -> Double
    decreases i,
{
    if i == 0 {
        from
    } else {
        step(posterior(step, from, (i - 1) as nat)).after
    }
}

/// What each of a run of right answers does in turn, up to the ceiling.
pub open spec fn run_of(step: spec_fn(Double) -> BktUpdate, from: Double) -> Seq<BktUpdate> {
    Seq::new(
        MAX_PROJECTION_STEPS as nat,
        |i: int| step(posterior(step, from, i as nat)),
    )
}

/// Whether a right answer that carries no information leaves a posterior where it was, and
/// any right answer leaves a posterior.
pub open spec fn is_update(step: spec_fn(Double) -> BktUpdate) -> bool {
    forall|m: Double|
        m.is_share() ==> (#[trigger] step(m)).after.is_share() && (!step(m).informative ==> step(
            m,
        ).after == m)
}

proof fn posterior_stays(step: spec_fn(Double) -> BktUpdate, from: Double, i: nat, j: nat)
    requires
        is_update(step),
        i <= j,
        posterior(step, from, i).is_share(),
        !step(posterior(step, from, i)).informative,
    ensures
        posterior(step, from, j) == posterior(step, from, i),
    decreases j,
{
    if i < j {
        posterior_stays(step, from, i, (j - 1) as nat);
    }
}

/// Whether the target is first met after `k` right answers.
pub open spec fn first_met(
    step: spec_fn(Double) -> BktUpdate,
    from: Double,
    target: Double,
    k: nat,
) -> bool {
    &&& posterior(step, from, k).at_least(target)
    &&& forall|i: nat| i < k ==> !(#[trigger] posterior(step, from, i)).at_least(target)
}

proof fn projected_from(
    step: spec_fn(Double) -> BktUpdate,
    from: Double,
    target: Double,
    taken: nat,
)
    requires
        is_update(step),
        posterior(step, from, taken).is_share(),
        taken <= MAX_PROJECTION_STEPS,
        forall|i: nat| i < taken ==> !(#[trigger] posterior(step, from, i)).at_least(target),
    ensures
        ({
            let p = projected(
                from,
                target,
                posterior(step, from, taken),
                taken,
                run_of(step, from).skip(taken as int),
            );
            &&& p.from == from && p.target == target
            &&& match p.steps {
                Some(k) => taken <= k <= MAX_PROJECTION_STEPS && first_met(
                    step,
                    from,
                    target,
                    k as nat,
                ) && p.reached == posterior(step, from, k as nat),
                None => (forall|i: nat|
                    i <= MAX_PROJECTION_STEPS ==> !(#[trigger] posterior(step, from, i)).at_least(
                        target,
                    )) && p.reached == posterior(step, from, MAX_PROJECTION_STEPS as nat),
            }
        }),
    decreases MAX_PROJECTION_STEPS - taken,
{
    let here = posterior(step, from, taken);
    let rest = run_of(step, from).skip(taken as int);
    if !here.at_least(target) {
        assert forall|i: nat| i <= taken implies !(#[trigger] posterior(step, from, i)).at_least(
            target,
        ) by {}
        if taken < MAX_PROJECTION_STEPS {
            assert(rest[0] == step(here));
            if step(here).informative {
                assert(posterior(step, from, taken + 1) == step(here).after);
                projected_from(step, from, target, taken + 1);
                assert(rest.skip(1) =~= run_of(step, from).skip((taken + 1) as int));
            } else {
                assert forall|i: nat| i <= MAX_PROJECTION_STEPS implies !(#[trigger] posterior(
                    step,
                    from,
                    i,
                )).at_least(target) by {
                    if i > taken {
                        posterior_stays(step, from, taken, i);
                    }
                }
                posterior_stays(step, from, taken, MAX_PROJECTION_STEPS as nat);
            }
        }
    }
}

/// The number of right answers that a projection names is the least one at which the
/// target is met, and it names none exactly where the target is not met within the
/// ceiling; what it says is reached is where the posterior then stands.
pub proof fn projection_is_the_least(
    step: spec_fn(Double) -> BktUpdate,
    from: Double,
    target: Double,
)
    requires
        is_update(step),
        from.is_share(),
    ensures
        ({
            let p = projected(from, target, from, 0, run_of(step, from));
            &&& match p.steps {
                Some(k) => k <= MAX_PROJECTION_STEPS && first_met(step, from, target, k as nat)
                    && p.reached == posterior(step, from, k as nat),
                None => (forall|i: nat|
                    i <= MAX_PROJECTION_STEPS ==> !(#[trigger] posterior(step, from, i)).at_least(
                        target,
                    )) && p.reached == posterior(step, from, MAX_PROJECTION_STEPS as nat),
            }
            &&& forall|k: nat|
                k <= MAX_PROJECTION_STEPS && #[trigger] first_met(step, from, target, k)
                    ==> p.steps == Some(k as u32)
        }),
{
    projected_from(step, from, target, 0);
    assert(run_of(step, from).skip(0) =~= run_of(step, from));
    let p = projected(from, target, from, 0, run_of(step, from));
    assert forall|k: nat|
        k <= MAX_PROJECTION_STEPS && #[trigger] first_met(step, from, target, k) implies p.steps
        == Some(k as u32) by {
        match p.steps {
            Some(n) => {
                if n < k {
                    assert(!posterior(step, from, n as nat).at_least(target));
                } else if k < n {
                    assert(!posterior(step, from, k).at_least(target));
                }
            },
            None => {
                assert(!posterior(step, from, k).at_least(target));
            },
        }
    }
}

/// Whether what `step` does is the function `f`.
pub open spec fn computes<F: Fn(Double) -> BktUpdate>(
    step: F,
    f: spec_fn(Double) -> BktUpdate,
) -> bool {
    forall|m: Double, u: BktUpdate| #[trigger] step.ensures((m,), u) ==> u == f(m)
}

/// "So many more correct at this difficulty reach the target." `step` does the Bayes step
/// of one right answer; it is followed until the target is reached, up to the ceiling.
///
/// A step that carries no information ends the walk: the posterior has stopped moving, and
/// no number of further answers changes it.
pub fn correct_answers_to_target<F: Fn(Double) -> BktUpdate>(
    mastery: Double,
    target: Double,
    step: F,
) -> (projection: Projection)
    requires
        forall|m: Double| step.requires((m,)),
    ensures
        forall|f: spec_fn(Double) -> BktUpdate| #[trigger]
            computes(step, f) ==> projection == projected(
                mastery.share(),
                target.share(),
                mastery.share(),
                0,
                run_of(f, mastery.share()),
            ),
        projection.from == mastery.share(),
        projection.target == target.share(),
        forall|f: spec_fn(Double) -> BktUpdate| #[trigger]
            computes(step, f) ==> exists|trace: Seq<Double>|
                #![trigger trace.len()]
                {
                    &&& trace.len() >= 1
                    &&& trace[0] == mastery.share()
                    &&& trace.last() == projection.reached
                    &&& forall|i: int|
                        #![trigger trace[i]]
                        0 <= i < trace.len() - 1 ==> !trace[i].at_least(target.share()) && f(
                            trace[i],
                        ).informative && trace[i + 1] == f(trace[i]).after
                    &&& match projection.steps {
                        Some(k) => trace.len() == k + 1 && k <= 20 && projection.reached.at_least(
                            target.share(),
                        ),
                        None => !projection.reached.at_least(target.share()) && trace.len() <= 21
                            && (trace.len() == 21 || !f(projection.reached).informative),
                    }
                },
{
    let mut walk: ProjectionWalk = ProjectionWalk::start(mastery, target);
    let ghost from = mastery.share();
    let ghost mut trace: Seq<Double> = seq![from];
    proof {
        assert forall|f: spec_fn(Double) -> BktUpdate| #[trigger] computes(step, f) implies projected(
            from,
            target.share(),
            from,
            0,
            run_of(f, from),
        ) == walk.outcome(run_of(f, from).skip(walk.taken as int)) && walk.mastery == posterior(
            f,
            from,
            walk.taken as nat,
        ) by {
            assert(run_of(f, from).skip(0) =~= run_of(f, from));
        }
    }
    loop
        invariant
            forall|m: Double| step.requires((m,)),
            walk.well_formed(),
            from == mastery.share(),
            walk.from == from,
            walk.target == target.share(),
            trace.len() == walk.taken + 1,
            trace[0] == from,
            trace.last() == walk.mastery,
            forall|f: spec_fn(Double) -> BktUpdate| #[trigger]
                computes(step, f) ==> forall|i: int|
                    #![trigger trace[i]]
                    0 <= i < trace.len() - 1 ==> !trace[i].at_least(target.share()) && f(
                        trace[i],
                    ).informative && trace[i + 1] == f(trace[i]).after,
            forall|f: spec_fn(Double) -> BktUpdate| #[trigger]
                computes(step, f) ==> projected(
                    from,
                    target.share(),
                    from,
                    0,
                    run_of(f, from),
                ) == walk.outcome(run_of(f, from).skip(walk.taken as int)) && walk.mastery
                    == posterior(f, from, walk.taken as nat),
        decreases MAX_PROJECTION_STEPS - walk.taken,
    {
        if let Some(projection) = walk.finished() {
            proof {
                assert(walk.outcome(seq![]) == projection);
                assert(trace.len() >= 1);
            }
            return projection;
        }
        let next: BktUpdate = step(walk.mastery);
        let ghost here = walk;
        proof {
            assert forall|f: spec_fn(Double) -> BktUpdate| #[trigger] computes(step, f) implies run_of(
                f,
                from,
            ).skip(here.taken as int) == seq![next] + run_of(f, from).skip(here.taken + 1) by {
                assert(next == f(here.mastery));
                assert(run_of(f, from).skip(here.taken as int) =~= seq![next] + run_of(
                    f,
                    from,
                ).skip(here.taken + 1));
            }
        }
        match walk.advance(&next) {
            Ok(further) => {
                let ghost shorter = trace;
                proof {
                    trace = trace.push(further.mastery);
                    assert forall|f: spec_fn(Double) -> BktUpdate| #[trigger] computes(
                        step,
                        f,
                    ) implies forall|i: int|
                        #![trigger trace[i]]
                        0 <= i < trace.len() - 1 ==> !trace[i].at_least(target.share()) && f(
                            trace[i],
                        ).informative && trace[i + 1] == f(trace[i]).after by {
                        assert(next == f(here.mastery));
                        assert forall|i: int|
                            #![trigger trace[i]]
                            0 <= i < trace.len() - 1 implies !trace[i].at_least(target.share())
                            && f(trace[i]).informative && trace[i + 1] == f(trace[i]).after by {
                            assert(trace[i] == shorter[i]);
                            if i < shorter.len() - 1 {
                                assert(trace[i + 1] == shorter[i + 1]);
                            }
                        }
                    }
                }
                walk = further;
            },
            Err(projection) => {
                proof {
                    assert(here.outcome(seq![next] + seq![]) == projection);
                    assert(trace.len() >= 1);
                    assert((seq![next] + Seq::<BktUpdate>::empty())[0] == next);
                }
                return projection;
            },
        }
    }
}

/// A graded answer lands the posterior on what was learned from it, up or down, wherever it
/// stood before: two skills at different posteriors that learn the same from an answer end at
/// the same one. An answer that says nothing leaves each where it was.
pub proof fn an_answer_lands_on_what_was_learned(one: Double, other: Double, step: BayesStep)
    ensures
        updated(one, step).informative == updated(other, step).informative,
        updated(one, step).informative ==> updated(one, step).after == updated(other, step).after,
        updated(one, step).informative && step.learned.is_share() ==> updated(one, step).after
            == step.learned,
        !updated(one, step).informative ==> updated(one, step).after == one,
        updated(one, step).before == one,
        updated(one, step).informative <==> step.denominator.finite() && step.posterior.finite() && (
        Double { bits: 0x3d71_9799_812d_ea11 }).below(step.denominator),
{
}

/// The more choices an item has, the less a guess is worth, but never less than the skill's
/// own rate: a greater chance never gives a smaller rate, and other kinds have no chance.
pub proof fn a_guess_is_worth_at_least_chance(
    params: BktParams,
    kind: ItemKind,
    choices: nat,
    chance: Double,
    less: Double,
)
    requires
        chance.at_least(less),
    ensures
        effective_guess(params, kind, choices, chance).at_least(
            effective_guess(params, kind, choices, less),
        ),
        effective_guess(params, kind, choices, less).at_least(params.p_guess.share()),
        kind == ItemKind::Mcq && choices >= 2 ==> effective_guess(
            params,
            kind,
            choices,
            chance,
        ).at_least(chance),
        kind == ItemKind::Mcq && choices >= 2 && params.p_guess.share().at_least(chance)
            ==> effective_guess(params, kind, choices, chance) == params.p_guess.share(),
        kind != ItemKind::Mcq || choices < 2 ==> effective_guess(params, kind, choices, chance)
            == params.p_guess.share(),
{
}

/// A run of right answers goes on from where it stands: each starts from what the one before it
/// led to.
pub proof fn each_answer_goes_on_from_the_last(
    step: spec_fn(Double) -> BktUpdate,
    from: Double,
    i: nat,
)
    ensures
        posterior(step, from, 0) == from,
        posterior(step, from, i + 1) == step(posterior(step, from, i)).after,
        run_of(step, from).len() == 20,
        i < 20 ==> run_of(step, from)[i as int] == step(posterior(step, from, i)),
{
}

} // verus!
