//! What is ready to study, and what to study next.

use crate::double::{total_order_separates, Double};
use crate::graph::{
    adjacency, linked, prereqs_are_linked, prereqs_of, row_names, row_of, skills_are_linked,
    skills_of, strictly_sorted,
};
use crate::models::{PrereqEdge, Skill, SkillStatus};
use crate::text::{
    is_before, precedes, precedes_irreflexive, precedes_total, precedes_transitive, same_text,
    texts,
};
use vstd::prelude::*;

verus! {

/// The posterior at which a prerequisite counts as mastered, where no other is set: the
/// bit pattern of 0.80.
pub const DEFAULT_READY_THRESHOLD: u64 = 0x3fe9_9999_9999_999a;

/// The mastery on record for a skill id. Where an id occurs twice, the later one counts.
pub open spec fn mastery_of(skills: Seq<Skill>, id: Seq<char>) -> Option<Double>
    decreases skills.len(),
{
    if skills.len() == 0 {
        None
    } else if skills.last().id@ == id {
        Some(skills.last().mastery)
    } else {
        mastery_of(skills.drop_last(), id)
    }
}

/// Whether a skill is on record with a mastery of at least `threshold`.
pub open spec fn mastered(skills: Seq<Skill>, id: Seq<char>, threshold: Double) -> bool {
    mastery_of(skills, id) matches Some(mastery) && mastery.at_least(threshold)
}

/// Whether a skill is in the deck with every prerequisite mastered. A prerequisite that
/// names no skill counts as not mastered.
pub open spec fn is_ready(
    skills: Seq<Skill>,
    edges: Seq<PrereqEdge>,
    threshold: Double,
    skill: Skill,
) -> bool {
    &&& skill.status == SkillStatus::Active
    &&& forall|prereq: Seq<char>| #[trigger]
        linked(edges, skill.id@, prereq) ==> mastered(skills, prereq, threshold)
}

/// The ready skills, in the order in which the skills are listed.
pub open spec fn ready_of(skills: Seq<Skill>, edges: Seq<PrereqEdge>, threshold: Double) -> Seq<
    Skill,
> {
    skills.filter(|skill: Skill| is_ready(skills, edges, threshold, skill))
}

/// The skills behind a list of references.
pub open spec fn behind(list: Seq<&Skill>) -> Seq<Skill> {
    list.map_values(|skill: &Skill| *skill)
}

/// Whether a skill is on record with a mastery of at least `threshold`.
fn is_mastered(skills: &[Skill], id: &str, threshold: Double) -> (yes: bool)
    ensures
        yes == mastered(skills@, id@, threshold),
{
    let mut i: usize = skills.len();
    assert(skills@.take(i as int) =~= skills@);
    while i > 0
        invariant
            i <= skills@.len(),
            mastery_of(skills@, id@) == mastery_of(skills@.take(i as int), id@),
        decreases i,
    {
        assert(skills@.take(i as int).last() == skills@[i - 1]);
        assert(skills@.take(i as int).drop_last() =~= skills@.take(i - 1));
        i -= 1;
        if same_text(skills[i].id.as_str(), id) {
            return skills[i].mastery.ge(threshold);
        }
    }
    false
}

/// Skills whose every prerequisite is mastered, in the order in which they are listed.
///
/// Only active skills are candidates. Prerequisites are looked up whatever their
/// status: archiving a skill does not unlearn it.
pub fn ready_skills<'a>(
    skills: &'a [Skill],
    edges: &[PrereqEdge],
    ready_threshold: Double,
) -> (ready: Vec<&'a Skill>)
    ensures
        behind(ready@) == ready_of(skills@, edges@, ready_threshold),
        behind(ready@) == skills@.filter(
            |skill: Skill| is_ready(skills@, edges@, ready_threshold, skill),
        ),
{
    let rows: Vec<(String, Vec<String>)> = adjacency(edges);
    proof {
        skills_are_linked(edges@);
    }
    let mut ready: Vec<&'a Skill> = Vec::new();
    let mut i: usize = 0;
    let ghost keep = |skill: Skill| is_ready(skills@, edges@, ready_threshold, skill);
    proof {
        reveal(Seq::filter);
        assert(skills@.take(0) =~= seq![]);
        assert(behind(ready@) =~= skills@.take(0).filter(keep));
    }
    while i < skills.len()
        invariant
            i <= skills@.len(),
            keep == (|skill: Skill| is_ready(skills@, edges@, ready_threshold, skill)),
            behind(ready@) == skills@.take(i as int).filter(keep),
            row_names(rows@) == skills_of(edges@),
            strictly_sorted(skills_of(edges@)),
            forall|k: int|
                0 <= k < rows@.len() ==> texts((#[trigger] rows@[k]).1@) == prereqs_of(
                    edges@,
                    rows@[k].0@,
                ),
        decreases skills@.len() - i,
    {
        let skill: &'a Skill = &skills[i];
        let ghost listed = ready@;
        let mut fits: bool = skill.status == SkillStatus::Active;
        if fits {
            let at: usize = row_of(&rows, skill.id.as_str());
            proof {
                prereqs_are_linked(edges@, skill.id@);
                skills_are_linked(edges@);
            }
            if at < rows.len() {
                let prereqs: &Vec<String> = &rows[at].1;
                assert(row_names(rows@)[at as int] == rows@[at as int].0@);
                assert(rows@[at as int].0@ == skill.id@);
                assert(texts(prereqs@) == prereqs_of(edges@, skill.id@));
                let mut k: usize = 0;
                while fits && k < prereqs.len()
                    invariant
                        k <= prereqs@.len(),
                        fits <==> forall|j: int|
                            0 <= j < k ==> mastered(
                                skills@,
                                (#[trigger] prereqs@[j])@,
                                ready_threshold,
                            ),
                    decreases prereqs@.len() - k,
                {
                    fits = is_mastered(skills, prereqs[k].as_str(), ready_threshold);
                    k += 1;
                }
                proof {
                    let list = prereqs_of(edges@, skill.id@);
                    if fits {
                        assert forall|prereq: Seq<char>| #[trigger]
                            linked(edges@, skill.id@, prereq) implies mastered(
                            skills@,
                            prereq,
                            ready_threshold,
                        ) by {
                            assert(list.contains(prereq));
                            let j = choose|j: int| 0 <= j < list.len() && list[j] == prereq;
                            assert(texts(prereqs@)[j] == prereqs@[j]@);
                        }
                    } else {
                        let j = choose|j: int|
                            0 <= j < k && !mastered(
                                skills@,
                                (#[trigger] prereqs@[j])@,
                                ready_threshold,
                            );
                        assert(list[j] == prereqs@[j]@);
                        assert(list.contains(prereqs@[j]@));
                        assert(linked(edges@, skill.id@, prereqs@[j]@));
                    }
                }
            } else {
                assert forall|prereq: Seq<char>| !#[trigger] linked(
                    edges@,
                    skill.id@,
                    prereq,
                ) by {
                    if linked(edges@, skill.id@, prereq) {
                        assert(skills_of(edges@).contains(skill.id@));
                    }
                }
            }
        }
        assert(fits == keep(*skill));
        if fits {
            ready.push(skill);
        }
        proof {
            reveal(Seq::filter);
            let seen = skills@.take(i + 1);
            assert(seen.drop_last() =~= skills@.take(i as int));
            assert(seen.last() == *skill);
            if fits {
                assert(behind(ready@) =~= behind(listed).push(*skill));
            }
        }
        i += 1;
    }
    assert(skills@.take(i as int) =~= skills@);
    ready
}

/// When a skill is owed, a never-reviewed one counting as owed now.
pub open spec fn owed_at(skill: Skill, now: i64) -> i64 {
    match skill.due_at {
        Some(at) => at,
        None => now,
    }
}

/// Whether `a` is to be studied before `b`: lower mastery, then owed earlier, then the
/// id that comes first.
pub open spec fn ahead_of(a: Skill, b: Skill, now: i64) -> bool {
    ||| a.mastery.total_rank() < b.mastery.total_rank()
    ||| a.mastery == b.mastery && owed_at(a, now) < owed_at(b, now)
    ||| a.mastery == b.mastery && owed_at(a, now) == owed_at(b, now) && precedes(a.id@, b.id@)
}

/// Whether position `at` holds the first skill that no other is to be studied before.
pub open spec fn is_first(ready: Seq<Skill>, at: int, now: i64) -> bool {
    &&& 0 <= at < ready.len()
    &&& forall|j: int| 0 <= j < at ==> ahead_of(ready[at], #[trigger] ready[j], now)
    &&& forall|j: int| 0 <= j < ready.len() ==> !ahead_of(#[trigger] ready[j], ready[at], now)
}

fn is_ahead(a: &Skill, b: &Skill, now: i64) -> (yes: bool)
    ensures
        yes == ahead_of(*a, *b, now),
{
    proof {
        total_order_separates(a.mastery, b.mastery);
    }
    if a.mastery.is_before(b.mastery) {
        return true;
    }
    if b.mastery.is_before(a.mastery) {
        return false;
    }
    let owed_a: i64 = match a.due_at {
        Some(at) => at,
        None => now,
    };
    let owed_b: i64 = match b.due_at {
        Some(at) => at,
        None => now,
    };
    owed_a < owed_b || (owed_a == owed_b && is_before(a.id.as_str(), b.id.as_str()))
}

/// Coming first is transitive, and nothing comes before itself.
pub proof fn ahead_of_is_an_order(a: Skill, b: Skill, c: Skill, now: i64)
    ensures
        !ahead_of(a, a, now),
        ahead_of(a, b, now) && ahead_of(b, c, now) ==> ahead_of(a, c, now),
        ahead_of(a, b, now) && !ahead_of(c, b, now) ==> ahead_of(a, c, now),
        !ahead_of(a, b, now) && !ahead_of(b, a, now) ==> a.id@ == b.id@,
{
    total_order_separates(a.mastery, b.mastery);
    total_order_separates(b.mastery, c.mastery);
    total_order_separates(a.mastery, c.mastery);
    precedes_irreflexive(a.id@);
    precedes_total(a.id@, b.id@);
    precedes_total(b.id@, c.id@);
    if precedes(a.id@, b.id@) && precedes(b.id@, c.id@) {
        precedes_transitive(a.id@, b.id@, c.id@);
    }
}

/// "What should I study next": the weakest ready skill, the one owed earliest among
/// equals, the one whose id comes first among those.
pub fn study_next<'a>(
    skills: &'a [Skill],
    edges: &[PrereqEdge],
    ready_threshold: Double,
    now: i64,
) -> (next: Option<&'a Skill>)
    ensures
        next is None <==> ready_of(skills@, edges@, ready_threshold).len() == 0,
        next matches Some(skill) ==> exists|at: int| #[trigger]
            is_first(ready_of(skills@, edges@, ready_threshold), at, now) && *skill == ready_of(
                skills@,
                edges@,
                ready_threshold,
            )[at],
        next is None <==> forall|i: int|
            0 <= i < skills@.len() ==> !is_ready(
                skills@,
                edges@,
                ready_threshold,
                #[trigger] skills@[i],
            ),
        next matches Some(skill) ==> skills@.contains(*skill) && is_ready(
            skills@,
            edges@,
            ready_threshold,
            *skill,
        ),
        // No ready skill is weaker; among the equally weak none is owed earlier, a skill that was
        // never reviewed being owed now; among those none has an earlier id.
        next matches Some(skill) ==> forall|i: int|
            0 <= i < skills@.len() && is_ready(
                skills@,
                edges@,
                ready_threshold,
                #[trigger] skills@[i],
            ) ==> {
                let other = skills@[i];
                &&& skill.mastery.total_rank() <= other.mastery.total_rank()
                &&& skill.mastery.total_rank() == other.mastery.total_rank() ==> (match skill.due_at {
                    Some(at) => at,
                    None => now,
                }) <= (match other.due_at {
                    Some(at) => at,
                    None => now,
                })
                &&& skill.mastery.total_rank() == other.mastery.total_rank() && (
                match skill.due_at {
                    Some(at) => at,
                    None => now,
                }) == (match other.due_at {
                    Some(at) => at,
                    None => now,
                }) ==> !precedes(other.id@, skill.id@)
            },
{
    let ready: Vec<&'a Skill> = ready_skills(skills, edges, ready_threshold);
    let ghost list = ready_of(skills@, edges@, ready_threshold);
    proof {
        assert forall|i: int| 0 <= i < skills@.len() && is_ready(
            skills@,
            edges@,
            ready_threshold,
            #[trigger] skills@[i],
        ) implies list.contains(skills@[i]) by {
            let keep = |skill: Skill| is_ready(skills@, edges@, ready_threshold, skill);
            assert(skills@.contains(skills@[i]));
            filter_members(skills@, keep, skills@[i]);
        }
    }
    if ready.len() == 0 {
        return None;
    }
    let mut best: usize = 0;
    let mut i: usize = 1;
    proof {
        ahead_of_is_an_order(list[0], list[0], list[0], now);
    }
    while i < ready.len()
        invariant
            1 <= i <= ready@.len(),
            best < i,
            behind(ready@) == list,
            forall|j: int| 0 <= j < best ==> ahead_of(list[best as int], #[trigger] list[j], now),
            forall|j: int| 0 <= j < i ==> !ahead_of(#[trigger] list[j], list[best as int], now),
        decreases ready@.len() - i,
    {
        assert(list[i as int] == *ready@[i as int]);
        assert(list[best as int] == *ready@[best as int]);
        if is_ahead(ready[i], ready[best], now) {
            proof {
                let new = list[i as int];
                let old_best = list[best as int];
                assert forall|j: int| 0 <= j < i implies ahead_of(new, #[trigger] list[j], now) by {
                    ahead_of_is_an_order(new, old_best, list[j], now);
                }
                assert forall|j: int| 0 <= j < i + 1 implies !ahead_of(
                    #[trigger] list[j],
                    new,
                    now,
                ) by {
                    ahead_of_is_an_order(new, list[j], new, now);
                }
            }
            best = i;
        }
        i += 1;
    }
    proof {
        assert(list[best as int] == *ready@[best as int]);
        assert(is_first(list, best as int, now));
        the_weakest_ready_skill_is_next(skills@, edges@, ready_threshold, now, best as int);
    }
    Some(ready[best])
}

/// What to study next is a ready skill than which no ready skill is weaker; among the equally
/// weak it is owed earliest, a skill that was never reviewed being owed now; and among those
/// it has the first id.
pub proof fn the_weakest_ready_skill_is_next(
    skills: Seq<Skill>,
    edges: Seq<PrereqEdge>,
    threshold: Double,
    now: i64,
    at: int,
)
    requires
        is_first(ready_of(skills, edges, threshold), at, now),
    ensures
        ({
            let next = ready_of(skills, edges, threshold)[at];
            &&& skills.contains(next)
            &&& is_ready(skills, edges, threshold, next)
            &&& forall|i: int|
                0 <= i < skills.len() && is_ready(skills, edges, threshold, #[trigger] skills[i])
                    ==> {
                    let other = skills[i];
                    &&& next.mastery.total_rank() <= other.mastery.total_rank()
                    &&& next.mastery.total_rank() == other.mastery.total_rank() ==> (
                    match next.due_at {
                        Some(due) => due,
                        None => now,
                    }) <= (match other.due_at {
                        Some(due) => due,
                        None => now,
                    })
                    &&& next.mastery.total_rank() == other.mastery.total_rank() && (
                    match next.due_at {
                        Some(due) => due,
                        None => now,
                    }) == (match other.due_at {
                        Some(due) => due,
                        None => now,
                    }) ==> !precedes(other.id@, next.id@)
                }
        }),
{
    let ready = ready_of(skills, edges, threshold);
    let keep = |skill: Skill| is_ready(skills, edges, threshold, skill);
    let next = ready[at];
    assert(ready.contains(next));
    filter_members(skills, keep, next);
    assert forall|i: int|
        0 <= i < skills.len() && is_ready(skills, edges, threshold, #[trigger] skills[i]) implies {
        let other = skills[i];
        &&& next.mastery.total_rank() <= other.mastery.total_rank()
        &&& next.mastery.total_rank() == other.mastery.total_rank() ==> (match next.due_at {
            Some(due) => due,
            None => now,
        }) <= (match other.due_at {
            Some(due) => due,
            None => now,
        })
        &&& next.mastery.total_rank() == other.mastery.total_rank() && (match next.due_at {
            Some(due) => due,
            None => now,
        }) == (match other.due_at {
            Some(due) => due,
            None => now,
        }) ==> !precedes(other.id@, next.id@)
    } by {
        let other = skills[i];
        assert(skills.contains(other));
        filter_members(skills, keep, other);
        let k = choose|k: int| 0 <= k < ready.len() && ready[k] == other;
        assert(!ahead_of(ready[k], next, now));
        total_order_separates(next.mastery, other.mastery);
    }
}

/// Where an id is on record more than once, the last row counts.
pub proof fn mastery_of_the_last(skills: Seq<Skill>, at: int)
    requires
        0 <= at < skills.len(),
        forall|j: int| at < j < skills.len() ==> (#[trigger] skills[j]).id@ != skills[at].id@,
    ensures
        mastery_of(skills, skills[at].id@) == Some(skills[at].mastery),
    decreases skills.len(),
{
    if at < skills.len() - 1 {
        assert(skills[skills.len() - 1].id@ != skills[at].id@);
        let init = skills.drop_last();
        assert forall|j: int| at < j < init.len() implies (#[trigger] init[j]).id@
            != init[at].id@ by {
            assert(skills[j].id@ != skills[at].id@);
        }
        mastery_of_the_last(init, at);
    }
}

proof fn mastery_has_a_last(skills: Seq<Skill>, id: Seq<char>) -> (at: int)
    requires
        mastery_of(skills, id) is Some,
    ensures
        0 <= at < skills.len(),
        skills[at].id@ == id,
        forall|j: int| at < j < skills.len() ==> (#[trigger] skills[j]).id@ != id,
        mastery_of(skills, id) == Some(skills[at].mastery),
    decreases skills.len(),
{
    if skills.last().id@ == id {
        skills.len() - 1
    } else {
        let init = skills.drop_last();
        let at = mastery_has_a_last(init, id);
        assert forall|j: int| at < j < skills.len() implies (#[trigger] skills[j]).id@ != id by {
            if j < init.len() {
                assert(init[j].id@ != id);
            }
        }
        at
    }
}

/// A skill is ready exactly when it is active and every edge that leaves it leads to a skill
/// on record whose posterior is at the threshold or above. An edge to a skill that is not on
/// record keeps it waiting.
pub proof fn a_skill_is_ready_once_every_prerequisite_is_mastered(
    skills: Seq<Skill>,
    edges: Seq<PrereqEdge>,
    threshold: Double,
    skill: Skill,
)
    ensures
        is_ready(skills, edges, threshold, skill) ==> skill.status == SkillStatus::Active && (
        forall|k: int|
            0 <= k < edges.len() && (#[trigger] edges[k]).skill_id@ == skill.id@ ==> exists|i: int|
                0 <= i < skills.len() && (#[trigger] skills[i]).id@ == edges[k].prereq_id@
                    && skills[i].mastery.at_least(threshold)),
        ids_differ(skills) && skill.status == SkillStatus::Active && (forall|k: int|
            0 <= k < edges.len() && (#[trigger] edges[k]).skill_id@ == skill.id@ ==> exists|i: int|
                0 <= i < skills.len() && (#[trigger] skills[i]).id@ == edges[k].prereq_id@
                    && skills[i].mastery.at_least(threshold)) ==> is_ready(
            skills,
            edges,
            threshold,
            skill,
        ),
{
    if is_ready(skills, edges, threshold, skill) {
        assert forall|k: int|
            0 <= k < edges.len() && (#[trigger] edges[k]).skill_id@ == skill.id@ implies exists|
            i: int,
        |
            0 <= i < skills.len() && (#[trigger] skills[i]).id@ == edges[k].prereq_id@
                && skills[i].mastery.at_least(threshold) by {
            assert(linked(edges, skill.id@, edges[k].prereq_id@));
            let at = mastery_has_a_last(skills, edges[k].prereq_id@);
            assert(skills[at].id@ == edges[k].prereq_id@);
        }
    }
    if ids_differ(skills) && skill.status == SkillStatus::Active && (forall|k: int|
        0 <= k < edges.len() && (#[trigger] edges[k]).skill_id@ == skill.id@ ==> exists|i: int|
            0 <= i < skills.len() && (#[trigger] skills[i]).id@ == edges[k].prereq_id@
                && skills[i].mastery.at_least(threshold)) {
        assert forall|prereq: Seq<char>| #[trigger] linked(edges, skill.id@, prereq) implies mastered(
            skills,
            prereq,
            threshold,
        ) by {
            let k = choose|k: int|
                0 <= k < edges.len() && (#[trigger] edges[k]).skill_id@ == skill.id@
                    && edges[k].prereq_id@ == prereq;
            let i = choose|i: int|
                0 <= i < skills.len() && (#[trigger] skills[i]).id@ == edges[k].prereq_id@
                    && skills[i].mastery.at_least(threshold);
            mastery_found(skills, i);
        }
    }
}

/// Skills of which no two share an id, by position.
pub proof fn different_ids_are_at_different_places(skills: Seq<Skill>)
    requires
        skills.map_values(|skill: Skill| skill.id@).no_duplicates(),
    ensures
        ids_differ(skills),
{
    let ids = skills.map_values(|skill: Skill| skill.id@);
    assert forall|i: int, j: int|
        #![trigger skills[i], skills[j]]
        0 <= i < skills.len() && 0 <= j < skills.len() && skills[i].id@ == skills[j].id@ implies i
        == j by {
        assert(ids[i] == ids[j]);
    }
}

/// Whether no two skills share an id.
pub open spec fn ids_differ(skills: Seq<Skill>) -> bool {
    forall|i: int, j: int|
        #![trigger skills[i], skills[j]]
        0 <= i < skills.len() && 0 <= j < skills.len() && skills[i].id@ == skills[j].id@ ==> i == j
}

proof fn mastery_found(skills: Seq<Skill>, at: int)
    requires
        ids_differ(skills),
        0 <= at < skills.len(),
    ensures
        mastery_of(skills, skills[at].id@) == Some(skills[at].mastery),
    decreases skills.len(),
{
    if at < skills.len() - 1 {
        let init = skills.drop_last();
        assert(skills[at].id@ != skills.last().id@);
        assert forall|i: int, j: int|
            #![trigger init[i], init[j]]
            0 <= i < init.len() && 0 <= j < init.len() && init[i].id@ == init[j].id@ implies i
            == j by {
            assert(skills[i].id@ == skills[j].id@);
        }
        mastery_found(init, at);
    }
}

proof fn mastery_missing(skills: Seq<Skill>, id: Seq<char>)
    requires
        forall|i: int| 0 <= i < skills.len() ==> (#[trigger] skills[i]).id@ != id,
    ensures
        mastery_of(skills, id) is None,
    decreases skills.len(),
{
    if skills.len() > 0 {
        assert(skills[skills.len() - 1].id@ != id);
        let init = skills.drop_last();
        assert forall|i: int| 0 <= i < init.len() implies (#[trigger] init[i]).id@ != id by {
            assert(skills[i].id@ != id);
        }
        mastery_missing(init, id);
    }
}

proof fn same_mastery(a: Seq<Skill>, b: Seq<Skill>, id: Seq<char>)
    requires
        ids_differ(a),
        ids_differ(b),
        forall|skill: Skill| #[trigger] a.contains(skill) <==> b.contains(skill),
    ensures
        mastery_of(a, id) == mastery_of(b, id),
{
    if exists|i: int| 0 <= i < a.len() && (#[trigger] a[i]).id@ == id {
        let i = choose|i: int| 0 <= i < a.len() && (#[trigger] a[i]).id@ == id;
        assert(a.contains(a[i]));
        let j = choose|j: int| 0 <= j < b.len() && b[j] == a[i];
        mastery_found(a, i);
        mastery_found(b, j);
    } else {
        assert forall|j: int| 0 <= j < b.len() implies (#[trigger] b[j]).id@ != id by {
            assert(b.contains(b[j]));
            assert(a.contains(b[j]));
            let i = choose|i: int| 0 <= i < a.len() && a[i] == b[j];
            assert(a[i].id@ != id);
        }
        mastery_missing(a, id);
        mastery_missing(b, id);
    }
}

/// What to study next does not depend on the order in which the skills are listed: the
/// same skills, each under its own id, give the same answer.
pub proof fn study_next_ignores_order(
    a: Seq<Skill>,
    b: Seq<Skill>,
    edges: Seq<PrereqEdge>,
    threshold: Double,
    now: i64,
    i: int,
    j: int,
)
    requires
        ids_differ(a),
        ids_differ(b),
        forall|skill: Skill| #[trigger] a.contains(skill) <==> b.contains(skill),
        is_first(ready_of(a, edges, threshold), i, now),
        is_first(ready_of(b, edges, threshold), j, now),
    ensures
        ready_of(a, edges, threshold)[i] == ready_of(b, edges, threshold)[j],
{
    let ready_a = ready_of(a, edges, threshold);
    let ready_b = ready_of(b, edges, threshold);
    let x = ready_a[i];
    let y = ready_b[j];
    let keep_a = |skill: Skill| is_ready(a, edges, threshold, skill);
    let keep_b = |skill: Skill| is_ready(b, edges, threshold, skill);
    assert forall|skill: Skill| is_ready(a, edges, threshold, skill) == is_ready(
        b,
        edges,
        threshold,
        skill,
    ) by {
        assert forall|p: Seq<char>| mastered(a, p, threshold) == #[trigger] mastered(
            b,
            p,
            threshold,
        ) by {
            same_mastery(a, b, p);
        }
        assert forall|p: Seq<char>| #[trigger] mastered(a, p, threshold) == mastered(
            b,
            p,
            threshold,
        ) by {
            same_mastery(a, b, p);
        }
    }
    filter_members(a, keep_a, x);
    filter_members(b, keep_b, y);
    assert(ready_a.contains(x));
    assert(ready_b.contains(y));
    assert(b.contains(x));
    assert(a.contains(y));
    filter_members(b, keep_b, x);
    filter_members(a, keep_a, y);
    assert(ready_b.contains(x));
    assert(ready_a.contains(y));
    let k = choose|k: int| 0 <= k < ready_b.len() && ready_b[k] == x;
    let m = choose|m: int| 0 <= m < ready_a.len() && ready_a[m] == y;
    assert(!ahead_of(ready_b[k], y, now));
    assert(!ahead_of(ready_a[m], x, now));
    ahead_of_is_an_order(x, y, x, now);
    let p = choose|p: int| 0 <= p < a.len() && a[p] == x;
    let q = choose|q: int| 0 <= q < a.len() && a[q] == y;
    assert(a[p].id@ == a[q].id@);
}

/// What a filter keeps: the members that satisfy it.
proof fn filter_members(list: Seq<Skill>, keep: spec_fn(Skill) -> bool, skill: Skill)
    ensures
        list.filter(keep).contains(skill) <==> list.contains(skill) && keep(skill),
    decreases list.len(),
{
    reveal(Seq::filter);
    if list.len() > 0 {
        let init = list.drop_last();
        let last = list.last();
        filter_members(init, keep, skill);
        assert(list.contains(skill) <==> init.contains(skill) || skill == last) by {
            if list.contains(skill) {
                let i = choose|i: int| 0 <= i < list.len() && list[i] == skill;
                if i < init.len() {
                    assert(init[i] == skill);
                }
            }
            if init.contains(skill) {
                let i = choose|i: int| 0 <= i < init.len() && init[i] == skill;
                assert(list[i] == skill);
            }
            if skill == last {
                assert(list[list.len() - 1] == skill);
            }
        }
        let kept = init.filter(keep);
        if keep(last) {
            let out = kept.push(last);
            assert(list.filter(keep) == out);
            if out.contains(skill) {
                let i = choose|i: int| 0 <= i < out.len() && out[i] == skill;
                if i < kept.len() {
                    assert(kept[i] == skill);
                }
            }
            if kept.contains(skill) {
                let i = choose|i: int| 0 <= i < kept.len() && kept[i] == skill;
                assert(out[i] == skill);
            }
            if skill == last {
                assert(out[kept.len() as int] == skill);
            }
        }
    }
}

} // verus!
