//! What is to be studied now: reviews that have fallen due, then new material.

use crate::config::maybe_text;
use crate::double::total_order_separates;
use crate::models::{Skill, SkillStatus};
use crate::store::{clamp_limit, rows_for};
use crate::text::{
    is_before, precedes, precedes_irreflexive, precedes_total, precedes_transitive, same_text,
};
use vstd::prelude::*;

verus! {

/// Whether a skill is to be studied: it is in the deck, belongs to the subject asked for
/// (if one is), and was never reviewed or has fallen due.
pub open spec fn is_due(skill: Skill, subject: Option<Seq<char>>, now: i64) -> bool {
    &&& skill.status == SkillStatus::Active
    &&& (match skill.due_at {
        None => true,
        Some(at) => at <= now,
    })
    &&& (match subject {
        None => true,
        Some(id) => skill.subject_id@ == id,
    })
}

/// Whether `a` is to be studied before `b`: reviews before new material, the longest
/// overdue first, and among equals the id that comes first.
pub open spec fn studied_before(a: Skill, b: Skill) -> bool {
    match (a.due_at, b.due_at) {
        (Some(x), Some(y)) => x < y || (x == y && precedes(a.id@, b.id@)),
        (Some(_), None) => true,
        (None, Some(_)) => false,
        (None, None) => precedes(a.id@, b.id@),
    }
}

/// A list with one more skill, behind those that it is not studied before.
pub open spec fn with_skill(list: Seq<Skill>, one: Skill) -> Seq<Skill>
    decreases list.len(),
{
    if list.len() == 0 || !studied_before(one, list.last()) {
        list.push(one)
    } else {
        with_skill(list.drop_last(), one).push(list.last())
    }
}

/// The skills to be studied, in the order in which they are.
pub open spec fn due_list(skills: Seq<Skill>, subject: Option<Seq<char>>, now: i64) -> Seq<Skill>
    decreases skills.len(),
{
    if skills.len() == 0 {
        seq![]
    } else {
        let before = due_list(skills.drop_last(), subject, now);
        if is_due(skills.last(), subject, now) {
            with_skill(before, skills.last())
        } else {
            before
        }
    }
}

/// The first `n` of a list.
pub open spec fn at_most(list: Seq<Skill>, n: int) -> Seq<Skill> {
    if list.len() <= n {
        list
    } else {
        list.take(n)
    }
}

fn is_studied_before(a: &Skill, b: &Skill) -> (yes: bool)
    ensures
        yes == studied_before(*a, *b),
{
    match (a.due_at, b.due_at) {
        (Some(x), Some(y)) => x < y || (x == y && is_before(a.id.as_str(), b.id.as_str())),
        (Some(_), None) => true,
        (None, Some(_)) => false,
        (None, None) => is_before(a.id.as_str(), b.id.as_str()),
    }
}

/// Whether a skill is to be studied.
fn owed(skill: &Skill, subject: Option<&str>, now: i64) -> (yes: bool)
    ensures
        yes == is_due(*skill, maybe_text(subject), now),
{
    let in_time: bool = match skill.due_at {
        None => true,
        Some(at) => at <= now,
    };
    let in_subject: bool = match subject {
        None => true,
        Some(id) => same_text(skill.subject_id.as_str(), id),
    };
    skill.status == SkillStatus::Active && in_time && in_subject
}

/// The skills at the given positions.
pub open spec fn skills_at(skills: Seq<Skill>, order: Seq<usize>) -> Seq<Skill> {
    order.map_values(|i: usize| skills[i as int])
}

/// The positions of the skills to be studied, in the order in which they are, no more
/// than `limit` of them.
///
/// A skill that was never reviewed is to be studied at once; it comes behind every
/// review, because keeping what was learned is worth more than learning more.
pub fn list_due_skills(skills: &[Skill], subject: Option<&str>, now: i64, limit: i64) -> (order:
    Vec<usize>)
    ensures
        forall|k: int| 0 <= k < order@.len() ==> (#[trigger] order@[k]) < skills@.len(),
        skills_at(skills@, order@) == at_most(
            due_list(skills@, maybe_text(subject), now),
            rows_for(limit) as int,
        ),
        // As many as there are, up to the limit: two hundred where none is stated, and five
        // hundred at most.
        ({
            let rows: int = if limit <= 0 {
                200
            } else if limit > 500 {
                500
            } else {
                limit as int
            };
            let all = due_list(skills@, maybe_text(subject), now);
            &&& order@.len() == if all.len() <= rows {
                all.len() as int
            } else {
                rows
            }
            &&& forall|k: int|
                0 <= k < order@.len() ==> skills@[#[trigger] order@[k] as int] == all[k]
        }),
{
    let rows: i64 = clamp_limit(limit);
    let ghost wanted = maybe_text(subject);
    let mut order: Vec<usize> = Vec::new();
    let mut i: usize = 0;
    assert(skills@.take(0) =~= seq![]);
    assert(skills_at(skills@, order@) =~= seq![]);
    while i < skills.len()
        invariant
            i <= skills@.len(),
            wanted == maybe_text(subject),
            forall|k: int| 0 <= k < order@.len() ==> (#[trigger] order@[k]) < skills@.len(),
            skills_at(skills@, order@) == due_list(skills@.take(i as int), wanted, now),
        decreases skills@.len() - i,
    {
        proof {
            assert(skills@.take(i + 1).drop_last() =~= skills@.take(i as int));
            assert(skills@.take(i + 1).last() == skills@[i as int]);
        }
        if owed(&skills[i], subject, now) {
            insert_skill(skills, &mut order, i);
        }
        i += 1;
    }
    assert(skills@.take(i as int) =~= skills@);
    let ghost all = skills_at(skills@, order@);
    if order.len() > rows as usize {
        order.truncate(rows as usize);
        assert(skills_at(skills@, order@) =~= all.take(rows as int));
    }
    proof {
        assert forall|k: int| 0 <= k < order@.len() implies skills@[#[trigger] order@[k] as int]
            == all[k] by {
            assert(skills_at(skills@, order@)[k] == skills@[order@[k] as int]);
        }
    }
    order
}

/// Puts the position of one more skill where it belongs.
fn insert_skill(skills: &[Skill], order: &mut Vec<usize>, i: usize)
    requires
        i < skills@.len(),
        forall|k: int| 0 <= k < old(order)@.len() ==> (#[trigger] old(order)@[k]) < skills@.len(),
    ensures
        forall|k: int|
            0 <= k < final(order)@.len() ==> (#[trigger] final(order)@[k]) < skills@.len(),
        skills_at(skills@, final(order)@) == with_skill(
            skills_at(skills@, old(order)@),
            skills@[i as int],
        ),
{
    let ghost list = skills_at(skills@, order@);
    let ghost one = skills@[i as int];
    let mut at: usize = order.len();
    assert(list.take(at as int) =~= list);
    assert(with_skill(list, one) =~= with_skill(list.take(at as int), one) + list.skip(at as int));
    while at > 0 && is_studied_before(&skills[i], &skills[order[at - 1]])
        invariant
            i < skills@.len(),
            at <= order@.len(),
            order@ == old(order)@,
            one == skills@[i as int],
            list == skills_at(skills@, order@),
            forall|k: int| 0 <= k < order@.len() ==> (#[trigger] order@[k]) < skills@.len(),
            with_skill(list, one) == with_skill(list.take(at as int), one) + list.skip(at as int),
        decreases at,
    {
        proof {
            let head = list.take(at as int);
            assert(head.last() == list[at - 1]);
            assert(head.drop_last() =~= list.take(at - 1));
            assert(with_skill(head, one) + list.skip(at as int) =~= with_skill(
                list.take(at - 1),
                one,
            ) + list.skip(at - 1));
        }
        at -= 1;
    }
    proof {
        let head = list.take(at as int);
        if at > 0 {
            assert(head.last() == list[at - 1]);
        }
        assert(with_skill(head, one) == head.push(one));
    }
    order.insert(at, i);
    assert(skills_at(skills@, order@) =~= list.take(at as int).push(one) + list.skip(at as int));
}

/// Being studied first is an order.
pub proof fn studied_before_is_an_order(a: Skill, b: Skill, c: Skill)
    ensures
        !studied_before(a, a),
        studied_before(a, b) && studied_before(b, c) ==> studied_before(a, c),
        !studied_before(b, a) && !studied_before(c, b) ==> !studied_before(c, a),
{
    precedes_irreflexive(a.id@);
    precedes_total(a.id@, b.id@);
    precedes_total(b.id@, c.id@);
    if precedes(a.id@, b.id@) && precedes(b.id@, c.id@) {
        precedes_transitive(a.id@, b.id@, c.id@);
    }
    if precedes(c.id@, a.id@) && precedes(a.id@, b.id@) {
        precedes_transitive(c.id@, a.id@, b.id@);
    }
}

/// No skill is studied before an earlier one.
pub open spec fn in_study_order(list: Seq<Skill>) -> bool {
    forall|i: int, j: int|
        #![trigger list[i], list[j]]
        0 <= i < j < list.len() ==> !studied_before(list[j], list[i])
}

proof fn with_skill_orders(list: Seq<Skill>, one: Skill)
    requires
        in_study_order(list),
    ensures
        in_study_order(with_skill(list, one)),
        with_skill(list, one).len() == list.len() + 1,
        forall|c: Skill| #[trigger]
            with_skill(list, one).contains(c) <==> list.contains(c) || c == one,
    decreases list.len(),
{
    let out = with_skill(list, one);
    if list.len() == 0 || !studied_before(one, list.last()) {
        assert(out == list.push(one));
        assert forall|i: int, j: int|
            #![trigger out[i], out[j]]
            0 <= i < j < out.len() implies !studied_before(out[j], out[i]) by {
            if j == list.len() && i < list.len() - 1 {
                assert(!studied_before(list[list.len() - 1], list[i]));
                studied_before_is_an_order(list[i], list.last(), one);
            }
        }
        assert forall|c: Skill| #[trigger] out.contains(c) <==> list.contains(c) || c == one by {
            push_contains(list, one, c);
        }
    } else {
        let init = list.drop_last();
        let last = list.last();
        assert(in_study_order(init)) by {
            assert forall|i: int, j: int|
                #![trigger init[i], init[j]]
                0 <= i < j < init.len() implies !studied_before(init[j], init[i]) by {
                assert(!studied_before(list[j], list[i]));
            }
        }
        with_skill_orders(init, one);
        let inner = with_skill(init, one);
        assert(out == inner.push(last));
        assert forall|i: int, j: int|
            #![trigger out[i], out[j]]
            0 <= i < j < out.len() implies !studied_before(out[j], out[i]) by {
            if j == inner.len() {
                assert(inner.contains(inner[i]));
                if inner[i] == one {
                    studied_before_is_an_order(one, last, one);
                } else {
                    let k = choose|k: int| 0 <= k < init.len() && init[k] == inner[i];
                    assert(list[k] == inner[i]);
                    assert(!studied_before(list[list.len() - 1], list[k]));
                }
            } else {
                assert(!studied_before(inner[j], inner[i]));
            }
        }
        assert(list =~= init.push(last));
        assert forall|c: Skill| #[trigger] out.contains(c) <==> list.contains(c) || c == one by {
            push_contains(inner, last, c);
            push_contains(init, last, c);
            assert(inner.contains(c) <==> init.contains(c) || c == one);
        }
    }
}

proof fn push_contains(list: Seq<Skill>, one: Skill, c: Skill)
    ensures
        list.push(one).contains(c) <==> list.contains(c) || c == one,
{
    let out = list.push(one);
    if out.contains(c) {
        let k = choose|k: int| 0 <= k < out.len() && out[k] == c;
        if k < list.len() {
            assert(list[k] == c);
        }
    }
    if list.contains(c) {
        let k = choose|k: int| 0 <= k < list.len() && list[k] == c;
        assert(out[k] == c);
    }
    if c == one {
        assert(out[list.len() as int] == c);
    }
}

/// The list holds exactly the skills that are to be studied, and no review stands behind
/// new material or behind a review that is less overdue.
pub proof fn due_list_is_complete_and_ordered(
    skills: Seq<Skill>,
    subject: Option<Seq<char>>,
    now: i64,
)
    ensures
        in_study_order(due_list(skills, subject, now)),
        forall|c: Skill| #[trigger]
            due_list(skills, subject, now).contains(c) <==> skills.contains(c) && is_due(
                c,
                subject,
                now,
            ),
    decreases skills.len(),
{
    if skills.len() > 0 {
        let init = skills.drop_last();
        let last = skills.last();
        due_list_is_complete_and_ordered(init, subject, now);
        if is_due(last, subject, now) {
            with_skill_orders(due_list(init, subject, now), last);
        }
        assert(skills =~= init.push(last));
        assert forall|c: Skill| #[trigger]
            due_list(skills, subject, now).contains(c) <==> skills.contains(c) && is_due(
                c,
                subject,
                now,
            ) by {
            push_contains(init, last, c);
            assert(due_list(init, subject, now).contains(c) <==> init.contains(c) && is_due(
                c,
                subject,
                now,
            ));
        }
    }
}

/// Whether `a` is weaker than `b`: less mastery, and among equals the id that comes
/// first.
pub open spec fn weaker(a: Skill, b: Skill) -> bool {
    ||| a.mastery.total_rank() < b.mastery.total_rank()
    ||| a.mastery == b.mastery && precedes(a.id@, b.id@)
}

fn is_weaker(a: &Skill, b: &Skill) -> (yes: bool)
    ensures
        yes == weaker(*a, *b),
{
    proof {
        total_order_separates(a.mastery, b.mastery);
    }
    if a.mastery.is_before(b.mastery) {
        return true;
    }
    !b.mastery.is_before(a.mastery) && is_before(a.id.as_str(), b.id.as_str())
}

/// Being weaker is an order.
pub proof fn weaker_is_an_order(a: Skill, b: Skill, c: Skill)
    ensures
        !weaker(a, a),
        weaker(a, b) ==> !weaker(b, a),
        weaker(a, b) && weaker(b, c) ==> weaker(a, c),
        !weaker(b, a) && !weaker(c, b) ==> !weaker(c, a),
{
    total_order_separates(a.mastery, b.mastery);
    total_order_separates(b.mastery, c.mastery);
    total_order_separates(a.mastery, c.mastery);
    precedes_irreflexive(a.id@);
    precedes_total(a.id@, b.id@);
    precedes_total(b.id@, c.id@);
    if precedes(a.id@, b.id@) && precedes(b.id@, c.id@) {
        precedes_transitive(a.id@, b.id@, c.id@);
    }
    if precedes(a.id@, b.id@) && precedes(b.id@, a.id@) {
        precedes_transitive(a.id@, b.id@, a.id@);
    }
    if precedes(c.id@, a.id@) && precedes(a.id@, b.id@) {
        precedes_transitive(c.id@, a.id@, b.id@);
    }
}

/// Whether positions list the first `n` skills, each once, none behind one that it is
/// weaker than.
pub open spec fn lists_weakest_first(skills: Seq<Skill>, order: Seq<usize>, n: int) -> bool {
    &&& order.len() == n
    &&& order.no_duplicates()
    &&& forall|k: int| 0 <= k < order.len() ==> (#[trigger] order[k]) < n
    &&& forall|i: int, j: int|
        #![trigger order[i], order[j]]
        0 <= i < j < order.len() ==> !weaker(skills[order[j] as int], skills[order[i] as int])
}

/// The positions of the skills, the weakest first.
pub fn weakest_first(skills: &[Skill]) -> (order: Vec<usize>)
    ensures
        lists_weakest_first(skills@, order@, skills@.len() as int),
{
    let mut order: Vec<usize> = Vec::new();
    let mut i: usize = 0;
    while i < skills.len()
        invariant
            i <= skills@.len(),
            lists_weakest_first(skills@, order@, i as int),
        decreases skills@.len() - i,
    {
        let mut at: usize = order.len();
        while at > 0 && is_weaker(&skills[i], &skills[order[at - 1]])
            invariant
                i < skills@.len(),
                at <= order@.len(),
                lists_weakest_first(skills@, order@, i as int),
                forall|k: int|
                    at <= k < order@.len() ==> weaker(
                        skills@[i as int],
                        skills@[#[trigger] order@[k] as int],
                    ),
            decreases at,
        {
            at -= 1;
        }
        let ghost before = order@;
        order.insert(at, i);
        proof {
            let one = skills@[i as int];
            assert forall|k: int| 0 <= k < at implies !weaker(
                one,
                skills@[#[trigger] before[k] as int],
            ) by {
                let last = skills@[before[at - 1] as int];
                assert(!weaker(one, last));
                if k < at - 1 {
                    weaker_is_an_order(skills@[before[k] as int], last, one);
                }
            }
            assert forall|a: int, b: int|
                #![trigger order@[a], order@[b]]
                0 <= a < b < order@.len() implies !weaker(
                skills@[order@[b] as int],
                skills@[order@[a] as int],
            ) by {
                let x = if a < at {
                    a
                } else {
                    a - 1
                };
                let y = if b < at {
                    b
                } else {
                    b - 1
                };
                if a == at {
                    assert(weaker(one, skills@[before[y] as int]));
                    weaker_is_an_order(one, skills@[before[y] as int], one);
                } else if b == at {
                    assert(!weaker(one, skills@[before[x] as int]));
                } else {
                    assert(!weaker(skills@[before[y] as int], skills@[before[x] as int]));
                }
            }
            assert(order@.no_duplicates()) by {
                assert forall|a: int, b: int|
                    0 <= a < order@.len() && 0 <= b < order@.len() && a != b implies order@[a]
                    != order@[b] by {
                    let x = if a < at {
                        a
                    } else {
                        a - 1
                    };
                    let y = if b < at {
                        b
                    } else {
                        b - 1
                    };
                    if a != at {
                        assert(before[x] < i);
                    }
                    if b != at {
                        assert(before[y] < i);
                    }
                }
            }
            assert forall|k: int| 0 <= k < order@.len() implies (#[trigger] order@[k]) < i + 1 by {
                if k != at {
                    assert(before[if k < at {
                        k
                    } else {
                        k - 1
                    }] < i);
                }
            }
        }
        i += 1;
    }
    order
}

/// Whether positions pick the weakest of the skills to be studied: each of them once, none
/// behind one that it is weaker than, no more than `rows`, and none left out that is weaker
/// than one of them or that there is still room for.
pub open spec fn picks_weakest(
    skills: Seq<Skill>,
    subject: Option<Seq<char>>,
    now: i64,
    rows: int,
    picked: Seq<usize>,
) -> bool {
    &&& picked.no_duplicates()
    &&& picked.len() <= rows
    &&& forall|k: int|
        0 <= k < picked.len() ==> (#[trigger] picked[k]) < skills.len() && is_due(
            skills[picked[k] as int],
            subject,
            now,
        )
    &&& forall|i: int, j: int|
        #![trigger picked[i], picked[j]]
        0 <= i < j < picked.len() ==> !weaker(skills[picked[j] as int], skills[picked[i] as int])
    &&& forall|at: int|
        0 <= at < skills.len() && is_due(#[trigger] skills[at], subject, now) && !picked.contains(
            at as usize,
        ) ==> picked.len() == rows && forall|k: int|
            0 <= k < picked.len() ==> !weaker(skills[at], skills[#[trigger] picked[k] as int])
}

/// The positions of the skills to be studied, the weakest first, no more than `limit` of
/// them.
pub fn weakest_due(skills: &[Skill], subject: Option<&str>, now: i64, limit: i64) -> (picked: Vec<
    usize,
>)
    ensures
        picks_weakest(skills@, maybe_text(subject), now, rows_for(limit) as int, picked@),
{
    let rows: i64 = clamp_limit(limit);
    let ghost wanted = maybe_text(subject);
    let all: Vec<usize> = weakest_first(skills);
    let mut picked: Vec<usize> = Vec::new();
    let mut i: usize = 0;
    while i < all.len()
        invariant
            i <= all@.len(),
            wanted == maybe_text(subject),
            lists_weakest_first(skills@, all@, skills@.len() as int),
            forall|k: int|
                0 <= k < picked@.len() ==> all@.take(i as int).contains(#[trigger] picked@[k])
                    && is_due(skills@[picked@[k] as int], wanted, now),
            picked@.no_duplicates(),
            forall|a: int, b: int|
                #![trigger picked@[a], picked@[b]]
                0 <= a < b < picked@.len() ==> !weaker(
                    skills@[picked@[b] as int],
                    skills@[picked@[a] as int],
                ),
            forall|m: int|
                0 <= m < i && is_due(skills@[#[trigger] all@[m] as int], wanted, now)
                    ==> picked@.contains(all@[m]),
        decreases all@.len() - i,
    {
        let at: usize = all[i];
        let ghost before = picked@;
        let ghost seen = all@.take(i as int);
        let ghost more = all@.take(i + 1);
        proof {
            assert(more =~= seen.push(at));
            assert forall|x: usize| seen.contains(x) implies #[trigger] more.contains(x) by {
                let k = choose|k: int| 0 <= k < seen.len() && seen[k] == x;
                assert(more[k] == x);
            }
            assert(more[i as int] == at);
        }
        if owed(&skills[at], subject, now) {
            picked.push(at);
            proof {
                assert forall|k: int| 0 <= k < before.len() implies (#[trigger] before[k]) != at
                    && !weaker(skills@[at as int], skills@[before[k] as int]) by {
                    assert(seen.contains(before[k]));
                    let m = choose|m: int| 0 <= m < seen.len() && seen[m] == before[k];
                    assert(all@[m] == before[k]);
                    assert(all@[i as int] == at);
                }
                assert forall|k: int| 0 <= k < picked@.len() implies more.contains(
                    #[trigger] picked@[k],
                ) && is_due(skills@[picked@[k] as int], wanted, now) by {
                    if k < before.len() {
                        assert(picked@[k] == before[k]);
                    }
                }
                assert forall|a: int, b: int|
                    #![trigger picked@[a], picked@[b]]
                    0 <= a < b < picked@.len() implies !weaker(
                    skills@[picked@[b] as int],
                    skills@[picked@[a] as int],
                ) by {
                    assert(picked@[a] == before[a]);
                    if b < before.len() {
                        assert(picked@[b] == before[b]);
                    }
                }
                assert forall|a: int, b: int|
                    0 <= a < picked@.len() && 0 <= b < picked@.len() && a != b implies picked@[a]
                    != picked@[b] by {
                    if a < before.len() {
                        assert(before[a] != at);
                    }
                    if b < before.len() {
                        assert(before[b] != at);
                    }
                }
                assert(picked@[before.len() as int] == at);
            }
        }
        proof {
            assert forall|m: int| 0 <= m < i + 1 && is_due(
                skills@[#[trigger] all@[m] as int],
                wanted,
                now,
            ) implies picked@.contains(all@[m]) by {
                if m < i {
                    let k = choose|k: int| 0 <= k < before.len() && before[k] == all@[m];
                    assert(picked@[k] == all@[m]);
                }
            }
        }
        i += 1;
    }
    let ghost full = picked@;
    proof {
        assert(all@.take(i as int) =~= all@);
        assert forall|at: int| 0 <= at < skills@.len() && is_due(
            #[trigger] skills@[at],
            wanted,
            now,
        ) implies full.contains(at as usize) by {
            every_position_is_listed(all@, skills@.len() as int, at as usize);
            let m = choose|m: int| 0 <= m < all@.len() && all@[m] == at as usize;
            assert(full.contains(all@[m]));
        }
    }
    if picked.len() > rows as usize {
        picked.truncate(rows as usize);
    }
    proof {
        let n = picked@.len() as int;
        assert(picked@ =~= full.take(n));
        assert forall|at: int|
            0 <= at < skills@.len() && is_due(#[trigger] skills@[at], wanted, now)
                && !picked@.contains(at as usize) implies n == rows && forall|k: int|
            0 <= k < n ==> !weaker(skills@[at], skills@[#[trigger] picked@[k] as int]) by {
            let m = choose|m: int| 0 <= m < full.len() && full[m] == at as usize;
            if m < n {
                assert(picked@[m] == at as usize);
            }
            assert forall|k: int| 0 <= k < n implies !weaker(
                skills@[at],
                skills@[#[trigger] picked@[k] as int],
            ) by {
                assert(picked@[k] == full[k]);
                assert(!weaker(skills@[full[m] as int], skills@[full[k] as int]));
            }
        }
        assert forall|a: int, b: int|
            #![trigger picked@[a], picked@[b]]
            0 <= a < b < n implies !weaker(
            skills@[picked@[b] as int],
            skills@[picked@[a] as int],
        ) by {
            assert(picked@[a] == full[a] && picked@[b] == full[b]);
        }
    }
    picked
}

/// As many positions as there are, none twice, are all of them.
proof fn every_position_is_listed(order: Seq<usize>, n: int, at: usize)
    requires
        order.len() == n,
        order.no_duplicates(),
        forall|k: int| 0 <= k < order.len() ==> (#[trigger] order[k]) < n,
        at < n,
    ensures
        order.contains(at),
{
    if !order.contains(at) {
        let wider = order.push(at);
        assert(wider.no_duplicates()) by {
            assert forall|i: int, j: int|
                0 <= i < wider.len() && 0 <= j < wider.len() && i != j implies wider[i]
                != wider[j] by {
                if i < order.len() && j == order.len() {
                    assert(order.contains(order[i]));
                }
                if j < order.len() && i == order.len() {
                    assert(order.contains(order[j]));
                }
            }
        }
        wider.unique_seq_to_set();
        let all = Seq::new(n as nat, |i: int| i as usize);
        all.lemma_cardinality_of_set();
        assert(wider.to_set().subset_of(all.to_set())) by {
            assert forall|x: usize| wider.to_set().contains(x) implies all.to_set().contains(x) by {
                let k = choose|k: int| 0 <= k < wider.len() && wider[k] == x;
                if k < order.len() {
                    assert(order[k] < n);
                }
                assert(all[x as int] == x);
            }
        }
        vstd::seq_lib::seq_to_set_is_finite(all);
        vstd::set_lib::lemma_len_subset(wider.to_set(), all.to_set());
    }
}

/// What is to be studied, and in which order: the active skills of the subject that were never
/// reviewed or have fallen due, each as often as it is listed; reviews before new material,
/// the earliest due first, and among equals the first id.
pub proof fn reviews_come_first_by_date(
    skills: Seq<Skill>,
    subject: Option<Seq<char>>,
    now: i64,
)
    ensures
        ({
            let list = due_list(skills, subject, now);
            &&& list.to_multiset() == skills.filter(
                |s: Skill|
                    s.status == SkillStatus::Active && (s.due_at is None || s.due_at->0 <= now) && (
                    subject is None || s.subject_id@ == subject->0),
            ).to_multiset()
            &&& forall|i: int, j: int|
                #![trigger list[i], list[j]]
                0 <= i < j < list.len() ==> match (list[i].due_at, list[j].due_at) {
                    (Some(x), Some(y)) => x < y || (x == y && !precedes(list[j].id@, list[i].id@)),
                    (Some(_), None) => true,
                    (None, Some(_)) => false,
                    (None, None) => !precedes(list[j].id@, list[i].id@),
                }
        }),
    decreases skills.len(),
{
    broadcast use vstd::seq_lib::group_to_multiset_ensures;

    let list = due_list(skills, subject, now);
    let keep = |s: Skill|
        s.status == SkillStatus::Active && (s.due_at is None || s.due_at->0 <= now) && (
        subject is None || s.subject_id@ == subject->0);
    due_list_is_complete_and_ordered(skills, subject, now);
    assert forall|i: int, j: int|
        #![trigger list[i], list[j]]
        0 <= i < j < list.len() implies match (list[i].due_at, list[j].due_at) {
        (Some(x), Some(y)) => x < y || (x == y && !precedes(list[j].id@, list[i].id@)),
        (Some(_), None) => true,
        (None, Some(_)) => false,
        (None, None) => !precedes(list[j].id@, list[i].id@),
    } by {
        assert(!studied_before(list[j], list[i]));
    }
    reveal(Seq::filter);
    if skills.len() > 0 {
        let init = skills.drop_last();
        let last = skills.last();
        reviews_come_first_by_date(init, subject, now);
        assert(keep(last) == is_due(last, subject, now));
        if is_due(last, subject, now) {
            with_skill_adds(due_list(init, subject, now), last);
            assert(skills.filter(keep) == init.filter(keep).push(last));
        }
    } else {
        assert(list =~= skills.filter(keep));
    }
}

proof fn with_skill_adds(list: Seq<Skill>, one: Skill)
    ensures
        with_skill(list, one).to_multiset() == list.to_multiset().insert(one),
    decreases list.len(),
{
    broadcast use vstd::seq_lib::group_to_multiset_ensures;

    if list.len() == 0 || !studied_before(one, list.last()) {
        assert(list.push(one).to_multiset() =~= list.to_multiset().insert(one));
    } else {
        let init = list.drop_last();
        with_skill_adds(init, one);
        assert(list =~= init.push(list.last()));
        let inner = with_skill(init, one);
        assert(inner.push(list.last()).to_multiset() =~= init.to_multiset().insert(one).insert(
            list.last(),
        ));
        assert(init.to_multiset().insert(one).insert(list.last()) =~= init.to_multiset().insert(
            list.last(),
        ).insert(one));
    }
}

/// The weakest are picked: each of those picked is due, none stands behind a stronger one, and
/// none that is due and weaker than one of them was left out.
pub proof fn the_weakest_due_are_picked(
    skills: Seq<Skill>,
    subject: Option<Seq<char>>,
    now: i64,
    rows: int,
    picked: Seq<usize>,
    i: int,
    j: int,
    left: int,
)
    requires
        picks_weakest(skills, subject, now, rows, picked),
        0 <= i < j < picked.len(),
        0 <= left < skills.len(),
        skills[left].status == SkillStatus::Active,
        skills[left].due_at is None || skills[left].due_at->0 <= now,
        subject is None || skills[left].subject_id@ == subject->0,
        !picked.contains(left as usize),
    ensures
        skills[picked[i] as int].mastery.total_rank() <= skills[picked[j] as int].mastery.total_rank(),
        skills[picked[i] as int].mastery == skills[picked[j] as int].mastery ==> !precedes(
            skills[picked[j] as int].id@,
            skills[picked[i] as int].id@,
        ),
        skills[picked[j] as int].mastery.total_rank() <= skills[left].mastery.total_rank(),
        skills[picked[j] as int].status == SkillStatus::Active,
        picked.len() == rows,
{
    assert(is_due(skills[left], subject, now));
    total_order_separates(skills[picked[i] as int].mastery, skills[picked[j] as int].mastery);
    total_order_separates(skills[picked[j] as int].mastery, skills[left].mastery);
    assert(!weaker(skills[picked[j] as int], skills[picked[i] as int]));
    assert(!weaker(skills[left], skills[picked[j] as int]));
}

/// What is picked is due and is picked once, no more of it than there are rows for; and where
/// not every row is filled, everything that is due was picked.
pub proof fn what_is_picked_is_due(
    skills: Seq<Skill>,
    subject: Option<Seq<char>>,
    now: i64,
    rows: int,
    picked: Seq<usize>,
    i: int,
    j: int,
    at: int,
)
    requires
        picks_weakest(skills, subject, now, rows, picked),
        0 <= i < picked.len(),
        0 <= at < skills.len(),
        at <= usize::MAX,
    ensures
        picked.len() <= rows,
        picked[i] < skills.len(),
        skills[picked[i] as int].status == SkillStatus::Active,
        skills[picked[i] as int].due_at is None || skills[picked[i] as int].due_at->0 <= now,
        subject is None || skills[picked[i] as int].subject_id@ == subject->0,
        i < j < picked.len() ==> picked[i] != picked[j],
        picked.len() < rows && skills[at].status == SkillStatus::Active && (skills[at].due_at is None
            || skills[at].due_at->0 <= now) && (subject is None || skills[at].subject_id@
            == subject->0) ==> picked.contains(at as usize),
{
    assert(is_due(skills[picked[i] as int], subject, now));
    if picked.len() < rows && !picked.contains(at as usize) {
        assert(!is_due(skills[at], subject, now));
    }
}

} // verus!
