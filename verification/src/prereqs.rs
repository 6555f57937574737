//! Adding a prerequisite edge: the checks that keep the graph acyclic.
//!
//! A cycle is refused when the edge is written, with the offending path named: whatever
//! walks prerequisites later would not come to an end on one.

use crate::error::ApiError;
use crate::graph::{
    cyclic, edge_closes_cycle_iff, is_walk, leads, linked, reaches, reaches_step,
};
use crate::models::{PrereqEdge, Skill};
use crate::text::{join, joined, same_text, texts};
use vstd::prelude::*;
use vstd::string::*;

verus! {

/// Hard cap on the skills that one check looks into.
pub const MAX_PREREQ_WALK: usize = 10_000;

/// Whether no name occurs twice.
pub open spec fn all_different(names: Seq<Seq<char>>) -> bool {
    forall|i: int, j: int|
        #![trigger names[i], names[j]]
        0 <= i < j < names.len() ==> names[i] != names[j]
}

/// Whether every name can be reached from `from`.
pub open spec fn all_reached(edges: Seq<PrereqEdge>, from: Seq<char>, names: Seq<Seq<char>>) -> bool {
    forall|i: int| 0 <= i < names.len() ==> reaches(edges, from, #[trigger] names[i])
}

/// Whether more skills can be reached than one check looks into.
pub open spec fn too_large(edges: Seq<PrereqEdge>, from: Seq<char>) -> bool {
    exists|names: Seq<Seq<char>>|
        {
            &&& #[trigger] all_different(names)
            &&& all_reached(edges, from, names)
            &&& names.len() > MAX_PREREQ_WALK
        }
}

/// How a walk over too many skills is refused.
pub open spec fn is_too_large(error: ApiError) -> bool {
    error matches ApiError::BadRequest(why) && why@
        == "the prerequisite graph is too large or already cyclic to check safely"@
}

/// Where a walk has been: each name but the first was reached over an edge from an
/// earlier one.
spec fn is_trail(edges: Seq<PrereqEdge>, seen: Seq<Seq<char>>, parent: Seq<usize>) -> bool {
    &&& seen.len() == parent.len()
    &&& seen.len() >= 1
    &&& forall|i: int|
        #![trigger parent[i]]
        1 <= i < seen.len() ==> parent[i] < i && linked(edges, seen[parent[i] as int], seen[i])
}

/// Whether everything that follows a name has been seen.
spec fn is_settled(edges: Seq<PrereqEdge>, seen: Seq<Seq<char>>, name: Seq<char>) -> bool {
    forall|p: Seq<char>| #[trigger] linked(edges, name, p) ==> seen.contains(p)
}

/// Whether a position is among those still to be looked into.
spec fn waits(frontier: Seq<usize>, at: int) -> bool {
    exists|k: int| 0 <= k < frontier.len() && (#[trigger] frontier[k]) as int == at
}

/// Everything on a trail can be reached from its start.
proof fn trail_is_reached(
    edges: Seq<PrereqEdge>,
    seen: Seq<Seq<char>>,
    parent: Seq<usize>,
    at: int,
)
    requires
        is_trail(edges, seen, parent),
        0 <= at < seen.len(),
    ensures
        reaches(edges, seen[0], seen[at]),
    decreases at,
{
    if at == 0 {
        let own = seq![seen[0]];
        assert(leads(edges, own, seen[0], seen[0]));
    } else {
        let before = parent[at] as int;
        trail_is_reached(edges, seen, parent, before);
        reaches_step(edges, seen[0], seen[before], seen[at]);
    }
}

/// A walk from a seen name stays among the seen names, where each is settled.
proof fn walk_stays(
    edges: Seq<PrereqEdge>,
    seen: Seq<Seq<char>>,
    path: Seq<Seq<char>>,
    upto: int,
)
    requires
        0 <= upto < path.len(),
        is_walk(edges, path),
        seen.contains(path[0]),
        forall|i: int| 0 <= i < seen.len() ==> is_settled(edges, seen, #[trigger] seen[i]),
    ensures
        seen.contains(path[upto]),
    decreases upto,
{
    if upto > 0 {
        walk_stays(edges, seen, path, upto - 1);
        let i = choose|i: int| 0 <= i < seen.len() && seen[i] == path[upto - 1];
        assert(is_settled(edges, seen, seen[i]));
        assert(linked(edges, path[upto - 1], path[upto - 1 + 1]));
    }
}

/// Names that all occur in a list are no more than the list is long, where none of them
/// occurs twice.
proof fn no_more_than(names: Seq<Seq<char>>, list: Seq<Seq<char>>)
    requires
        all_different(names),
        forall|i: int| 0 <= i < names.len() ==> list.contains(#[trigger] names[i]),
    ensures
        names.len() <= list.len(),
{
    assert(names.no_duplicates()) by {
        assert forall|i: int, j: int|
            0 <= i < names.len() && 0 <= j < names.len() && i != j implies names[i] != names[j] by {
            if i < j {
                assert(names[i] != names[j]);
            } else {
                assert(names[j] != names[i]);
            }
        }
    }
    names.unique_seq_to_set();
    list.lemma_cardinality_of_set();
    assert(names.to_set().subset_of(list.to_set())) by {
        assert forall|name: Seq<char>| names.to_set().contains(name) implies list.to_set().contains(
            name,
        ) by {
            let i = choose|i: int| 0 <= i < names.len() && names[i] == name;
            assert(list.contains(names[i]));
        }
    }
    vstd::seq_lib::seq_to_set_is_finite(list);
    vstd::set_lib::lemma_len_subset(names.to_set(), list.to_set());
}

fn seen_before(seen: &Vec<String>, name: &str) -> (yes: bool)
    ensures
        yes == texts(seen@).contains(name@),
{
    let mut i: usize = 0;
    while i < seen.len()
        invariant
            i <= seen@.len(),
            forall|k: int| 0 <= k < i ==> (#[trigger] seen@[k])@ != name@,
        decreases seen@.len() - i,
    {
        if same_text(seen[i].as_str(), name) {
            assert(texts(seen@)[i as int] == name@);
            return true;
        }
        i += 1;
    }
    proof {
        if texts(seen@).contains(name@) {
            let k = choose|k: int| 0 <= k < texts(seen@).len() && texts(seen@)[k] == name@;
            assert(seen@[k]@ == name@);
        }
    }
    false
}

/// The path that a trail took to a name.
fn path_back(
    edges: &[PrereqEdge],
    seen: &Vec<String>,
    parent: &Vec<usize>,
    at: usize,
) -> (path: Vec<String>)
    requires
        is_trail(edges@, texts(seen@), parent@),
        at < seen@.len(),
    ensures
        leads(edges@, texts(path@), seen@[0]@, seen@[at as int]@),
        at > 0 ==> path@.len() >= 2,
{
    let ghost names = texts(seen@);
    let mut path: Vec<String> = Vec::new();
    let mut here: usize = at;
    path.push(seen[at].clone());
    assert(texts(path@) =~= seq![names[at as int]]);
    assert(leads(edges@, texts(path@), names[at as int], names[at as int]));
    while here > 0
        invariant
            names == texts(seen@),
            is_trail(edges@, names, parent@),
            at < seen@.len(),
            here <= at,
            path@.len() >= 1,
            here < at ==> path@.len() >= 2,
            leads(edges@, texts(path@), names[here as int], names[at as int]),
        decreases here,
    {
        let ghost before = texts(path@);
        let up: usize = parent[here];
        path.insert(0, seen[up].clone());
        proof {
            let after = texts(path@);
            assert(after =~= seq![names[up as int]] + before);
            assert(linked(edges@, names[parent@[here as int] as int], names[here as int]));
            assert forall|i: int| #![trigger after[i]] 0 <= i < after.len() - 1 implies linked(
                edges@,
                after[i],
                after[i + 1],
            ) by {
                if i > 0 {
                    assert(after[i] == before[i - 1]);
                    assert(after[i + 1] == before[i - 1 + 1]);
                } else {
                    assert(after[1] == before[0]);
                }
            }
            assert(after.last() == before.last());
        }
        here = up;
    }
    path
}

/// Walks the prerequisites upward from `from`, looking for `target`.
///
/// Gives a path `from → … → target` if there is one. No skill is looked into twice, and
/// no more of them than the cap allows, so the walk ends on any graph, cyclic or not. A
/// walk looks for its own start in vain.
pub fn prereq_path_to(edges: &[PrereqEdge], from: &str, target: &str) -> (found: Result<
    Option<Vec<String>>,
    ApiError,
>)
    ensures
        found matches Ok(Some(path)) ==> from@ != target@ && path@.len() >= 2 && leads(
            edges@,
            texts(path@),
            from@,
            target@,
        ),
        found matches Ok(None) ==> !too_large(edges@, from@) && (from@ == target@ || !reaches(
            edges@,
            from@,
            target@,
        )),
        found matches Err(e) ==> too_large(edges@, from@) && is_too_large(e),
{
    let mut seen: Vec<String> = vec![from.to_owned()];
    let mut parent: Vec<usize> = vec![0];
    let mut frontier: Vec<usize> = vec![0];
    let mut expansions: usize = 0;
    proof {
        assert(texts(seen@) =~= seq![from@]);
        assert(frontier@[0] == 0);
    }
    while frontier.len() > 0
        invariant
            is_trail(edges@, texts(seen@), parent@),
            all_different(texts(seen@)),
            texts(seen@)[0] == from@,
            from@ != target@ ==> !texts(seen@).contains(target@),
            forall|k: int| 0 <= k < frontier@.len() ==> (#[trigger] frontier@[k]) < seen@.len(),
            forall|i: int|
                0 <= i < seen@.len() ==> is_settled(
                    edges@,
                    texts(seen@),
                    #[trigger] texts(seen@)[i],
                ) || waits(frontier@, i),
            expansions + frontier@.len() == seen@.len(),
            expansions <= MAX_PREREQ_WALK,
        decreases MAX_PREREQ_WALK - expansions,
    {
        let ghost frontier_before = frontier@;
        let current: usize = match frontier.pop() {
            Some(current) => current,
            None => {
                return Ok(None);
            },
        };
        proof {
            assert(frontier_before.last() == current);
            assert(frontier@ =~= frontier_before.drop_last());
            assert(frontier_before[frontier_before.len() - 1] == current);
        }
        expansions += 1;
        if expansions > MAX_PREREQ_WALK {
            proof {
                let names = texts(seen@);
                assert forall|i: int| 0 <= i < names.len() implies reaches(
                    edges@,
                    from@,
                    #[trigger] names[i],
                ) by {
                    trail_is_reached(edges@, names, parent@, i);
                }
                assert(all_reached(edges@, from@, names));
                assert(too_large(edges@, from@));
            }
            return Err(
                ApiError::bad_request(
                    "the prerequisite graph is too large or already cyclic to check safely",
                ),
            );
        }
        proof {
            assert forall|i: int| 0 <= i < seen@.len() && i != current implies is_settled(
                edges@,
                texts(seen@),
                #[trigger] texts(seen@)[i],
            ) || waits(frontier@, i) by {
                if waits(frontier_before, i) {
                    let k = choose|k: int|
                        0 <= k < frontier_before.len() && (#[trigger] frontier_before[k]) as int == i;
                    assert(frontier@[k] as int == i);
                }
            }
        }
        let mut k: usize = 0;
        while k < edges.len()
            invariant
                k <= edges@.len(),
                current < seen@.len(),
                is_trail(edges@, texts(seen@), parent@),
                all_different(texts(seen@)),
                texts(seen@)[0] == from@,
                from@ != target@ ==> !texts(seen@).contains(target@),
                forall|j: int| 0 <= j < frontier@.len() ==> (#[trigger] frontier@[j]) < seen@.len(),
                forall|i: int|
                    0 <= i < seen@.len() && i != current ==> is_settled(
                        edges@,
                        texts(seen@),
                        #[trigger] texts(seen@)[i],
                    ) || waits(frontier@, i),
                forall|j: int|
                    0 <= j < k && (#[trigger] edges@[j]).skill_id@ == texts(seen@)[current as int]
                        ==> texts(seen@).contains(edges@[j].prereq_id@),
                expansions + frontier@.len() == seen@.len(),
            decreases edges@.len() - k,
        {
            let edge: &PrereqEdge = &edges[k];
            let ghost names = texts(seen@);
            if same_text(edge.skill_id.as_str(), seen[current].as_str()) && !seen_before(
                &seen,
                edge.prereq_id.as_str(),
            ) {
                let ghost old_frontier = frontier@;
                let ghost old_parent = parent@;
                seen.push(edge.prereq_id.clone());
                parent.push(current);
                proof {
                    let more = texts(seen@);
                    assert(more =~= names.push(edge.prereq_id@));
                    assert(edges@[k as int].skill_id@ == names[current as int]);
                    assert(linked(edges@, names[current as int], edge.prereq_id@));
                    assert forall|i: int|
                        #![trigger parent@[i]]
                        1 <= i < more.len() implies parent@[i] < i && linked(
                        edges@,
                        more[parent@[i] as int],
                        more[i],
                    ) by {
                        if i < names.len() {
                            assert(parent@[i] == old_parent[i]);
                            assert(linked(edges@, names[old_parent[i] as int], names[i]));
                        }
                    }
                    assert forall|i: int, j: int|
                        #![trigger more[i], more[j]]
                        0 <= i < j < more.len() implies more[i] != more[j] by {
                        if j < names.len() {
                            assert(names[i] != names[j]);
                        } else {
                            assert(more[i] == names[i]);
                            assert(names.contains(names[i]));
                        }
                    }
                }
                if same_text(edge.prereq_id.as_str(), target) {
                    let at: usize = seen.len() - 1;
                    proof {
                        assert(texts(seen@)[at as int] == target@);
                        assert(from@ != target@) by {
                            assert(names.contains(names[0]));
                        }
                    }
                    let path: Vec<String> = path_back(edges, &seen, &parent, at);
                    return Ok(Some(path));
                }
                let fresh: usize = seen.len() - 1;
                frontier.push(fresh);
                proof {
                    let more = texts(seen@);
                    assert(frontier@[old_frontier.len() as int] == fresh);
                    assert forall|i: int| 0 <= i < seen@.len() && i != current implies is_settled(
                        edges@,
                        more,
                        #[trigger] more[i],
                    ) || waits(frontier@, i) by {
                        if i < names.len() {
                            assert(more[i] == names[i]);
                            if waits(old_frontier, i) {
                                let j = choose|j: int|
                                    0 <= j < old_frontier.len() && (#[trigger] old_frontier[j]) as int == i;
                                assert(frontier@[j] as int == i);
                            } else {
                                assert(is_settled(edges@, names, names[i]));
                                settled_grows(edges@, names, edge.prereq_id@, names[i]);
                            }
                        }
                    }
                    assert forall|j: int|
                        0 <= j < k && (#[trigger] edges@[j]).skill_id@
                            == more[current as int] implies more.contains(
                        edges@[j].prereq_id@,
                    ) by {
                        assert(more[current as int] == names[current as int]);
                        contains_grows(names, edge.prereq_id@, edges@[j].prereq_id@);
                    }
                    assert(more[names.len() as int] == edge.prereq_id@);
                    assert(more.contains(edge.prereq_id@));
                    if from@ != target@ && more.contains(target@) {
                        let j = choose|j: int| 0 <= j < more.len() && more[j] == target@;
                        if j < names.len() {
                            assert(names[j] == target@);
                        }
                    }
                }
            }
            k += 1;
        }
        proof {
            let names = texts(seen@);
            assert(is_settled(edges@, names, names[current as int])) by {
                assert forall|p: Seq<char>| #[trigger] linked(
                    edges@,
                    names[current as int],
                    p,
                ) implies names.contains(p) by {
                    let j = choose|j: int|
                        0 <= j < edges@.len() && (#[trigger] edges@[j]).skill_id@
                            == names[current as int] && edges@[j].prereq_id@ == p;
                    assert(edges@[j].skill_id@ == names[current as int]);
                }
            }
        }
    }
    proof {
        let names = texts(seen@);
        assert(names.contains(from@)) by {
            assert(names[0] == from@);
        }
        assert forall|i: int| 0 <= i < names.len() implies is_settled(
            edges@,
            names,
            #[trigger] names[i],
        ) by {
            assert(!waits(frontier@, i));
        }
        if too_large(edges@, from@) {
            let far = choose|far: Seq<Seq<char>>|
                {
                    &&& #[trigger] all_different(far)
                    &&& all_reached(edges@, from@, far)
                    &&& far.len() > MAX_PREREQ_WALK
                };
            assert forall|i: int| 0 <= i < far.len() implies names.contains(#[trigger] far[i]) by {
                assert(reaches(edges@, from@, far[i]));
                let path = choose|path: Seq<Seq<char>>| leads(edges@, path, from@, far[i]);
                walk_stays(edges@, names, path, path.len() - 1);
            }
            no_more_than(far, names);
        }
        if from@ != target@ && reaches(edges@, from@, target@) {
            let path = choose|path: Seq<Seq<char>>| leads(edges@, path, from@, target@);
            walk_stays(edges@, names, path, path.len() - 1);
        }
    }
    Ok(None)
}

proof fn contains_grows(names: Seq<Seq<char>>, fresh: Seq<char>, name: Seq<char>)
    requires
        names.contains(name),
    ensures
        names.push(fresh).contains(name),
{
    let i = choose|i: int| 0 <= i < names.len() && names[i] == name;
    assert(names.push(fresh)[i] == name);
}

proof fn settled_grows(
    edges: Seq<PrereqEdge>,
    names: Seq<Seq<char>>,
    fresh: Seq<char>,
    name: Seq<char>,
)
    requires
        is_settled(edges, names, name),
    ensures
        is_settled(edges, names.push(fresh), name),
{
    assert forall|p: Seq<char>| #[trigger] linked(edges, name, p) implies names.push(
        fresh,
    ).contains(p) by {
        contains_grows(names, fresh, p);
    }
}

/// The first row of a skill id.
pub open spec fn row_of_id(skills: Seq<Skill>, id: Seq<char>) -> Option<Skill>
    decreases skills.len(),
{
    if skills.len() == 0 {
        None
    } else {
        match row_of_id(skills.drop_last(), id) {
            Some(skill) => Some(skill),
            None => if skills.last().id@ == id {
                Some(skills.last())
            } else {
                None
            },
        }
    }
}

/// How a skill id is shown: by the name on its row, or by itself where it has none.
pub open spec fn name_of(skills: Seq<Skill>, id: Seq<char>) -> Seq<char> {
    match row_of_id(skills, id) {
        Some(skill) => skill.name@,
        None => id,
    }
}

fn find_row<'a>(skills: &'a [Skill], id: &str) -> (row: Option<&'a Skill>)
    ensures
        (match row {
            Some(skill) => Some(*skill),
            None => None,
        }) == row_of_id(skills@, id@),
{
    let mut i: usize = 0;
    assert(skills@.take(0) =~= seq![]);
    while i < skills.len()
        invariant
            i <= skills@.len(),
            row_of_id(skills@.take(i as int), id@) is None,
        decreases skills@.len() - i,
    {
        proof {
            assert(skills@.take(i + 1).drop_last() =~= skills@.take(i as int));
            assert(skills@.take(i + 1).last() == skills@[i as int]);
        }
        if same_text(skills[i].id.as_str(), id) {
            proof {
                row_stands(skills@, id@, i + 1);
            }
            return Some(&skills[i]);
        }
        i += 1;
    }
    assert(skills@.take(i as int) =~= skills@);
    None
}

proof fn row_stands(skills: Seq<Skill>, id: Seq<char>, upto: int)
    requires
        0 <= upto <= skills.len(),
        row_of_id(skills.take(upto), id) is Some,
    ensures
        row_of_id(skills, id) == row_of_id(skills.take(upto), id),
    decreases skills.len(),
{
    if upto < skills.len() {
        assert(skills.drop_last().take(upto) =~= skills.take(upto));
        row_stands(skills.drop_last(), id, upto);
    } else {
        assert(skills.take(upto) =~= skills);
    }
}

/// A path of ids, shown by name.
pub fn name_path(skills: &[Skill], ids: &[String]) -> (names: Vec<String>)
    ensures
        texts(names@) == texts(ids@).map_values(|id: Seq<char>| name_of(skills@, id)),
{
    let mut names: Vec<String> = Vec::new();
    while names.len() < ids.len()
        invariant
            names@.len() <= ids@.len(),
            forall|i: int|
                0 <= i < names@.len() ==> (#[trigger] names@[i])@ == name_of(skills@, ids@[i]@),
        decreases ids@.len() - names@.len(),
    {
        let id: &String = &ids[names.len()];
        let name: String = match find_row(skills, id.as_str()) {
            Some(skill) => skill.name.clone(),
            None => id.clone(),
        };
        names.push(name);
    }
    assert(texts(names@) =~= texts(ids@).map_values(|id: Seq<char>| name_of(skills@, id)));
    names
}

/// Whether two skills can be linked at all: two different ones, on record, in one
/// subject.
pub open spec fn may_be_linked(skills: Seq<Skill>, skill: Seq<char>, prereq: Seq<char>) -> bool {
    &&& skill != prereq
    &&& row_of_id(skills, skill) is Some
    &&& row_of_id(skills, prereq) is Some
    &&& row_of_id(skills, skill)->0.subject_id@ == row_of_id(skills, prereq)->0.subject_id@
}

/// Why two skills cannot be linked.
pub open spec fn link_refusal(skills: Seq<Skill>, skill: Seq<char>, prereq: Seq<char>) -> Seq<
    char,
> {
    if skill == prereq {
        "a skill cannot be its own prerequisite"@
    } else if row_of_id(skills, skill) is None {
        "skill "@ + skill + " does not exist"@
    } else if row_of_id(skills, prereq) is None {
        "skill "@ + prereq + " does not exist"@
    } else {
        "a prerequisite must belong to the same subject"@
    }
}

/// How a cycle is refused: with the path that the edge would close, shown by name.
pub open spec fn cycle_refusal(skills: Seq<Skill>, path: Seq<Seq<char>>) -> Seq<char> {
    "adding this prerequisite would close a cycle: "@ + joined(
        path.map_values(|id: Seq<char>| name_of(skills, id)),
        " → "@,
    )
}

/// Whether a refusal names a path that an edge would close into a cycle.
pub open spec fn names_cycle(
    error: ApiError,
    skills: Seq<Skill>,
    edges: Seq<PrereqEdge>,
    from: Seq<char>,
    target: Seq<char>,
) -> bool {
    exists|path: Seq<Seq<char>>| #[trigger]
        leads(edges, path, from, target) && (error matches ApiError::BadRequest(why) && why@
            == cycle_refusal(skills, path))
}

fn missing(id: &str) -> (error: ApiError)
    ensures
        error matches ApiError::BadRequest(why) && why@ == "skill "@ + id@ + " does not exist"@,
{
    let mut why: String = "skill ".to_owned();
    why.append(id);
    why.append(" does not exist");
    ApiError::BadRequest(why)
}

/// Decides whether `prereq_id` may become a prerequisite of `skill_id`, given every edge
/// and every skill on record, and gives the subject that the edge belongs to.
///
/// The edge would close a cycle exactly when the skill is already a prerequisite of its
/// prerequisite, near or far.
pub fn add_prereq(skill_id: &str, prereq_id: &str, skills: &[Skill], edges: &[PrereqEdge]) -> (added:
    Result<String, ApiError>)
    ensures
        !may_be_linked(skills@, skill_id@, prereq_id@) ==> (added matches Err(ApiError::BadRequest(why))
            && why@ == link_refusal(skills@, skill_id@, prereq_id@)),
        // An edge that is admitted closes no cycle, and is between two skills.
        added is Ok ==> skill_id@ != prereq_id@,
        added is Ok ==> forall|edge: PrereqEdge|
            edge.skill_id@ == skill_id@ && edge.prereq_id@ == prereq_id@ && !cyclic(edges@)
                ==> !cyclic(#[trigger] edges@.push(edge)),
        added matches Ok(subject) ==> may_be_linked(skills@, skill_id@, prereq_id@) && subject@
            == row_of_id(skills@, skill_id@)->0.subject_id@ && !reaches(
            edges@,
            prereq_id@,
            skill_id@,
        ),
        may_be_linked(skills@, skill_id@, prereq_id@) && !reaches(edges@, prereq_id@, skill_id@)
            ==> match added {
            Ok(_) => !too_large(edges@, prereq_id@),
            Err(e) => too_large(edges@, prereq_id@) && is_too_large(e),
        },
        may_be_linked(skills@, skill_id@, prereq_id@) && reaches(edges@, prereq_id@, skill_id@) ==> (
        added matches Err(e) && (too_large(edges@, prereq_id@) && is_too_large(e)
            || names_cycle(e, skills@, edges@, prereq_id@, skill_id@))),
{
    if same_text(skill_id, prereq_id) {
        return Err(ApiError::bad_request("a skill cannot be its own prerequisite"));
    }
    let skill: &Skill = match find_row(skills, skill_id) {
        Some(skill) => skill,
        None => {
            return Err(missing(skill_id));
        },
    };
    let prereq: &Skill = match find_row(skills, prereq_id) {
        Some(prereq) => prereq,
        None => {
            return Err(missing(prereq_id));
        },
    };
    if !same_text(prereq.subject_id.as_str(), skill.subject_id.as_str()) {
        return Err(ApiError::bad_request("a prerequisite must belong to the same subject"));
    }
    match prereq_path_to(edges, prereq_id, skill_id) {
        Err(e) => Err(e),
        Ok(Some(path)) => {
            let named: Vec<String> = name_path(skills, path.as_slice());
            let shown: String = join(named.as_slice(), " → ");
            let mut why: String = "adding this prerequisite would close a cycle: ".to_owned();
            why.append(shown.as_str());
            assert(leads(edges@, texts(path@), prereq_id@, skill_id@));
            assert(why@ == cycle_refusal(skills@, texts(path@)));
            Err(ApiError::BadRequest(why))
        },
        Ok(None) => {
            proof {
                assert forall|edge: PrereqEdge|
                    edge.skill_id@ == skill_id@ && edge.prereq_id@ == prereq_id@ && !cyclic(
                        edges@,
                    ) implies !cyclic(#[trigger] edges@.push(edge)) by {
                    admitted_edges_keep_the_graph_acyclic(edges@, edge);
                }
            }
            Ok(skill.subject_id.clone())
        },
    }
}

/// An edge that is admitted leaves the graph acyclic; one that is not would have closed a
/// cycle.
pub proof fn admitted_edges_keep_the_graph_acyclic(edges: Seq<PrereqEdge>, edge: PrereqEdge)
    requires
        !cyclic(edges),
    ensures
        cyclic(edges.push(edge)) <==> reaches(edges, edge.prereq_id@, edge.skill_id@),
{
    edge_closes_cycle_iff(edges, edge);
}

/// The row of an id is the first that has it.
pub proof fn the_first_row_has_the_id(skills: Seq<Skill>, id: Seq<char>, at: int)
    requires
        0 <= at <= skills.len(),
        forall|i: int| 0 <= i < at ==> (#[trigger] skills[i]).id@ != id,
        at < skills.len() ==> skills[at].id@ == id,
    ensures
        at < skills.len() ==> row_of_id(skills, id) == Some(skills[at]) && name_of(skills, id)
            == skills[at].name@,
        at == skills.len() ==> row_of_id(skills, id) is None && name_of(skills, id) == id,
    decreases skills.len(),
{
    if skills.len() > 0 {
        let init = skills.drop_last();
        if at == skills.len() {
            assert(skills[skills.len() - 1].id@ != id);
            assert forall|i: int| 0 <= i < init.len() implies (#[trigger] init[i]).id@ != id by {
                assert(skills[i].id@ != id);
            }
            the_first_row_has_the_id(init, id, at - 1);
        } else {
            assert forall|i: int| 0 <= i < at implies (#[trigger] init[i]).id@ != id by {
                assert(skills[i].id@ != id);
            }
            the_first_row_has_the_id(init, id, at);
        }
    }
}

/// A link joins two different skills on record, in one subject; the reason why it does not
/// names the first thing that is wrong.
pub proof fn a_link_joins_two_skills_of_one_subject(
    skills: Seq<Skill>,
    a: Seq<char>,
    b: Seq<char>,
    i: int,
    j: int,
)
    requires
        0 <= i <= skills.len(),
        0 <= j <= skills.len(),
        forall|k: int| 0 <= k < i ==> (#[trigger] skills[k]).id@ != a,
        forall|k: int| 0 <= k < j ==> (#[trigger] skills[k]).id@ != b,
        i < skills.len() ==> skills[i].id@ == a,
        j < skills.len() ==> skills[j].id@ == b,
    ensures
        may_be_linked(skills, a, b) <==> a != b && i < skills.len() && j < skills.len()
            && skills[i].subject_id@ == skills[j].subject_id@,
        a == b ==> link_refusal(skills, a, b) == "a skill cannot be its own prerequisite"@,
        a != b && i == skills.len() ==> link_refusal(skills, a, b) == "skill "@ + a
            + " does not exist"@,
        a != b && i < skills.len() && j == skills.len() ==> link_refusal(skills, a, b) == "skill "@
            + b + " does not exist"@,
        a != b && i < skills.len() && j < skills.len() ==> link_refusal(skills, a, b)
            == "a prerequisite must belong to the same subject"@,
{
    the_first_row_has_the_id(skills, a, i);
    the_first_row_has_the_id(skills, b, j);
}

/// A graph is too large to look into exactly where more than ten thousand different skills can
/// be reached.
pub proof fn ten_thousand_skills_are_looked_into(
    edges: Seq<PrereqEdge>,
    from: Seq<char>,
    names: Seq<Seq<char>>,
)
    requires
        names.no_duplicates(),
        forall|i: int| 0 <= i < names.len() ==> reaches(edges, from, #[trigger] names[i]),
    ensures
        names.len() > 10_000 ==> too_large(edges, from),
        (forall|name: Seq<char>| #[trigger] reaches(edges, from, name) ==> names.contains(name))
            && names.len() <= 10_000 ==> !too_large(edges, from),
{
    assert(all_different(names));
    assert(all_reached(edges, from, names));
    if (forall|name: Seq<char>| #[trigger] reaches(edges, from, name) ==> names.contains(name))
        && names.len() <= 10_000 && too_large(edges, from) {
        let far = choose|far: Seq<Seq<char>>|
            {
                &&& #[trigger] all_different(far)
                &&& all_reached(edges, from, far)
                &&& far.len() > MAX_PREREQ_WALK
            };
        assert forall|i: int| 0 <= i < far.len() implies names.contains(#[trigger] far[i]) by {
            assert(reaches(edges, from, far[i]));
        }
        no_more_than(far, names);
    }
}

/// A refusal says what is wrong: the path that the edge would close, by the names of its skills,
/// or that there are too many to look into.
pub proof fn a_refused_edge_says_why(
    error: ApiError,
    skills: Seq<Skill>,
    edges: Seq<PrereqEdge>,
    from: Seq<char>,
    target: Seq<char>,
)
    ensures
        is_too_large(error) <==> (error matches ApiError::BadRequest(why) && why@
            == "the prerequisite graph is too large or already cyclic to check safely"@),
        names_cycle(error, skills, edges, from, target) ==> exists|
            path: Seq<Seq<char>>,
            names: Seq<Seq<char>>,
        |
            {
                &&& #[trigger] leads(edges, path, from, target)
                &&& names.len() == path.len()
                &&& error is BadRequest
                &&& error->BadRequest_0@ == "adding this prerequisite would close a cycle: "@
                    + #[trigger] joined(names, " → "@)
                &&& forall|i: int|
                    0 <= i < names.len() ==> #[trigger] names[i] == name_of(skills, path[i])
            },
{
    if names_cycle(error, skills, edges, from, target) {
        let path = choose|path: Seq<Seq<char>>| #[trigger]
            leads(edges, path, from, target) && (error matches ApiError::BadRequest(why) && why@
                == cycle_refusal(skills, path));
        let names = path.map_values(|id: Seq<char>| name_of(skills, id));
        assert(leads(edges, path, from, target));
        assert(error->BadRequest_0@ == "adding this prerequisite would close a cycle: "@ + joined(
            names,
            " → "@,
        ));
    }
}

} // verus!
