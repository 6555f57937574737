//! The prerequisite graph and the cycle check that keeps it answerable.
//!
//! An edge means "`prereq_id` must be mastered before `skill_id`". Everything asked of
//! the graph is a walk over prerequisites, so the graph has to stay acyclic. The same
//! cycle is reported for the same set of edges, in whatever order the edges come.

use crate::models::PrereqEdge;
use crate::text::{
    is_before, join, joined, precedes, precedes_irreflexive, precedes_total, precedes_transitive,
    same_text, texts,
};
use vstd::prelude::*;

verus! {

/// A prerequisite cycle, as the path that closes it: the first node is repeated at the
/// end.
#[derive(Clone, Debug)]
pub struct Cycle {
    pub path: Vec<String>,
}

impl Cycle {
    /// The path rendered through a label lookup, for a message a person can act on. An
    /// id that resolves to nothing falls back to the id.
    pub fn labelled<F: Fn(&str) -> Option<String>>(&self, label: F) -> (text: String)
        requires
            forall|id: &str| call_requires(label, (id,)),
        ensures
            exists|names: Seq<Seq<char>>|
                {
                    &&& text@ == #[trigger] joined(names, " → "@)
                    &&& names.len() == self.path@.len()
                    &&& forall|i: int|
                        0 <= i < names.len() ==> shown_as(label, self.path@[i]@, #[trigger] names[i])
                },
    {
        let mut names: Vec<String> = Vec::new();
        while names.len() < self.path.len()
            invariant
                forall|id: &str| call_requires(label, (id,)),
                names@.len() <= self.path@.len(),
                forall|i: int|
                    0 <= i < names@.len() ==> shown_as(
                        label,
                        self.path@[i]@,
                        #[trigger] names@[i]@,
                    ),
            decreases self.path@.len() - names@.len(),
        {
            let id: &String = &self.path[names.len()];
            let id_text: &str = id.as_str();
            let looked_up: Option<String> = label(id_text);
            assert(call_ensures(label, (id_text,), looked_up));
            let name: String = match looked_up {
                Some(found) => found,
                None => id.clone(),
            };
            names.push(name);
        }
        proof {
            let shown = texts(names@);
            assert forall|i: int| 0 <= i < shown.len() implies shown_as(
                label,
                self.path@[i]@,
                #[trigger] shown[i],
            ) by {
                assert(shown_as(label, self.path@[i]@, names@[i]@));
            }
        }
        join(names.as_slice(), " → ")
    }

    /// The path as text: `a → b → a`.
    pub fn to_string(&self) -> (text: String)
        ensures
            text@ == joined(texts(self.path@), " → "@),
    {
        join(self.path.as_slice(), " → ")
    }
}

/// Whether `name` is how a label lookup may show `id`: what the lookup gave, or the id
/// where it gave nothing.
pub open spec fn shown_as<F: Fn(&str) -> Option<String>>(
    label: F,
    id: Seq<char>,
    name: Seq<char>,
) -> bool {
    exists|key: &str, found: Option<String>|
        {
            &&& key@ == id
            &&& #[trigger] call_ensures(label, (key,), found)
            &&& name == match found {
                Some(text) => text@,
                None => id,
            }
        }
}

/// Whether `edges` says that `prereq` must be mastered before `skill`.
pub open spec fn linked(edges: Seq<PrereqEdge>, skill: Seq<char>, prereq: Seq<char>) -> bool {
    exists|i: int|
        0 <= i < edges.len() && (#[trigger] edges[i]).skill_id@ == skill && edges[i].prereq_id@
            == prereq
}

/// A walk along edges that comes back to where it started.
pub open spec fn is_cycle(edges: Seq<PrereqEdge>, path: Seq<Seq<char>>) -> bool {
    &&& path.len() >= 2
    &&& path[0] == path.last()
    &&& forall|i: int|
        #![trigger path[i]]
        0 <= i < path.len() - 1 ==> linked(edges, path[i], path[i + 1])
}

/// Whether some walk along the edges comes back to where it started.
pub open spec fn cyclic(edges: Seq<PrereqEdge>) -> bool {
    exists|path: Seq<Seq<char>>| is_cycle(edges, path)
}

/// Each name comes before every later one.
pub open spec fn strictly_sorted(names: Seq<Seq<char>>) -> bool {
    forall|i: int, j: int|
        #![trigger names[i], names[j]]
        0 <= i < j < names.len() ==> precedes(names[i], names[j])
}

/// How many leading names come before `name`.
pub open spec fn slot(names: Seq<Seq<char>>, name: Seq<char>) -> nat
    decreases names.len(),
{
    if names.len() == 0 || !precedes(names[0], name) {
        0
    } else {
        1 + slot(names.skip(1), name)
    }
}

/// `names` with `name` put where it belongs, unless it is there already.
pub open spec fn with_name(names: Seq<Seq<char>>, name: Seq<char>) -> Seq<Seq<char>> {
    let at = slot(names, name) as int;
    if at < names.len() && names[at] == name {
        names
    } else {
        names.insert(at, name)
    }
}

/// The skills that have a prerequisite, in order.
pub open spec fn skills_of(edges: Seq<PrereqEdge>) -> Seq<Seq<char>>
    decreases edges.len(),
{
    if edges.len() == 0 {
        seq![]
    } else {
        with_name(skills_of(edges.drop_last()), edges.last().skill_id@)
    }
}

/// The prerequisites of `skill`, in order.
pub open spec fn prereqs_of(edges: Seq<PrereqEdge>, skill: Seq<char>) -> Seq<Seq<char>>
    decreases edges.len(),
{
    if edges.len() == 0 {
        seq![]
    } else if edges.last().skill_id@ == skill {
        with_name(prereqs_of(edges.drop_last(), skill), edges.last().prereq_id@)
    } else {
        prereqs_of(edges.drop_last(), skill)
    }
}

/// The names before the place of a name come before it; the one at that place does not.
pub proof fn slot_splits(names: Seq<Seq<char>>, name: Seq<char>)
    ensures
        slot(names, name) <= names.len(),
        forall|i: int| 0 <= i < slot(names, name) ==> precedes(#[trigger] names[i], name),
        slot(names, name) < names.len() ==> !precedes(names[slot(names, name) as int], name),
    decreases names.len(),
{
    if names.len() > 0 && precedes(names[0], name) {
        let rest = names.skip(1);
        slot_splits(rest, name);
        assert forall|i: int| 0 <= i < slot(names, name) implies precedes(
            #[trigger] names[i],
            name,
        ) by {
            if i > 0 {
                assert(rest[i - 1] == names[i]);
            }
        }
    }
}

/// Putting a name where it belongs keeps the order, and adds that name alone.
pub proof fn with_name_sorts(names: Seq<Seq<char>>, name: Seq<char>)
    requires
        strictly_sorted(names),
    ensures
        strictly_sorted(with_name(names, name)),
        forall|x: Seq<char>| #[trigger]
            with_name(names, name).contains(x) <==> names.contains(x) || x == name,
{
    slot_splits(names, name);
    let at = slot(names, name) as int;
    if at < names.len() && names[at] == name {
    } else {
        let out = names.insert(at, name);
        assert forall|j: int| at <= j < names.len() implies precedes(
            name,
            #[trigger] names[j],
        ) by {
            precedes_total(name, names[at]);
            if j > at {
                precedes_transitive(name, names[at], names[j]);
            }
        }
        assert forall|i: int, j: int|
            #![trigger out[i], out[j]]
            0 <= i < j < out.len() implies precedes(out[i], out[j]) by {
            let a = if i < at {
                i
            } else {
                i - 1
            };
            let b = if j < at {
                j
            } else {
                j - 1
            };
            if i != at && j != at {
                assert(out[i] == names[a] && out[j] == names[b]);
            } else if i == at {
                assert(out[j] == names[b]);
            } else {
                assert(out[i] == names[a]);
            }
        }
        assert forall|x: Seq<char>| #[trigger] out.contains(x) <==> names.contains(x) || x
            == name by {
            if out.contains(x) {
                let k = choose|k: int| 0 <= k < out.len() && out[k] == x;
                if k < at {
                    assert(names[k] == x);
                } else if k > at {
                    assert(names[k - 1] == x);
                }
            }
            if names.contains(x) {
                let k = choose|k: int| 0 <= k < names.len() && names[k] == x;
                if k < at {
                    assert(out[k] == x);
                } else {
                    assert(out[k + 1] == x);
                }
            }
            if x == name {
                assert(out[at] == x);
            }
        }
    }
}

/// A set of names has one order.
pub proof fn sorted_is_unique(a: Seq<Seq<char>>, b: Seq<Seq<char>>)
    requires
        strictly_sorted(a),
        strictly_sorted(b),
        forall|x: Seq<char>| #[trigger] a.contains(x) <==> b.contains(x),
    ensures
        a == b,
    decreases a.len(),
{
    if a.len() == 0 {
        if b.len() > 0 {
            assert(b.contains(b[0]));
            assert(a.contains(b[0]));
        }
        assert(a =~= b);
    } else {
        assert(a.contains(a.last()));
        assert(b.contains(a.last()));
        assert(b.contains(b.last()));
        assert(a.contains(b.last()));
        let i = choose|i: int| 0 <= i < a.len() && a[i] == b.last();
        let j = choose|j: int| 0 <= j < b.len() && b[j] == a.last();
        if i < a.len() - 1 && j < b.len() - 1 {
            assert(precedes(a[i], a.last()));
            assert(precedes(b[j], b.last()));
            precedes_transitive(a.last(), b.last(), a.last());
            precedes_irreflexive(a.last());
        }
        assert(a.last() == b.last());
        let a0 = a.drop_last();
        let b0 = b.drop_last();
        assert forall|x: Seq<char>| #[trigger] a0.contains(x) <==> b0.contains(x) by {
            precedes_irreflexive(x);
            if a0.contains(x) {
                let k = choose|k: int| 0 <= k < a0.len() && a0[k] == x;
                assert(a[k] == x);
                assert(precedes(a[k], a.last()));
                assert(a.contains(x));
                assert(b.contains(x));
                let m = choose|m: int| 0 <= m < b.len() && b[m] == x;
                assert(b0[m] == x);
            }
            if b0.contains(x) {
                let k = choose|k: int| 0 <= k < b0.len() && b0[k] == x;
                assert(b[k] == x);
                assert(precedes(b[k], b.last()));
                assert(b.contains(x));
                assert(a.contains(x));
                let m = choose|m: int| 0 <= m < a.len() && a[m] == x;
                assert(a0[m] == x);
            }
        }
        sorted_is_unique(a0, b0);
        assert(a =~= a0.push(a.last()));
        assert(b =~= b0.push(b.last()));
    }
}

proof fn linked_by_last(edges: Seq<PrereqEdge>, skill: Seq<char>, prereq: Seq<char>)
    requires
        edges.len() > 0,
    ensures
        linked(edges, skill, prereq) <==> linked(edges.drop_last(), skill, prereq) || (
        edges.last().skill_id@ == skill && edges.last().prereq_id@ == prereq),
{
    let init = edges.drop_last();
    if linked(edges, skill, prereq) {
        let i = choose|i: int|
            0 <= i < edges.len() && (#[trigger] edges[i]).skill_id@ == skill && edges[i].prereq_id@
                == prereq;
        if i < init.len() {
            assert(init[i] == edges[i]);
        }
    }
    if linked(init, skill, prereq) {
        let i = choose|i: int|
            0 <= i < init.len() && (#[trigger] init[i]).skill_id@ == skill && init[i].prereq_id@
                == prereq;
        assert(edges[i] == init[i]);
    }
    if edges.last().skill_id@ == skill && edges.last().prereq_id@ == prereq {
        assert(edges[edges.len() - 1] == edges.last());
    }
}

/// The prerequisites of a skill come in order, and are exactly those an edge names.
pub proof fn prereqs_are_linked(edges: Seq<PrereqEdge>, skill: Seq<char>)
    ensures
        strictly_sorted(prereqs_of(edges, skill)),
        forall|p: Seq<char>| #[trigger]
            prereqs_of(edges, skill).contains(p) <==> linked(edges, skill, p),
    decreases edges.len(),
{
    if edges.len() > 0 {
        let init = edges.drop_last();
        prereqs_are_linked(init, skill);
        if edges.last().skill_id@ == skill {
            with_name_sorts(prereqs_of(init, skill), edges.last().prereq_id@);
        }
        assert forall|p: Seq<char>| #[trigger]
            prereqs_of(edges, skill).contains(p) <==> linked(edges, skill, p) by {
            linked_by_last(edges, skill, p);
            assert(prereqs_of(init, skill).contains(p) <==> linked(init, skill, p));
        }
    }
}

/// The skills that have a prerequisite come in order, and are exactly those some edge
/// starts from.
pub proof fn skills_are_linked(edges: Seq<PrereqEdge>)
    ensures
        strictly_sorted(skills_of(edges)),
        forall|s: Seq<char>| #[trigger]
            skills_of(edges).contains(s) <==> exists|p: Seq<char>| linked(edges, s, p),
    decreases edges.len(),
{
    if edges.len() > 0 {
        let init = edges.drop_last();
        let last = edges.last();
        skills_are_linked(init);
        with_name_sorts(skills_of(init), last.skill_id@);
        assert forall|s: Seq<char>| #[trigger]
            skills_of(edges).contains(s) <==> exists|p: Seq<char>| linked(edges, s, p) by {
            assert(skills_of(init).contains(s) <==> exists|p: Seq<char>| linked(init, s, p));
            if skills_of(edges).contains(s) {
                if s == last.skill_id@ {
                    linked_by_last(edges, s, last.prereq_id@);
                    assert(linked(edges, s, last.prereq_id@));
                } else {
                    let p = choose|p: Seq<char>| linked(init, s, p);
                    linked_by_last(edges, s, p);
                    assert(linked(edges, s, p));
                }
            }
            if exists|p: Seq<char>| linked(edges, s, p) {
                let p = choose|p: Seq<char>| linked(edges, s, p);
                linked_by_last(edges, s, p);
                if linked(init, s, p) {
                    assert(skills_of(init).contains(s));
                }
            }
        }
    } else {
        assert forall|s: Seq<char>| #[trigger]
            skills_of(edges).contains(s) <==> exists|p: Seq<char>| linked(edges, s, p) by {
        }
    }
}

/// The skills of a list of rows.
pub open spec fn row_names(rows: Seq<(String, Vec<String>)>) -> Seq<Seq<char>> {
    rows.map_values(|row: (String, Vec<String>)| row.0@)
}

/// Where `name` belongs among sorted names.
pub(crate) fn slot_of(names: &Vec<String>, name: &str) -> (at: usize)
    ensures
        at == slot(texts(names@), name@),
{
    let mut i: usize = 0;
    let ghost all = texts(names@);
    assert(all.skip(0) =~= all);
    while i < names.len() && is_before(names[i].as_str(), name)
        invariant
            i <= names@.len(),
            all == texts(names@),
            slot(all, name@) == i + slot(all.skip(i as int), name@),
        decreases names@.len() - i,
    {
        assert(all.skip(i as int)[0] == names@[i as int]@);
        assert(all.skip(i as int).skip(1) =~= all.skip(i + 1));
        i += 1;
    }
    assert(i < names@.len() ==> all.skip(i as int)[0] == names@[i as int]@);
    i
}

/// Puts a name where it belongs, unless it is there already.
fn add_name(names: &mut Vec<String>, name: &str)
    ensures
        texts(final(names)@) == with_name(texts(old(names)@), name@),
{
    let at: usize = slot_of(names, name);
    proof {
        slot_splits(texts(names@), name@);
    }
    if at < names.len() && same_text(names[at].as_str(), name) {
        return;
    }
    names.insert(at, name.to_owned());
    assert(texts(names@) =~= texts(old(names)@).insert(at as int, name@));
}

/// `skill → its prerequisites`, sorted and deduplicated: one row per skill that has a
/// prerequisite, in order of skill id.
pub fn adjacency(edges: &[PrereqEdge]) -> (rows: Vec<(String, Vec<String>)>)
    ensures
        row_names(rows@) == skills_of(edges@),
        forall|i: int|
            0 <= i < rows@.len() ==> texts((#[trigger] rows@[i]).1@) == prereqs_of(
                edges@,
                rows@[i].0@,
            ),
{
    let mut keys: Vec<String> = Vec::new();
    let mut lists: Vec<Vec<String>> = Vec::new();
    let mut k: usize = 0;
    assert(edges@.take(0) =~= seq![]);
    assert(texts(keys@) =~= seq![]);
    while k < edges.len()
        invariant
            k <= edges@.len(),
            keys@.len() == lists@.len(),
            texts(keys@) == skills_of(edges@.take(k as int)),
            forall|i: int|
                0 <= i < lists@.len() ==> texts(#[trigger] lists@[i]@) == prereqs_of(
                    edges@.take(k as int),
                    keys@[i]@,
                ),
        decreases edges@.len() - k,
    {
        let edge: &PrereqEdge = &edges[k];
        let ghost before = edges@.take(k as int);
        let ghost after = edges@.take(k + 1);
        let ghost old_keys = keys@;
        let ghost old_lists = lists@;
        assert(after.drop_last() =~= before);
        assert(after.last() == *edge);
        let at: usize = slot_of(&keys, edge.skill_id.as_str());
        proof {
            slot_splits(texts(keys@), edge.skill_id@);
            skills_are_linked(before);
        }
        if at < keys.len() && same_text(keys[at].as_str(), edge.skill_id.as_str()) {
            add_name(&mut lists[at], edge.prereq_id.as_str());
            proof {
                assert(texts(keys@)[at as int] == edge.skill_id@);
                assert forall|i: int| 0 <= i < lists@.len() implies texts(#[trigger] lists@[i]@)
                    == prereqs_of(after, keys@[i]@) by {
                    assert(texts(old_lists[i]@) == prereqs_of(before, keys@[i]@));
                    if i != at {
                        assert(texts(keys@)[i] == keys@[i]@);
                        precedes_irreflexive(edge.skill_id@);
                        if i < at {
                            assert(precedes(texts(keys@)[i], texts(keys@)[at as int]));
                        } else {
                            assert(precedes(texts(keys@)[at as int], texts(keys@)[i]));
                        }
                    }
                }
            }
        } else {
            let mut list: Vec<String> = Vec::new();
            assert(texts(list@) =~= seq![]);
            add_name(&mut list, edge.prereq_id.as_str());
            let ghost fresh = list;
            keys.insert(at, edge.skill_id.clone());
            lists.insert(at, list);
            proof {
                assert(texts(keys@) =~= texts(old_keys).insert(at as int, edge.skill_id@));
                assert(!skills_of(before).contains(edge.skill_id@)) by {
                    with_name_sorts(skills_of(before), edge.skill_id@);
                    let names = skills_of(before);
                    if names.contains(edge.skill_id@) {
                        let j = choose|j: int| 0 <= j < names.len() && names[j] == edge.skill_id@;
                        precedes_irreflexive(edge.skill_id@);
                        if j < at {
                            assert(precedes(names[j], edge.skill_id@));
                        } else {
                            assert(names[at as int] != edge.skill_id@);
                            assert(precedes(names[at as int], names[j]));
                        }
                    }
                }
                assert(prereqs_of(before, edge.skill_id@) =~= seq![]) by {
                    prereqs_are_linked(before, edge.skill_id@);
                    let list0 = prereqs_of(before, edge.skill_id@);
                    if list0.len() > 0 {
                        assert(list0.contains(list0[0]));
                        assert(linked(before, edge.skill_id@, list0[0]));
                    }
                }
                assert forall|i: int| 0 <= i < lists@.len() implies texts(#[trigger] lists@[i]@)
                    == prereqs_of(after, keys@[i]@) by {
                    if i == at {
                        assert(keys@[i]@ == edge.skill_id@);
                        assert(lists@[i] == fresh);
                    } else {
                        let o = if i < at {
                            i
                        } else {
                            i - 1
                        };
                        assert(lists@[i] == old_lists[o]);
                        assert(keys@[i] == old_keys[o]);
                        assert(texts(old_lists[o]@) == prereqs_of(before, old_keys[o]@));
                        assert(texts(old_keys)[o] == old_keys[o]@);
                        assert(skills_of(before).contains(old_keys[o]@));
                    }
                }
            }
        }
        k += 1;
    }
    assert(edges@.take(k as int) =~= edges@);
    let mut rows: Vec<(String, Vec<String>)> = Vec::new();
    let ghost all_keys = keys@;
    let ghost all_lists = lists@;
    while keys.len() > 0
        invariant
            keys@.len() == lists@.len(),
            all_keys.len() == all_lists.len(),
            rows@.len() + keys@.len() == all_keys.len(),
            keys@ == all_keys.skip(rows@.len() as int),
            lists@ == all_lists.skip(rows@.len() as int),
            forall|i: int|
                0 <= i < rows@.len() ==> (#[trigger] rows@[i]).0 == all_keys[i] && rows@[i].1
                    == all_lists[i],
        decreases keys@.len(),
    {
        let key: String = keys.remove(0);
        let list: Vec<String> = lists.remove(0);
        rows.push((key, list));
        assert(keys@ =~= all_keys.skip(rows@.len() as int));
        assert(lists@ =~= all_lists.skip(rows@.len() as int));
    }
    assert(row_names(rows@) =~= texts(all_keys));
    rows
}

/// Where a node stands in the search.
#[derive(Clone, Copy, Debug, PartialEq, Eq, Structural)]
pub enum Mark {
    /// Not reached yet.
    Unseen,
    /// On the current path. Reaching one of these is the cycle.
    Open,
    /// Fully explored; everything below it is known acyclic.
    Done,
}

/// How many nodes were not reached yet.
pub open spec fn unseen(marks: Seq<Mark>) -> nat
    decreases marks.len(),
{
    if marks.len() == 0 {
        0
    } else {
        unseen(marks.drop_last()) + if marks.last() == Mark::Unseen {
            1nat
        } else {
            0nat
        }
    }
}

/// How much there is left to do for the nodes on the path.
pub open spec fn pending(graph: Seq<Seq<int>>, stack: Seq<(int, int)>) -> nat
    decreases stack.len(),
{
    if stack.len() == 0 {
        0
    } else {
        let (node, index) = stack.last();
        pending(graph, stack.drop_last()) + 1 + if index < graph[node].len() {
            (graph[node].len() - index) as nat
        } else {
            0nat
        }
    }
}

/// Reaching a node leaves one fewer to reach.
pub proof fn unseen_after(marks: Seq<Mark>, i: int, mark: Mark)
    requires
        0 <= i < marks.len(),
        mark != Mark::Unseen,
    ensures
        marks[i] == Mark::Unseen ==> unseen(marks.update(i, mark)) == unseen(marks) - 1,
        marks[i] != Mark::Unseen ==> unseen(marks.update(i, mark)) == unseen(marks),
    decreases marks.len(),
{
    let out = marks.update(i, mark);
    if i == marks.len() - 1 {
        assert(out.drop_last() =~= marks.drop_last());
    } else {
        unseen_after(marks.drop_last(), i, mark);
        assert(out.drop_last() =~= marks.drop_last().update(i, mark));
    }
}

/// The nodes of a path.
pub open spec fn nodes_of(stack: Seq<(int, int)>) -> Seq<int> {
    stack.map_values(|frame: (int, int)| frame.0)
}

/// The stretch of the path from `node` on, closed by repeating it.
pub open spec fn closed_at(stack: Seq<(int, int)>, node: int) -> Seq<int> {
    let nodes = nodes_of(stack);
    nodes.skip(nodes.index_of(node)).push(node)
}

/// Depth-first search, roots and prerequisites in order: the first path that runs back
/// into itself. `stack` is the current path, each node with the position of the next
/// prerequisite to look at; a prerequisite that is no node has none itself.
pub open spec fn search(
    graph: Seq<Seq<int>>,
    stack: Seq<(int, int)>,
    marks: Seq<Mark>,
    root: int,
) -> Option<Seq<int>>
    decreases unseen(marks), graph.len() - root, pending(graph, stack),
{
    if stack.len() == 0 {
        if root < 0 || root >= graph.len() || root >= marks.len() {
            None
        } else if marks[root] != Mark::Unseen {
            search(graph, stack, marks, root + 1)
        } else {
            proof {
                unseen_after(marks, root, Mark::Open);
            }
            search(graph, stack.push((root, 0)), marks.update(root, Mark::Open), root)
        }
    } else {
        let (node, index) = stack.last();
        if index >= graph[node].len() {
            proof {
                if 0 <= node < marks.len() {
                    unseen_after(marks, node, Mark::Done);
                }
            }
            let after = if 0 <= node < marks.len() {
                marks.update(node, Mark::Done)
            } else {
                marks
            };
            search(graph, stack.drop_last(), after, root)
        } else {
            let child = graph[node][index];
            let ahead = stack.drop_last().push((node, index + 1));
            proof {
                assert(ahead.drop_last() =~= stack.drop_last());
                assert(ahead.last() == (node, index + 1));
                assert(pending(graph, ahead) < pending(graph, stack));
            }
            if child < 0 || child >= graph.len() || child >= marks.len() {
                search(graph, ahead, marks, root)
            } else if marks[child] == Mark::Open {
                Some(closed_at(ahead, child))
            } else if marks[child] == Mark::Done {
                search(graph, ahead, marks, root)
            } else {
                proof {
                    unseen_after(marks, child, Mark::Open);
                }
                search(graph, ahead.push((child, 0)), marks.update(child, Mark::Open), root)
            }
        }
    }
}

/// The whole search, from nothing reached.
pub open spec fn first_loop(graph: Seq<Seq<int>>) -> Option<Seq<int>> {
    search(graph, seq![], Seq::new(graph.len(), |i: int| Mark::Unseen), 0)
}

/// The position of `name`, or one past the end where it is not there.
pub open spec fn position(names: Seq<Seq<char>>, name: Seq<char>) -> int {
    if names.contains(name) {
        names.index_of(name)
    } else {
        names.len() as int
    }
}

/// The graph by position: the skills that have a prerequisite, in order, each with its
/// prerequisites in order.
pub open spec fn graph_of(edges: Seq<PrereqEdge>) -> Seq<Seq<int>> {
    let skills = skills_of(edges);
    skills.map_values(
        |skill: Seq<char>|
            prereqs_of(edges, skill).map_values(|p: Seq<char>| position(skills, p)),
    )
}

/// The cycle that is reported for `edges`.
pub open spec fn first_cycle(edges: Seq<PrereqEdge>) -> Option<Seq<Seq<char>>> {
    match first_loop(graph_of(edges)) {
        None => None,
        Some(path) => Some(path.map_values(|i: int| skills_of(edges)[i])),
    }
}

/// A list of lists of positions, as numbers.
pub open spec fn table(lists: Seq<Vec<usize>>) -> Seq<Seq<int>> {
    lists.map_values(|list: Vec<usize>| list@.map_values(|i: usize| i as int))
}

/// A path with its positions, as numbers.
pub open spec fn frames(stack: Seq<(usize, usize)>) -> Seq<(int, int)> {
    stack.map_values(|frame: (usize, usize)| (frame.0 as int, frame.1 as int))
}

/// A walk by position that comes back to where it started.
pub open spec fn is_loop(graph: Seq<Seq<int>>, path: Seq<int>) -> bool {
    &&& path.len() >= 2
    &&& path[0] == path.last()
    &&& forall|i: int|
        #![trigger path[i]]
        0 <= i < path.len() ==> 0 <= path[i] < graph.len()
    &&& forall|i: int|
        #![trigger path[i]]
        0 <= i < path.len() - 1 ==> graph[path[i]].contains(path[i + 1])
}

/// Every node has a larger number than each of its prerequisites that is a node.
pub open spec fn ranked(graph: Seq<Seq<int>>, rank: Seq<int>) -> bool {
    &&& rank.len() == graph.len()
    &&& forall|i: int, k: int|
        #![trigger graph[i][k]]
        0 <= i < graph.len() && 0 <= k < graph[i].len() && 0 <= graph[i][k] < graph.len()
            ==> rank[graph[i][k]] < rank[i]
}

/// What the search keeps about the path it is on.
#[verifier::opaque]
spec fn path_kept(graph: Seq<Seq<int>>, stack: Seq<(int, int)>, marks: Seq<Mark>) -> bool {
    &&& marks.len() == graph.len()
    &&& forall|k: int|
        #![trigger stack[k]]
        0 <= k < stack.len() ==> 0 <= stack[k].0 < graph.len() && 0 <= stack[k].1
            <= graph[stack[k].0].len() && marks[stack[k].0] == Mark::Open
    &&& forall|j: int, k: int|
        #![trigger stack[j], stack[k]]
        0 <= j < k < stack.len() ==> stack[j].0 != stack[k].0
    &&& forall|i: int|
        #![trigger marks[i]]
        0 <= i < marks.len() && marks[i] == Mark::Open ==> exists|k: int|
            0 <= k < stack.len() && (#[trigger] stack[k]).0 == i
    &&& forall|k: int|
        #![trigger stack[k]]
        0 <= k < stack.len() - 1 ==> stack[k].1 >= 1 && graph[stack[k].0][stack[k].1 - 1]
            == stack[k + 1].0
}

/// Whether a prerequisite can no longer lead to a cycle.
spec fn settled(marks: Seq<Mark>, child: int) -> bool {
    0 <= child < marks.len() ==> marks[child] == Mark::Done
}

/// What the search keeps about the nodes it has left behind: `rank` numbers them in
/// the order in which they were finished.
#[verifier::opaque]
spec fn done_kept(
    graph: Seq<Seq<int>>,
    stack: Seq<(int, int)>,
    marks: Seq<Mark>,
    rank: Seq<int>,
    next: int,
) -> bool {
    &&& rank.len() == graph.len()
    &&& forall|i: int|
        #![trigger rank[i]]
        0 <= i < graph.len() && marks[i] == Mark::Done ==> rank[i] < next
    &&& forall|i: int, k: int|
        #![trigger graph[i][k]]
        0 <= i < graph.len() && marks[i] == Mark::Done && 0 <= k < graph[i].len() ==> settled(
            marks,
            graph[i][k],
        ) && (0 <= graph[i][k] < graph.len() ==> rank[graph[i][k]] < rank[i])
    &&& forall|f: int, k: int|
        #![trigger stack[f], graph[stack[f].0][k]]
        0 <= f < stack.len() && 0 <= k < stack[f].1 - (if f < stack.len() - 1 {
            1int
        } else {
            0int
        }) ==> settled(marks, graph[stack[f].0][k])
}

/// A path of positions, as numbers.
pub open spec fn numbers(path: Seq<usize>) -> Seq<int> {
    path.map_values(|i: usize| i as int)
}

/// What a kept path says of its last node.
proof fn path_facts(graph: Seq<Seq<int>>, path: Seq<(int, int)>, marks: Seq<Mark>)
    requires
        path_kept(graph, path, marks),
    ensures
        marks.len() == graph.len(),
        path.len() > 0 ==> 0 <= path.last().0 < graph.len() && 0 <= path.last().1
            <= graph[path.last().0].len(),
{
    reveal(path_kept);
    if path.len() > 0 {
        assert(path.last() == path[path.len() - 1]);
    }
}

/// Nothing reached is a start.
proof fn path_begins(graph: Seq<Seq<int>>, marks: Seq<Mark>, rank: Seq<int>)
    requires
        marks == Seq::new(graph.len(), |i: int| Mark::Unseen),
        rank.len() == graph.len(),
    ensures
        path_kept(graph, seq![], marks),
        done_kept(graph, seq![], marks, rank, 0),
{
    reveal(path_kept);
    reveal(done_kept);
}

/// With every node reached and nothing left on the path, the numbering is complete.
proof fn path_ends(graph: Seq<Seq<int>>, marks: Seq<Mark>, rank: Seq<int>, next: int)
    requires
        path_kept(graph, seq![], marks),
        done_kept(graph, seq![], marks, rank, next),
        forall|i: int| 0 <= i < graph.len() ==> marks[i] != Mark::Unseen,
    ensures
        ranked(graph, rank),
{
    reveal(path_kept);
    reveal(done_kept);
    assert forall|i: int, k: int|
        #![trigger graph[i][k]]
        0 <= i < graph.len() && 0 <= k < graph[i].len() && 0 <= graph[i][k]
            < graph.len() implies rank[graph[i][k]] < rank[i] by {
        assert(marks[i] == Mark::Done);
    }
}

/// Starting at a root that was not reached yet keeps what the search keeps.
proof fn path_started(
    graph: Seq<Seq<int>>,
    marks: Seq<Mark>,
    rank: Seq<int>,
    next: int,
    root: int,
)
    requires
        path_kept(graph, seq![], marks),
        done_kept(graph, seq![], marks, rank, next),
        0 <= root < graph.len(),
        marks[root] == Mark::Unseen,
    ensures
        path_kept(graph, seq![(root, 0int)], marks.update(root, Mark::Open)),
        done_kept(graph, seq![(root, 0int)], marks.update(root, Mark::Open), rank, next),
{
    reveal(path_kept);
    reveal(done_kept);
    let path = seq![(root, 0int)];
    let after = marks.update(root, Mark::Open);
    assert forall|i: int|
        #![trigger after[i]]
        0 <= i < after.len() && after[i] == Mark::Open implies exists|k: int|
        0 <= k < path.len() && (#[trigger] path[k]).0 == i by {
        if i != root {
            assert(marks[i] == Mark::Open);
        }
        assert(path[0].0 == root);
    }
    assert forall|i: int, k: int|
        #![trigger graph[i][k]]
        0 <= i < graph.len() && after[i] == Mark::Done && 0 <= k < graph[i].len() implies settled(
        after,
        graph[i][k],
    ) && (0 <= graph[i][k] < graph.len() ==> rank[graph[i][k]] < rank[i]) by {
        assert(settled(marks, graph[i][k]));
    }
}

/// Leaving a node whose prerequisites are all settled keeps what the search keeps.
proof fn path_popped(
    graph: Seq<Seq<int>>,
    path: Seq<(int, int)>,
    marks: Seq<Mark>,
    rank: Seq<int>,
    next: int,
)
    requires
        path_kept(graph, path, marks),
        done_kept(graph, path, marks, rank, next),
        path.len() > 0,
        path.last().1 >= graph[path.last().0].len(),
    ensures
        path_kept(graph, path.drop_last(), marks.update(path.last().0, Mark::Done)),
        done_kept(
            graph,
            path.drop_last(),
            marks.update(path.last().0, Mark::Done),
            rank.update(path.last().0, next),
            next + 1,
        ),
{
    reveal(path_kept);
    reveal(done_kept);
    let top = path.len() - 1;
    let node = path.last().0;
    let shorter = path.drop_last();
    let after = marks.update(node, Mark::Done);
    let ranks = rank.update(node, next);
    assert(path[top] == path.last());
    assert forall|k: int|
        #![trigger shorter[k]]
        0 <= k < shorter.len() implies 0 <= shorter[k].0 < graph.len() && 0 <= shorter[k].1
        <= graph[shorter[k].0].len() && after[shorter[k].0] == Mark::Open by {
        assert(shorter[k] == path[k]);
        assert(path[k].0 != path[top].0);
    }
    assert forall|j: int, k: int|
        #![trigger shorter[j], shorter[k]]
        0 <= j < k < shorter.len() implies shorter[j].0 != shorter[k].0 by {
        assert(path[j].0 != path[k].0);
    }
    assert forall|i: int|
        #![trigger after[i]]
        0 <= i < after.len() && after[i] == Mark::Open implies exists|k: int|
        0 <= k < shorter.len() && (#[trigger] shorter[k]).0 == i by {
        assert(marks[i] == Mark::Open);
        let k = choose|k: int| 0 <= k < path.len() && (#[trigger] path[k]).0 == i;
        assert(shorter[k] == path[k]);
    }
    assert forall|k: int|
        #![trigger shorter[k]]
        0 <= k < shorter.len() - 1 implies shorter[k].1 >= 1 && graph[shorter[k].0][shorter[k].1
        - 1] == shorter[k + 1].0 by {
        assert(shorter[k] == path[k] && shorter[k + 1] == path[k + 1]);
    }
    assert forall|i: int, k: int|
        #![trigger graph[i][k]]
        0 <= i < graph.len() && after[i] == Mark::Done && 0 <= k < graph[i].len() implies settled(
        after,
        graph[i][k],
    ) && (0 <= graph[i][k] < graph.len() ==> ranks[graph[i][k]] < ranks[i]) by {
        if i == node {
            assert(path[top].0 == i);
            assert(settled(marks, graph[path[top].0][k]));
        } else {
            assert(settled(marks, graph[i][k]));
        }
        if 0 <= graph[i][k] < graph.len() {
            let c = graph[i][k];
            assert(marks[c] == Mark::Done);
            assert(marks[node] == Mark::Open);
            assert(rank[c] < next);
        }
    }
    assert forall|i: int|
        #![trigger ranks[i]]
        0 <= i < graph.len() && after[i] == Mark::Done implies ranks[i] < next + 1 by {
        if i != node {
            assert(rank[i] < next);
        }
    }
    assert forall|f: int, k: int|
        #![trigger shorter[f], graph[shorter[f].0][k]]
        0 <= f < shorter.len() && 0 <= k < shorter[f].1 - (if f < shorter.len() - 1 {
            1int
        } else {
            0int
        }) implies settled(after, graph[shorter[f].0][k]) by {
        assert(shorter[f] == path[f]);
        if k < path[f].1 - 1 {
            assert(settled(marks, graph[path[f].0][k]));
        } else {
            assert(graph[path[f].0][path[f].1 - 1] == path[f + 1].0);
        }
    }
}

/// The stretch of a kept path from a node on it, closed by repeating it, is a loop.
proof fn path_closes(graph: Seq<Seq<int>>, path: Seq<(int, int)>, marks: Seq<Mark>)
    requires
        path_kept(graph, path, marks),
        path.len() > 0,
        path.last().1 < graph[path.last().0].len(),
        0 <= graph[path.last().0][path.last().1] < graph.len(),
        marks[graph[path.last().0][path.last().1]] == Mark::Open,
    ensures
        ({
            let child = graph[path.last().0][path.last().1];
            let nodes = nodes_of(path);
            &&& nodes.contains(child)
            &&& forall|k: int| 0 <= k < nodes.len() && #[trigger] nodes[k] == child ==> k
                == nodes.index_of(child)
            &&& is_loop(graph, closed_at(path, child))
        }),
{
    reveal(path_kept);
    let top = path.len() - 1;
    let child = graph[path.last().0][path.last().1];
    let nodes = nodes_of(path);
    let k0 = choose|k: int| 0 <= k < path.len() && (#[trigger] path[k]).0 == child;
    assert(nodes[k0] == child);
    let start = nodes.index_of(child);
    assert forall|k: int| 0 <= k < nodes.len() && #[trigger] nodes[k] == child implies k
        == start by {
        assert(path[k].0 == nodes[k] && path[start].0 == nodes[start]);
    }
    let found = closed_at(path, child);
    assert forall|i: int|
        #![trigger found[i]]
        0 <= i < found.len() implies 0 <= found[i] < graph.len() by {
        if i < found.len() - 1 {
            assert(path[start + i].0 == found[i]);
        }
    }
    assert forall|i: int|
        #![trigger found[i]]
        0 <= i < found.len() - 1 implies graph[found[i]].contains(found[i + 1]) by {
        let f = start + i;
        assert(path[f].0 == found[i]);
        if i < found.len() - 2 {
            assert(path[f + 1].0 == found[i + 1]);
            assert(graph[path[f].0][path[f].1 - 1] == found[i + 1]);
        } else {
            assert(f == top);
            assert(graph[found[i]][path[top].1] == found[i + 1]);
        }
    }
}

/// The stretch of the path from `child` on, closed by repeating it.
fn close_path(stack: &Vec<(usize, usize)>, child: usize) -> (out: Vec<usize>)
    requires
        nodes_of(frames(stack@)).contains(child as int),
        forall|k: int|
            0 <= k < stack@.len() && #[trigger] nodes_of(frames(stack@))[k] == child as int ==> k
                == nodes_of(frames(stack@)).index_of(child as int),
    ensures
        numbers(out@) == closed_at(frames(stack@), child as int),
{
    let ghost nodes = nodes_of(frames(stack@));
    let ghost at = nodes.index_of(child as int);
    assert(0 <= at < nodes.len() && nodes[at] == child as int);
    let n: usize = stack.len();
    let mut start: usize = 0;
    while stack[start].0 != child
        invariant
            n == stack@.len(),
            nodes == nodes_of(frames(stack@)),
            0 <= at < nodes.len(),
            nodes[at] == child as int,
            start <= at,
        decreases stack@.len() - start,
    {
        assert(nodes[start as int] != nodes[at]);
        start += 1;
    }
    assert(nodes[start as int] == child as int);
    let mut out: Vec<usize> = Vec::new();
    let mut i: usize = start;
    while i < stack.len()
        invariant
            start <= i <= stack@.len(),
            out@.len() == i - start,
            forall|k: int| 0 <= k < out@.len() ==> out@[k] == stack@[start + k].0,
        decreases stack@.len() - i,
    {
        out.push(stack[i].0);
        i += 1;
    }
    out.push(child);
    assert(numbers(out@) =~= closed_at(frames(stack@), child as int));
    out
}

/// The first loop of a graph given by position, or `None` if there is none.
///
/// Iterative rather than recursive: the depth is bounded only by the number of skills.
fn find_loop(lists: &Vec<Vec<usize>>) -> (found: Option<Vec<usize>>)
    ensures
        (match found {
            Some(path) => Some(numbers(path@)),
            None => None,
        }) == first_loop(table(lists@)),
        found matches Some(path) ==> is_loop(table(lists@), numbers(path@)),
        found is None ==> exists|rank: Seq<int>| ranked(table(lists@), rank),
{
    let n: usize = lists.len();
    let ghost graph = table(lists@);
    let mut marks: Vec<Mark> = Vec::new();
    while marks.len() < n
        invariant
            marks@.len() <= n,
            forall|i: int| 0 <= i < marks@.len() ==> marks@[i] == Mark::Unseen,
        decreases n - marks@.len(),
    {
        marks.push(Mark::Unseen);
    }
    assert(marks@ =~= Seq::new(graph.len(), |i: int| Mark::Unseen));
    let mut stack: Vec<(usize, usize)> = Vec::new();
    assert(frames(stack@) =~= seq![]);
    let mut root: usize = 0;
    let ghost mut rank: Seq<int> = Seq::new(graph.len(), |i: int| 0);
    let ghost mut next: int = 0;
    proof {
        path_begins(graph, marks@, rank);
    }
    loop
        invariant
            n == lists@.len(),
            graph == table(lists@),
            root <= n,
            first_loop(graph) == search(graph, frames(stack@), marks@, root as int),
            path_kept(graph, frames(stack@), marks@),
            done_kept(graph, frames(stack@), marks@, rank, next),
            forall|i: int| 0 <= i < root ==> marks@[i] != Mark::Unseen,
        decreases unseen(marks@), n - root, pending(graph, frames(stack@)),
    {
        let ghost path = frames(stack@);
        let ghost seen = marks@;
        proof {
            path_facts(graph, path, seen);
        }
        if stack.len() == 0 {
            assert(path =~= seq![]);
            if root >= n {
                proof {
                    path_ends(graph, seen, rank, next);
                }
                return None;
            }
            if marks[root] != Mark::Unseen {
                root += 1;
            } else {
                proof {
                    unseen_after(seen, root as int, Mark::Open);
                    path_started(graph, seen, rank, next, root as int);
                }
                marks.set(root, Mark::Open);
                stack.push((root, 0));
                assert(frames(stack@) =~= seq![(root as int, 0int)]);
                assert(frames(stack@) =~= path.push((root as int, 0int)));
            }
        } else {
            let top: usize = stack.len() - 1;
            let node: usize = stack[top].0;
            let index: usize = stack[top].1;
            assert(path.last() == (node as int, index as int));
            assert(graph[node as int] == numbers(lists@[node as int]@));
            if index >= lists[node].len() {
                proof {
                    unseen_after(seen, node as int, Mark::Done);
                    path_popped(graph, path, seen, rank, next);
                    rank = rank.update(node as int, next);
                    next = next + 1;
                }
                marks.set(node, Mark::Done);
                stack.pop();
                assert(frames(stack@) =~= path.drop_last());
            } else {
                let child: usize = lists[node][index];
                assert(graph[node as int][index as int] == child as int);
                if child < n && marks[child] == Mark::Open {
                    proof {
                        path_closes(graph, path, seen);
                    }
                    let out: Vec<usize> = close_path(&stack, child);
                    proof {
                        let ahead = path.drop_last().push((node as int, index + 1));
                        assert(nodes_of(ahead) =~= nodes_of(path));
                    }
                    return Some(out);
                }
                stack.set(top, (node, index + 1));
                let ghost ahead = path.drop_last().push((node as int, index + 1));
                proof {
                    assert(frames(stack@) =~= ahead);
                    assert(ahead.drop_last() =~= path.drop_last());
                    assert(pending(graph, ahead) < pending(graph, path));
                }
                if child >= n || marks[child] == Mark::Done {
                    proof {
                        path_advanced(graph, path, seen, rank, next);
                    }
                } else {
                    proof {
                        unseen_after(seen, child as int, Mark::Open);
                        path_deepened(graph, path, seen, rank, next);
                    }
                    marks.set(child, Mark::Open);
                    stack.push((child, 0));
                    assert(frames(stack@) =~= ahead.push((child as int, 0int)));
                }
            }
        }
    }
}

/// Passing over a prerequisite that is settled keeps what the search keeps.
proof fn path_advanced(
    graph: Seq<Seq<int>>,
    path: Seq<(int, int)>,
    marks: Seq<Mark>,
    rank: Seq<int>,
    next: int,
)
    requires
        path_kept(graph, path, marks),
        done_kept(graph, path, marks, rank, next),
        path.len() > 0,
        path.last().1 < graph[path.last().0].len(),
        settled(marks, graph[path.last().0][path.last().1]),
    ensures
        ({
            let ahead = path.drop_last().push((path.last().0, path.last().1 + 1));
            path_kept(graph, ahead, marks) && done_kept(graph, ahead, marks, rank, next)
        }),
{
    reveal(path_kept);
    reveal(done_kept);
    let top = path.len() - 1;
    let ahead = path.drop_last().push((path.last().0, path.last().1 + 1));
    assert forall|f: int| 0 <= f < path.len() implies (#[trigger] ahead[f]).0 == path[f].0 by {
    }
    assert forall|i: int|
        #![trigger marks[i]]
        0 <= i < marks.len() && marks[i] == Mark::Open implies exists|k: int|
        0 <= k < ahead.len() && (#[trigger] ahead[k]).0 == i by {
        let k = choose|k: int| 0 <= k < path.len() && (#[trigger] path[k]).0 == i;
        assert(ahead[k].0 == i);
    }
    assert forall|j: int, k: int|
        #![trigger ahead[j], ahead[k]]
        0 <= j < k < ahead.len() implies ahead[j].0 != ahead[k].0 by {
        assert(path[j].0 != path[k].0);
    }
    assert forall|k: int|
        #![trigger ahead[k]]
        0 <= k < ahead.len() - 1 implies ahead[k].1 >= 1 && graph[ahead[k].0][ahead[k].1 - 1]
        == ahead[k + 1].0 by {
        assert(ahead[k] == path[k]);
        assert(ahead[k + 1].0 == path[k + 1].0);
    }
    assert forall|f: int, k: int|
        #![trigger ahead[f], graph[ahead[f].0][k]]
        0 <= f < ahead.len() && 0 <= k < ahead[f].1 - (if f < ahead.len() - 1 {
            1int
        } else {
            0int
        }) implies settled(marks, graph[ahead[f].0][k]) by {
        assert(ahead[f].0 == path[f].0);
        if f < top || k < path[f].1 {
            assert(settled(marks, graph[path[f].0][k]));
        }
    }
}

/// Descending to a prerequisite that was not reached yet keeps what the search keeps.
proof fn path_deepened(
    graph: Seq<Seq<int>>,
    path: Seq<(int, int)>,
    marks: Seq<Mark>,
    rank: Seq<int>,
    next: int,
)
    requires
        path_kept(graph, path, marks),
        done_kept(graph, path, marks, rank, next),
        path.len() > 0,
        path.last().1 < graph[path.last().0].len(),
        0 <= graph[path.last().0][path.last().1] < graph.len(),
        marks[graph[path.last().0][path.last().1]] == Mark::Unseen,
    ensures
        ({
            let child = graph[path.last().0][path.last().1];
            let longer = path.drop_last().push((path.last().0, path.last().1 + 1)).push(
                (child, 0int),
            );
            let after = marks.update(child, Mark::Open);
            path_kept(graph, longer, after) && done_kept(graph, longer, after, rank, next)
        }),
{
    reveal(path_kept);
    reveal(done_kept);
    let top = path.len() - 1;
    let node = path.last().0;
    let child = graph[node][path.last().1];
    let longer = path.drop_last().push((node, path.last().1 + 1)).push((child, 0int));
    let after = marks.update(child, Mark::Open);
    assert forall|f: int| 0 <= f < path.len() implies (#[trigger] longer[f]).0 == path[f].0 by {
    }
    assert forall|k: int|
        #![trigger longer[k]]
        0 <= k < longer.len() implies 0 <= longer[k].0 < graph.len() && 0 <= longer[k].1
        <= graph[longer[k].0].len() && after[longer[k].0] == Mark::Open by {
        if k < path.len() {
            assert(path[k].0 == longer[k].0);
        }
    }
    assert forall|i: int|
        #![trigger after[i]]
        0 <= i < after.len() && after[i] == Mark::Open implies exists|k: int|
        0 <= k < longer.len() && (#[trigger] longer[k]).0 == i by {
        if i == child {
            assert(longer[path.len() as int].0 == i);
        } else {
            assert(marks[i] == Mark::Open);
            let k = choose|k: int| 0 <= k < path.len() && (#[trigger] path[k]).0 == i;
            assert(longer[k].0 == i);
        }
    }
    assert forall|j: int, k: int|
        #![trigger longer[j], longer[k]]
        0 <= j < k < longer.len() implies longer[j].0 != longer[k].0 by {
        assert(path[j].0 == longer[j].0);
        if k < path.len() {
            assert(path[j].0 != path[k].0);
        } else {
            assert(marks[path[j].0] == Mark::Open);
        }
    }
    assert forall|k: int|
        #![trigger longer[k]]
        0 <= k < longer.len() - 1 implies longer[k].1 >= 1 && graph[longer[k].0][longer[k].1 - 1]
        == longer[k + 1].0 by {
        if k < top {
            assert(longer[k] == path[k]);
            assert(longer[k + 1].0 == path[k + 1].0);
        } else {
            assert(longer[k] == (node, path.last().1 + 1));
        }
    }
    assert forall|i: int, k: int|
        #![trigger graph[i][k]]
        0 <= i < graph.len() && after[i] == Mark::Done && 0 <= k < graph[i].len() implies settled(
        after,
        graph[i][k],
    ) && (0 <= graph[i][k] < graph.len() ==> rank[graph[i][k]] < rank[i]) by {
        assert(settled(marks, graph[i][k]));
    }
    assert forall|f: int, k: int|
        #![trigger longer[f], graph[longer[f].0][k]]
        0 <= f < longer.len() && 0 <= k < longer[f].1 - (if f < longer.len() - 1 {
            1int
        } else {
            0int
        }) implies settled(after, graph[longer[f].0][k]) by {
        if f < path.len() {
            assert(longer[f].0 == path[f].0);
            assert(settled(marks, graph[path[f].0][k]));
        }
    }
}

/// The position of `name` among the rows, or one past the end where it has no row.
pub(crate) fn row_of(rows: &Vec<(String, Vec<String>)>, name: &str) -> (at: usize)
    requires
        strictly_sorted(row_names(rows@)),
    ensures
        at == position(row_names(rows@), name@),
{
    let ghost names = row_names(rows@);
    let mut low: usize = 0;
    let mut high: usize = rows.len();
    while low < high
        invariant
            low <= high <= rows@.len(),
            names == row_names(rows@),
            strictly_sorted(names),
            forall|i: int| 0 <= i < low ==> precedes(#[trigger] names[i], name@),
            forall|i: int| high <= i < names.len() ==> precedes(name@, #[trigger] names[i]),
        decreases high - low,
    {
        let middle: usize = low + (high - low) / 2;
        assert(names[middle as int] == rows@[middle as int].0@);
        if is_before(rows[middle].0.as_str(), name) {
            proof {
                assert forall|i: int| 0 <= i < middle + 1 implies precedes(
                    #[trigger] names[i],
                    name@,
                ) by {
                    if i < middle {
                        precedes_transitive(names[i], names[middle as int], name@);
                    }
                }
            }
            low = middle + 1;
        } else if is_before(name, rows[middle].0.as_str()) {
            proof {
                assert forall|i: int| middle <= i < names.len() implies precedes(
                    name@,
                    #[trigger] names[i],
                ) by {
                    if middle < i {
                        precedes_transitive(name@, names[middle as int], names[i]);
                    }
                }
            }
            high = middle;
        } else {
            proof {
                precedes_total(names[middle as int], name@);
                sorted_position(names, name@, middle as int);
            }
            return middle;
        }
    }
    proof {
        if names.contains(name@) {
            let k = choose|k: int| 0 <= k < names.len() && names[k] == name@;
            precedes_irreflexive(name@);
        }
    }
    rows.len()
}

/// Among sorted names a name has one position.
proof fn sorted_position(names: Seq<Seq<char>>, name: Seq<char>, at: int)
    requires
        strictly_sorted(names),
        0 <= at < names.len(),
        names[at] == name,
    ensures
        names.contains(name),
        position(names, name) == at,
{
    let k = names.index_of(name);
    assert(names.contains(name));
    assert(0 <= k < names.len() && names[k] == name);
    precedes_irreflexive(name);
    if k < at {
        assert(precedes(names[k], names[at]));
    } else if at < k {
        assert(precedes(names[at], names[k]));
    }
}

/// A loop by position is a cycle of the edges.
proof fn loop_is_cycle(edges: Seq<PrereqEdge>, path: Seq<int>)
    requires
        is_loop(graph_of(edges), path),
    ensures
        is_cycle(edges, path.map_values(|i: int| skills_of(edges)[i])),
{
    let graph = graph_of(edges);
    let skills = skills_of(edges);
    let named = path.map_values(|i: int| skills[i]);
    assert forall|i: int| #![trigger named[i]] 0 <= i < named.len() - 1 implies linked(
        edges,
        named[i],
        named[i + 1],
    ) by {
        let from = path[i];
        let to = path[i + 1];
        assert(0 <= from < graph.len() && 0 <= to < graph.len());
        let prereqs = prereqs_of(edges, skills[from]);
        assert(graph[from] == prereqs.map_values(|p: Seq<char>| position(skills, p)));
        let k = choose|k: int| 0 <= k < graph[from].len() && graph[from][k] == to;
        assert(graph[from][k] == position(skills, prereqs[k]));
        assert(skills.contains(prereqs[k]));
        assert(skills[to] == prereqs[k]);
        prereqs_are_linked(edges, skills[from]);
        assert(prereqs.contains(prereqs[k]));
    }
}

/// A graph whose nodes can be numbered above their prerequisites has no cycle.
proof fn ranked_is_acyclic(edges: Seq<PrereqEdge>, rank: Seq<int>)
    requires
        ranked(graph_of(edges), rank),
    ensures
        !cyclic(edges),
{
    if cyclic(edges) {
        let path = choose|path: Seq<Seq<char>>| is_cycle(edges, path);
        let skills = skills_of(edges);
        skills_are_linked(edges);
        assert forall|i: int| 0 <= i < path.len() implies skills.contains(#[trigger] path[i]) by {
            if i < path.len() - 1 {
                assert(linked(edges, path[i], path[i + 1]));
            } else {
                assert(linked(edges, path[0], path[1]));
            }
        }
        ranks_fall(edges, rank, path, path.len() - 1);
    }
}

/// Along a path of edges the numbers fall.
proof fn ranks_fall(edges: Seq<PrereqEdge>, rank: Seq<int>, path: Seq<Seq<char>>, upto: int)
    requires
        ranked(graph_of(edges), rank),
        0 <= upto < path.len(),
        forall|i: int| 0 <= i < path.len() ==> skills_of(edges).contains(#[trigger] path[i]),
        forall|i: int|
            #![trigger path[i]]
            0 <= i < path.len() - 1 ==> linked(edges, path[i], path[i + 1]),
    ensures
        rank[position(skills_of(edges), path[upto])] <= rank[position(skills_of(edges), path[0])],
        upto > 0 ==> rank[position(skills_of(edges), path[upto])] < rank[position(
            skills_of(edges),
            path[0],
        )],
    decreases upto,
{
    if upto > 0 {
        ranks_fall(edges, rank, path, upto - 1);
        let skills = skills_of(edges);
        let graph = graph_of(edges);
        let from = path[upto - 1];
        let to = path[upto];
        assert(skills.contains(from) && skills.contains(to));
        let i = skills.index_of(from);
        assert(linked(edges, from, to));
        prereqs_are_linked(edges, from);
        let prereqs = prereqs_of(edges, from);
        assert(prereqs.contains(to));
        let k = choose|k: int| 0 <= k < prereqs.len() && prereqs[k] == to;
        assert(skills[i] == from);
        assert(graph[i] == prereqs.map_values(|p: Seq<char>| position(skills, p)));
        assert(graph[i][k] == position(skills, to));
    }
}

/// Whether the open nodes are those of the path, each on it once.
spec fn open_on_path(stack: Seq<(int, int)>, marks: Seq<Mark>) -> bool {
    let nodes = nodes_of(stack);
    &&& nodes.no_duplicates()
    &&& forall|k: int| 0 <= k < nodes.len() ==> 0 <= #[trigger] nodes[k] < marks.len()
    &&& forall|i: int|
        0 <= i < marks.len() ==> ((#[trigger] marks[i]) == Mark::Open <==> nodes.contains(i))
}

/// The path that a search comes back with repeats no node but its last.
proof fn search_repeats_only_the_end(
    graph: Seq<Seq<int>>,
    stack: Seq<(int, int)>,
    marks: Seq<Mark>,
    root: int,
)
    requires
        open_on_path(stack, marks),
        marks.len() == graph.len(),
    ensures
        search(graph, stack, marks, root) matches Some(path) ==> path.len() > 0
            && path.drop_last().no_duplicates() && forall|k: int|
            0 <= k < path.len() ==> 0 <= #[trigger] path[k] < graph.len(),
    decreases unseen(marks), graph.len() - root, pending(graph, stack),
{
    let nodes = nodes_of(stack);
    if stack.len() == 0 {
        if 0 <= root < graph.len() {
            if marks[root] != Mark::Unseen {
                search_repeats_only_the_end(graph, stack, marks, root + 1);
            } else {
                unseen_after(marks, root, Mark::Open);
                opening_extends(stack, marks, root);
                search_repeats_only_the_end(
                    graph,
                    stack.push((root, 0)),
                    marks.update(root, Mark::Open),
                    root,
                );
            }
        }
    } else {
        let (node, index) = stack.last();
        assert(nodes[nodes.len() - 1] == node);
        if index >= graph[node].len() {
            unseen_after(marks, node, Mark::Done);
            let after = marks.update(node, Mark::Done);
            let rest = nodes_of(stack.drop_last());
            assert(rest =~= nodes.drop_last());
            assert forall|i: int| 0 <= i < after.len() implies ((#[trigger] after[i]) == Mark::Open
                <==> rest.contains(i)) by {
                if rest.contains(i) {
                    let k = choose|k: int| 0 <= k < rest.len() && rest[k] == i;
                    assert(nodes[k] == i);
                    assert(nodes.contains(i));
                    assert(i != node);
                    assert(marks[i] == Mark::Open);
                }
                if after[i] == Mark::Open {
                    assert(marks[i] == Mark::Open);
                    let k = choose|k: int| 0 <= k < nodes.len() && nodes[k] == i;
                    assert(rest[k] == i);
                }
            }
            assert(open_on_path(stack.drop_last(), after));
            search_repeats_only_the_end(graph, stack.drop_last(), after, root);
        } else {
            let child = graph[node][index];
            let ahead = stack.drop_last().push((node, index + 1));
            assert(nodes_of(ahead) =~= nodes);
            assert(ahead.drop_last() =~= stack.drop_last());
            assert(ahead.last() == (node, index + 1));
            assert(pending(graph, ahead) < pending(graph, stack));
            assert(open_on_path(ahead, marks));
            if child < 0 || child >= graph.len() {
                search_repeats_only_the_end(graph, ahead, marks, root);
            } else if marks[child] == Mark::Open {
                assert(nodes.contains(child));
                let at = nodes.index_of(child);
                let path = closed_at(ahead, child);
                assert(path.drop_last() =~= nodes.skip(at));
                assert forall|i: int, j: int|
                    0 <= i < nodes.skip(at).len() && 0 <= j < nodes.skip(at).len() && i
                        != j implies nodes.skip(at)[i] != nodes.skip(at)[j] by {
                    assert(nodes[i + at] != nodes[j + at]);
                }
                assert forall|k: int| 0 <= k < path.len() implies 0 <= #[trigger] path[k]
                    < graph.len() by {
                    if k < path.len() - 1 {
                        assert(path[k] == nodes[k + at]);
                    }
                }
            } else if marks[child] == Mark::Done {
                search_repeats_only_the_end(graph, ahead, marks, root);
            } else {
                unseen_after(marks, child, Mark::Open);
                opening_extends(ahead, marks, child);
                search_repeats_only_the_end(
                    graph,
                    ahead.push((child, 0)),
                    marks.update(child, Mark::Open),
                    root,
                );
            }
        }
    }
}

proof fn opening_extends(stack: Seq<(int, int)>, marks: Seq<Mark>, node: int)
    requires
        open_on_path(stack, marks),
        0 <= node < marks.len(),
        marks[node] != Mark::Open,
    ensures
        open_on_path(stack.push((node, 0)), marks.update(node, Mark::Open)),
{
    let nodes = nodes_of(stack);
    let more = nodes_of(stack.push((node, 0)));
    let after = marks.update(node, Mark::Open);
    assert(more =~= nodes.push(node));
    assert(!nodes.contains(node));
    assert forall|i: int, j: int|
        0 <= i < more.len() && 0 <= j < more.len() && i != j implies more[i] != more[j] by {
        if i < nodes.len() && j < nodes.len() {
            assert(nodes[i] != nodes[j]);
        } else if i < nodes.len() {
            assert(nodes.contains(nodes[i]));
        } else {
            assert(nodes.contains(nodes[j]));
        }
    }
    assert forall|i: int| 0 <= i < after.len() implies ((#[trigger] after[i]) == Mark::Open
        <==> more.contains(i)) by {
        if i == node {
            assert(more[nodes.len() as int] == i);
        } else {
            assert(after[i] == marks[i]);
            if more.contains(i) {
                let k = choose|k: int| 0 <= k < more.len() && more[k] == i;
                assert(nodes[k] == i);
            }
            if nodes.contains(i) {
                let k = choose|k: int| 0 <= k < nodes.len() && nodes[k] == i;
                assert(more[k] == i);
            }
        }
    }
}

/// The cycle that is reported is simple: no skill on it repeats but the one at which it
/// closes.
pub proof fn the_first_cycle_is_simple(edges: Seq<PrereqEdge>)
    ensures
        first_cycle(edges) matches Some(path) ==> path.len() > 0
            && path.drop_last().no_duplicates(),
{
    let graph = graph_of(edges);
    let skills = skills_of(edges);
    let marks = Seq::new(graph.len(), |i: int| Mark::Unseen);
    assert(open_on_path(seq![], marks));
    search_repeats_only_the_end(graph, seq![], marks, 0);
    if let Some(path) = first_loop(graph) {
        skills_are_linked(edges);
        let named = path.map_values(|i: int| skills[i]);
        let open = path.drop_last();
        assert forall|i: int, j: int|
            0 <= i < named.drop_last().len() && 0 <= j < named.drop_last().len() && i
                != j implies named.drop_last()[i] != named.drop_last()[j] by {
            assert(open[i] != open[j]);
            assert(0 <= path[i] < skills.len() && 0 <= path[j] < skills.len());
            if path[i] < path[j] {
                assert(precedes(skills[path[i]], skills[path[j]]));
            } else {
                assert(precedes(skills[path[j]], skills[path[i]]));
            }
            precedes_irreflexive(skills[path[i]]);
        }
    }
}

/// The first cycle in `edges`, in a stable order, or `None` if the graph is acyclic.
pub fn find_cycle(edges: &[PrereqEdge]) -> (found: Option<Cycle>)
    ensures
        (match found {
            Some(cycle) => Some(texts(cycle.path@)),
            None => None,
        }) == first_cycle(edges@),
        found matches Some(cycle) ==> is_cycle(edges@, texts(cycle.path@)) && texts(
            cycle.path@,
        ).drop_last().no_duplicates(),
        found is Some <==> cyclic(edges@),
        found matches Some(cycle) ==> exists|walk: Seq<Seq<char>>| #[trigger]
            is_first_walk(edges@, walk) && goes_round(walk, texts(cycle.path@)),
{
    let rows: Vec<(String, Vec<String>)> = adjacency(edges);
    let ghost skills = skills_of(edges@);
    let ghost graph = graph_of(edges@);
    proof {
        skills_are_linked(edges@);
        the_first_cycle_is_simple(edges@);
        the_first_cycle_is_met_first(edges@);
    }
    let mut lists: Vec<Vec<usize>> = Vec::new();
    while lists.len() < rows.len()
        invariant
            lists@.len() <= rows@.len(),
            row_names(rows@) == skills_of(edges@),
            strictly_sorted(skills_of(edges@)),
            skills == skills_of(edges@),
            graph == graph_of(edges@),
            forall|i: int|
                0 <= i < rows@.len() ==> texts((#[trigger] rows@[i]).1@) == prereqs_of(
                    edges@,
                    rows@[i].0@,
                ),
            forall|i: int|
                0 <= i < lists@.len() ==> numbers(#[trigger] lists@[i]@) == graph[i],
        decreases rows@.len() - lists@.len(),
    {
        let i: usize = lists.len();
        let mut list: Vec<usize> = Vec::new();
        assert(skills[i as int] == row_names(rows@)[i as int]);
        while list.len() < rows[i].1.len()
            invariant
                i < rows@.len(),
                list@.len() <= rows@[i as int].1@.len(),
                row_names(rows@) == skills,
                strictly_sorted(skills),
                forall|k: int|
                    0 <= k < list@.len() ==> #[trigger] list@[k] == position(
                        skills,
                        rows@[i as int].1@[k]@,
                    ),
            decreases rows@[i as int].1@.len() - list@.len(),
        {
            let at: usize = row_of(&rows, rows[i].1[list.len()].as_str());
            list.push(at);
        }
        proof {
            let row = rows@[i as int];
            assert(texts(row.1@) == prereqs_of(edges@, row.0@));
            assert forall|k: int| 0 <= k < list@.len() implies #[trigger] numbers(list@)[k]
                == graph[i as int][k] by {
                assert(texts(row.1@)[k] == row.1@[k]@);
            }
            assert(numbers(list@) =~= graph[i as int]);
        }
        lists.push(list);
    }
    assert(table(lists@) =~= graph) by {
        assert forall|i: int| 0 <= i < graph.len() implies #[trigger] table(lists@)[i]
            == graph[i] by {
            assert(table(lists@)[i] == numbers(lists@[i]@));
        }
    }
    match find_loop(&lists) {
        None => {
            proof {
                let rank = choose|rank: Seq<int>| ranked(graph, rank);
                ranked_is_acyclic(edges@, rank);
            }
            None
        },
        Some(nodes) => {
            let mut path: Vec<String> = Vec::new();
            while path.len() < nodes.len()
                invariant
                    path@.len() <= nodes@.len(),
                    row_names(rows@) == skills,
                    forall|k: int|
                        0 <= k < nodes@.len() ==> 0 <= (#[trigger] numbers(nodes@)[k])
                            < skills.len(),
                    forall|k: int|
                        0 <= k < path@.len() ==> #[trigger] path@[k]@ == skills[nodes@[k] as int],
                decreases nodes@.len() - path@.len(),
            {
                let at: usize = nodes[path.len()];
                assert(numbers(nodes@)[path@.len() as int] == at as int);
                assert(row_names(rows@)[at as int] == rows@[at as int].0@);
                path.push(rows[at].0.clone());
            }
            proof {
                loop_is_cycle(edges@, numbers(nodes@));
                assert(texts(path@) =~= numbers(nodes@).map_values(|i: int| skills[i]));
            }
            Some(Cycle { path })
        },
    }
}

/// The cycle reported depends on which edges there are, not on their order.
pub proof fn first_cycle_ignores_order(a: Seq<PrereqEdge>, b: Seq<PrereqEdge>)
    requires
        forall|s: Seq<char>, p: Seq<char>| #[trigger] linked(a, s, p) <==> linked(b, s, p),
    ensures
        first_cycle(a) == first_cycle(b),
        cyclic(a) == cyclic(b),
{
    skills_are_linked(a);
    skills_are_linked(b);
    assert forall|s: Seq<char>| #[trigger] skills_of(a).contains(s) <==> skills_of(b).contains(
        s,
    ) by {
        if skills_of(a).contains(s) {
            let p = choose|p: Seq<char>| linked(a, s, p);
            assert(linked(b, s, p));
        }
        if skills_of(b).contains(s) {
            let p = choose|p: Seq<char>| linked(b, s, p);
            assert(linked(a, s, p));
        }
    }
    sorted_is_unique(skills_of(a), skills_of(b));
    assert forall|s: Seq<char>| #[trigger] prereqs_of(a, s) == prereqs_of(b, s) by {
        prereqs_are_linked(a, s);
        prereqs_are_linked(b, s);
        assert forall|p: Seq<char>| #[trigger] prereqs_of(a, s).contains(p) <==> prereqs_of(
            b,
            s,
        ).contains(p) by {
            assert(linked(a, s, p) <==> linked(b, s, p));
        }
        sorted_is_unique(prereqs_of(a, s), prereqs_of(b, s));
    }
    assert(graph_of(a) =~= graph_of(b)) by {
        assert forall|i: int| 0 <= i < graph_of(a).len() implies #[trigger] graph_of(a)[i]
            == graph_of(b)[i] by {
            let s = skills_of(a)[i];
            assert(prereqs_of(a, s) == prereqs_of(b, s));
        }
    }
    assert forall|path: Seq<Seq<char>>| #[trigger] is_cycle(a, path) <==> is_cycle(b, path) by {
        if is_cycle(a, path) {
            assert forall|i: int| #![trigger path[i]] 0 <= i < path.len() - 1 implies linked(
                b,
                path[i],
                path[i + 1],
            ) by {
                assert(linked(a, path[i], path[i + 1]));
            }
        }
        if is_cycle(b, path) {
            assert forall|i: int| #![trigger path[i]] 0 <= i < path.len() - 1 implies linked(
                a,
                path[i],
                path[i + 1],
            ) by {
                assert(linked(a, path[i], path[i + 1]));
            }
        }
    }
    if cyclic(a) {
        let path = choose|path: Seq<Seq<char>>| is_cycle(a, path);
        assert(is_cycle(b, path));
    }
    if cyclic(b) {
        let path = choose|path: Seq<Seq<char>>| is_cycle(b, path);
        assert(is_cycle(a, path));
    }
}

/// A list of edges with one more.
fn with_edge(edges: &[PrereqEdge], skill_id: &str, prereq_id: &str) -> (more: Vec<PrereqEdge>)
    ensures
        more@.len() == edges@.len() + 1,
        forall|i: int|
            0 <= i < edges@.len() ==> (#[trigger] more@[i]).skill_id@ == edges@[i].skill_id@
                && more@[i].prereq_id@ == edges@[i].prereq_id@,
        more@.last().skill_id@ == skill_id@,
        more@.last().prereq_id@ == prereq_id@,
{
    let mut more: Vec<PrereqEdge> = Vec::new();
    let mut i: usize = 0;
    while i < edges.len()
        invariant
            i <= edges@.len(),
            more@.len() == i,
            forall|k: int|
                0 <= k < i ==> (#[trigger] more@[k]).skill_id@ == edges@[k].skill_id@
                    && more@[k].prereq_id@ == edges@[k].prereq_id@,
        decreases edges@.len() - i,
    {
        more.push(
            PrereqEdge {
                skill_id: edges[i].skill_id.clone(),
                prereq_id: edges[i].prereq_id.clone(),
            },
        );
        i += 1;
    }
    more.push(PrereqEdge { skill_id: skill_id.to_owned(), prereq_id: prereq_id.to_owned() });
    more
}

/// Whether `edge` says that `prereq` must be mastered before `skill`.
pub open spec fn joins(edge: PrereqEdge, skill: Seq<char>, prereq: Seq<char>) -> bool {
    edge.skill_id@ == skill && edge.prereq_id@ == prereq
}

proof fn same_links(a: Seq<PrereqEdge>, b: Seq<PrereqEdge>)
    requires
        a.len() == b.len(),
        forall|i: int|
            0 <= i < a.len() ==> (#[trigger] a[i]).skill_id@ == b[i].skill_id@ && a[i].prereq_id@
                == b[i].prereq_id@,
    ensures
        forall|s: Seq<char>, p: Seq<char>| #[trigger] linked(a, s, p) <==> linked(b, s, p),
{
    assert forall|s: Seq<char>, p: Seq<char>| #[trigger] linked(a, s, p) <==> linked(b, s, p) by {
        if linked(a, s, p) {
            let i = choose|i: int|
                0 <= i < a.len() && (#[trigger] a[i]).skill_id@ == s && a[i].prereq_id@ == p;
            assert(b[i].skill_id@ == s);
        }
        if linked(b, s, p) {
            let i = choose|i: int|
                0 <= i < b.len() && (#[trigger] b[i]).skill_id@ == s && b[i].prereq_id@ == p;
            assert(a[i].skill_id@ == s);
        }
    }
}

/// Whether adding `skill_id → prereq_id` to `edges` would close a cycle, and which. An
/// edge from a skill to itself is its own answer.
pub fn would_close_cycle(edges: &[PrereqEdge], skill_id: &str, prereq_id: &str) -> (found: Option<
    Cycle,
>)
    ensures
        skill_id@ == prereq_id@ ==> (found matches Some(cycle) && texts(cycle.path@) =~= seq![
            skill_id@,
            skill_id@,
        ]),
        skill_id@ != prereq_id@ ==> forall|edge: PrereqEdge| #[trigger]
            joins(edge, skill_id@, prereq_id@) ==> (match found {
                Some(cycle) => Some(texts(cycle.path@)),
                None => None,
            }) == first_cycle(edges@.push(edge)),
        forall|edge: PrereqEdge| #[trigger]
            joins(edge, skill_id@, prereq_id@) ==> (found is Some <==> cyclic(edges@.push(edge))),
{
    if same_text(skill_id, prereq_id) {
        let path: Vec<String> = vec![skill_id.to_owned(), skill_id.to_owned()];
        proof {
            assert forall|edge: PrereqEdge| #[trigger]
                joins(edge, skill_id@, prereq_id@) implies cyclic(edges@.push(edge)) by {
                let more = edges@.push(edge);
                assert(more[edges@.len() as int] == edge);
                let around = seq![skill_id@, skill_id@];
                assert(linked(more, skill_id@, skill_id@));
                assert(is_cycle(more, around));
            }
        }
        return Some(Cycle { path });
    }
    let proposed: Vec<PrereqEdge> = with_edge(edges, skill_id, prereq_id);
    proof {
        assert forall|edge: PrereqEdge| #[trigger]
            joins(edge, skill_id@, prereq_id@) implies first_cycle(proposed@) == first_cycle(
            edges@.push(edge),
        ) && cyclic(proposed@) == cyclic(edges@.push(edge)) by {
            same_links(proposed@, edges@.push(edge));
            first_cycle_ignores_order(proposed@, edges@.push(edge));
        }
    }
    find_cycle(proposed.as_slice())
}

/// A walk along edges.
pub open spec fn is_walk(edges: Seq<PrereqEdge>, path: Seq<Seq<char>>) -> bool {
    forall|i: int|
        #![trigger path[i]]
        0 <= i < path.len() - 1 ==> linked(edges, path[i], path[i + 1])
}

/// A walk along edges from `from` to `to`.
pub open spec fn leads(
    edges: Seq<PrereqEdge>,
    path: Seq<Seq<char>>,
    from: Seq<char>,
    to: Seq<char>,
) -> bool {
    path.len() >= 1 && path[0] == from && path.last() == to && is_walk(edges, path)
}

/// Whether `to` is `from`, or is one of its prerequisites, near or far.
pub open spec fn reaches(edges: Seq<PrereqEdge>, from: Seq<char>, to: Seq<char>) -> bool {
    exists|path: Seq<Seq<char>>| leads(edges, path, from, to)
}

/// What follows an edge can be reached from before it.
pub proof fn reaches_step(
    edges: Seq<PrereqEdge>,
    from: Seq<char>,
    middle: Seq<char>,
    to: Seq<char>,
)
    requires
        reaches(edges, from, middle),
        linked(edges, middle, to),
    ensures
        reaches(edges, from, to),
        exists|path: Seq<Seq<char>>| path.len() >= 2 && leads(edges, path, from, to),
{
    let path = choose|path: Seq<Seq<char>>| leads(edges, path, from, middle);
    let longer = path.push(to);
    assert forall|i: int| #![trigger longer[i]] 0 <= i < longer.len() - 1 implies linked(
        edges,
        longer[i],
        longer[i + 1],
    ) by {
        assert(longer[i] == path[i]);
        if i < path.len() - 1 {
            assert(longer[i + 1] == path[i + 1]);
        }
    }
    assert(leads(edges, longer, from, to));
}

/// Reaching is transitive.
pub proof fn reaches_transitive(
    edges: Seq<PrereqEdge>,
    from: Seq<char>,
    middle: Seq<char>,
    to: Seq<char>,
)
    requires
        reaches(edges, from, middle),
        reaches(edges, middle, to),
    ensures
        reaches(edges, from, to),
{
    let a = choose|path: Seq<Seq<char>>| leads(edges, path, from, middle);
    let b = choose|path: Seq<Seq<char>>| leads(edges, path, middle, to);
    let both = a + b.skip(1);
    assert forall|i: int| #![trigger both[i]] 0 <= i < both.len() - 1 implies linked(
        edges,
        both[i],
        both[i + 1],
    ) by {
        if i < a.len() - 1 {
            assert(both[i] == a[i] && both[i + 1] == a[i + 1]);
        } else {
            let k = i - (a.len() - 1);
            assert(both[i] == b[k]);
            assert(both[i + 1] == b[k + 1]);
        }
    }
    assert(both.last() == to) by {
        if b.len() == 1 {
            assert(both =~= a);
        } else {
            assert(both.last() == b[b.len() - 1]);
        }
    }
    assert(leads(edges, both, from, to));
}

/// Where a walk over the edges and one more can go, the edges alone go, or go through
/// the one more.
proof fn walk_with_edge(
    edges: Seq<PrereqEdge>,
    edge: PrereqEdge,
    path: Seq<Seq<char>>,
)
    requires
        path.len() >= 2,
        is_walk(edges.push(edge), path),
    ensures
        ({
            ||| exists|p: Seq<Seq<char>>|
                p.len() >= 2 && leads(edges, p, path[0], path.last())
            ||| reaches(edges, path[0], edge.skill_id@) && reaches(
                edges,
                edge.prereq_id@,
                path.last(),
            )
        }),
    decreases path.len(),
{
    let more = edges.push(edge);
    let n = path.len();
    let x = path[n - 2];
    let to = path[n - 1];
    let shorter = path.drop_last();
    assert(is_walk(more, shorter)) by {
        assert forall|i: int| #![trigger shorter[i]] 0 <= i < shorter.len() - 1 implies linked(
            more,
            shorter[i],
            shorter[i + 1],
        ) by {
            assert(shorter[i] == path[i] && shorter[i + 1] == path[i + 1]);
        }
    }
    assert(linked(more, path[n - 2], path[n - 2 + 1]));
    linked_by_last(more, x, to);
    assert(more.drop_last() =~= edges);
    let own = seq![edge.prereq_id@];
    assert(leads(edges, own, edge.prereq_id@, edge.prereq_id@));
    let start = seq![path[0]];
    assert(leads(edges, start, path[0], path[0]));
    assert(reaches(edges, edge.prereq_id@, edge.prereq_id@));
    assert(reaches(edges, path[0], path[0]));
    assert(path.last() == to);
    if n == 2 {
        assert(path[0] == x);
        if linked(edges, x, to) {
            reaches_step(edges, path[0], x, to);
        } else {
            assert(reaches(edges, path[0], edge.skill_id@));
        }
    } else {
        walk_with_edge(edges, edge, shorter);
        assert(shorter.last() == x && shorter[0] == path[0]);
        let straight = exists|p: Seq<Seq<char>>| p.len() >= 2 && leads(edges, p, path[0], x);
        if straight {
            let p = choose|p: Seq<Seq<char>>| p.len() >= 2 && leads(edges, p, path[0], x);
            assert(reaches(edges, path[0], x));
        }
        if linked(edges, x, to) {
            if straight {
                reaches_step(edges, path[0], x, to);
            } else {
                reaches_step(edges, edge.prereq_id@, x, to);
            }
        } else {
            assert(x == edge.skill_id@ && to == edge.prereq_id@);
            assert(reaches(edges, path[0], edge.skill_id@));
        }
    }
}

/// Adding an edge to an acyclic graph closes a cycle exactly when the skill can already
/// be reached from the prerequisite.
pub proof fn edge_closes_cycle_iff(edges: Seq<PrereqEdge>, edge: PrereqEdge)
    requires
        !cyclic(edges),
    ensures
        cyclic(edges.push(edge)) <==> reaches(edges, edge.prereq_id@, edge.skill_id@),
{
    let more = edges.push(edge);
    if cyclic(more) {
        let path = choose|path: Seq<Seq<char>>| is_cycle(more, path);
        assert(is_walk(more, path));
        walk_with_edge(edges, edge, path);
        if exists|p: Seq<Seq<char>>| p.len() >= 2 && leads(edges, p, path[0], path.last()) {
            let p = choose|p: Seq<Seq<char>>|
                p.len() >= 2 && leads(edges, p, path[0], path.last());
            assert(is_cycle(edges, p));
        }
        reaches_transitive(edges, edge.prereq_id@, path[0], edge.skill_id@);
    }
    if reaches(edges, edge.prereq_id@, edge.skill_id@) {
        let path = choose|path: Seq<Seq<char>>|
            leads(edges, path, edge.prereq_id@, edge.skill_id@);
        let around = path.push(edge.prereq_id@);
        assert forall|i: int| #![trigger around[i]] 0 <= i < around.len() - 1 implies linked(
            more,
            around[i],
            around[i + 1],
        ) by {
            linked_by_last(more, around[i], around[i + 1]);
            assert(more.drop_last() =~= edges);
            assert(around[i] == path[i]);
            if i < path.len() - 1 {
                assert(around[i + 1] == path[i + 1]);
            }
        }
        assert(is_cycle(more, around));
    }
}

/// A cycle is a walk over edges on record that comes back to where it started, and a graph is
/// cyclic exactly where there is one.
pub proof fn a_cycle_goes_over_edges_on_record(edges: Seq<PrereqEdge>, path: Seq<Seq<char>>)
    ensures
        is_cycle(edges, path) <==> {
            &&& path.len() >= 2
            &&& path[0] == path[path.len() - 1]
            &&& forall|i: int|
                #![trigger path[i]]
                0 <= i < path.len() - 1 ==> exists|k: int|
                    0 <= k < edges.len() && (#[trigger] edges[k]).skill_id@ == path[i]
                        && edges[k].prereq_id@ == path[i + 1]
        },
        is_cycle(edges, path) ==> cyclic(edges),
        (forall|other: Seq<Seq<char>>| !is_cycle(edges, other)) ==> !cyclic(edges),
{
}

/// What can be reached from a skill: itself, whatever an edge leads to, and what can be
/// reached from there; nothing else.
pub proof fn prerequisites_are_reached_over_edges(
    edges: Seq<PrereqEdge>,
    from: Seq<char>,
    to: Seq<char>,
    path: Seq<Seq<char>>,
)
    ensures
        reaches(edges, from, from),
        leads(edges, path, from, to) <==> {
            &&& path.len() >= 1
            &&& path[0] == from
            &&& path[path.len() - 1] == to
            &&& forall|i: int|
                #![trigger path[i]]
                0 <= i < path.len() - 1 ==> exists|k: int|
                    0 <= k < edges.len() && (#[trigger] edges[k]).skill_id@ == path[i]
                        && edges[k].prereq_id@ == path[i + 1]
        },
        leads(edges, path, from, to) ==> reaches(edges, from, to),
        (forall|other: Seq<Seq<char>>| !leads(edges, other, from, to)) ==> !reaches(edges, from, to),
{
    let own = seq![from];
    assert(leads(edges, own, from, from));
}

/// A skill is shown by the label that is found for it, and by its id where none is.
pub proof fn a_skill_is_shown_by_its_label<F: Fn(&str) -> Option<String>>(
    label: F,
    key: &str,
    name: Seq<char>,
)
    requires
        shown_as(label, key@, name),
    ensures
        exists|other: &str, found: Option<String>|
            other@ == key@ && #[trigger] call_ensures(label, (other,), found) && (
            found matches Some(text) ==> name == text@) && (found is None ==> name == key@),
{
}

/// Whether a walk from `skill` can come to a cycle.
pub open spec fn runs_into_a_cycle(edges: Seq<PrereqEdge>, skill: Seq<char>) -> bool {
    exists|cycle: Seq<Seq<char>>| #[trigger]
        is_cycle(edges, cycle) && reaches(edges, skill, cycle[0])
}

/// The first walk that runs back into itself: it starts at the first skill by name from which
/// a cycle can be come to, takes at each skill the first prerequisite by name from which one
/// can, and ends with the first skill that it meets again.
pub open spec fn is_first_walk(edges: Seq<PrereqEdge>, walk: Seq<Seq<char>>) -> bool {
    &&& walk.len() >= 2
    &&& is_walk(edges, walk)
    &&& walk.drop_last().no_duplicates()
    &&& walk.drop_last().contains(walk.last())
    &&& forall|skill: Seq<char>| #[trigger]
        precedes(skill, walk[0]) ==> !runs_into_a_cycle(edges, skill)
    &&& forall|i: int, prereq: Seq<char>|
        #![trigger walk[i], linked(edges, walk[i], prereq)]
        0 <= i < walk.len() - 1 && linked(edges, walk[i], prereq) && precedes(prereq, walk[i + 1])
            ==> !runs_into_a_cycle(edges, prereq)
}

/// Whether `path` is the part of `walk` that goes round.
pub open spec fn goes_round(walk: Seq<Seq<char>>, path: Seq<Seq<char>>) -> bool {
    exists|at: int|
        0 <= at < walk.len() - 1 && #[trigger] walk[at] == walk.last() && path == walk.skip(at)
}

/// What the search keeps about the roots it has left behind.
spec fn roots_kept(stack: Seq<(int, int)>, marks: Seq<Mark>, root: int) -> bool {
    &&& 0 <= root
    &&& forall|i: int| 0 <= i < root && i < marks.len() ==> #[trigger] marks[i] == Mark::Done
    &&& stack.len() > 0 ==> stack[0].0 == root
}

/// Along a walk from a node that was left behind, every node was left behind, each before the
/// one it is a prerequisite of.
proof fn walks_stay_done(
    edges: Seq<PrereqEdge>,
    stack: Seq<(int, int)>,
    marks: Seq<Mark>,
    rank: Seq<int>,
    next: int,
    path: Seq<Seq<char>>,
    upto: int,
)
    requires
        done_kept(graph_of(edges), stack, marks, rank, next),
        marks.len() == graph_of(edges).len(),
        0 <= upto < path.len(),
        is_walk(edges, path),
        skills_of(edges).contains(path[0]),
        marks[position(skills_of(edges), path[0])] == Mark::Done,
        skills_of(edges).contains(path[upto]),
    ensures
        marks[position(skills_of(edges), path[upto])] == Mark::Done,
        rank[position(skills_of(edges), path[upto])] <= rank[position(skills_of(edges), path[0])],
        upto > 0 ==> rank[position(skills_of(edges), path[upto])] < rank[position(
            skills_of(edges),
            path[0],
        )],
    decreases upto,
{
    if upto > 0 {
        let skills = skills_of(edges);
        let graph = graph_of(edges);
        let from = path[upto - 1];
        let to = path[upto];
        assert(linked(edges, from, to));
        skills_are_linked(edges);
        assert(skills.contains(from));
        walks_stay_done(edges, stack, marks, rank, next, path, upto - 1);
        let i = skills.index_of(from);
        prereqs_are_linked(edges, from);
        let prereqs = prereqs_of(edges, from);
        assert(prereqs.contains(to));
        let k = choose|k: int| 0 <= k < prereqs.len() && prereqs[k] == to;
        assert(skills[i] == from);
        assert(graph[i] == prereqs.map_values(|p: Seq<char>| position(skills, p)));
        assert(graph[i][k] == position(skills, to));
        reveal(done_kept);
        assert(settled(marks, graph[i][k]));
    }
}

/// From a skill that was left behind, or that has no prerequisites, no cycle can be come to.
proof fn nothing_done_runs_into_a_cycle(
    edges: Seq<PrereqEdge>,
    stack: Seq<(int, int)>,
    marks: Seq<Mark>,
    rank: Seq<int>,
    next: int,
    skill: Seq<char>,
)
    requires
        done_kept(graph_of(edges), stack, marks, rank, next),
        marks.len() == graph_of(edges).len(),
        skills_of(edges).contains(skill) ==> marks[position(skills_of(edges), skill)]
            == Mark::Done,
    ensures
        !runs_into_a_cycle(edges, skill),
{
    if runs_into_a_cycle(edges, skill) {
        let skills = skills_of(edges);
        skills_are_linked(edges);
        let cycle = choose|cycle: Seq<Seq<char>>| #[trigger]
            is_cycle(edges, cycle) && reaches(edges, skill, cycle[0]);
        let path = choose|path: Seq<Seq<char>>| leads(edges, path, skill, cycle[0]);
        assert(linked(edges, cycle[0], cycle[1]));
        assert(skills.contains(cycle[0]));
        assert(path[path.len() - 1] == path.last());
        if path.len() >= 2 {
            assert(linked(edges, path[0], path[1]));
        }
        assert(skills.contains(skill));
        walks_stay_done(edges, stack, marks, rank, next, path, path.len() - 1);
        assert(cycle[cycle.len() - 1] == cycle.last());
        assert(is_walk(edges, cycle));
        walks_stay_done(edges, stack, marks, rank, next, cycle, cycle.len() - 1);
    }
}

/// Names that come before one are at lower positions.
proof fn earlier_names_are_lower(names: Seq<Seq<char>>, i: int, j: int)
    requires
        strictly_sorted(names),
        0 <= i < names.len(),
        0 <= j < names.len(),
        precedes(names[i], names[j]),
    ensures
        i < j,
{
    precedes_irreflexive(names[i]);
    if j < i {
        assert(precedes(names[j], names[i]));
        precedes_transitive(names[i], names[j], names[i]);
    }
}

/// Whether the next prerequisite to look at is on the path.
spec fn closes_here(graph: Seq<Seq<int>>, stack: Seq<(int, int)>, marks: Seq<Mark>) -> bool {
    &&& stack.len() > 0
    &&& stack.last().1 < graph[stack.last().0].len()
    &&& 0 <= graph[stack.last().0][stack.last().1] < graph.len()
    &&& marks[graph[stack.last().0][stack.last().1]] == Mark::Open
}

/// The path up to where it closes.
spec fn steps_of(graph: Seq<Seq<int>>, stack: Seq<(int, int)>) -> Seq<int> {
    nodes_of(stack).push(graph[stack.last().0][stack.last().1])
}

/// Which prerequisite the path takes at its `i`th node.
spec fn taken(stack: Seq<(int, int)>, i: int) -> int {
    if i < stack.len() - 1 {
        stack[i].1 - 1
    } else {
        stack[i].1
    }
}

/// Each step of a path that closes goes to the prerequisite it has taken.
proof fn steps_are_taken(edges: Seq<PrereqEdge>, stack: Seq<(int, int)>, marks: Seq<Mark>, i: int)
    requires
        path_kept(graph_of(edges), stack, marks),
        closes_here(graph_of(edges), stack, marks),
        0 <= i < stack.len(),
    ensures
        ({
            let graph = graph_of(edges);
            let skills = skills_of(edges);
            let from = steps_of(graph, stack)[i];
            let to = steps_of(graph, stack)[i + 1];
            &&& from == stack[i].0
            &&& 0 <= from < skills.len()
            &&& 0 <= to < skills.len()
            &&& 0 <= taken(stack, i) < prereqs_of(edges, skills[from]).len()
            &&& prereqs_of(edges, skills[from])[taken(stack, i)] == skills[to]
            &&& linked(edges, skills[from], skills[to])
        }),
{
    let graph = graph_of(edges);
    let skills = skills_of(edges);
    let steps = steps_of(graph, stack);
    let k = taken(stack, i);
    assert(stack[stack.len() - 1] == stack.last());
    assert(steps[i] == stack[i].0);
    assert(0 <= steps[i] < graph.len() && 0 <= steps[i + 1] < graph.len() && 0 <= k
        < graph[steps[i]].len() && graph[steps[i]][k] == steps[i + 1]) by {
        reveal(path_kept);
        if i < stack.len() - 1 {
            assert(stack[i + 1].0 == steps[i + 1]);
        }
    }
    let prereqs = prereqs_of(edges, skills[steps[i]]);
    assert(graph[steps[i]] == prereqs.map_values(|p: Seq<char>| position(skills, p)));
    assert(graph[steps[i]][k] == position(skills, prereqs[k]));
    assert(skills[steps[i + 1]] == prereqs[k]);
    prereqs_are_linked(edges, skills[steps[i]]);
    assert(prereqs.contains(prereqs[k]));
}

/// The prerequisites before the one that the path has taken lead to no cycle.
proof fn what_was_passed_over_is_settled(
    edges: Seq<PrereqEdge>,
    stack: Seq<(int, int)>,
    marks: Seq<Mark>,
    rank: Seq<int>,
    next: int,
    i: int,
    prereq: Seq<char>,
)
    requires
        path_kept(graph_of(edges), stack, marks),
        done_kept(graph_of(edges), stack, marks, rank, next),
        closes_here(graph_of(edges), stack, marks),
        0 <= i < stack.len(),
        linked(edges, skills_of(edges)[stack[i].0], prereq),
        precedes(prereq, skills_of(edges)[steps_of(graph_of(edges), stack)[i + 1]]),
    ensures
        !runs_into_a_cycle(edges, prereq),
{
    let graph = graph_of(edges);
    let skills = skills_of(edges);
    let node = stack[i].0;
    path_facts(graph, stack, marks);
    steps_are_taken(edges, stack, marks, i);
    let prereqs = prereqs_of(edges, skills[node]);
    prereqs_are_linked(edges, skills[node]);
    assert(prereqs.contains(prereq));
    let k = choose|k: int| 0 <= k < prereqs.len() && prereqs[k] == prereq;
    earlier_names_are_lower(prereqs, k, taken(stack, i));
    assert(graph[node] == prereqs.map_values(|p: Seq<char>| position(skills, p)));
    assert(graph[node][k] == position(skills, prereq));
    assert(settled(marks, graph[stack[i].0][k])) by {
        reveal(done_kept);
    }
    nothing_done_runs_into_a_cycle(edges, stack, marks, rank, next, prereq);
}

/// The nodes of a path have different names.
proof fn the_path_names_no_skill_twice(
    edges: Seq<PrereqEdge>,
    stack: Seq<(int, int)>,
    marks: Seq<Mark>,
    i: int,
    j: int,
)
    requires
        path_kept(graph_of(edges), stack, marks),
        0 <= i < j < stack.len(),
    ensures
        skills_of(edges)[stack[i].0] != skills_of(edges)[stack[j].0],
{
    let skills = skills_of(edges);
    reveal(path_kept);
    skills_are_linked(edges);
    assert(stack[i].0 != stack[j].0);
    precedes_irreflexive(skills[stack[i].0]);
    if stack[i].0 < stack[j].0 {
        assert(precedes(skills[stack[i].0], skills[stack[j].0]));
    } else {
        assert(precedes(skills[stack[j].0], skills[stack[i].0]));
    }
}

/// Where the path runs back into itself, it is the first walk that does.
proof fn the_path_that_closes_is_first(
    edges: Seq<PrereqEdge>,
    stack: Seq<(int, int)>,
    marks: Seq<Mark>,
    root: int,
    rank: Seq<int>,
    next: int,
)
    requires
        path_kept(graph_of(edges), stack, marks),
        done_kept(graph_of(edges), stack, marks, rank, next),
        roots_kept(stack, marks, root),
        closes_here(graph_of(edges), stack, marks),
    ensures
        ({
            let walk = steps_of(graph_of(edges), stack).map_values(|i: int| skills_of(edges)[i]);
            let closed = closed_at(stack, graph_of(edges)[stack.last().0][stack.last().1]);
            &&& is_first_walk(edges, walk)
            &&& goes_round(walk, closed.map_values(|i: int| skills_of(edges)[i]))
        }),
{
    let graph = graph_of(edges);
    let skills = skills_of(edges);
    let nodes = nodes_of(stack);
    let child = graph[stack.last().0][stack.last().1];
    let steps = steps_of(graph, stack);
    let walk = steps.map_values(|i: int| skills[i]);
    path_facts(graph, stack, marks);
    assert forall|i: int| #![trigger walk[i]] 0 <= i < walk.len() - 1 implies linked(
        edges,
        walk[i],
        walk[i + 1],
    ) && walk[i] == skills[stack[i].0] by {
        steps_are_taken(edges, stack, marks, i);
    }
    let before = walk.drop_last();
    assert forall|i: int, j: int|
        0 <= i < before.len() && 0 <= j < before.len() && i != j implies before[i]
        != before[j] by {
        assert(walk[i] == skills[stack[i].0] && walk[j] == skills[stack[j].0]);
        if i < j {
            the_path_names_no_skill_twice(edges, stack, marks, i, j);
        } else {
            the_path_names_no_skill_twice(edges, stack, marks, j, i);
        }
    }
    assert(goes_round(walk, closed_at(stack, child).map_values(|i: int| skills[i]))
        && before.contains(walk.last())) by {
        path_closes(graph, stack, marks);
        let at = nodes.index_of(child);
        assert(nodes[at] == child);
        assert(before[at] == walk.last());
        assert(walk[at] == walk.last());
        assert(closed_at(stack, child).map_values(|i: int| skills[i]) =~= walk.skip(at));
    }
    assert forall|skill: Seq<char>| #[trigger]
        precedes(skill, walk[0]) implies !runs_into_a_cycle(edges, skill) by {
        steps_are_taken(edges, stack, marks, 0);
        if skills.contains(skill) {
            skills_are_linked(edges);
            let i = skills.index_of(skill);
            earlier_names_are_lower(skills, i, root);
            assert(marks[i] == Mark::Done);
        }
        nothing_done_runs_into_a_cycle(edges, stack, marks, rank, next, skill);
    }
    assert forall|i: int, prereq: Seq<char>|
        #![trigger walk[i], linked(edges, walk[i], prereq)]
        0 <= i < walk.len() - 1 && linked(edges, walk[i], prereq) && precedes(
            prereq,
            walk[i + 1],
        ) implies !runs_into_a_cycle(edges, prereq) by {
        what_was_passed_over_is_settled(edges, stack, marks, rank, next, i, prereq);
    }
}

/// The path that a search comes back with is where the first walk that runs back into itself
/// goes round.
proof fn search_finds_the_first_walk(
    edges: Seq<PrereqEdge>,
    stack: Seq<(int, int)>,
    marks: Seq<Mark>,
    root: int,
    rank: Seq<int>,
    next: int,
)
    requires
        path_kept(graph_of(edges), stack, marks),
        done_kept(graph_of(edges), stack, marks, rank, next),
        roots_kept(stack, marks, root),
    ensures
        search(graph_of(edges), stack, marks, root) matches Some(path) ==> exists|
            walk: Seq<Seq<char>>,
        | #[trigger]
            is_first_walk(edges, walk) && goes_round(
                walk,
                path.map_values(|i: int| skills_of(edges)[i]),
            ),
    decreases unseen(marks), graph_of(edges).len() - root, pending(graph_of(edges), stack),
{
    let graph = graph_of(edges);
    path_facts(graph, stack, marks);
    if stack.len() == 0 {
        assert(stack =~= seq![]);
        if root < graph.len() {
            if marks[root] != Mark::Unseen {
                assert(marks[root] == Mark::Done) by {
                    reveal(path_kept);
                }
                search_finds_the_first_walk(edges, stack, marks, root + 1, rank, next);
            } else {
                unseen_after(marks, root, Mark::Open);
                path_started(graph, marks, rank, next, root);
                assert(stack.push((root, 0)) =~= seq![(root, 0int)]);
                search_finds_the_first_walk(
                    edges,
                    stack.push((root, 0)),
                    marks.update(root, Mark::Open),
                    root,
                    rank,
                    next,
                );
            }
        }
    } else {
        let (node, index) = stack.last();
        if index >= graph[node].len() {
            unseen_after(marks, node, Mark::Done);
            path_popped(graph, stack, marks, rank, next);
            search_finds_the_first_walk(
                edges,
                stack.drop_last(),
                marks.update(node, Mark::Done),
                root,
                rank.update(node, next),
                next + 1,
            );
        } else {
            let child = graph[node][index];
            let ahead = stack.drop_last().push((node, index + 1));
            assert(ahead.drop_last() =~= stack.drop_last());
            assert(ahead.last() == (node, index + 1));
            assert(pending(graph, ahead) < pending(graph, stack));
            assert(ahead[0].0 == stack[0].0);
            if child < 0 || child >= graph.len() || marks[child] == Mark::Done {
                path_advanced(graph, stack, marks, rank, next);
                search_finds_the_first_walk(edges, ahead, marks, root, rank, next);
            } else if marks[child] == Mark::Open {
                the_path_that_closes_is_first(edges, stack, marks, root, rank, next);
                assert(nodes_of(ahead) =~= nodes_of(stack));
            } else {
                unseen_after(marks, child, Mark::Open);
                path_deepened(graph, stack, marks, rank, next);
                search_finds_the_first_walk(
                    edges,
                    ahead.push((child, 0)),
                    marks.update(child, Mark::Open),
                    root,
                    rank,
                    next,
                );
            }
        }
    }
}

/// The cycle that is reported is the first one there is: where the walk goes round that starts
/// at the first skill by name from which a cycle can be come to, and that takes at each skill
/// the first such prerequisite by name.
pub proof fn the_first_cycle_is_met_first(edges: Seq<PrereqEdge>)
    ensures
        first_cycle(edges) matches Some(path) ==> exists|walk: Seq<Seq<char>>| #[trigger]
            is_first_walk(edges, walk) && goes_round(walk, path),
{
    let graph = graph_of(edges);
    let marks = Seq::new(graph.len(), |i: int| Mark::Unseen);
    let rank = Seq::new(graph.len(), |i: int| 0int);
    path_begins(graph, marks, rank);
    search_finds_the_first_walk(edges, seq![], marks, 0, rank, 0);
}

/// Every skill on a walk that runs back into itself can come to a cycle.
proof fn a_closing_walk_runs_into_a_cycle(edges: Seq<PrereqEdge>, walk: Seq<Seq<char>>, i: int)
    requires
        is_first_walk(edges, walk),
        0 <= i < walk.len(),
    ensures
        runs_into_a_cycle(edges, walk[i]),
{
    let at = choose|at: int|
        0 <= at < walk.drop_last().len() && walk.drop_last()[at] == walk.last();
    let cycle = walk.skip(at);
    assert forall|k: int| #![trigger cycle[k]] 0 <= k < cycle.len() - 1 implies linked(
        edges,
        cycle[k],
        cycle[k + 1],
    ) by {
        assert(cycle[k] == walk[at + k] && cycle[k + 1] == walk[at + k + 1]);
    }
    assert(is_cycle(edges, cycle));
    let rest = walk.skip(i);
    assert forall|k: int| #![trigger rest[k]] 0 <= k < rest.len() - 1 implies linked(
        edges,
        rest[k],
        rest[k + 1],
    ) by {
        assert(rest[k] == walk[i + k] && rest[k + 1] == walk[i + k + 1]);
    }
    assert(rest.last() == walk.last());
    assert(leads(edges, rest, walk[i], cycle[0]));
}

/// Two first walks go the same way.
proof fn first_walks_agree(
    edges: Seq<PrereqEdge>,
    a: Seq<Seq<char>>,
    b: Seq<Seq<char>>,
    i: int,
)
    requires
        is_first_walk(edges, a),
        is_first_walk(edges, b),
        0 <= i < a.len(),
        i < b.len(),
    ensures
        a[i] == b[i],
    decreases i,
{
    a_closing_walk_runs_into_a_cycle(edges, a, i);
    a_closing_walk_runs_into_a_cycle(edges, b, i);
    precedes_total(a[i], b[i]);
    if i > 0 {
        first_walks_agree(edges, a, b, i - 1);
        assert(linked(edges, a[i - 1], a[i]));
        assert(linked(edges, b[i - 1], b[i]));
    }
}

/// A first walk ends where it first meets a skill again, so that none goes on beyond another.
proof fn no_first_walk_is_longer(edges: Seq<PrereqEdge>, a: Seq<Seq<char>>, b: Seq<Seq<char>>)
    requires
        is_first_walk(edges, a),
        is_first_walk(edges, b),
    ensures
        b.len() <= a.len(),
{
    if a.len() < b.len() {
        let end = a.len() - 1;
        let at = choose|at: int| 0 <= at < a.drop_last().len() && a.drop_last()[at] == a.last();
        first_walks_agree(edges, a, b, at);
        first_walks_agree(edges, a, b, end);
        assert(b.drop_last()[at] == b.drop_last()[end]);
    }
}

/// There is one first walk, and so one cycle to report.
pub proof fn there_is_one_first_cycle(
    edges: Seq<PrereqEdge>,
    a: Seq<Seq<char>>,
    b: Seq<Seq<char>>,
    path: Seq<Seq<char>>,
    other: Seq<Seq<char>>,
)
    requires
        is_first_walk(edges, a),
        is_first_walk(edges, b),
        goes_round(a, path),
        goes_round(b, other),
    ensures
        a == b,
        path == other,
{
    no_first_walk_is_longer(edges, a, b);
    no_first_walk_is_longer(edges, b, a);
    assert forall|i: int| 0 <= i < a.len() implies a[i] == b[i] by {
        first_walks_agree(edges, a, b, i);
    }
    assert(a =~= b);
    let x = choose|at: int|
        0 <= at < a.len() - 1 && #[trigger] a[at] == a.last() && path == a.skip(at);
    let y = choose|at: int|
        0 <= at < b.len() - 1 && #[trigger] b[at] == b.last() && other == b.skip(at);
    assert(a.drop_last()[x] == a.drop_last()[y]);
}

} // verus!
