//! Cycles, readiness and what to study next.

use std::collections::{BTreeMap, BTreeSet};

use ryu_tuition::double::Double;
use ryu_tuition::graph::{adjacency, find_cycle, would_close_cycle};
use ryu_tuition::models::{BktParams, PrereqEdge, Skill, SkillStatus, DEFAULT_EASE};
use ryu_tuition::prereqs::{add_prereq, name_path, prereq_path_to};
use ryu_tuition::readiness::{ready_skills, study_next, DEFAULT_READY_THRESHOLD};

fn double(v: f64) -> Double {
    Double { bits: v.to_bits() }
}

fn threshold() -> Double {
    Double { bits: DEFAULT_READY_THRESHOLD }
}

fn skill(id: &str, mastery: f64, due_at: Option<i64>, status: SkillStatus) -> Skill {
    Skill {
        id: id.to_string(),
        subject_id: "sub_1".to_string(),
        name: id.to_uppercase(),
        detail: None,
        status,
        source_id: None,
        params: BktParams::default(),
        mastery: double(mastery),
        ease: Double { bits: DEFAULT_EASE },
        interval_days: 0,
        reps: 0,
        lapses: 0,
        due_at,
        last_reviewed_at: None,
        created_at: 0,
        updated_at: 0,
    }
}

fn edges(pairs: &[(&str, &str)]) -> Vec<PrereqEdge> {
    pairs
        .iter()
        .map(|(skill_id, prereq_id)| PrereqEdge {
            skill_id: (*skill_id).to_string(),
            prereq_id: (*prereq_id).to_string(),
        })
        .collect()
}

#[test]
fn cycles_are_found_and_dags_are_left_alone() {
    let cases: [(&str, &[(&str, &str)], bool); 6] = [
        ("an empty graph is acyclic", &[], false),
        ("a chain is acyclic", &[("c", "b"), ("b", "a")], false),
        (
            "a diamond is acyclic — two paths to one prerequisite is fine",
            &[("d", "b"), ("d", "c"), ("b", "a"), ("c", "a")],
            false,
        ),
        ("a three-edge loop is a cycle", &[("a", "b"), ("b", "c"), ("c", "a")], true),
        ("a two-edge loop is a cycle", &[("a", "b"), ("b", "a")], true),
        (
            "a cycle hanging off a long acyclic tail is still found",
            &[("z", "y"), ("y", "x"), ("x", "m"), ("m", "n"), ("n", "m")],
            true,
        ),
    ];
    for (name, pairs, cyclic) in cases {
        let found = find_cycle(&edges(pairs));
        assert_eq!(found.is_some(), cyclic, "{name}");
        if let Some(cycle) = found {
            assert_eq!(cycle.path.first(), cycle.path.last(), "{name}: path does not close");
            let set: BTreeSet<(&str, &str)> = pairs.iter().copied().collect();
            for pair in cycle.path.windows(2) {
                assert!(
                    set.contains(&(pair[0].as_str(), pair[1].as_str())),
                    "{}: {} → {} is not an edge",
                    name,
                    pair[0],
                    pair[1]
                );
            }
        }
    }
}

#[test]
fn the_reported_cycle_is_the_same_one_on_every_run() {
    let forward = edges(&[("a", "b"), ("b", "c"), ("c", "a"), ("d", "a")]);
    let shuffled = edges(&[("d", "a"), ("c", "a"), ("b", "c"), ("a", "b")]);
    let one = find_cycle(&forward).expect("cyclic");
    let two = find_cycle(&shuffled).expect("cyclic");
    assert_eq!(one.path, two.path);
    assert_eq!(one.to_string(), "a → b → c → a");
}

#[test]
fn a_cycle_is_named_with_the_skills_a_person_recognizes() {
    let cycle = find_cycle(&edges(&[("skl_a", "skl_b"), ("skl_b", "skl_a")])).expect("cyclic");
    let names: BTreeMap<&str, &str> =
        [("skl_a", "Limits"), ("skl_b", "Continuity")].into_iter().collect();
    assert_eq!(
        cycle.labelled(|id: &str| names.get(id).map(|n| (*n).to_string())),
        "Limits → Continuity → Limits"
    );
    assert_eq!(cycle.labelled(|_: &str| None), "skl_a → skl_b → skl_a");
}

#[test]
fn adding_an_edge_is_checked_before_it_is_written() {
    let existing = edges(&[("c", "b"), ("b", "a")]);
    assert!(would_close_cycle(&existing, "a", "c").is_some());
    assert!(would_close_cycle(&existing, "d", "a").is_none());
    let self_edge = would_close_cycle(&existing, "a", "a").expect("self-edge is a cycle");
    assert_eq!(self_edge.to_string(), "a → a");
}

#[test]
fn a_graph_that_is_already_cyclic_terminates_instead_of_hanging() {
    let mut broken = edges(&[("a", "b"), ("b", "a")]);
    broken.extend(edges(&[("c", "d"), ("d", "c")]));
    assert!(find_cycle(&broken).is_some());
    assert!(ready_skills(&[], &broken, threshold()).is_empty());
}

#[test]
fn readiness_gates_on_every_prerequisite_being_mastered() {
    let skills = vec![
        skill("skl_a", 0.95, None, SkillStatus::Active),
        skill("skl_b", 0.40, None, SkillStatus::Active),
        skill("skl_c", 0.10, None, SkillStatus::Active),
        skill("skl_d", 0.05, None, SkillStatus::Proposed),
    ];
    let graph = edges(&[("skl_c", "skl_a"), ("skl_c", "skl_b"), ("skl_b", "skl_a")]);
    let ready: Vec<&str> =
        ready_skills(&skills, &graph, threshold()).iter().map(|s| s.id.as_str()).collect();
    assert_eq!(ready, vec!["skl_a", "skl_b"]);
}

#[test]
fn a_prerequisite_that_names_nothing_blocks_rather_than_waves_through() {
    let skills = vec![skill("skl_a", 0.10, None, SkillStatus::Active)];
    let dangling = edges(&[("skl_a", "skl_gone")]);
    assert!(ready_skills(&skills, &dangling, threshold()).is_empty());
}

#[test]
fn study_next_is_the_weakest_ready_skill_and_breaks_every_tie() {
    let now = 1_786_000_000_000;
    let day = 86_400_000;
    let skills = vec![
        skill("skl_a", 0.95, Some(now - day), SkillStatus::Active),
        skill("skl_blocked", 0.05, Some(now - day), SkillStatus::Active),
        skill("skl_mid", 0.40, Some(now + day), SkillStatus::Active),
        skill("skl_due", 0.40, Some(now - day), SkillStatus::Active),
    ];
    let graph = edges(&[("skl_blocked", "skl_mid")]);
    let next = study_next(&skills, &graph, threshold(), now).expect("some skill");
    assert_eq!(next.id, "skl_due");

    let twins = vec![
        skill("skl_zz", 0.40, Some(now), SkillStatus::Active),
        skill("skl_aa", 0.40, Some(now), SkillStatus::Active),
    ];
    assert_eq!(study_next(&twins, &[], threshold(), now).unwrap().id, "skl_aa");
    let reversed: Vec<Skill> = twins.into_iter().rev().collect();
    assert_eq!(study_next(&reversed, &[], threshold(), now).unwrap().id, "skl_aa");
}

#[test]
fn a_never_reviewed_skill_sorts_as_due_now() {
    let now = 1_786_000_000_000;
    let day = 86_400_000;
    let skills = vec![
        skill("skl_new", 0.30, None, SkillStatus::Active),
        skill("skl_later", 0.30, Some(now + 7 * day), SkillStatus::Active),
    ];
    assert_eq!(study_next(&skills, &[], threshold(), now).unwrap().id, "skl_new");
    let mut with_overdue = skills;
    with_overdue.push(skill("skl_overdue", 0.30, Some(now - day), SkillStatus::Active));
    assert_eq!(study_next(&with_overdue, &[], threshold(), now).unwrap().id, "skl_overdue");
}

#[test]
fn nothing_ready_is_none_not_a_panic() {
    let skills = vec![skill("skl_a", 0.10, None, SkillStatus::Archived)];
    assert!(study_next(&skills, &[], threshold(), 0).is_none());
    assert!(study_next(&[], &[], threshold(), 0).is_none());
}

#[test]
fn the_adjacency_is_sorted_and_free_of_repeats() {
    let rows = adjacency(&edges(&[("b", "y"), ("a", "z"), ("b", "x"), ("b", "y"), ("a", "b")]));
    let plain: Vec<(&str, Vec<&str>)> = rows
        .iter()
        .map(|(skill, prereqs)| (skill.as_str(), prereqs.iter().map(|p| p.as_str()).collect()))
        .collect();
    assert_eq!(plain, vec![("a", vec!["b", "z"]), ("b", vec!["x", "y"])]);
}

#[test]
fn the_first_cycle_in_order_is_the_one_reported() {
    // Two cycles: the walk starts at the smallest skill and takes the smallest
    // prerequisite first.
    let two = edges(&[("q", "r"), ("r", "q"), ("a", "c"), ("a", "b"), ("b", "a"), ("c", "a")]);
    assert_eq!(find_cycle(&two).expect("cyclic").to_string(), "a → b → a");
}

#[test]
fn the_walk_upward_names_the_path_or_finds_none() {
    let graph = edges(&[("c", "b"), ("b", "a"), ("x", "y"), ("y", "x")]);
    assert_eq!(
        prereq_path_to(&graph, "c", "a").expect("small"),
        Some(vec!["c".to_string(), "b".to_string(), "a".to_string()])
    );
    assert_eq!(prereq_path_to(&graph, "a", "c").expect("small"), None);
    assert_eq!(prereq_path_to(&graph, "x", "a").expect("small"), None);
    assert_eq!(prereq_path_to(&graph, "a", "a").expect("small"), None);
}

#[test]
fn a_walk_over_too_many_skills_is_refused() {
    let pairs: Vec<PrereqEdge> = (0..10_001)
        .map(|i| PrereqEdge { skill_id: "hub".to_string(), prereq_id: format!("{i}") })
        .collect();
    let err = prereq_path_to(&pairs, "hub", "nowhere").expect_err("too many");
    assert_eq!(
        err.to_string(),
        "the prerequisite graph is too large or already cyclic to check safely"
    );
}

#[test]
fn a_prerequisite_cycle_is_refused_at_write_time_and_names_the_path() {
    let mut a = skill("skl_a", 0.2, None, SkillStatus::Active);
    a.name = "Beta-blocker contraindications".to_string();
    let mut b = skill("skl_b", 0.2, None, SkillStatus::Active);
    b.name = "B".to_string();
    let mut c = skill("skl_c", 0.2, None, SkillStatus::Active);
    c.name = "C".to_string();
    let skills = vec![a, b, c];
    // A needs B, B needs C.
    assert!(add_prereq("skl_a", "skl_b", &skills, &[]).is_ok());
    let one = edges(&[("skl_a", "skl_b")]);
    assert!(add_prereq("skl_b", "skl_c", &skills, &one).is_ok());
    let two = edges(&[("skl_a", "skl_b"), ("skl_b", "skl_c")]);
    // C needing A would close A → B → C → A.
    let err = add_prereq("skl_c", "skl_a", &skills, &two).expect_err("a cycle").to_string();
    assert!(err.contains("cycle"), "{err}");
    assert!(err.contains("Beta-blocker contraindications"), "{err}");
    assert!(add_prereq("skl_a", "skl_a", &skills, &two).is_err(), "self-edge");
}

#[test]
fn a_prerequisite_must_be_in_the_same_subject() {
    let own = skill("skl_1", 0.2, None, SkillStatus::Active);
    let mut foreign = skill("skl_2", 0.2, None, SkillStatus::Active);
    foreign.name = "Foreign".to_string();
    foreign.subject_id = "sub_other".to_string();
    let skills = vec![own, foreign];
    assert!(add_prereq("skl_1", "skl_2", &skills, &[]).is_err());
    assert!(add_prereq("skl_1", "skl_ghost", &skills, &[]).is_err());
}

#[test]
fn a_refused_prerequisite_is_told_why() {
    let skills = vec![
        skill("a", 0.2, None, SkillStatus::Active),
        skill("b", 0.2, None, SkillStatus::Active),
        skill("c", 0.2, None, SkillStatus::Active),
    ];
    let graph = edges(&[("c", "b"), ("b", "a")]);
    let err = add_prereq("a", "c", &skills, &graph).expect_err("closes a cycle");
    assert_eq!(err.status(), 400);
    assert_eq!(err.to_string(), "adding this prerequisite would close a cycle: C → B → A");
    let err = add_prereq("a", "a", &skills, &graph).expect_err("a self-edge");
    assert_eq!(err.to_string(), "a skill cannot be its own prerequisite");
    let err = add_prereq("a", "gone", &skills, &graph).expect_err("no such skill");
    assert_eq!(err.to_string(), "skill gone does not exist");
    let err = add_prereq("lost", "a", &skills, &graph).expect_err("no such skill");
    assert_eq!(err.to_string(), "skill lost does not exist");
    assert_eq!(add_prereq("c", "a", &skills, &graph).expect("admitted"), "sub_1");
}

#[test]
fn a_prerequisite_of_another_subject_is_told_apart() {
    let mut other = skill("b", 0.2, None, SkillStatus::Active);
    other.subject_id = "sub_2".to_string();
    let skills = vec![skill("a", 0.2, None, SkillStatus::Active), other];
    let err = add_prereq("a", "b", &skills, &[]).expect_err("another subject");
    assert_eq!(err.to_string(), "a prerequisite must belong to the same subject");
}

#[test]
fn a_path_is_shown_by_name_and_by_id_where_there_is_no_row() {
    let skills = vec![skill("a", 0.2, None, SkillStatus::Active)];
    assert_eq!(
        name_path(&skills, &["a".to_string(), "gone".to_string()]),
        vec!["A".to_string(), "gone".to_string()]
    );
}

#[test]
fn a_reported_cycle_repeats_only_its_end() {
    let graph = edges(&[("a", "b"), ("b", "c"), ("c", "d"), ("d", "b"), ("a", "d")]);
    let cycle = find_cycle(&graph).expect("a cycle");
    assert_eq!(cycle.path.first(), cycle.path.last());
    let mut open: Vec<&String> = cycle.path[1..].iter().collect();
    open.sort();
    open.dedup();
    assert_eq!(open.len(), cycle.path.len() - 1);
}
