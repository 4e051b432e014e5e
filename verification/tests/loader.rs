use std::collections::VecDeque;

use aws_sg_cleanup::{
    Admission, ConcurrentLoader, ExistingGroup, GroupReference, LoadedData, SecurityGroups,
    MAX_IN_FLIGHT,
};

fn strings(items: &[&str]) -> Vec<String> {
    items.iter().map(|s| s.to_string()).collect()
}

fn references(source: &str, ids: &[&str]) -> LoadedData {
    LoadedData::References(
        ids.iter()
            .map(|id| GroupReference { group_id: id.to_string(), source: source.to_string() })
            .collect(),
    )
}

fn group(id: &str, description: &str) -> ExistingGroup {
    ExistingGroup::new(
        "r1".to_string(),
        id.to_string(),
        id.to_string(),
        description.to_string(),
        vec![],
    )
}

#[test]
fn the_cap_is_eight() {
    assert_eq!(MAX_IN_FLIGHT, 8);
}

#[test]
fn a_fresh_loader_is_idle() {
    let loader = ConcurrentLoader::new();
    assert_eq!(loader.in_flight(), 0);
    assert_eq!(loader.submitted(), 0);
    assert_eq!(loader.drained(), 0);
    assert!(!loader.is_full());
    let groups = ConcurrentLoader::default().collect(vec![]);
    assert!(groups.external_references().is_empty());
    assert!(groups.existing_groups().is_empty());
}

#[test]
fn twenty_tasks_never_exceed_the_cap() {
    let mut loader = ConcurrentLoader::new();
    let mut pending: VecDeque<LoadedData> = VecDeque::new();
    for task in 0..20 {
        match loader.spawn_concurrently() {
            Admission::Admitted => {}
            Admission::DrainFirst => {
                assert_eq!(loader.in_flight(), MAX_IN_FLIGHT);
                // the oldest task finishes while it is awaited
                loader.task_completed();
                assert_eq!(loader.in_flight(), MAX_IN_FLIGHT - 1);
                loader.spawn_after_drain(pending.pop_front().unwrap());
            }
        }
        assert!(loader.in_flight() <= MAX_IN_FLIGHT);
        assert_eq!(loader.submitted(), task + 1);
        pending.push_back(references(&format!("svc{}@r", task), &[&format!("sg-{}", task)]));
    }
    assert_eq!(loader.in_flight(), 8);
    assert_eq!(loader.drained(), 12);
    assert_eq!(pending.len(), 8);
    while loader.in_flight() > 0 {
        loader.task_completed();
        assert!(loader.in_flight() <= MAX_IN_FLIGHT);
    }
    assert_eq!(loader.in_flight(), 0);
    assert_eq!(loader.drained() + pending.len(), loader.submitted());
    let groups = loader.collect(pending.into_iter().collect());
    assert_eq!(groups.external_references().len(), 20);
    let expected: Vec<String> = (0..20).map(|task| format!("sg-{}", task)).collect();
    assert_eq!(groups.external_references().keys(), expected);
    for task in 0..20 {
        assert_eq!(
            groups.external_references().get(&format!("sg-{}", task)),
            Some(&vec![format!("svc{}@r", task)])
        );
    }
}

#[test]
fn the_first_eight_tasks_are_admitted_at_once() {
    let mut loader = ConcurrentLoader::new();
    for task in 0..8 {
        assert!(!loader.is_full());
        assert_eq!(loader.spawn_concurrently(), Admission::Admitted);
        assert_eq!(loader.in_flight(), task + 1);
    }
    assert!(loader.is_full());
    assert_eq!(loader.spawn_concurrently(), Admission::DrainFirst);
    assert_eq!(loader.in_flight(), 8);
    assert_eq!(loader.submitted(), 8);
    assert_eq!(loader.drained(), 0);
}

#[test]
fn a_result_that_was_ready_before_lets_a_ninth_task_in() {
    let mut loader = ConcurrentLoader::new();
    for _ in 0..8 {
        assert_eq!(loader.spawn_concurrently(), Admission::Admitted);
    }
    // while the oldest result is awaited, the second task finishes too
    assert_eq!(loader.spawn_concurrently(), Admission::DrainFirst);
    loader.task_completed();
    loader.task_completed();
    loader.spawn_after_drain(references("a@r", &["g0"]));
    assert_eq!(loader.in_flight(), 7);
    assert_eq!(loader.spawn_concurrently(), Admission::Admitted);
    assert_eq!(loader.in_flight(), 8);
    // the loader is full, and the oldest pending result is ready at once
    assert_eq!(loader.spawn_concurrently(), Admission::DrainFirst);
    loader.spawn_after_drain(references("a@r", &["g1"]));
    assert_eq!(loader.in_flight(), 9);
    assert_eq!(loader.submitted(), 11);
    assert_eq!(loader.drained(), 2);
}

#[test]
fn a_task_without_data_still_counts() {
    let mut loader = ConcurrentLoader::new();
    assert_eq!(loader.spawn_concurrently(), Admission::Admitted);
    assert_eq!(loader.spawn_concurrently(), Admission::Admitted);
    loader.task_completed();
    loader.hand_over(references("ec2@r", &[]));
    assert_eq!(loader.in_flight(), 1);
    assert_eq!(loader.drained(), 1);
    loader.task_completed();
    let groups = loader.collect(vec![LoadedData::ExistingGroups(vec![])]);
    assert!(groups.external_references().is_empty());
    assert!(groups.existing_groups().is_empty());
}

#[test]
fn collect_merges_earlier_results_first() {
    let mut loader = ConcurrentLoader::new();
    for _ in 0..3 {
        assert_eq!(loader.spawn_concurrently(), Admission::Admitted);
    }
    loader.task_completed();
    loader.hand_over(references("ec2@r1", &["sg-1", "sg-2"]));
    loader.task_completed();
    loader.task_completed();
    let groups = loader.collect(vec![
        LoadedData::ExistingGroups(vec![
            group("sg-1", "one"),
            group("sg-0", "default VPC security group"),
            group("sg-3", "three"),
        ]),
        references("rds@r1", &["sg-2", "sg-4", "sg-2"]),
    ]);
    assert_eq!(groups.external_references().keys(), strings(&["sg-1", "sg-2", "sg-4"]));
    assert_eq!(groups.external_references().get("sg-1"), Some(&strings(&["ec2@r1"])));
    assert_eq!(
        groups.external_references().get("sg-2"),
        Some(&strings(&["ec2@r1", "rds@r1", "rds@r1"]))
    );
    assert_eq!(groups.external_references().get("sg-4"), Some(&strings(&["rds@r1"])));
    let ids: Vec<&String> = groups.existing_groups().iter().map(|g| g.group_id()).collect();
    assert_eq!(ids, vec!["sg-1", "sg-3"]);
    let unused: Vec<&String> = groups.find_unused().iter().map(|g| g.group_id()).collect();
    assert_eq!(unused, vec!["sg-3"]);
}

#[test]
fn one_fetch_amounts_to_an_aggregate() {
    let from_references = SecurityGroups::from_loaded(&references("alb@r", &["a", "b", "a"]));
    assert_eq!(from_references.external_references().get("a"), Some(&strings(&["alb@r", "alb@r"])));
    assert_eq!(from_references.external_references().get("b"), Some(&strings(&["alb@r"])));
    let from_groups = SecurityGroups::from_loaded(&LoadedData::ExistingGroups(vec![
        group("x", "default VPC security group"),
        group("y", "mine"),
    ]));
    assert!(from_groups.external_references().is_empty());
    assert_eq!(from_groups.existing_groups().len(), 1);
    assert_eq!(from_groups.existing_groups()[0].group_id(), "y");
}

#[test]
fn merge_all_folds_in_order() {
    let parts = vec![
        SecurityGroups::create_from_group_ids("ec2@r1".to_string(), strings(&["a", "b"])),
        SecurityGroups::from_existing_groups(vec![group("a", "one")]),
        SecurityGroups::create_from_group_ids("rds@r1".to_string(), strings(&["b"])),
        SecurityGroups::from_existing_groups(vec![group("c", "two")]),
    ];
    let all = SecurityGroups::merge_all(&parts);
    assert_eq!(all.external_references().get("a"), Some(&strings(&["ec2@r1"])));
    assert_eq!(all.external_references().get("b"), Some(&strings(&["ec2@r1", "rds@r1"])));
    let ids: Vec<&String> = all.existing_groups().iter().map(|g| g.group_id()).collect();
    assert_eq!(ids, vec!["a", "c"]);
    assert!(SecurityGroups::merge_all(&vec![]).existing_groups().is_empty());
}
