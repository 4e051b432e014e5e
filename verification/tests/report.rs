use aws_sg_cleanup::{ExistingGroup, ReferenceMap, ReportRow, SecurityGroups, StringSet};

fn strings(items: &[&str]) -> Vec<String> {
    items.iter().map(|s| s.to_string()).collect()
}

fn group(region: &str, id: &str, referenced: &[&str]) -> ExistingGroup {
    ExistingGroup::new(
        region.to_string(),
        id.to_string(),
        format!("{}-name", id),
        "in use".to_string(),
        strings(referenced),
    )
}

fn aggregate(references: &[(&str, &[&str])], groups: Vec<ExistingGroup>) -> SecurityGroups {
    let mut map = ReferenceMap::new();
    for (key, tags) in references {
        map.extend_list(&key.to_string(), &strings(tags));
    }
    SecurityGroups::from_parts(map, groups)
}

fn row(region: &str, id: &str, sources: &[&str], references: &str) -> ReportRow {
    ReportRow {
        region: region.to_string(),
        group_id: id.to_string(),
        group_name: format!("{}-name", id),
        sources: strings(sources),
        references: references.to_string(),
        unused: sources.is_empty(),
    }
}

fn sample() -> SecurityGroups {
    aggregate(
        &[("sg-a", &["ec2@us", "rds@us", "ec2@us"]), ("sg-c", &["lambda@eu"])],
        vec![
            group("us-east-1", "sg-a", &[]),
            group("eu-west-1", "sg-c", &["sg-d"]),
            group("us-east-1", "sg-b", &[]),
            group("ap-south-1", "sg-e", &[]),
            group("eu-west-1", "sg-d", &[]),
            group("eu-west-10", "sg-f", &[]),
            group("eu-west-1", "sg-g", &[]),
        ],
    )
}

#[test]
fn the_report_is_in_the_order_of_the_regions() {
    let rows = sample().report();
    assert_eq!(
        rows,
        vec![
            row("ap-south-1", "sg-e", &[], ""),
            row("eu-west-1", "sg-c", &["lambda@eu"], "lambda@eu"),
            row("eu-west-1", "sg-d", &["lambda@eu"], "lambda@eu"),
            row("eu-west-1", "sg-g", &[], ""),
            row("eu-west-10", "sg-f", &[], ""),
            row("us-east-1", "sg-a", &["ec2@us", "rds@us"], "ec2@us, rds@us"),
            row("us-east-1", "sg-b", &[], ""),
        ]
    );
}

#[test]
fn a_row_lists_each_source_once() {
    let groups = aggregate(
        &[("sg-1", &["b@r", "a@r", "b@r", "c@r"])],
        vec![group("r", "sg-1", &[]), group("r", "sg-2", &[])],
    );
    let used = groups.report_row(&groups.existing_groups()[0]);
    assert_eq!(used, row("r", "sg-1", &["b@r", "a@r", "c@r"], "b@r, a@r, c@r"));
    assert!(!used.unused);
    let unused = groups.report_row(&groups.existing_groups()[1]);
    assert_eq!(unused, row("r", "sg-2", &[], ""));
    assert!(unused.unused);
    let found = groups.collect_referencing_services("sg-1", StringSet::new());
    assert_eq!(found.to_vec(), used.sources);
}

#[test]
fn the_report_of_nothing_is_empty() {
    assert!(SecurityGroups::default().report().is_empty());
    assert!(SecurityGroups::default().removal_plan().is_empty());
}

#[test]
fn the_removal_plan_cuts_the_unused_groups_into_runs() {
    let groups = sample();
    let plan = groups.removal_plan();
    let shape: Vec<(String, Vec<String>)> = plan
        .iter()
        .map(|batch| {
            (batch.region.clone(), batch.groups.iter().map(|g| g.group_id().clone()).collect())
        })
        .collect();
    assert_eq!(
        shape,
        vec![
            ("us-east-1".to_string(), strings(&["sg-b"])),
            ("ap-south-1".to_string(), strings(&["sg-e"])),
            ("eu-west-10".to_string(), strings(&["sg-f"])),
            ("eu-west-1".to_string(), strings(&["sg-g"])),
        ]
    );
    let listed: Vec<&ExistingGroup> = plan.iter().flat_map(|batch| batch.groups.clone()).collect();
    assert_eq!(listed, groups.find_unused());
}

#[test]
fn neighbours_of_one_region_share_a_batch() {
    let groups = aggregate(
        &[("sg-3", &["ec2@a"])],
        vec![
            group("a", "sg-1", &[]),
            group("a", "sg-2", &[]),
            group("a", "sg-3", &[]),
            group("a", "sg-4", &[]),
            group("b", "sg-5", &[]),
            group("a", "sg-6", &[]),
        ],
    );
    let plan = groups.removal_plan();
    let shape: Vec<(String, Vec<String>)> = plan
        .iter()
        .map(|batch| {
            (batch.region.clone(), batch.groups.iter().map(|g| g.group_id().clone()).collect())
        })
        .collect();
    assert_eq!(
        shape,
        vec![
            ("a".to_string(), strings(&["sg-1", "sg-2", "sg-4"])),
            ("b".to_string(), strings(&["sg-5"])),
            ("a".to_string(), strings(&["sg-6"])),
        ]
    );
}
