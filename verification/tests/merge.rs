use std::collections::HashMap;

use aws_sg_cleanup::{ExistingGroup, GroupReference, ReferenceMap, SecurityGroups};
use itertools::Itertools;

fn strings(items: &[&str]) -> Vec<String> {
    items.iter().map(|s| s.to_string()).collect()
}

fn references(entries: &[(&str, &[&str])]) -> ReferenceMap {
    let mut map = ReferenceMap::new();
    for (key, tags) in entries {
        map.extend_list(&key.to_string(), &strings(tags));
    }
    map
}

fn as_hash_map(map: &ReferenceMap) -> HashMap<String, Vec<String>> {
    let mut out = HashMap::new();
    for key in map.keys() {
        let tags = map.get(&key).unwrap().clone();
        out.insert(key, tags);
    }
    out
}

fn plain_group(id: &str) -> ExistingGroup {
    ExistingGroup::new(id.to_string(), id.to_string(), id.to_string(), id.to_string(), vec![])
}

fn sorted(mut items: Vec<String>) -> Vec<String> {
    items.sort();
    items
}

fn group_ids(groups: &SecurityGroups) -> Vec<String> {
    groups.existing_groups().iter().map(|g| g.group_id().clone()).collect()
}

#[test]
fn test_merge_id() {
    let mut sg1 = SecurityGroups::default();
    sg1.merge(&SecurityGroups::default());
    assert_eq!(sg1.external_references().len(), 0);
    assert_eq!(sg1.existing_groups().len(), 0);
}

#[test]
fn test_merge() {
    let sg1 = SecurityGroups::from_parts(references(&[("1", &["a", "b"])]), vec![plain_group("1")]);
    let sg2 = SecurityGroups::from_parts(
        references(&[("1", &["c"]), ("2", &["e"])]),
        vec![plain_group("2")],
    );
    let mut sg = sg1.clone();
    sg.merge(&sg2);
    assert_eq!(sg.external_references().len(), 2);
    let mut expected = HashMap::new();
    expected.insert("1".to_string(), strings(&["a", "b", "c"]));
    expected.insert("2".to_string(), strings(&["e"]));
    assert_eq!(as_hash_map(sg.external_references()), expected);
    assert_eq!(sg.existing_groups().len(), 2);
    assert_eq!(
        *sg.existing_groups(),
        itertools::chain(sg1.existing_groups(), sg2.existing_groups()).cloned().collect_vec()
    );
}

#[test]
fn merge_keeps_the_order_of_groups_and_tags() {
    let mut sg = SecurityGroups::from_parts(
        references(&[("x", &["t1"])]),
        vec![plain_group("g1"), plain_group("g2")],
    );
    let other = SecurityGroups::from_parts(
        references(&[("x", &["t2", "t1"]), ("y", &["t3"])]),
        vec![plain_group("g3")],
    );
    sg.merge(&other);
    assert_eq!(group_ids(&sg), strings(&["g1", "g2", "g3"]));
    assert_eq!(sg.external_references().get("x"), Some(&strings(&["t1", "t2", "t1"])));
    assert_eq!(sg.external_references().get("y"), Some(&strings(&["t3"])));
    assert_eq!(sg.external_references().get("z"), None);
    assert_eq!(sg.external_references().keys(), strings(&["x", "y"]));
}

#[test]
fn merge_leaves_the_other_aggregate_alone() {
    let mut sg = SecurityGroups::default();
    let other = SecurityGroups::from_parts(references(&[("x", &["t"])]), vec![plain_group("g")]);
    sg.merge(&other);
    assert_eq!(other.external_references().len(), 1);
    assert_eq!(other.existing_groups().len(), 1);
    assert_eq!(as_hash_map(sg.external_references()), as_hash_map(other.external_references()));
    assert_eq!(*sg.existing_groups(), *other.existing_groups());
}

#[test]
fn merge_order_does_not_change_the_content() {
    let a = SecurityGroups::from_parts(
        references(&[("1", &["a", "b"]), ("3", &["z"])]),
        vec![plain_group("ga")],
    );
    let b = SecurityGroups::from_parts(references(&[("1", &["c"]), ("2", &["e"])]), vec![]);
    let c = SecurityGroups::from_parts(
        references(&[("2", &["e", "a"])]),
        vec![plain_group("gc"), plain_group("ga")],
    );
    let parts = [&a, &b, &c];
    let orders = [[0, 1, 2], [0, 2, 1], [1, 0, 2], [1, 2, 0], [2, 0, 1], [2, 1, 0]];
    let mut expected = HashMap::new();
    expected.insert("1".to_string(), strings(&["a", "b", "c"]));
    expected.insert("2".to_string(), strings(&["a", "e", "e"]));
    expected.insert("3".to_string(), strings(&["z"]));
    for order in orders {
        let mut sg = SecurityGroups::default();
        for index in order {
            sg.merge(parts[index]);
        }
        let content: HashMap<String, Vec<String>> = as_hash_map(sg.external_references())
            .into_iter()
            .map(|(key, tags)| (key, sorted(tags)))
            .collect();
        assert_eq!(content, expected);
        assert_eq!(sorted(group_ids(&sg)), strings(&["ga", "ga", "gc"]));
    }
}

#[test]
fn merge_is_associative() {
    let a = SecurityGroups::from_parts(references(&[("1", &["a"])]), vec![plain_group("ga")]);
    let b = SecurityGroups::from_parts(references(&[("1", &["b"]), ("2", &["c"])]), vec![]);
    let c = SecurityGroups::from_parts(references(&[("2", &["d"])]), vec![plain_group("gc")]);
    let mut left = a.clone();
    left.merge(&b);
    left.merge(&c);
    let mut tail = b.clone();
    tail.merge(&c);
    let mut right = a.clone();
    right.merge(&tail);
    assert_eq!(as_hash_map(left.external_references()), as_hash_map(right.external_references()));
    assert_eq!(left.external_references().keys(), right.external_references().keys());
    assert_eq!(*left.existing_groups(), *right.existing_groups());
}

#[test]
fn merging_an_aggregate_with_itself_doubles_every_list() {
    let sg = SecurityGroups::from_parts(
        references(&[("1", &["a", "b"]), ("2", &["e"])]),
        vec![plain_group("g1"), plain_group("g2"), plain_group("g3")],
    );
    let mut doubled = sg.clone();
    doubled.merge(&sg);
    assert_eq!(doubled.external_references().len(), 2);
    assert_eq!(doubled.external_references().get("1"), Some(&strings(&["a", "b", "a", "b"])));
    assert_eq!(doubled.external_references().get("2"), Some(&strings(&["e", "e"])));
    for key in sg.external_references().keys() {
        let once = sg.external_references().get(&key).unwrap().len();
        assert_eq!(doubled.external_references().get(&key).unwrap().len(), 2 * once);
    }
    assert_eq!(doubled.existing_groups().len(), 6);
    assert_eq!(group_ids(&doubled), strings(&["g1", "g2", "g3", "g1", "g2", "g3"]));
}

#[test]
fn create_from_group_ids_tags_each_id_once() {
    let sg = SecurityGroups::create_from_group_ids(
        "ec2@us-east-1".to_string(),
        strings(&["sg-1", "sg-2", "sg-1", "sg-3", "sg-2", "sg-1"]),
    );
    assert_eq!(sg.existing_groups().len(), 0);
    assert_eq!(sg.external_references().len(), 3);
    assert_eq!(sg.external_references().keys(), strings(&["sg-1", "sg-2", "sg-3"]));
    for key in ["sg-1", "sg-2", "sg-3"] {
        assert_eq!(sg.external_references().get(key), Some(&strings(&["ec2@us-east-1"])));
    }
}

#[test]
fn create_from_group_ids_of_nothing_is_empty() {
    let sg = SecurityGroups::create_from_group_ids("rds@eu-west-1".to_string(), vec![]);
    assert!(sg.external_references().is_empty());
    assert!(sg.existing_groups().is_empty());
}

#[test]
fn from_references_lists_sources_in_order_with_repeats() {
    let reference = |id: &str, source: &str| GroupReference {
        group_id: id.to_string(),
        source: source.to_string(),
    };
    let sg = SecurityGroups::from_references(vec![
        reference("a", "s1"),
        reference("b", "s2"),
        reference("a", "s3"),
        reference("a", "s1"),
    ]);
    assert_eq!(sg.external_references().keys(), strings(&["a", "b"]));
    assert_eq!(sg.external_references().get("a"), Some(&strings(&["s1", "s3", "s1"])));
    assert_eq!(sg.external_references().get("b"), Some(&strings(&["s2"])));
    assert!(sg.existing_groups().is_empty());
}

#[test]
fn a_repeated_load_of_one_source_shows_in_the_merge() {
    let first = SecurityGroups::create_from_group_ids("alb@r".to_string(), strings(&["g", "g"]));
    let second = SecurityGroups::create_from_group_ids("alb@r".to_string(), strings(&["g"]));
    let mut sg = SecurityGroups::default();
    sg.merge(&first);
    assert_eq!(sg.external_references().get("g"), Some(&strings(&["alb@r"])));
    sg.merge(&second);
    assert_eq!(sg.external_references().get("g"), Some(&strings(&["alb@r", "alb@r"])));
}
