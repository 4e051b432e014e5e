use aws_sg_cleanup::noise::{noise_name, noise_name_from_digest, noise_names, random_noise_name};
use aws_sg_cleanup::{
    source_tag, tagged_references, ALBGroups, AWSSecurityGroups, EC2Groups, ElasticacheGroups,
    FoundGroup, KnownSecurityGroups, LambdaGroups, LoadedData, RDSGroups, SecurityGroups,
    SecurityGroupsProvider,
};

fn strings(items: &[&str]) -> Vec<String> {
    items.iter().map(|s| s.to_string()).collect()
}

fn check_source(groups: &SecurityGroups, source: &str) {
    assert_eq!(groups.external_references().keys(), strings(&["sg-1", "sg-2"]));
    assert_eq!(groups.external_references().get("sg-1"), Some(&strings(&[source])));
    assert_eq!(groups.external_references().get("sg-2"), Some(&strings(&[source])));
    assert!(groups.existing_groups().is_empty());
}

fn found(id: &str, description: &str, referenced: &[&str]) -> FoundGroup {
    FoundGroup {
        group_id: id.to_string(),
        group_name: format!("{}-name", id),
        description: description.to_string(),
        referenced: strings(referenced),
    }
}

#[test]
fn a_source_tag_is_name_at_region() {
    assert_eq!(source_tag("ec2", "us-east-1"), "ec2@us-east-1");
    assert_eq!(source_tag("lambda", "eu-west-1"), "lambda@eu-west-1");
    assert_eq!(source_tag("", ""), "@");
    assert_eq!(source_tag("a@b", "c"), "a@b@c");
}

#[test]
fn each_service_reports_under_its_own_name() {
    let region = "eu-central-1".to_string();
    let ids = strings(&["sg-1", "sg-2", "sg-1"]);
    check_source(&EC2Groups::new(&region).load(ids.clone()), "ec2@eu-central-1");
    check_source(&ALBGroups::new(&region).load(ids.clone()), "alb@eu-central-1");
    check_source(&ElasticacheGroups::new(&region).load(ids.clone()), "elasticache@eu-central-1");
    check_source(&LambdaGroups::new(&region).load(ids.clone()), "lambda@eu-central-1");
    check_source(&RDSGroups::new(&region).load(ids), "rds@eu-central-1");
}

#[test]
fn a_service_without_resources_reports_nothing() {
    let groups = LambdaGroups::new(&"us-west-2".to_string()).load(vec![]);
    assert!(groups.external_references().is_empty());
    assert!(groups.existing_groups().is_empty());
}

#[test]
fn the_registry_leaves_out_default_groups_and_self_references() {
    let registry = AWSSecurityGroups::new(&"ap-south-1".to_string());
    let groups = registry.load(vec![
        found("sg-1", "web", &["sg-2", "sg-1", "sg-2"]),
        found("sg-0", "default VPC security group", &["sg-1"]),
        found("sg-2", "db", &[]),
        found("sg-3", "Default VPC security group", &["sg-3"]),
    ]);
    assert!(groups.external_references().is_empty());
    let existing = groups.existing_groups();
    assert_eq!(existing.len(), 3);
    assert_eq!(existing[0].group_id(), "sg-1");
    assert_eq!(existing[0].group_name(), "sg-1-name");
    assert_eq!(existing[0].group_description(), "web");
    assert_eq!(existing[0].region(), "ap-south-1");
    assert_eq!(existing[0].references().to_vec(), strings(&["sg-2"]));
    assert_eq!(existing[1].group_id(), "sg-2");
    assert!(existing[1].references().is_empty());
    assert_eq!(existing[2].group_id(), "sg-3");
    assert!(existing[2].references().is_empty());
    let unused: Vec<&String> = groups.find_unused().iter().map(|g| g.group_id()).collect();
    assert_eq!(unused, vec!["sg-1", "sg-2", "sg-3"]);
}

#[test]
fn loads_of_one_region_merge_into_one_picture() {
    let region = "r1".to_string();
    let mut all = SecurityGroups::default();
    all.merge(&EC2Groups::new(&region).load(strings(&["sg-web"])));
    all.merge(&RDSGroups::new(&region).load(strings(&["sg-db"])));
    all.merge(&AWSSecurityGroups::new(&region).load(vec![
        found("sg-web", "web", &[]),
        found("sg-db", "db", &["sg-web"]),
        found("sg-lb", "lb", &[]),
        found("sg-old", "old", &["sg-old2"]),
        found("sg-old2", "old too", &["sg-old"]),
    ]));
    let web = all.collect_referencing_services("sg-web", aws_sg_cleanup::StringSet::new());
    assert_eq!(web.to_vec(), strings(&["ec2@r1", "rds@r1"]));
    let unused: Vec<&String> = all.find_unused().iter().map(|g| g.group_id()).collect();
    assert_eq!(unused, vec!["sg-lb", "sg-old", "sg-old2"]);
}

#[test]
fn a_noise_name_is_the_digest_in_hex() {
    assert_eq!(noise_name_from_digest(&vec![]), "noise-");
    assert_eq!(noise_name_from_digest(&vec![0x00, 0xff, 0x1a, 0xa1, 0x09, 0x90]), "noise-00ff1aa10990");
    assert_eq!(
        noise_name_from_digest(&(0u8..=255).step_by(17).collect()),
        "noise-00112233445566778899aabbccddeeff"
    );
}

#[test]
fn a_noise_name_hashes_its_entropy() {
    assert_eq!(noise_name(&b"abc".to_vec()), "noise-a9993e364706816aba3e25717850c26c9cd0d89d");
    assert_eq!(noise_name(&vec![]), "noise-da39a3ee5e6b4b0d3255bfef95601890afd80709");
    assert_eq!(noise_name(&b"abc".to_vec()), noise_name(&b"abc".to_vec()));
    assert_ne!(noise_name(&b"abc".to_vec()), noise_name(&b"abd".to_vec()));
}

#[test]
fn random_noise_names_look_alike_and_differ() {
    let name = random_noise_name();
    assert_eq!(name.len(), 46);
    assert!(name.starts_with("noise-"));
    assert!(name[6..].chars().all(|c| matches!(c, '0'..='9' | 'a'..='f')));
    let names = noise_names();
    assert_eq!(names.len(), 20);
    for (i, a) in names.iter().enumerate() {
        assert_eq!(a.len(), 46);
        assert!(a.starts_with("noise-"));
        for b in &names[i + 1..] {
            assert_ne!(a, b);
        }
    }
}

#[test]
fn each_service_has_its_name() {
    assert_eq!(EC2Groups::source_name(), "ec2");
    assert_eq!(ALBGroups::source_name(), "alb");
    assert_eq!(ElasticacheGroups::source_name(), "elasticache");
    assert_eq!(LambdaGroups::source_name(), "lambda");
    assert_eq!(RDSGroups::source_name(), "rds");
}

#[test]
fn a_fetch_tags_every_id_it_finds() {
    let data = tagged_references::<RDSGroups>("sa-east-1", strings(&["sg-2", "sg-1", "sg-2"]));
    match data {
        LoadedData::References(references) => {
            let pairs: Vec<(String, String)> =
                references.into_iter().map(|r| (r.group_id, r.source)).collect();
            assert_eq!(
                pairs,
                vec![
                    ("sg-2".to_string(), "rds@sa-east-1".to_string()),
                    ("sg-1".to_string(), "rds@sa-east-1".to_string()),
                    ("sg-2".to_string(), "rds@sa-east-1".to_string()),
                ]
            );
        }
        LoadedData::ExistingGroups(_) => panic!("a service reports references"),
    }
    match tagged_references::<EC2Groups>("r", vec![]) {
        LoadedData::References(references) => assert!(references.is_empty()),
        LoadedData::ExistingGroups(_) => panic!("a service reports references"),
    }
}

#[test]
fn the_registry_hands_on_every_group_it_finds() {
    let registry = AWSSecurityGroups::new(&"r9".to_string());
    let described = vec![
        found("sg-0", "default VPC security group", &["sg-1", "sg-0"]),
        found("sg-1", "web", &[]),
    ];
    match registry.found_groups(&described) {
        LoadedData::ExistingGroups(groups) => {
            assert_eq!(groups, registry.existing_groups(&described));
            assert_eq!(groups.len(), 2);
            assert_eq!(groups[0].group_id(), "sg-0");
            assert!(groups[0].is_default());
            assert_eq!(groups[0].references().to_vec(), strings(&["sg-1"]));
            assert_eq!(groups[0].region(), "r9");
            assert_eq!(groups[1].group_id(), "sg-1");
        }
        LoadedData::References(_) => panic!("the registry reports groups"),
    }
    let kept = SecurityGroups::from_loaded(&registry.found_groups(&described));
    assert_eq!(kept.existing_groups().len(), 1);
    assert_eq!(kept.existing_groups()[0].group_id(), "sg-1");
}
