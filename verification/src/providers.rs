//! The services that report on security groups, one type for each. Fetching
//! is left to the caller; a provider turns what was fetched into an
//! aggregate.

use crate::model::{ExistingGroupView, GroupReferenceView, LoadedDataView, SecurityGroupsView};
use crate::security::{
    reference_views, views_of, ExistingGroup, GroupReference, LoadedData, SecurityGroups,
};
use crate::string_set::{clone_strings, texts};
use vstd::prelude::*;
use vstd::string::StringExecFns;

verus! {

/// The tag under which the service `name` reports from `region`: the name,
/// an at sign, the region.
pub open spec fn source_tag_of(name: Seq<char>, region: Seq<char>) -> Seq<char> {
    name.push('@') + region
}

/// The tag under which the service `name` reports from `region`.
pub fn source_tag(name: &str, region: &str) -> (tag: String)
    ensures
        tag@ == source_tag_of(name@, region@),
{
    let tag = String::from_str(name).concat("@").concat(region);
    proof {
        reveal_strlit("@");
        assert("@"@ =~= seq!['@']);
        assert(name@ + seq!['@'] =~= name@.push('@'));
    }
    tag
}

/// A service whose resources use security groups, known by a name.
pub trait KnownSecurityGroups {
    /// The name of the service.
    spec fn source() -> Seq<char>;

    /// The name of the service.
    fn source_name() -> (name: String)
        ensures
            name@ == Self::source(),
    ;
}

/// The references that the source `source` reports when it names
/// `group_ids`: one for each id named, in order.
pub open spec fn tagged(source: Seq<char>, group_ids: Seq<Seq<char>>) -> Seq<GroupReferenceView> {
    group_ids.map_values(|id: Seq<char>| GroupReferenceView { group_id: id, source })
}

/// What a fetch from the service `T` in `region` brings when it finds the
/// group ids `group_ids`: each id, tagged with the service's name, an at
/// sign and the region.
pub fn tagged_references<T: KnownSecurityGroups>(region: &str, group_ids: Vec<String>) -> (data:
    LoadedData)
    ensures
        data@ == LoadedDataView::References(
            tagged(source_tag_of(T::source(), region@), texts(group_ids@)),
        ),
{
    let name = T::source_name();
    let source = source_tag(name.as_str(), region);
    let ghost all = tagged(source@, texts(group_ids@));
    let mut references: Vec<GroupReference> = Vec::new();
    let mut i: usize = 0;
    while i < group_ids.len()
        invariant
            i <= group_ids.len(),
            all == tagged(source@, texts(group_ids@)),
            reference_views(references@) == all.take(i as int),
        decreases group_ids.len() - i,
    {
        let ghost done = reference_views(references@);
        let reference = GroupReference { group_id: group_ids[i].clone(), source: source.clone() };
        references.push(reference);
        proof {
            assert(reference_views(references@) =~= done.push(all[i as int]));
            assert(all.take(i + 1) =~= all.take(i as int).push(all[i as int]));
        }
        i += 1;
    }
    proof {
        assert(all.take(i as int) =~= all);
    }
    LoadedData::References(references)
}

/// A service that can say which security groups its region holds or uses.
/// `T` is what a provider is made from.
pub trait SecurityGroupsProvider<T: Clone>: Sized {
    /// What a fetch from the service brings.
    type Found;

    /// Whether this is the provider that `new` makes from `config`.
    spec fn configured(&self, config: T) -> bool;

    /// The aggregate that `found` amounts to.
    spec fn loaded(&self, found: Self::Found) -> SecurityGroupsView;

    /// The provider for `config`.
    fn new(config: &T) -> (provider: Self)
        ensures
            provider.configured(*config),
    ;

    /// Turns what was fetched into an aggregate.
    fn load(&self, found: Self::Found) -> (groups: SecurityGroups)
        ensures
            groups@ == self.loaded(found),
    ;
}

/// Compute instances and network interfaces.
#[derive(Debug)]
pub struct EC2Groups {
    region: String,
}

impl EC2Groups {
    /// The region that this provider reports from.
    pub closed spec fn region(&self) -> Seq<char> {
        self.region@
    }
}

impl KnownSecurityGroups for EC2Groups {
    open spec fn source() -> Seq<char> {
        "ec2"@
    }

    fn source_name() -> (name: String) {
        "ec2".to_owned()
    }
}

impl SecurityGroupsProvider<String> for EC2Groups {
    type Found = Vec<String>;

    open spec fn configured(&self, config: String) -> bool {
        self.region() == config@
    }

    /// Every group id found is referred to once, by the service\'s name, an at
    /// sign and the region.
    open spec fn loaded(&self, found: Vec<String>) -> SecurityGroupsView {
        SecurityGroupsView::from_group_ids(source_tag_of(Self::source(), self.region()), texts(found@))
    }

    fn new(config: &String) -> (provider: Self) {
        EC2Groups { region: config.clone() }
    }

    fn load(&self, found: Vec<String>) -> (groups: SecurityGroups) {
        SecurityGroups::create_from_group_ids(source_tag(Self::source_name().as_str(), self.region.as_str()), found)
    }
}

/// Load balancers.
#[derive(Debug)]
pub struct ALBGroups {
    region: String,
}

impl ALBGroups {
    /// The region that this provider reports from.
    pub closed spec fn region(&self) -> Seq<char> {
        self.region@
    }
}

impl KnownSecurityGroups for ALBGroups {
    open spec fn source() -> Seq<char> {
        "alb"@
    }

    fn source_name() -> (name: String) {
        "alb".to_owned()
    }
}

impl SecurityGroupsProvider<String> for ALBGroups {
    type Found = Vec<String>;

    open spec fn configured(&self, config: String) -> bool {
        self.region() == config@
    }

    /// Every group id found is referred to once, by the service\'s name, an at
    /// sign and the region.
    open spec fn loaded(&self, found: Vec<String>) -> SecurityGroupsView {
        SecurityGroupsView::from_group_ids(source_tag_of(Self::source(), self.region()), texts(found@))
    }

    fn new(config: &String) -> (provider: Self) {
        ALBGroups { region: config.clone() }
    }

    fn load(&self, found: Vec<String>) -> (groups: SecurityGroups) {
        SecurityGroups::create_from_group_ids(source_tag(Self::source_name().as_str(), self.region.as_str()), found)
    }
}

/// Managed cache clusters.
#[derive(Debug)]
pub struct ElasticacheGroups {
    region: String,
}

impl ElasticacheGroups {
    /// The region that this provider reports from.
    pub closed spec fn region(&self) -> Seq<char> {
        self.region@
    }
}

impl KnownSecurityGroups for ElasticacheGroups {
    open spec fn source() -> Seq<char> {
        "elasticache"@
    }

    fn source_name() -> (name: String) {
        "elasticache".to_owned()
    }
}

impl SecurityGroupsProvider<String> for ElasticacheGroups {
    type Found = Vec<String>;

    open spec fn configured(&self, config: String) -> bool {
        self.region() == config@
    }

    /// Every group id found is referred to once, by the service\'s name, an at
    /// sign and the region.
    open spec fn loaded(&self, found: Vec<String>) -> SecurityGroupsView {
        SecurityGroupsView::from_group_ids(
            source_tag_of(Self::source(), self.region()),
            texts(found@),
        )
    }

    fn new(config: &String) -> (provider: Self) {
        ElasticacheGroups { region: config.clone() }
    }

    fn load(&self, found: Vec<String>) -> (groups: SecurityGroups) {
        SecurityGroups::create_from_group_ids(
            source_tag(Self::source_name().as_str(), self.region.as_str()),
            found,
        )
    }
}

/// Serverless functions.
#[derive(Debug)]
pub struct LambdaGroups {
    region: String,
}

impl LambdaGroups {
    /// The region that this provider reports from.
    pub closed spec fn region(&self) -> Seq<char> {
        self.region@
    }
}

impl KnownSecurityGroups for LambdaGroups {
    open spec fn source() -> Seq<char> {
        "lambda"@
    }

    fn source_name() -> (name: String) {
        "lambda".to_owned()
    }
}

impl SecurityGroupsProvider<String> for LambdaGroups {
    type Found = Vec<String>;

    open spec fn configured(&self, config: String) -> bool {
        self.region() == config@
    }

    /// Every group id found is referred to once, by the service\'s name, an at
    /// sign and the region.
    open spec fn loaded(&self, found: Vec<String>) -> SecurityGroupsView {
        SecurityGroupsView::from_group_ids(source_tag_of(Self::source(), self.region()), texts(found@))
    }

    fn new(config: &String) -> (provider: Self) {
        LambdaGroups { region: config.clone() }
    }

    fn load(&self, found: Vec<String>) -> (groups: SecurityGroups) {
        SecurityGroups::create_from_group_ids(source_tag(Self::source_name().as_str(), self.region.as_str()), found)
    }
}

/// Relational database instances and clusters.
#[derive(Debug)]
pub struct RDSGroups {
    region: String,
}

impl RDSGroups {
    /// The region that this provider reports from.
    pub closed spec fn region(&self) -> Seq<char> {
        self.region@
    }
}

impl KnownSecurityGroups for RDSGroups {
    open spec fn source() -> Seq<char> {
        "rds"@
    }

    fn source_name() -> (name: String) {
        "rds".to_owned()
    }
}

impl SecurityGroupsProvider<String> for RDSGroups {
    type Found = Vec<String>;

    open spec fn configured(&self, config: String) -> bool {
        self.region() == config@
    }

    /// Every group id found is referred to once, by the service\'s name, an at
    /// sign and the region.
    open spec fn loaded(&self, found: Vec<String>) -> SecurityGroupsView {
        SecurityGroupsView::from_group_ids(source_tag_of(Self::source(), self.region()), texts(found@))
    }

    fn new(config: &String) -> (provider: Self) {
        RDSGroups { region: config.clone() }
    }

    fn load(&self, found: Vec<String>) -> (groups: SecurityGroups) {
        SecurityGroups::create_from_group_ids(source_tag(Self::source_name().as_str(), self.region.as_str()), found)
    }
}

/// A security group as the registry describes it.
#[derive(Debug)]
pub struct FoundGroup {
    pub group_id: String,
    pub group_name: String,
    pub description: String,
    /// The group ids that the group's rules name, as they come: with
    /// repeats, and with the group's own id where a rule names it.
    pub referenced: Vec<String>,
}

impl FoundGroup {
    /// The group that this description stands for in `region`: it refers to
    /// the groups that its rules name, itself apart.
    pub open spec fn in_region(self, region: Seq<char>) -> ExistingGroupView {
        ExistingGroupView {
            region,
            group_id: self.group_id@,
            group_name: self.group_name@,
            group_description: self.description@,
            references: texts(self.referenced@).to_set().remove(self.group_id@),
        }
    }
}

/// The registry of security groups itself.
#[derive(Debug)]
pub struct AWSSecurityGroups {
    region: String,
}

impl AWSSecurityGroups {
    /// The region that this provider reports from.
    pub closed spec fn region(&self) -> Seq<char> {
        self.region@
    }
}

impl SecurityGroupsProvider<String> for AWSSecurityGroups {
    type Found = Vec<FoundGroup>;

    open spec fn configured(&self, config: String) -> bool {
        self.region() == config@
    }

    /// The groups found, in their order, without the groups of default VPCs.
    open spec fn loaded(&self, found: Vec<FoundGroup>) -> SecurityGroupsView {
        SecurityGroupsView::from_existing_groups(
            found@.map_values(|g: FoundGroup| g.in_region(self.region())),
        )
    }

    fn new(config: &String) -> (provider: Self) {
        AWSSecurityGroups { region: config.clone() }
    }

    fn load(&self, found: Vec<FoundGroup>) -> (groups: SecurityGroups) {
        SecurityGroups::from_existing_groups(self.existing_groups(&found))
    }
}

impl AWSSecurityGroups {
    /// The groups that `found` describes, in order, each in this provider's
    /// region.
    pub fn existing_groups(&self, found: &Vec<FoundGroup>) -> (existing: Vec<ExistingGroup>)
        ensures
            views_of(existing@) == found@.map_values(|g: FoundGroup| g.in_region(self.region())),
    {
        let ghost region = self.region();
        let ghost all = found@.map_values(|g: FoundGroup| g.in_region(region));
        let mut existing: Vec<ExistingGroup> = Vec::new();
        let mut i: usize = 0;
        while i < found.len()
            invariant
                i <= found.len(),
                region == self.region@,
                all == found@.map_values(|g: FoundGroup| g.in_region(region)),
                views_of(existing@) == all.take(i as int),
            decreases found.len() - i,
        {
            let ghost done = views_of(existing@);
            let group = ExistingGroup::new(
                self.region.clone(),
                found[i].group_id.clone(),
                found[i].group_name.clone(),
                found[i].description.clone(),
                clone_strings(&found[i].referenced),
            );
            existing.push(group);
            proof {
                assert(views_of(existing@) =~= done.push(all[i as int]));
                assert(all.take(i + 1) =~= all.take(i as int).push(all[i as int]));
            }
            i += 1;
        }
        proof {
            assert(all.take(i as int) =~= all);
        }
        existing
    }

    /// What a fetch from the registry brings when it finds `found`.
    pub fn found_groups(&self, found: &Vec<FoundGroup>) -> (data: LoadedData)
        ensures
            data@ == LoadedDataView::ExistingGroups(
                found@.map_values(|g: FoundGroup| g.in_region(self.region())),
            ),
    {
        LoadedData::ExistingGroups(self.existing_groups(found))
    }
}

} // verus!
