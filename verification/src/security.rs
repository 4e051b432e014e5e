//! Security groups as they are loaded: the groups that exist, the references
//! to group ids from outside the registry, and the merge of such loads.

use crate::model::{
    is_not_default, reported_sources, ExistingGroupView, GroupReferenceView, LoadedDataView,
    SecurityGroupsView,
};
use crate::reference_map::{sources_of, ReferenceMap};
use crate::string_set::{clone_strings, texts, StringSet};
use crate::trusted::unique;
use vstd::prelude::*;

verus! {

/// A security group found in the registry.
#[derive(Debug)]
pub struct ExistingGroup {
    region: String,
    group_id: String,
    group_name: String,
    group_description: String,
    references: StringSet,
}

impl View for ExistingGroup {
    type V = ExistingGroupView;

    closed spec fn view(&self) -> ExistingGroupView {
        ExistingGroupView {
            region: self.region@,
            group_id: self.group_id@,
            group_name: self.group_name@,
            group_description: self.group_description@,
            references: self.references@,
        }
    }
}

/// The models of a list of groups, in order.
pub open spec fn views_of(groups: Seq<ExistingGroup>) -> Seq<ExistingGroupView> {
    groups.map_values(|g: ExistingGroup| g@)
}

/// The models of a list of borrowed groups, in order.
pub open spec fn views_of_refs(groups: Seq<&ExistingGroup>) -> Seq<ExistingGroupView> {
    groups.map_values(|g: &ExistingGroup| g@)
}

impl ExistingGroup {
    #[verifier::type_invariant]
    spec fn no_self_reference(self) -> bool {
        !self.references@.contains(self.group_id@)
    }

    /// The group with the given fields. `referenced` are the group ids that
    /// its rules name; the group's own id is left out of its references.
    pub fn new(
        region: String,
        group_id: String,
        group_name: String,
        group_description: String,
        referenced: Vec<String>,
    ) -> (group: Self)
        ensures
            group@ == (ExistingGroupView {
                region: region@,
                group_id: group_id@,
                group_name: group_name@,
                group_description: group_description@,
                references: texts(referenced@).to_set().remove(group_id@),
            }),
    {
        let mut references = StringSet::new();
        let mut i: usize = 0;
        while i < referenced.len()
            invariant
                i <= referenced.len(),
                references@ == texts(referenced@).take(i as int).to_set().remove(group_id@),
            decreases referenced.len() - i,
        {
            let ghost done = texts(referenced@).take(i as int);
            if referenced[i] != group_id {
                references.insert(referenced[i].clone());
            }
            proof {
                assert(texts(referenced@).take(i + 1) =~= done.push(referenced@[i as int]@));
                done.lemma_push_to_set_commute(referenced@[i as int]@);
                assert(references@ =~= texts(referenced@).take(i + 1).to_set().remove(
                    group_id@,
                ));
            }
            i += 1;
        }
        proof {
            assert(texts(referenced@).take(i as int) =~= texts(referenced@));
        }
        ExistingGroup { region, group_id, group_name, group_description, references }
    }

    /// The region in which the group was found.
    pub fn region(&self) -> (region: &String)
        ensures
            region@ == self@.region,
    {
        &self.region
    }

    /// The group's id.
    pub fn group_id(&self) -> (id: &String)
        ensures
            id@ == self@.group_id,
    {
        &self.group_id
    }

    /// The group's name.
    pub fn group_name(&self) -> (name: &String)
        ensures
            name@ == self@.group_name,
    {
        &self.group_name
    }

    /// The group's description.
    pub fn group_description(&self) -> (description: &String)
        ensures
            description@ == self@.group_description,
    {
        &self.group_description
    }

    /// The ids of the groups that this group's rules point at. Its own id is
    /// never among them.
    pub fn references(&self) -> (references: &StringSet)
        ensures
            references@ == self@.references,
            !references@.contains(self@.group_id),
    {
        proof {
            use_type_invariant(self);
        }
        &self.references
    }

    /// Whether this is the group of a default VPC.
    pub fn is_default(&self) -> (b: bool)
        ensures
            b == self@.is_default(),
    {
        let sentinel = "default VPC security group".to_owned();
        self.group_description == sentinel
    }
}

impl Clone for ExistingGroup {
    fn clone(&self) -> (copy: Self)
        ensures
            copy@ == self@,
    {
        proof {
            use_type_invariant(self);
        }
        ExistingGroup {
            region: self.region.clone(),
            group_id: self.group_id.clone(),
            group_name: self.group_name.clone(),
            group_description: self.group_description.clone(),
            references: self.references.clone(),
        }
    }
}

impl PartialEq for ExistingGroup {
    /// Two groups are equal where all their fields are.
    fn eq(&self, other: &Self) -> (b: bool) {
        self.region == other.region && self.group_id == other.group_id && self.group_name
            == other.group_name && self.group_description == other.group_description
            && self.references == other.references
    }
}

impl Eq for ExistingGroup {

}

impl vstd::std_specs::cmp::PartialEqSpecImpl for ExistingGroup {
    open spec fn obeys_eq_spec() -> bool {
        true
    }

    open spec fn eq_spec(&self, other: &Self) -> bool {
        self@ == other@
    }
}

/// The fact that the resource behind the tag `source` uses the group
/// `group_id`.
#[derive(Debug)]
pub struct GroupReference {
    pub group_id: String,
    pub source: String,
}

impl View for GroupReference {
    type V = GroupReferenceView;

    open spec fn view(&self) -> GroupReferenceView {
        GroupReferenceView { group_id: self.group_id@, source: self.source@ }
    }
}

/// The models of a list of references, in order.
pub open spec fn reference_views(references: Seq<GroupReference>) -> Seq<GroupReferenceView> {
    references.map_values(|r: GroupReference| r@)
}

/// What one fetch brings: references to group ids, or groups that exist.
#[derive(Debug)]
pub enum LoadedData {
    References(Vec<GroupReference>),
    ExistingGroups(Vec<ExistingGroup>),
}

impl View for LoadedData {
    type V = LoadedDataView;

    open spec fn view(&self) -> LoadedDataView {
        match self {
            LoadedData::References(references) => LoadedDataView::References(
                reference_views(references@),
            ),
            LoadedData::ExistingGroups(found) => LoadedDataView::ExistingGroups(views_of(found@)),
        }
    }
}

/// The models of a list of fetches, in order.
pub open spec fn loaded_views(results: Seq<LoadedData>) -> Seq<LoadedDataView> {
    results.map_values(|item: LoadedData| item@)
}

/// One more reference adds its source to the sources reported for the group
/// that it names, and to no others.
proof fn lemma_reported_push(done: Seq<GroupReferenceView>, this: GroupReferenceView, id: Seq<char>)
    ensures
        reported_sources(done.push(this), id) == if id == this.group_id {
            reported_sources(done, id).push(this.source)
        } else {
            reported_sources(done, id)
        },
{
    let pick = crate::model::names_group(id);
    done.lemma_filter_push(this, pick);
    if id == this.group_id {
        assert(done.push(this).filter(pick) == done.filter(pick).push(this));
        assert(reported_sources(done.push(this), id) =~= reported_sources(done, id).push(
            this.source,
        ));
    }
}

/// The references under the keys `done` of `b` joined to those of `a`.
spec fn joined(
    a: Map<Seq<char>, Seq<Seq<char>>>,
    b: Map<Seq<char>, Seq<Seq<char>>>,
    done: Seq<Seq<char>>,
) -> Map<Seq<char>, Seq<Seq<char>>> {
    Map::new(
        |id: Seq<char>| a.contains_key(id) || done.contains(id),
        |id: Seq<char>|
            if done.contains(id) {
                sources_of(a, id) + sources_of(b, id)
            } else {
                sources_of(a, id)
            },
    )
}

/// Dropping the repeated items of `items`, after the distinct items `seen`,
/// leaves a list without repeats.
proof fn lemma_remove_duplicates_distinct(items: Seq<Seq<char>>, seen: Seq<Seq<char>>)
    requires
        seen.no_duplicates(),
    ensures
        items.remove_duplicates(seen).no_duplicates(),
    decreases items.len(),
{
    if items.len() == 0 {
    } else if seen.contains(items[0]) {
        lemma_remove_duplicates_distinct(items.skip(1), seen);
    } else {
        lemma_remove_duplicates_distinct(items.skip(1), seen + seq![items[0]]);
    }
}

/// Whether none of `groups` is the group of a default VPC or refers to
/// itself.
spec fn kept(groups: Seq<ExistingGroup>) -> bool {
    forall|i: int|
        0 <= i < groups.len() ==> !(#[trigger] groups[i])@.is_default()
            && !groups[i]@.references.contains(groups[i]@.group_id)
}

/// What has been loaded of the security groups: the references to group ids
/// from outside the registry, and the groups that exist. The group of a
/// default VPC is never among the existing groups.
#[derive(Debug)]
pub struct SecurityGroups {
    external_references: ReferenceMap,
    existing_groups: Vec<ExistingGroup>,
}

impl View for SecurityGroups {
    type V = SecurityGroupsView;

    closed spec fn view(&self) -> SecurityGroupsView {
        SecurityGroupsView {
            external_references: self.external_references@,
            existing_groups: views_of(self.existing_groups@),
        }
    }
}

impl SecurityGroups {
    #[verifier::type_invariant]
    spec fn well_kept(self) -> bool {
        kept(self.existing_groups@)
    }

    /// The aggregate that knows nothing.
    pub fn new() -> (groups: Self)
        ensures
            groups@ == SecurityGroupsView::empty(),
    {
        let groups = SecurityGroups {
            external_references: ReferenceMap::new(),
            existing_groups: Vec::new(),
        };
        assert(views_of(groups.existing_groups@) =~= Seq::<ExistingGroupView>::empty());
        groups
    }

    /// The aggregate with the given references and the given groups, without
    /// the groups of default VPCs.
    pub fn from_parts(external_references: ReferenceMap, existing_groups: Vec<ExistingGroup>) -> (groups:
        Self)
        ensures
            groups@.external_references == external_references@,
            groups@.existing_groups == SecurityGroupsView::from_existing_groups(
                views_of(existing_groups@),
            ).existing_groups,
    {
        let mut groups = Self::keep_existing(&existing_groups);
        proof {
            use_type_invariant(&groups);
        }
        groups.external_references = external_references;
        groups
    }

    /// The references to group ids from outside the registry.
    pub fn external_references(&self) -> (references: &ReferenceMap)
        ensures
            references@ == self@.external_references,
    {
        &self.external_references
    }

    /// The groups that exist. None of them is the group of a default VPC.
    pub fn existing_groups(&self) -> (groups: &Vec<ExistingGroup>)
        ensures
            views_of(groups@) == self@.existing_groups,
            self@.without_default_groups(),
            self@.without_self_references(),
    {
        proof {
            use_type_invariant(self);
        }
        &self.existing_groups
    }

    /// What the source `source` reports when it names `group_ids`: each of
    /// the ids gets the one tag `source`, however often it is named.
    pub fn create_from_group_ids(source: String, group_ids: Vec<String>) -> (groups: Self)
        ensures
            groups@ == SecurityGroupsView::from_group_ids(source@, texts(group_ids@)),
    {
        let ghost named = texts(group_ids@);
        let kept = unique(group_ids);
        proof {
            lemma_remove_duplicates_distinct(named, Seq::empty());
            named.lemma_remove_duplicates_properties(Seq::empty());
            assert(named + Seq::<Seq<char>>::empty() =~= named);
        }
        let mut references = ReferenceMap::new();
        let mut i: usize = 0;
        while i < kept.len()
            invariant
                i <= kept.len(),
                texts(kept@).no_duplicates(),
                references@ == SecurityGroupsView::from_group_ids(
                    source@,
                    texts(kept@).take(i as int),
                ).external_references,
            decreases kept.len() - i,
        {
            let ghost done = texts(kept@).take(i as int);
            let ghost key = kept@[i as int]@;
            proof {
                assert(texts(kept@)[i as int] == key);
                assert(!done.contains(key));
            }
            references.add(&kept[i], source.clone());
            proof {
                let next = texts(kept@).take(i + 1);
                assert(next =~= done.push(key));
                assert forall|id: Seq<char>| next.contains(id) == (done.contains(id) || id
                    == key) by {
                    if done.contains(id) {
                        let at = done.index_of(id);
                        assert(next[at] == id);
                    }
                    if id == key {
                        assert(next[i as int] == id);
                    }
                }
                assert(Seq::<Seq<char>>::empty().push(source@) =~= seq![source@]);
                assert(references@ =~= SecurityGroupsView::from_group_ids(
                    source@,
                    next,
                ).external_references);
            }
            i += 1;
        }
        let groups = SecurityGroups { external_references: references, existing_groups: Vec::new() };
        proof {
            assert(texts(kept@).take(i as int) =~= texts(kept@));
            assert(views_of(groups.existing_groups@) =~= Seq::<ExistingGroupView>::empty());
            assert(groups@.external_references =~= SecurityGroupsView::from_group_ids(
                source@,
                named,
            ).external_references);
        }
        groups
    }

    /// The groups found in the registry, without the groups of default VPCs:
    /// those are no candidates for removal and take no part in any walk.
    pub fn from_existing_groups(found: Vec<ExistingGroup>) -> (groups: Self)
        ensures
            groups@ == SecurityGroupsView::from_existing_groups(views_of(found@)),
    {
        Self::keep_existing(&found)
    }

    fn keep_existing(found: &Vec<ExistingGroup>) -> (groups: Self)
        ensures
            groups@ == SecurityGroupsView::from_existing_groups(views_of(found@)),
    {
        let ghost keep = is_not_default();
        let mut kept: Vec<ExistingGroup> = Vec::new();
        let mut i: usize = 0;
        while i < found.len()
            invariant
                i <= found.len(),
                keep == is_not_default(),
                views_of(kept@) == views_of(found@).take(i as int).filter(keep),
                self::kept(kept@),
            decreases found.len() - i,
        {
            let ghost done = views_of(found@).take(i as int);
            let ghost kept_before = views_of(kept@);
            proof {
                assert(views_of(found@).take(i + 1) =~= done.push(found@[i as int]@));
                done.lemma_filter_push(found@[i as int]@, keep);
            }
            let group = &found[i];
            if !group.is_default() {
                proof {
                    use_type_invariant(group);
                }
                kept.push(group.clone());
                proof {
                    assert(views_of(kept@) =~= kept_before.push(found@[i as int]@));
                }
            }
            i += 1;
        }
        proof {
            assert(views_of(found@).take(i as int) =~= views_of(found@));
        }
        SecurityGroups { external_references: ReferenceMap::new(), existing_groups: kept }
    }

    /// What a list of references amounts to: under each group id that is
    /// named, the sources of the references that name it, in their order.
    pub fn from_references(references: Vec<GroupReference>) -> (groups: Self)
        ensures
            groups@ == SecurityGroupsView::from_references(reference_views(references@)),
    {
        Self::index_references(&references)
    }

    fn index_references(references: &Vec<GroupReference>) -> (groups: Self)
        ensures
            groups@ == SecurityGroupsView::from_references(reference_views(references@)),
    {
        let ghost all = reference_views(references@);
        let mut index = ReferenceMap::new();
        let mut i: usize = 0;
        while i < references.len()
            invariant
                i <= references.len(),
                all == reference_views(references@),
                index@ == SecurityGroupsView::from_references(
                    all.take(i as int),
                ).external_references,
            decreases references.len() - i,
        {
            let ghost done = all.take(i as int);
            let ghost next = all.take(i + 1);
            let ghost this = references@[i as int]@;
            let ghost before = index@;
            index.add(&references[i].group_id, references[i].source.clone());
            proof {
                assert(next =~= done.push(this));
                assert forall|id: Seq<char>| #[trigger]
                    reported_sources(next, id) == if id == this.group_id {
                        reported_sources(done, id).push(this.source)
                    } else {
                        reported_sources(done, id)
                    } by {
                    lemma_reported_push(done, this, id);
                }
                assert(sources_of(before, this.group_id) =~= reported_sources(
                    done,
                    this.group_id,
                ));
                assert(index@ =~= SecurityGroupsView::from_references(next).external_references);
            }
            i += 1;
        }
        let groups = SecurityGroups { external_references: index, existing_groups: Vec::new() };
        proof {
            assert(all.take(i as int) =~= all);
            assert(views_of(groups.existing_groups@) =~= Seq::<ExistingGroupView>::empty());
        }
        groups
    }

    /// What one fetch amounts to.
    pub fn from_loaded(item: &LoadedData) -> (groups: Self)
        ensures
            groups@ == SecurityGroupsView::from_loaded(item@),
    {
        match item {
            LoadedData::References(references) => Self::index_references(references),
            LoadedData::ExistingGroups(found) => Self::keep_existing(found),
        }
    }

    /// Folds `other` into this aggregate: under each group id the source tags
    /// of `other` follow those already here, and the existing groups of
    /// `other` follow those already here. Nothing is deduplicated.
    pub fn merge(&mut self, other: &SecurityGroups)
        ensures
            final(self)@ == old(self)@.merge(other@),
    {
        proof {
            use_type_invariant(&*self);
            use_type_invariant(other);
        }
        let keys = other.external_references.keys();
        let mut references = ReferenceMap::new();
        std::mem::swap(&mut references, &mut self.external_references);
        let ghost a = references@;
        let ghost b = other.external_references@;
        let mut i: usize = 0;
        while i < keys.len()
            invariant
                i <= keys.len(),
                texts(keys@).no_duplicates(),
                texts(keys@).to_set() == b.dom(),
                b == other.external_references@,
                references@ == joined(a, b, texts(keys@).take(i as int)),
            decreases keys.len() - i,
        {
            let ghost done = texts(keys@).take(i as int);
            let ghost key = keys@[i as int]@;
            proof {
                assert(texts(keys@)[i as int] == key);
                assert(texts(keys@).to_set().contains(key));
                assert(!done.contains(key));
            }
            match other.external_references.get_string(&keys[i]) {
                Some(tags) => {
                    references.extend_list(&keys[i], tags);
                },
                None => {},
            }
            proof {
                let next = texts(keys@).take(i + 1);
                assert(next =~= done.push(key));
                assert(b.dom().contains(key));
                assert forall|id: Seq<char>| next.contains(id) == (done.contains(id) || id
                    == key) by {
                    if done.contains(id) {
                        let at = done.index_of(id);
                        assert(next[at] == id);
                    }
                    if id == key {
                        assert(next[i as int] == id);
                    }
                }
                assert(references@ =~= joined(a, b, next));
            }
            i += 1;
        }
        proof {
            assert(texts(keys@).take(i as int) =~= texts(keys@));
            assert forall|id: Seq<char>| texts(keys@).contains(id) == b.contains_key(id) by {
                assert(texts(keys@).to_set().contains(id) == b.dom().contains(id));
            }
            assert(references@ =~= old(self)@.merge(other@).external_references);
        }
        self.external_references = references;

        let mut groups: Vec<ExistingGroup> = Vec::new();
        std::mem::swap(&mut groups, &mut self.existing_groups);
        let ghost before = groups@;
        let mut j: usize = 0;
        while j < other.existing_groups.len()
            invariant
                j <= other.existing_groups.len(),
                views_of(groups@) == views_of(before) + views_of(other.existing_groups@).take(
                    j as int,
                ),
                kept(groups@),
                kept(other.existing_groups@),
            decreases other.existing_groups.len() - j,
        {
            let ghost done = views_of(groups@);
            let copy = other.existing_groups[j].clone();
            groups.push(copy);
            proof {
                assert(views_of(groups@) =~= done.push(other.existing_groups@[j as int]@));
                assert(views_of(other.existing_groups@).take(j + 1) =~= views_of(
                    other.existing_groups@,
                ).take(j as int).push(other.existing_groups@[j as int]@));
                assert(views_of(groups@) =~= views_of(before) + views_of(
                    other.existing_groups@,
                ).take(j + 1));
            }
            j += 1;
        }
        proof {
            assert(views_of(other.existing_groups@).take(j as int) =~= views_of(
                other.existing_groups@,
            ));
        }
        self.existing_groups = groups;
    }

    /// The aggregates `parts` merged one after the other into one.
    pub fn merge_all(parts: &Vec<SecurityGroups>) -> (groups: Self)
        ensures
            groups@ == SecurityGroupsView::merged(aggregate_views(parts@)),
    {
        let ghost all = aggregate_views(parts@);
        let ghost step = |all: SecurityGroupsView, part: SecurityGroupsView| all.merge(part);
        let mut groups = SecurityGroups::new();
        let mut i: usize = 0;
        while i < parts.len()
            invariant
                i <= parts.len(),
                all == aggregate_views(parts@),
                step == |all: SecurityGroupsView, part: SecurityGroupsView| all.merge(part),
                groups@ == all.take(i as int).fold_left(SecurityGroupsView::empty(), step),
            decreases parts.len() - i,
        {
            groups.merge(&parts[i]);
            proof {
                assert(all[i as int] == parts@[i as int]@);
                assert(all.take(i + 1).drop_last() =~= all.take(i as int));
            }
            i += 1;
        }
        proof {
            assert(all.take(i as int) =~= all);
        }
        groups
    }

    /// The sources that refer to `group_id`, directly or through a chain of
    /// existing groups. `visited` are the ids from which the walk has come:
    /// the walk enters none of them again. At the top it is empty.
    pub fn collect_referencing_services(&self, group_id: &str, visited: StringSet) -> (sources:
        StringSet)
        ensures
            sources@ == self@.referencing_services(group_id@, visited@),
    {
        let id = group_id.to_owned();
        self.referencing(&id, visited)
    }

    fn referencing(&self, id: &String, visited: StringSet) -> (sources: StringSet)
        ensures
            sources@ == self@.referencing_services(id@, visited@),
        decreases self@.unexplored(visited@.insert(id@)),
    {
        let mut sources = match self.external_references.get_string(id) {
            Some(tags) => StringSet::from_vec(clone_strings(tags)),
            None => StringSet::new(),
        };
        proof {
            assert(sources@ =~= self@.direct_sources(id@));
        }
        let mut path = visited;
        path.insert(id.clone());
        let mut i: usize = 0;
        while i < self.existing_groups.len()
            invariant
                i <= self.existing_groups.len(),
                path@ == visited@.insert(id@),
                sources@ == self@.direct_sources(id@).union(
                    self@.indirect_sources(id@, path@, i as int),
                ),
            decreases self.existing_groups.len() - i,
        {
            let group = &self.existing_groups[i];
            proof {
                assert(self@.existing_groups[i as int] == group@);
            }
            if group.references.contains_string(id) && !path.contains_string(&group.group_id) {
                proof {
                    self@.lemma_step_explores(i as int, path@);
                }
                let found = self.referencing(&group.group_id, path.clone());
                sources.extend(&found);
            }
            proof {
                assert(sources@ =~= self@.direct_sources(id@).union(
                    self@.indirect_sources(id@, path@, i + 1),
                ));
            }
            i += 1;
        }
        sources
    }

    /// The existing groups that nobody refers to, directly or indirectly, in
    /// their order. None of them is the group of a default VPC.
    pub fn find_unused(&self) -> (unused: Vec<&ExistingGroup>)
        ensures
            views_of_refs(unused@) == self@.unused_groups(),
            forall|i: int| 0 <= i < unused@.len() ==> !(#[trigger] unused@[i])@.is_default(),
    {
        proof {
            use_type_invariant(self);
        }
        let ghost pick = self@.unused_filter();
        let mut unused: Vec<&ExistingGroup> = Vec::new();
        let mut i: usize = 0;
        while i < self.existing_groups.len()
            invariant
                i <= self.existing_groups.len(),
                pick == self@.unused_filter(),
                views_of_refs(unused@) == self@.existing_groups.take(i as int).filter(pick),
                forall|k: int| 0 <= k < unused@.len() ==> !(#[trigger] unused@[k])@.is_default(),
                kept(self.existing_groups@),
            decreases self.existing_groups.len() - i,
        {
            let group = &self.existing_groups[i];
            let ghost done = self@.existing_groups.take(i as int);
            let ghost unused_before = views_of_refs(unused@);
            proof {
                assert(self@.existing_groups[i as int] == group@);
                assert(self@.existing_groups.take(i + 1) =~= done.push(group@));
                done.lemma_filter_push(group@, pick);
            }
            let sources = self.referencing(&group.group_id, StringSet::new());
            if sources.is_empty() {
                unused.push(group);
                proof {
                    assert(views_of_refs(unused@) =~= unused_before.push(group@));
                }
            }
            i += 1;
        }
        proof {
            assert(self@.existing_groups.take(i as int) =~= self@.existing_groups);
        }
        unused
    }
}

/// The models of a list of aggregates, in order.
pub open spec fn aggregate_views(parts: Seq<SecurityGroups>) -> Seq<SecurityGroupsView> {
    parts.map_values(|part: SecurityGroups| part@)
}

impl Default for SecurityGroups {
    fn default() -> (groups: Self)
        ensures
            groups@ == SecurityGroupsView::empty(),
    {
        SecurityGroups::new()
    }
}

impl Clone for SecurityGroups {
    fn clone(&self) -> (copy: Self)
        ensures
            copy@ == self@,
    {
        let mut copy = SecurityGroups::new();
        copy.merge(self);
        proof {
            crate::laws::lemma_merge_empty(self@);
        }
        copy
    }
}

} // verus!
