//! The mathematical model of an aggregate of security groups, and what it
//! means for a group to be referred to.

use crate::reference_map::sources_of;
use vstd::prelude::*;

verus! {

/// The description that marks the group which every default VPC comes with.
pub open spec fn default_description() -> Seq<char> {
    "default VPC security group"@
}

/// A security group that exists in the registry.
pub struct ExistingGroupView {
    pub region: Seq<char>,
    pub group_id: Seq<char>,
    pub group_name: Seq<char>,
    pub group_description: Seq<char>,
    /// The ids of the groups that this group's own rules point at.
    pub references: Set<Seq<char>>,
}

impl ExistingGroupView {
    /// Whether this is the group of a default VPC.
    pub open spec fn is_default(self) -> bool {
        self.group_description == default_description()
    }
}

/// The fact that the resource behind the tag `source` uses the group
/// `group_id`.
pub struct GroupReferenceView {
    pub group_id: Seq<char>,
    pub source: Seq<char>,
}

/// What one fetch brings: references to group ids, or groups that exist.
pub enum LoadedDataView {
    References(Seq<GroupReferenceView>),
    ExistingGroups(Seq<ExistingGroupView>),
}

/// The test that picks the references to the group `id`.
pub open spec fn names_group(id: Seq<char>) -> spec_fn(GroupReferenceView) -> bool {
    |r: GroupReferenceView| r.group_id == id
}

/// The test that picks the groups that are not the group of a default VPC.
pub open spec fn is_not_default() -> spec_fn(ExistingGroupView) -> bool {
    |g: ExistingGroupView| !g.is_default()
}

/// The sources of those of `references` that name the group `id`, in order.
pub open spec fn reported_sources(references: Seq<GroupReferenceView>, id: Seq<char>) -> Seq<
    Seq<char>,
> {
    references.filter(names_group(id)).map_values(|r: GroupReferenceView| r.source)
}

/// What is known of the security groups: who outside the registry refers to
/// which group id, and which groups exist.
pub struct SecurityGroupsView {
    /// For each group id the source tags that refer to it, in order of arrival.
    pub external_references: Map<Seq<char>, Seq<Seq<char>>>,
    pub existing_groups: Seq<ExistingGroupView>,
}

impl SecurityGroupsView {
    /// The aggregate that knows nothing.
    pub open spec fn empty() -> SecurityGroupsView {
        SecurityGroupsView { external_references: Map::empty(), existing_groups: Seq::empty() }
    }

    /// The source tags listed under `id`; none where `id` has no entry.
    pub open spec fn sources(self, id: Seq<char>) -> Seq<Seq<char>> {
        sources_of(self.external_references, id)
    }

    /// What one source reports: each of `group_ids` is referred to by
    /// `source`, once, however often the id occurs.
    pub open spec fn from_group_ids(source: Seq<char>, group_ids: Seq<Seq<char>>) -> SecurityGroupsView {
        SecurityGroupsView {
            external_references: Map::new(
                |id: Seq<char>| group_ids.contains(id),
                |id: Seq<char>| seq![source],
            ),
            existing_groups: Seq::empty(),
        }
    }

    /// What a list of references amounts to: a group id has an entry where a
    /// reference names it, and the entry lists the sources of those
    /// references in their order, repeats included.
    pub open spec fn from_references(references: Seq<GroupReferenceView>) -> SecurityGroupsView {
        SecurityGroupsView {
            external_references: Map::new(
                |id: Seq<char>| reported_sources(references, id).len() > 0,
                |id: Seq<char>| reported_sources(references, id),
            ),
            existing_groups: Seq::empty(),
        }
    }

    /// What a list of groups found in the registry amounts to: those groups
    /// in their order, without the groups of default VPCs.
    pub open spec fn from_existing_groups(found: Seq<ExistingGroupView>) -> SecurityGroupsView {
        SecurityGroupsView {
            external_references: Map::empty(),
            existing_groups: found.filter(is_not_default()),
        }
    }

    /// What one fetch amounts to.
    pub open spec fn from_loaded(item: LoadedDataView) -> SecurityGroupsView {
        match item {
            LoadedDataView::References(references) => Self::from_references(references),
            LoadedDataView::ExistingGroups(found) => Self::from_existing_groups(found),
        }
    }

    /// The fetches `results` merged one after the other into the empty
    /// aggregate.
    pub open spec fn collected(results: Seq<LoadedDataView>) -> SecurityGroupsView {
        results.fold_left(
            Self::empty(),
            |all: SecurityGroupsView, item: LoadedDataView| all.merge(Self::from_loaded(item)),
        )
    }

    /// This aggregate with `other` folded in: the lists of source tags are
    /// joined key by key, these first, and so are the lists of existing groups.
    pub open spec fn merge(self, other: SecurityGroupsView) -> SecurityGroupsView {
        SecurityGroupsView {
            external_references: Map::new(
                |id: Seq<char>|
                    self.external_references.contains_key(id)
                        || other.external_references.contains_key(id),
                |id: Seq<char>| self.sources(id) + other.sources(id),
            ),
            existing_groups: self.existing_groups + other.existing_groups,
        }
    }

    /// The aggregates `parts` merged one after the other into the empty
    /// aggregate.
    pub open spec fn merged(parts: Seq<SecurityGroupsView>) -> SecurityGroupsView {
        parts.fold_left(
            Self::empty(),
            |all: SecurityGroupsView, part: SecurityGroupsView| all.merge(part),
        )
    }

    /// Whether two aggregates hold the same facts, their order apart: the
    /// same keys, under each key the same tags as often, and the same
    /// existing groups as often.
    pub open spec fn same_content(self, other: SecurityGroupsView) -> bool {
        &&& self.external_references.dom() == other.external_references.dom()
        &&& forall|id: Seq<char>| #[trigger]
            self.sources(id).to_multiset() == other.sources(id).to_multiset()
        &&& self.existing_groups.to_multiset() == other.existing_groups.to_multiset()
    }

    /// Whether no existing group is the group of a default VPC.
    pub open spec fn without_default_groups(self) -> bool {
        forall|i: int| 0 <= i < self.existing_groups.len() ==> !(
        #[trigger] self.existing_groups[i]).is_default()
    }

    /// Whether no existing group refers to itself.
    pub open spec fn without_self_references(self) -> bool {
        forall|i: int|
            0 <= i < self.existing_groups.len() ==> !(
            #[trigger] self.existing_groups[i]).references.contains(
                self.existing_groups[i].group_id,
            )
    }

    /// The ids of the existing groups.
    pub open spec fn group_ids(self) -> Set<Seq<char>> {
        self.existing_groups.map_values(|g: ExistingGroupView| g.group_id).to_set()
    }

    /// How many existing group ids are not on `path`.
    pub open spec fn unexplored(self, path: Set<Seq<char>>) -> nat {
        self.group_ids().difference(path).len()
    }

    /// The sources that refer to `id` directly.
    pub open spec fn direct_sources(self, id: Seq<char>) -> Set<Seq<char>> {
        self.sources(id).to_set()
    }

    /// Whether the walk from `id` goes on to the existing group at `index`:
    /// that group refers to `id` and is not on `path`, the ids from which the
    /// walk has come, `id` among them.
    pub open spec fn leads_to(self, index: int, id: Seq<char>, path: Set<Seq<char>>) -> bool {
        &&& 0 <= index < self.existing_groups.len()
        &&& self.existing_groups[index].references.contains(id)
        &&& !path.contains(self.existing_groups[index].group_id)
    }

    /// Stepping on to a group that is not on the path leaves fewer group ids
    /// unexplored.
    pub proof fn lemma_step_explores(self, index: int, path: Set<Seq<char>>)
        requires
            0 <= index < self.existing_groups.len(),
            !path.contains(self.existing_groups[index].group_id),
        ensures
            self.unexplored(path.insert(self.existing_groups[index].group_id)) < self.unexplored(
                path,
            ),
    {
        let ids = self.existing_groups.map_values(|g: ExistingGroupView| g.group_id);
        let next = self.existing_groups[index].group_id;
        vstd::seq_lib::seq_to_set_is_finite(ids);
        assert(ids[index] == next);
        assert(ids.to_set().contains(next));
        let open = ids.to_set().difference(path);
        assert(open.finite());
        assert(open.contains(next));
        assert(ids.to_set().difference(path.insert(next)) =~= open.remove(next));
    }

    /// The sources that refer to `id`, directly or through a chain of
    /// existing groups of which each refers to the one before. `visited` are
    /// the ids from which the walk has come to `id`: no chain is followed
    /// into one of them, nor back into `id`.
    pub open spec fn referencing_services(self, id: Seq<char>, visited: Set<Seq<char>>) -> Set<
        Seq<char>,
    >
        decreases self.unexplored(visited.insert(id)), self.existing_groups.len() + 1,
    {
        self.direct_sources(id).union(
            self.indirect_sources(id, visited.insert(id), self.existing_groups.len() as int),
        )
    }

    /// The sources that refer to `id` through one of the first `upto`
    /// existing groups.
    pub open spec fn indirect_sources(
        self,
        id: Seq<char>,
        path: Set<Seq<char>>,
        upto: int,
    ) -> Set<Seq<char>>
        decreases self.unexplored(path), upto,
    {
        if 0 < upto <= self.existing_groups.len() {
            let before = self.indirect_sources(id, path, upto - 1);
            if self.leads_to(upto - 1, id, path) {
                proof {
                    self.lemma_step_explores(upto - 1, path);
                }
                before.union(
                    self.referencing_services(self.existing_groups[upto - 1].group_id, path),
                )
            } else {
                before
            }
        } else {
            Set::empty()
        }
    }

    /// Whether `chain` lists, by their places among the existing groups, a
    /// chain of groups from `id`: the first refers to `id`, each further one
    /// to the one before, and none has an id that is visited, is `id`, or is
    /// that of a group earlier in the chain.
    pub open spec fn is_chain(self, id: Seq<char>, visited: Set<Seq<char>>, chain: Seq<int>) -> bool
        decreases chain.len(),
    {
        chain.len() == 0 || (self.leads_to(chain[0], id, visited.insert(id)) && self.is_chain(
            self.existing_groups[chain[0]].group_id,
            visited.insert(id),
            chain.skip(1),
        ))
    }

    /// The group id at which a chain from `id` ends: `id` itself where the
    /// chain is empty.
    pub open spec fn chain_end(self, id: Seq<char>, chain: Seq<int>) -> Seq<char> {
        if chain.len() == 0 {
            id
        } else {
            self.existing_groups[chain.last()].group_id
        }
    }

    /// Whether nobody refers to `group`, directly or indirectly.
    pub open spec fn is_unused(self, group: ExistingGroupView) -> bool {
        self.referencing_services(group.group_id, Set::empty()) == Set::<Seq<char>>::empty()
    }

    /// The test that picks the groups that nobody refers to.
    pub open spec fn unused_filter(self) -> spec_fn(ExistingGroupView) -> bool {
        |g: ExistingGroupView| self.is_unused(g)
    }

    /// The existing groups that nobody refers to, in their order.
    pub open spec fn unused_groups(self) -> Seq<ExistingGroupView> {
        self.existing_groups.filter(self.unused_filter())
    }
}

} // verus!
