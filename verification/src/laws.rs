//! What holds of merging and of the walk over references, for every
//! aggregate.

use crate::model::SecurityGroupsView;
use vstd::prelude::*;

verus! {

/// Under every group id, a merge lists the tags of the first aggregate and
/// then those of the second.
pub proof fn lemma_merge_sources(a: SecurityGroupsView, b: SecurityGroupsView, id: Seq<char>)
    ensures
        a.merge(b).sources(id) == a.sources(id) + b.sources(id),
{
    assert(a.merge(b).sources(id) =~= a.sources(id) + b.sources(id));
}

/// Merging into the empty aggregate gives the aggregate that was merged, and
/// merging the empty aggregate changes nothing.
pub proof fn lemma_merge_empty(a: SecurityGroupsView)
    ensures
        SecurityGroupsView::empty().merge(a) == a,
        a.merge(SecurityGroupsView::empty()) == a,
{
    let e = SecurityGroupsView::empty();
    assert forall|id: Seq<char>| a.external_references.contains_key(id) implies e.merge(
        a,
    ).external_references[id] == a.external_references[id] && a.merge(e).external_references[id]
        == a.external_references[id] by {
        assert(e.sources(id) + a.sources(id) =~= a.sources(id));
        assert(a.sources(id) + e.sources(id) =~= a.sources(id));
    }
    assert(e.merge(a).external_references =~= a.external_references);
    assert(a.merge(e).external_references =~= a.external_references);
    assert(e.merge(a).existing_groups =~= a.existing_groups);
    assert(a.merge(e).existing_groups =~= a.existing_groups);
}

/// Merging is associative: it does not matter which of two merges is made
/// first.
pub proof fn lemma_merge_associative(
    a: SecurityGroupsView,
    b: SecurityGroupsView,
    c: SecurityGroupsView,
)
    ensures
        a.merge(b).merge(c) == a.merge(b.merge(c)),
{
    let left = a.merge(b).merge(c);
    let right = a.merge(b.merge(c));
    assert forall|id: Seq<char>| left.external_references.contains_key(id) implies left.external_references[id]
        == right.external_references[id] by {
        lemma_merge_sources(a, b, id);
        lemma_merge_sources(b, c, id);
        assert((a.sources(id) + b.sources(id)) + c.sources(id) =~= a.sources(id) + (b.sources(id)
            + c.sources(id)));
    }
    assert(left.external_references =~= right.external_references);
    assert(left.existing_groups =~= right.existing_groups);
}

/// What a merge holds, order apart: under every group id the tags of both
/// aggregates, each as often as the two hold it together, and likewise the
/// existing groups.
pub proof fn lemma_merge_content(a: SecurityGroupsView, b: SecurityGroupsView)
    ensures
        a.merge(b).external_references.dom() == a.external_references.dom().union(
            b.external_references.dom(),
        ),
        forall|id: Seq<char>| #[trigger]
            a.merge(b).sources(id).to_multiset() == a.sources(id).to_multiset().add(
                b.sources(id).to_multiset(),
            ),
        a.merge(b).existing_groups.to_multiset() == a.existing_groups.to_multiset().add(
            b.existing_groups.to_multiset(),
        ),
{
    assert(a.merge(b).external_references.dom() =~= a.external_references.dom().union(
        b.external_references.dom(),
    ));
    assert forall|id: Seq<char>| #[trigger]
        a.merge(b).sources(id).to_multiset() == a.sources(id).to_multiset().add(
            b.sources(id).to_multiset(),
        ) by {
        lemma_merge_sources(a, b, id);
        vstd::seq_lib::lemma_multiset_commutative(a.sources(id), b.sources(id));
    }
    vstd::seq_lib::lemma_multiset_commutative(a.existing_groups, b.existing_groups);
}

/// Merging two aggregates gives the same content whichever comes first.
pub proof fn lemma_merge_commutes(a: SecurityGroupsView, b: SecurityGroupsView)
    ensures
        a.merge(b).same_content(b.merge(a)),
{
    lemma_merge_content(a, b);
    lemma_merge_content(b, a);
    assert(a.merge(b).external_references.dom() =~= b.merge(a).external_references.dom());
    assert forall|id: Seq<char>| #[trigger]
        a.merge(b).sources(id).to_multiset() == b.merge(a).sources(id).to_multiset() by {
        assert(a.sources(id).to_multiset().add(b.sources(id).to_multiset()) =~= b.sources(
            id,
        ).to_multiset().add(a.sources(id).to_multiset()));
    }
    assert(a.existing_groups.to_multiset().add(b.existing_groups.to_multiset())
        =~= b.existing_groups.to_multiset().add(a.existing_groups.to_multiset()));
}

/// The content of three aggregates merged one after the other into the empty
/// aggregate.
proof fn lemma_merge_three(a: SecurityGroupsView, b: SecurityGroupsView, c: SecurityGroupsView)
    ensures
        SecurityGroupsView::empty().merge(a).merge(b).merge(c).external_references.dom()
            == a.external_references.dom().union(b.external_references.dom()).union(
            c.external_references.dom(),
        ),
        forall|id: Seq<char>| #[trigger]
            SecurityGroupsView::empty().merge(a).merge(b).merge(c).sources(id).to_multiset()
                == a.sources(id).to_multiset().add(b.sources(id).to_multiset()).add(
                c.sources(id).to_multiset(),
            ),
        SecurityGroupsView::empty().merge(a).merge(b).merge(c).existing_groups.to_multiset()
            == a.existing_groups.to_multiset().add(b.existing_groups.to_multiset()).add(
            c.existing_groups.to_multiset(),
        ),
{
    lemma_merge_empty(a);
    lemma_merge_content(a, b);
    lemma_merge_content(a.merge(b), c);
}

/// Two of the orders in which three aggregates can be merged into the empty
/// aggregate give the same content.
proof fn lemma_merge_reordered(
    a: SecurityGroupsView,
    b: SecurityGroupsView,
    c: SecurityGroupsView,
    x: SecurityGroupsView,
    y: SecurityGroupsView,
    z: SecurityGroupsView,
)
    requires
        (x == a && y == c && z == b) || (x == b && y == a && z == c) || (x == b && y == c && z
            == a) || (x == c && y == a && z == b) || (x == c && y == b && z == a),
    ensures
        SecurityGroupsView::empty().merge(a).merge(b).merge(c).same_content(
            SecurityGroupsView::empty().merge(x).merge(y).merge(z),
        ),
{
    let first = SecurityGroupsView::empty().merge(a).merge(b).merge(c);
    let second = SecurityGroupsView::empty().merge(x).merge(y).merge(z);
    lemma_merge_three(a, b, c);
    lemma_merge_three(x, y, z);
    assert(first.external_references.dom() =~= second.external_references.dom());
    assert forall|id: Seq<char>| #[trigger]
        first.sources(id).to_multiset() == second.sources(id).to_multiset() by {
        assert(a.sources(id).to_multiset().add(b.sources(id).to_multiset()).add(
            c.sources(id).to_multiset(),
        ) =~= x.sources(id).to_multiset().add(y.sources(id).to_multiset()).add(
            z.sources(id).to_multiset(),
        ));
    }
    assert(a.existing_groups.to_multiset().add(b.existing_groups.to_multiset()).add(
        c.existing_groups.to_multiset(),
    ) =~= x.existing_groups.to_multiset().add(y.existing_groups.to_multiset()).add(
        z.existing_groups.to_multiset(),
    ));
}

/// Merging three aggregates into the empty aggregate gives the same content
/// in each of the six orders: the same keys, under each key the same tags as
/// often, and the same existing groups as often.
pub proof fn lemma_merge_order_is_irrelevant(
    a: SecurityGroupsView,
    b: SecurityGroupsView,
    c: SecurityGroupsView,
)
    ensures
        SecurityGroupsView::empty().merge(a).merge(b).merge(c).same_content(
            SecurityGroupsView::empty().merge(a).merge(c).merge(b),
        ),
        SecurityGroupsView::empty().merge(a).merge(b).merge(c).same_content(
            SecurityGroupsView::empty().merge(b).merge(a).merge(c),
        ),
        SecurityGroupsView::empty().merge(a).merge(b).merge(c).same_content(
            SecurityGroupsView::empty().merge(b).merge(c).merge(a),
        ),
        SecurityGroupsView::empty().merge(a).merge(b).merge(c).same_content(
            SecurityGroupsView::empty().merge(c).merge(a).merge(b),
        ),
        SecurityGroupsView::empty().merge(a).merge(b).merge(c).same_content(
            SecurityGroupsView::empty().merge(c).merge(b).merge(a),
        ),
{
    lemma_merge_reordered(a, b, c, a, c, b);
    lemma_merge_reordered(a, b, c, b, a, c);
    lemma_merge_reordered(a, b, c, b, c, a);
    lemma_merge_reordered(a, b, c, c, a, b);
    lemma_merge_reordered(a, b, c, c, b, a);
}

/// Merging is not idempotent: an aggregate merged with itself keeps its
/// keys, lists under each key its tags twice over, and lists its existing
/// groups twice over, so every list doubles in length.
pub proof fn lemma_merge_with_itself_doubles(a: SecurityGroupsView)
    ensures
        a.merge(a).external_references.dom() == a.external_references.dom(),
        forall|id: Seq<char>| #[trigger]
            a.external_references.contains_key(id) ==> a.merge(a).external_references[id]
                == a.external_references[id] + a.external_references[id],
        forall|id: Seq<char>| #[trigger]
            a.external_references.contains_key(id) ==> a.merge(a).external_references[id].len()
                == 2 * a.external_references[id].len(),
        a.merge(a).existing_groups == a.existing_groups + a.existing_groups,
        a.merge(a).existing_groups.len() == 2 * a.existing_groups.len(),
{
    assert(a.merge(a).external_references.dom() =~= a.external_references.dom());
}

/// The sources that refer to a group id are those that refer to it directly,
/// together with those that refer to an existing group which refers to the
/// id and is not on the path; for that group the path is longer by the id.
pub proof fn lemma_referencing_services(
    groups: SecurityGroupsView,
    id: Seq<char>,
    visited: Set<Seq<char>>,
    tag: Seq<char>,
)
    ensures
        groups.referencing_services(id, visited).contains(tag) <==> (groups.direct_sources(
            id,
        ).contains(tag) || exists|index: int|
            groups.leads_to(index, id, visited.insert(id))
                && #[trigger] groups.referencing_services(
                groups.existing_groups[index].group_id,
                visited.insert(id),
            ).contains(tag)),
{
    lemma_indirect_sources(groups, id, visited.insert(id), groups.existing_groups.len() as int, tag);
}

/// Where no existing group refers to itself, the walk from a group id goes
/// on to exactly the existing groups that refer to the id and are not among
/// the visited ones: the id itself need not be held against them.
pub proof fn lemma_referencing_services_of_kept_groups(
    groups: SecurityGroupsView,
    id: Seq<char>,
    visited: Set<Seq<char>>,
    tag: Seq<char>,
)
    requires
        groups.without_self_references(),
    ensures
        groups.referencing_services(id, visited).contains(tag) <==> (groups.direct_sources(
            id,
        ).contains(tag) || exists|index: int|
            0 <= index < groups.existing_groups.len() && groups.existing_groups[index].references.contains(
                id,
            ) && !visited.contains(groups.existing_groups[index].group_id)
                && #[trigger] groups.referencing_services(
                groups.existing_groups[index].group_id,
                visited.insert(id),
            ).contains(tag)),
{
    lemma_referencing_services(groups, id, visited, tag);
    assert forall|index: int|
        0 <= index < groups.existing_groups.len() && groups.existing_groups[index].references.contains(
            id,
        ) implies groups.existing_groups[index].group_id != id by {
        assert(!groups.existing_groups[index].references.contains(
            groups.existing_groups[index].group_id,
        ));
    }
}

/// The sources found through the first `upto` existing groups are those
/// found through one of them.
proof fn lemma_indirect_sources(
    groups: SecurityGroupsView,
    id: Seq<char>,
    path: Set<Seq<char>>,
    upto: int,
    tag: Seq<char>,
)
    requires
        0 <= upto <= groups.existing_groups.len(),
    ensures
        groups.indirect_sources(id, path, upto).contains(tag) <==> (exists|index: int|
            index < upto && groups.leads_to(index, id, path)
                && #[trigger] groups.referencing_services(
                groups.existing_groups[index].group_id,
                path,
            ).contains(tag)),
    decreases upto,
{
    if upto > 0 {
        lemma_indirect_sources(groups, id, path, upto - 1, tag);
        if groups.indirect_sources(id, path, upto).contains(tag) {
            if groups.indirect_sources(id, path, upto - 1).contains(tag) {
            } else {
                assert(groups.leads_to(upto - 1, id, path));
                assert(groups.referencing_services(
                    groups.existing_groups[upto - 1].group_id,
                    path,
                ).contains(tag));
            }
        }
    }
}

/// A source that refers to the end of a chain from a group id is among the
/// sources that refer to the id.
pub proof fn lemma_chain_is_followed(
    groups: SecurityGroupsView,
    id: Seq<char>,
    visited: Set<Seq<char>>,
    chain: Seq<int>,
    tag: Seq<char>,
)
    requires
        groups.is_chain(id, visited, chain),
        groups.direct_sources(groups.chain_end(id, chain)).contains(tag),
    ensures
        groups.referencing_services(id, visited).contains(tag),
    decreases chain.len(),
{
    lemma_referencing_services(groups, id, visited, tag);
    if chain.len() > 0 {
        let next = groups.existing_groups[chain[0]].group_id;
        let rest = chain.skip(1);
        if rest.len() > 0 {
            assert(rest.last() == chain.last());
        }
        assert(groups.chain_end(next, rest) == groups.chain_end(id, chain));
        lemma_chain_is_followed(groups, next, visited.insert(id), rest, tag);
    }
}

/// A source that refers to a group id refers to the end of some chain from
/// the id.
pub proof fn lemma_source_ends_a_chain(
    groups: SecurityGroupsView,
    id: Seq<char>,
    visited: Set<Seq<char>>,
    tag: Seq<char>,
) -> (chain: Seq<int>)
    requires
        groups.referencing_services(id, visited).contains(tag),
    ensures
        groups.is_chain(id, visited, chain),
        groups.direct_sources(groups.chain_end(id, chain)).contains(tag),
    decreases groups.unexplored(visited.insert(id)),
{
    lemma_referencing_services(groups, id, visited, tag);
    if groups.direct_sources(id).contains(tag) {
        Seq::empty()
    } else {
        let path = visited.insert(id);
        let index = choose|index: int|
            groups.leads_to(index, id, path) && #[trigger] groups.referencing_services(
                groups.existing_groups[index].group_id,
                path,
            ).contains(tag);
        let next = groups.existing_groups[index].group_id;
        groups.lemma_step_explores(index, path);
        let rest = lemma_source_ends_a_chain(groups, next, path, tag);
        let chain = seq![index] + rest;
        assert(chain[0] == index);
        assert(chain.skip(1) =~= rest);
        if rest.len() > 0 {
            assert(chain.last() == rest.last());
        }
        chain
    }
}

/// The sources that refer to a group id are the direct sources of the ids
/// at which the chains from it end.
pub proof fn lemma_referencing_services_are_chain_ends(
    groups: SecurityGroupsView,
    id: Seq<char>,
    visited: Set<Seq<char>>,
    tag: Seq<char>,
)
    ensures
        groups.referencing_services(id, visited).contains(tag) <==> exists|chain: Seq<int>|
            #[trigger] groups.is_chain(id, visited, chain) && groups.direct_sources(
                groups.chain_end(id, chain),
            ).contains(tag),
{
    if groups.referencing_services(id, visited).contains(tag) {
        let chain = lemma_source_ends_a_chain(groups, id, visited, tag);
        assert(groups.is_chain(id, visited, chain));
    }
    if exists|chain: Seq<int>|
        #[trigger] groups.is_chain(id, visited, chain) && groups.direct_sources(
            groups.chain_end(id, chain),
        ).contains(tag) {
        let chain = choose|chain: Seq<int>|
            #[trigger] groups.is_chain(id, visited, chain) && groups.direct_sources(
                groups.chain_end(id, chain),
            ).contains(tag);
        lemma_chain_is_followed(groups, id, visited, chain, tag);
    }
}

/// Where no source refers to any group id from outside the registry, nobody
/// refers to any group, however the groups refer to one another, and every
/// existing group is unused.
pub proof fn lemma_without_sources_all_is_unused(groups: SecurityGroupsView)
    requires
        groups.external_references == Map::<Seq<char>, Seq<Seq<char>>>::empty(),
    ensures
        forall|id: Seq<char>, visited: Set<Seq<char>>| #[trigger]
            groups.referencing_services(id, visited) == Set::<Seq<char>>::empty(),
        groups.unused_groups() == groups.existing_groups,
{
    assert forall|id: Seq<char>, visited: Set<Seq<char>>| #[trigger]
        groups.referencing_services(id, visited) == Set::<Seq<char>>::empty() by {
        assert forall|tag: Seq<char>| !groups.referencing_services(id, visited).contains(tag) by {
            if groups.referencing_services(id, visited).contains(tag) {
                let chain = lemma_source_ends_a_chain(groups, id, visited, tag);
                let end = groups.chain_end(id, chain);
                assert(groups.sources(end) =~= Seq::<Seq<char>>::empty());
                assert(groups.sources(end).to_set().contains(tag));
            }
        }
        assert(groups.referencing_services(id, visited) =~= Set::<Seq<char>>::empty());
    }
    lemma_filter_keeps_all(groups.existing_groups, groups.unused_filter());
}

/// A filter that every item passes keeps the list as it is.
proof fn lemma_filter_keeps_all<A>(items: Seq<A>, pick: spec_fn(A) -> bool)
    requires
        forall|i: int| 0 <= i < items.len() ==> pick(#[trigger] items[i]),
    ensures
        items.filter(pick) == items,
    decreases items.len(),
{
    reveal(Seq::filter);
    if items.len() > 0 {
        lemma_filter_keeps_all(items.drop_last(), pick);
        assert(items.drop_last().push(items.last()) =~= items);
    }
}

/// Every group that is reported as unused exists and has nobody who refers
/// to it; and where the aggregate holds no group of a default VPC, none is
/// reported.
pub proof fn lemma_unused_groups_exist(groups: SecurityGroupsView, i: int)
    requires
        0 <= i < groups.unused_groups().len(),
    ensures
        groups.existing_groups.contains(groups.unused_groups()[i]),
        groups.is_unused(groups.unused_groups()[i]),
        groups.without_default_groups() ==> !groups.unused_groups()[i].is_default(),
{
    let unused = groups.unused_groups()[i];
    groups.existing_groups.lemma_filter_pred(groups.unused_filter(), i);
    assert(groups.unused_groups().contains(unused));
    groups.existing_groups.lemma_filter_contains_rev(groups.unused_filter(), unused);
    if groups.without_default_groups() {
        let at = groups.existing_groups.index_of(unused);
        assert(groups.existing_groups[at] == unused);
    }
}

} // verus!
