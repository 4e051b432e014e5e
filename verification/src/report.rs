//! What is shown of an aggregate, and what is to be removed: a row for each
//! existing group, and the unused groups region by region.

use crate::model::{ExistingGroupView, SecurityGroupsView};
use crate::security::{views_of_refs, ExistingGroup, SecurityGroups};
use crate::string_set::{clone_strings, texts, StringSet};
use crate::trusted::{join_with, runs_by_region, sorted_by_region};
use vstd::prelude::*;

verus! {

/// Whether `a` comes before `b`, or is `b`, in the order of strings: at the
/// first place where they differ `a` has the lower code point, or `a` ends
/// there.
pub open spec fn text_le(a: Seq<char>, b: Seq<char>) -> bool
    decreases a.len(),
{
    if a.len() == 0 {
        true
    } else if b.len() == 0 {
        false
    } else if a[0] != b[0] {
        (a[0] as u32) < (b[0] as u32)
    } else {
        text_le(a.skip(1), b.skip(1))
    }
}

/// `items` written one after the other with `separator` between them.
pub open spec fn joined(items: Seq<Seq<char>>, separator: Seq<char>) -> Seq<char>
    decreases items.len(),
{
    if items.len() == 0 {
        Seq::empty()
    } else if items.len() == 1 {
        items[0]
    } else {
        joined(items.drop_last(), separator) + separator + items.last()
    }
}

/// The test that picks the groups of `region`.
pub open spec fn in_region(region: Seq<char>) -> spec_fn(ExistingGroupView) -> bool {
    |g: ExistingGroupView| g.region == region
}

/// Whether `sorted` is `groups` in the order of their regions, with the
/// groups of one region in the order that they have in `groups`.
pub open spec fn is_sorted_by_region(
    groups: Seq<ExistingGroupView>,
    sorted: Seq<ExistingGroupView>,
) -> bool {
    &&& forall|i: int, j: int|
        0 <= i < j < sorted.len() ==> text_le(
            (#[trigger] sorted[i]).region,
            (#[trigger] sorted[j]).region,
        )
    &&& forall|region: Seq<char>| #[trigger]
        sorted.filter(in_region(region)) == groups.filter(in_region(region))
}

/// One line of the report.
pub struct ReportRowView {
    pub region: Seq<char>,
    pub group_id: Seq<char>,
    pub group_name: Seq<char>,
    pub sources: Seq<Seq<char>>,
    pub references: Seq<char>,
    pub unused: bool,
}

/// The unused groups of one region that follow one another.
pub struct RegionBatchView {
    pub region: Seq<char>,
    pub groups: Seq<ExistingGroupView>,
}

/// Whether `runs` cuts `groups` into its runs of one region: the runs make
/// up `groups`, none is empty, each holds groups of its own region only, and
/// no two neighbours are of one region.
pub open spec fn is_runs_by_region(
    groups: Seq<ExistingGroupView>,
    runs: Seq<RegionBatchView>,
) -> bool {
    &&& runs.map_values(|run: RegionBatchView| run.groups).flatten() == groups
    &&& forall|i: int|
        0 <= i < runs.len() ==> (#[trigger] runs[i]).groups.len() > 0 && forall|k: int|
            0 <= k < runs[i].groups.len() ==> (#[trigger] runs[i].groups[k]).region
                == runs[i].region
    &&& forall|i: int|
        0 <= i < runs.len() - 1 ==> (#[trigger] runs[i]).region != runs[i + 1].region
}

impl SecurityGroupsView {
    /// Whether `row` is the line for `group`: it names the group, lists each
    /// source that refers to it once, in some order, shows them with a comma
    /// and a blank between them, and marks the group where there is none.
    pub open spec fn is_row(self, row: ReportRowView, group: ExistingGroupView) -> bool {
        &&& row.region == group.region
        &&& row.group_id == group.group_id
        &&& row.group_name == group.group_name
        &&& row.sources.no_duplicates()
        &&& row.sources.to_set() == self.referencing_services(group.group_id, Set::empty())
        &&& row.references == joined(row.sources, ", "@)
        &&& row.unused == self.is_unused(group)
    }

    /// Whether `rows` is the report: a line for each existing group, in the
    /// order of the regions.
    pub open spec fn is_report(self, rows: Seq<ReportRowView>) -> bool {
        exists|sorted: Seq<ExistingGroupView>|
            #![trigger is_sorted_by_region(self.existing_groups, sorted)]
            {
                &&& is_sorted_by_region(self.existing_groups, sorted)
                &&& sorted.len() == rows.len()
                &&& forall|i: int| 0 <= i < rows.len() ==> self.is_row(#[trigger] rows[i], sorted[i])
            }
    }
}

/// One line of the report: a group and the sources that refer to it.
#[derive(Debug, PartialEq, Eq)]
pub struct ReportRow {
    pub region: String,
    pub group_id: String,
    pub group_name: String,
    /// The sources that refer to the group, each once.
    pub sources: Vec<String>,
    /// The sources as they are shown.
    pub references: String,
    /// Whether nobody refers to the group.
    pub unused: bool,
}

impl View for ReportRow {
    type V = ReportRowView;

    open spec fn view(&self) -> ReportRowView {
        ReportRowView {
            region: self.region@,
            group_id: self.group_id@,
            group_name: self.group_name@,
            sources: texts(self.sources@),
            references: self.references@,
            unused: self.unused,
        }
    }
}

impl Clone for ReportRow {
    fn clone(&self) -> (copy: Self)
        ensures
            copy@ == self@,
    {
        ReportRow {
            region: self.region.clone(),
            group_id: self.group_id.clone(),
            group_name: self.group_name.clone(),
            sources: clone_strings(&self.sources),
            references: self.references.clone(),
            unused: self.unused,
        }
    }
}

/// The models of a list of lines, in order.
pub open spec fn row_views(rows: Seq<ReportRow>) -> Seq<ReportRowView> {
    rows.map_values(|row: ReportRow| row@)
}

/// The unused groups of one region that follow one another.
#[derive(Debug)]
pub struct RegionBatch<'a> {
    pub region: String,
    pub groups: Vec<&'a ExistingGroup>,
}

impl<'a> View for RegionBatch<'a> {
    type V = RegionBatchView;

    open spec fn view(&self) -> RegionBatchView {
        RegionBatchView { region: self.region@, groups: views_of_refs(self.groups@) }
    }
}

/// The models of a list of batches, in order.
pub open spec fn batch_views<'a>(batches: Seq<RegionBatch<'a>>) -> Seq<RegionBatchView> {
    batches.map_values(|batch: RegionBatch<'a>| batch@)
}

impl SecurityGroups {
    /// The line of the report for `group`.
    pub fn report_row(&self, group: &ExistingGroup) -> (row: ReportRow)
        ensures
            self@.is_row(row@, group@),
    {
        let found = self.collect_referencing_services(group.group_id().as_str(), StringSet::new());
        let sources = found.to_vec();
        let references = join_with(&sources, ", ");
        let unused = found.is_empty();
        ReportRow {
            region: group.region().clone(),
            group_id: group.group_id().clone(),
            group_name: group.group_name().clone(),
            sources,
            references,
            unused,
        }
    }

    /// The report: a line for each existing group, in the order of the
    /// regions; within a region in the order of the groups.
    pub fn report(&self) -> (rows: Vec<ReportRow>)
        ensures
            self@.is_report(row_views(rows@)),
    {
        let sorted = sorted_by_region(self.existing_groups());
        let mut rows: Vec<ReportRow> = Vec::new();
        let mut i: usize = 0;
        while i < sorted.len()
            invariant
                i <= sorted.len(),
                rows@.len() == i,
                forall|k: int|
                    0 <= k < i ==> self@.is_row(
                        #[trigger] row_views(rows@)[k],
                        views_of_refs(sorted@)[k],
                    ),
            decreases sorted.len() - i,
        {
            let ghost before = row_views(rows@);
            let row = self.report_row(sorted[i]);
            let ghost line = row@;
            rows.push(row);
            proof {
                assert(row_views(rows@) =~= before.push(line));
                assert(views_of_refs(sorted@)[i as int] == sorted@[i as int]@);
            }
            i += 1;
        }
        proof {
            assert(is_sorted_by_region(self@.existing_groups, views_of_refs(sorted@)));
        }
        rows
    }

    /// What is to be removed: the unused groups in their order, cut into
    /// the runs of groups of one region.
    pub fn removal_plan(&self) -> (plan: Vec<RegionBatch<'_>>)
        ensures
            is_runs_by_region(self@.unused_groups(), batch_views(plan@)),
    {
        runs_by_region(self.find_unused())
    }
}

} // verus!
