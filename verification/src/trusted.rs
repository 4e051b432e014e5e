//! Calls into other crates. Verus takes the contracts in this file on trust.

use crate::report::{
    batch_views, is_runs_by_region, is_sorted_by_region, joined, RegionBatch,
};
use crate::security::{views_of, views_of_refs, ExistingGroup};
use crate::string_set::texts;
use itertools::Itertools;
use rand::Rng;
use sha1::Digest;
use vstd::prelude::*;

verus! {

/// The SHA-1 digest of `data`, as the `sha1` crate computes it.
pub uninterp spec fn sha1_of(data: Seq<u8>) -> Seq<u8>;

/// The sixteen digits of lower-case base 16, by value.
pub open spec fn hex_digits() -> Seq<char> {
    seq!['0', '1', '2', '3', '4', '5', '6', '7', '8', '9', 'a', 'b', 'c', 'd', 'e', 'f']
}

/// `bytes` in lower-case base 16: two digits for each byte, the high half
/// first.
pub open spec fn hex_lower(bytes: Seq<u8>) -> Seq<char> {
    Seq::new(
        2 * bytes.len(),
        |i: int|
            if i % 2 == 0 {
                hex_digits()[bytes[i / 2] as int / 16]
            } else {
                hex_digits()[bytes[i / 2] as int % 16]
            },
    )
}

/// `Itertools::unique` over the strings of `items`. The adaptor yields the
/// items in their order and drops each one that is equal to an item it has
/// yielded before, so of equal items the first stays.
#[verifier::external_body]
pub(crate) fn unique(items: Vec<String>) -> (kept: Vec<String>)
    ensures
        texts(kept@) == texts(items@).remove_duplicates(Seq::empty()),
{
    items.into_iter().unique().collect()
}

/// `Digest::digest` of `sha1::Sha1`: the hash of `data`, which is a function
/// of `data` alone and is twenty bytes long.
#[verifier::external_body]
pub(crate) fn sha1_digest(data: &Vec<u8>) -> (digest: Vec<u8>)
    ensures
        digest@ == sha1_of(data@),
        digest@.len() == 20,
{
    sha1::Sha1::digest(data).to_vec()
}

/// `base16ct::lower::encode_string`: each byte becomes two lower-case
/// digits of base 16, the high half first. The crate refuses an input of
/// more than half of `usize::MAX` bytes.
#[verifier::external_body]
pub(crate) fn hex_lower_string(bytes: &Vec<u8>) -> (text: String)
    requires
        bytes@.len() <= usize::MAX / 2,
    ensures
        text@ == hex_lower(bytes@),
{
    base16ct::lower::encode_string(bytes)
}

/// `Rng::sample_iter` on `rand::thread_rng()` with the distribution
/// `Standard`, cut off after `count` items. Of the bytes only their number
/// is known.
#[verifier::external_body]
pub(crate) fn random_bytes(count: usize) -> (bytes: Vec<u8>)
    ensures
        bytes@.len() == count,
{
    rand::thread_rng().sample_iter(rand::distributions::Standard).take(count).collect()
}

/// `Itertools::sorted_by_key` over the groups, with the region as the key:
/// a stable sort into ascending order of the keys, in the order that
/// strings have.
#[verifier::external_body]
pub(crate) fn sorted_by_region<'a>(groups: &'a Vec<ExistingGroup>) -> (sorted: Vec<
    &'a ExistingGroup,
>)
    ensures
        is_sorted_by_region(views_of(groups@), views_of_refs(sorted@)),
{
    groups.iter().sorted_by_key(|group| group.region().clone()).collect()
}

/// `Itertools::join` over the strings of `items`: the items one after the
/// other, with `separator` between every two.
#[verifier::external_body]
pub(crate) fn join_with(items: &Vec<String>, separator: &str) -> (text: String)
    ensures
        text@ == joined(texts(items@), separator@),
{
    items.iter().join(separator)
}

/// `Itertools::group_by` over the groups, with the region as the key: the
/// groups that follow one another with the same key make one run, and the
/// runs come in the order of the groups.
#[verifier::external_body]
pub(crate) fn runs_by_region<'a>(groups: Vec<&'a ExistingGroup>) -> (runs: Vec<RegionBatch<'a>>)
    ensures
        is_runs_by_region(views_of_refs(groups@), batch_views(runs@)),
{
    let by_region = groups.into_iter().group_by(|group| group.region().clone());
    by_region.into_iter().map(|(region, run)| RegionBatch { region, groups: run.collect() }).collect()
}

} // verus!
