//! Names for throw-away security groups, made to try the clean-up on.

use crate::trusted::{hex_lower, hex_lower_string, random_bytes, sha1_digest, sha1_of};
use vstd::prelude::*;
use vstd::string::StringExecFns;

verus! {

/// How many throw-away groups are made at a time.
pub const NOISE_GROUPS: usize = 20;

/// How many random bytes go into one name.
pub const NOISE_ENTROPY: usize = 64;

/// The name that belongs to a digest: `noise-` and the digest in lower-case
/// base 16.
pub open spec fn noise_name_of_digest(digest: Seq<u8>) -> Seq<char> {
    "noise-"@ + hex_lower(digest)
}

/// The name that belongs to some bytes: that of their SHA-1 digest.
pub open spec fn noise_name_of(entropy: Seq<u8>) -> Seq<char> {
    noise_name_of_digest(sha1_of(entropy))
}

/// Whether `name` is the name that belongs to some `NOISE_ENTROPY` bytes.
pub open spec fn is_noise_name(name: Seq<char>) -> bool {
    exists|entropy: Seq<u8>| entropy.len() == NOISE_ENTROPY && name == #[trigger] noise_name_of(entropy)
}

/// The name that belongs to `digest`.
pub fn noise_name_from_digest(digest: &Vec<u8>) -> (name: String)
    requires
        digest@.len() <= usize::MAX / 2,
    ensures
        name@ == noise_name_of_digest(digest@),
{
    let hex = hex_lower_string(digest);
    String::from_str("noise-").concat(hex.as_str())
}

/// The name that belongs to `entropy`.
pub fn noise_name(entropy: &Vec<u8>) -> (name: String)
    ensures
        name@ == noise_name_of(entropy@),
{
    let digest = sha1_digest(entropy);
    noise_name_from_digest(&digest)
}

/// A name from fresh random bytes.
pub fn random_noise_name() -> (name: String)
    ensures
        is_noise_name(name@),
{
    let entropy = random_bytes(NOISE_ENTROPY);
    noise_name(&entropy)
}

/// `NOISE_GROUPS` names, each from random bytes of its own.
pub fn noise_names() -> (names: Vec<String>)
    ensures
        names@.len() == NOISE_GROUPS,
        forall|i: int| 0 <= i < names@.len() ==> is_noise_name(#[trigger] names@[i]@),
{
    let mut names: Vec<String> = Vec::new();
    while names.len() < NOISE_GROUPS
        invariant
            names@.len() <= NOISE_GROUPS,
            forall|i: int| 0 <= i < names@.len() ==> is_noise_name(#[trigger] names@[i]@),
        decreases NOISE_GROUPS - names@.len(),
    {
        names.push(random_noise_name());
    }
    names
}

} // verus!
