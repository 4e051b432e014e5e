//! Bookkeeping for cleaning up cloud security groups: which groups exist,
//! who refers to them, and which of them nobody refers to any more.

pub mod concurrent;
pub mod laws;
pub mod model;
pub mod noise;
pub mod providers;
pub mod reference_map;
pub mod report;
pub mod security;
pub mod string_set;
pub mod trusted;

pub use concurrent::{Admission, ConcurrentLoader, MAX_IN_FLIGHT};
pub use providers::{
    source_tag, tagged_references, ALBGroups, AWSSecurityGroups, EC2Groups, ElasticacheGroups,
    FoundGroup, KnownSecurityGroups, LambdaGroups, RDSGroups, SecurityGroupsProvider,
};
pub use reference_map::ReferenceMap;
pub use report::{RegionBatch, ReportRow};
pub use security::{ExistingGroup, GroupReference, LoadedData, SecurityGroups};
pub use string_set::StringSet;
