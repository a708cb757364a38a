//! Search of package-manager buckets: local manifests first, then the
//! listings of well-known remote buckets.

pub mod driver;
pub mod errors;
pub mod install;
pub mod json;
pub mod known_buckets;
pub mod manifest;
pub mod paths;
pub mod pattern;
pub mod remote;
pub mod report;
pub mod scan;
pub mod search;
pub mod sort;
pub mod text;

pub use crate::driver::{step, Action, Event, Phase};
pub use crate::errors::{ScoopFindError, SearchError};
pub use crate::install::{get_buckets, manifest_home, manifest_paths, scoop_home, PathKind, Probe};
pub use crate::known_buckets::{known_buckets, remote_targets, KnownBucket};
pub use crate::manifest::{contains_query, match_manifest, name_matches, read_manifest, Bin, BinEntry, Manifest, Match};
pub use crate::remote::{find_remote, github_ratelimit_reached, RemoteResult};
pub use crate::report::{print_nothing, print_remote, print_result, print_results, print_suggestions};
pub use crate::scan::{find_manifests, names_manifest, scan_bucket, BucketResult, ManifestFile};
pub use crate::search::{local_search, remote_candidates, remote_search, sort_buckets, sort_remote, Bucket, Listing};
