//! The run description that heads a benchmark report.

use vstd::prelude::*;

verus! {

/// What a report was produced by: format and tool versions, profile, seed,
/// time and source revision.
#[derive(Clone, Debug)]
pub struct RunMeta {
    pub schema_version: u32,
    pub bench_version: String,
    pub profile: String,
    pub seed: u64,
    pub timestamp_utc: String,
    pub git_sha: Option<String>,
}

} // verus!
