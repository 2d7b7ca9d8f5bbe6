//! The data that the library produces.

pub mod commit;
pub mod repo_stats;

pub use commit::Commit;
pub use repo_stats::RepoStats;
