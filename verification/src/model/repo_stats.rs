//! The totals of one repository.

use super::commit::{sum_added, sum_deleted, Commit, CommitView};
use vstd::prelude::*;

verus! {

/// What one repository contributed: its commits, newest first, and their
/// totals.
#[derive(Debug)]
pub struct RepoStats {
    pub path: String,
    pub commits_amount: usize,
    pub added: usize,
    pub deleted: usize,
    pub commits: Vec<Commit>,
}

/// The mathematical value of a [`RepoStats`].
pub struct RepoStatsView {
    pub path: Seq<char>,
    pub commits_amount: nat,
    pub added: nat,
    pub deleted: nat,
    pub commits: Seq<CommitView>,
}

impl View for RepoStats {
    type V = RepoStatsView;

    open spec fn view(&self) -> RepoStatsView {
        RepoStatsView {
            path: self.path@,
            commits_amount: self.commits_amount as nat,
            added: self.added as nat,
            deleted: self.deleted as nat,
            commits: self.commits@.map_values(|c: Commit| c@),
        }
    }
}

impl RepoStatsView {
    /// The totals agree with the commits: as many commits as counted, and
    /// the lines added and deleted are the sums over the commits.
    pub open spec fn consistent(self) -> bool {
        &&& self.commits_amount == self.commits.len()
        &&& self.added == sum_added(self.commits)
        &&& self.deleted == sum_deleted(self.commits)
    }

    /// The value for a repository whose log could not be had: no commits and
    /// all counts zero.
    pub open spec fn zeroed(path: Seq<char>) -> RepoStatsView {
        RepoStatsView { path, commits_amount: 0, added: 0, deleted: 0, commits: Seq::empty() }
    }
}

impl RepoStats {
    /// The stats of a repository whose log could not be had.
    pub fn zeroed(path: &str) -> (stats: RepoStats)
        ensures
            stats@ == RepoStatsView::zeroed(path@),
            stats@.consistent(),
    {
        let stats = RepoStats {
            path: path.to_owned(),
            commits_amount: 0,
            added: 0,
            deleted: 0,
            commits: Vec::new(),
        };
        assert(stats@.commits =~= Seq::empty());
        stats
    }
}

} // verus!
