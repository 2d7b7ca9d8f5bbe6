//! One commit of a repository's log.

use vstd::prelude::*;

verus! {

/// A commit as the log reports it, with the line counts of all the files it
/// touched added up.
#[derive(Debug, Clone)]
pub struct Commit {
    pub hash: String,
    pub date: String,
    pub message: String,
    pub added: u64,
    pub deleted: u64,
}

/// The mathematical value of a [`Commit`]. It also serves as a record of the
/// log before its counts are fitted into machine integers.
pub struct CommitView {
    pub hash: Seq<char>,
    pub date: Seq<char>,
    pub message: Seq<char>,
    pub added: nat,
    pub deleted: nat,
}

impl View for Commit {
    type V = CommitView;

    open spec fn view(&self) -> CommitView {
        CommitView {
            hash: self.hash@,
            date: self.date@,
            message: self.message@,
            added: self.added as nat,
            deleted: self.deleted as nat,
        }
    }
}

/// The sum of `added` over `commits`.
pub open spec fn sum_added(commits: Seq<CommitView>) -> nat
    decreases commits.len(),
{
    if commits.len() == 0 {
        0
    } else {
        sum_added(commits.drop_last()) + commits.last().added
    }
}

/// The sum of `deleted` over `commits`.
pub open spec fn sum_deleted(commits: Seq<CommitView>) -> nat
    decreases commits.len(),
{
    if commits.len() == 0 {
        0
    } else {
        sum_deleted(commits.drop_last()) + commits.last().deleted
    }
}

} // verus!
