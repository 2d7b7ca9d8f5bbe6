//! From what the log source returned to the stats of each repository.
//!
//! The library runs no command. It says which query to send, judges what a
//! look at the repository's location found, and turns what came back, or the
//! failure to get anything, into a [`RepoStats`].

use crate::cli::Args;
use crate::log::{parse_log, parsed};
use crate::model::repo_stats::{RepoStats, RepoStatsView};
use crate::text::{chars_of, is_blank, trim, trimmed};
use vstd::prelude::*;

verus! {

/// What asking the log source about one repository came to.
#[derive(Debug)]
pub enum Retrieval {
    /// The source could not be reached or reported a failure.
    Failed,
    /// The source answered with this log text.
    Log(String),
}

impl Retrieval {
    /// What a run of the log source came to: its output where it reported
    /// success, and a failure otherwise.
    pub fn of(success: bool, stdout: String) -> (retrieval: Retrieval)
        ensures
            retrieval == if success {
                Retrieval::Log(stdout)
            } else {
                Retrieval::Failed
            },
    {
        if success {
            Retrieval::Log(stdout)
        } else {
            Retrieval::Failed
        }
    }
}

/// The stats that `retrieval` stands for: those of its text, or all zero
/// where there is none.
pub open spec fn aggregated(path: Seq<char>, retrieval: Retrieval) -> RepoStatsView {
    match retrieval {
        Retrieval::Failed => RepoStatsView::zeroed(path),
        Retrieval::Log(text) => parsed(path, text@),
    }
}

/// The stats of the repository at `path`, given what its retrieval came to.
/// A failed retrieval is no error: it yields stats that are all zero.
pub fn collect_repo(path: &str, retrieval: &Retrieval) -> (stats: RepoStats)
    ensures
        stats@ == aggregated(path@, *retrieval),
{
    match retrieval {
        Retrieval::Failed => RepoStats::zeroed(path),
        Retrieval::Log(text) => parse_log(path, text.as_str()),
    }
}

/// The stats of every repository of `args`, in the order of `args.repos`.
/// `retrievals[i]` is what the retrieval for `args.repos[i]` came to; a
/// repository without one counts as failed.
pub fn collect(args: &Args, retrievals: &Vec<Retrieval>) -> (all: Vec<RepoStats>)
    ensures
        all.len() == args.repos.len(),
        forall|i: int|
            0 <= i < all.len() ==> (#[trigger] all[i])@ == aggregated(
                args.repos[i]@,
                if i < retrievals.len() {
                    retrievals[i]
                } else {
                    Retrieval::Failed
                },
            ),
{
    let mut all: Vec<RepoStats> = Vec::new();
    let mut i: usize = 0;
    while i < args.repos.len()
        invariant
            i <= args.repos.len(),
            all.len() == i,
            forall|k: int|
                0 <= k < i ==> (#[trigger] all[k])@ == aggregated(
                    args.repos[k]@,
                    if k < retrievals.len() {
                        retrievals[k]
                    } else {
                        Retrieval::Failed
                    },
                ),
        decreases args.repos.len() - i,
    {
        let stats = if i < retrievals.len() {
            collect_repo(args.repos[i].as_str(), &retrievals[i])
        } else {
            collect_repo(args.repos[i].as_str(), &Retrieval::Failed)
        };
        all.push(stats);
        i += 1;
    }
    all
}

/// The texts of `strings`.
pub open spec fn views(strings: Seq<String>) -> Seq<Seq<char>> {
    strings.map_values(|s: String| s@)
}

/// The text of `value`, where there is one.
pub open spec fn text_of(value: Option<String>) -> Option<Seq<char>> {
    match value {
        Some(s) => Some(s@),
        None => None,
    }
}

/// The arguments that restrict a query by `value`: the flag and the value,
/// or nothing where the value is missing or blank.
pub open spec fn filter(flag: Seq<char>, value: Option<Seq<char>>) -> Seq<Seq<char>> {
    match value {
        Some(v) => if is_blank(v) {
            Seq::empty()
        } else {
            seq![flag, v]
        },
        None => Seq::empty(),
    }
}

/// The arguments of the log query for one repository: the fixed request
/// for every commit's header and change lines, then the filters that are
/// set, each value as it was given.
pub open spec fn query(
    author: Seq<char>,
    since: Option<Seq<char>>,
    until: Option<Seq<char>>,
) -> Seq<Seq<char>> {
    seq!["log"@, "--numstat"@, "--pretty=format:commit %H|%cI|%s"@] + filter(
        "--author"@,
        Some(author),
    ) + filter("--since"@, since) + filter("--until"@, until)
}

/// Whether `s` holds nothing but white space.
pub fn blank(s: &str) -> (b: bool)
    ensures
        b == is_blank(s@),
{
    let chars = chars_of(s);
    trimmed(chars.as_slice()).len() == 0
}

/// Appends the filter for `value` to `query`.
fn push_filter(query: &mut Vec<String>, flag: &str, value: &str)
    ensures
        views(final(query)@) == views(old(query)@) + filter(flag@, Some(value@)),
{
    if !blank(value) {
        query.push(flag.to_owned());
        query.push(value.to_owned());
        assert(views(query@) =~= views(old(query)@) + seq![flag@, value@]);
    } else {
        assert(views(query@) =~= views(old(query)@) + Seq::<Seq<char>>::empty());
    }
}

/// The arguments of the log query that `args` asks for.
pub fn log_query(args: &Args) -> (query: Vec<String>)
    ensures
        views(query@) == self::query(args.author@, text_of(args.since), text_of(args.until)),
{
    let mut query: Vec<String> = Vec::new();
    query.push("log".to_owned());
    query.push("--numstat".to_owned());
    query.push("--pretty=format:commit %H|%cI|%s".to_owned());
    assert(views(query@) =~= seq!["log"@, "--numstat"@, "--pretty=format:commit %H|%cI|%s"@]);
    push_filter(&mut query, "--author", args.author.as_str());
    match &args.since {
        Some(since) => push_filter(&mut query, "--since", since.as_str()),
        None => {
            assert(views(query@) + Seq::<Seq<char>>::empty() =~= views(query@));
        },
    }
    match &args.until {
        Some(until) => push_filter(&mut query, "--until", until.as_str()),
        None => {
            assert(views(query@) + Seq::<Seq<char>>::empty() =~= views(query@));
        },
    }
    query
}

/// Why a location cannot be used as a repository.
#[derive(Debug, Clone, Copy, PartialEq, Eq, Structural)]
pub enum InvalidRepo {
    /// The location does not exist or is no directory.
    NotADirectory,
    /// The directory is not recognised as a repository.
    NotARepository,
}

/// What the validity probe of the version-control tool answered.
#[derive(Debug)]
pub struct Probe {
    pub success: bool,
    pub stdout: String,
}

/// What a look at a repository's location found. `probe` is `None` where
/// the tool was not asked or could not be run.
#[derive(Debug)]
pub struct Location {
    pub exists: bool,
    pub is_dir: bool,
    pub has_marker: bool,
    pub probe: Option<Probe>,
}

/// Whether the probe vouches for the location: it succeeded and answered
/// `true`, white space aside.
pub open spec fn probe_confirms(probe: Probe) -> bool {
    probe.success && trim(probe.stdout@) == seq!['t', 'r', 'u', 'e']
}

/// Whether the location is a repository: by its marker, or else by the
/// probe.
pub open spec fn recognised(location: Location) -> bool {
    location.has_marker || match location.probe {
        Some(probe) => probe_confirms(probe),
        None => false,
    }
}

/// Whether the probe has to be run to judge a location of which this much is
/// known: only for a directory that has no marker.
pub fn needs_probe(exists: bool, is_dir: bool, has_marker: bool) -> (b: bool)
    ensures
        b == (exists && is_dir && !has_marker),
{
    exists && is_dir && !has_marker
}

/// Whether the probe vouches for the location.
pub fn confirms(probe: &Probe) -> (b: bool)
    ensures
        b == probe_confirms(*probe),
{
    if !probe.success {
        return false;
    }
    let chars = chars_of(probe.stdout.as_str());
    let answer = trimmed(chars.as_slice());
    let b = answer.len() == 4 && answer[0] == 't' && answer[1] == 'r' && answer[2] == 'u'
        && answer[3] == 'e';
    proof {
        let want = seq!['t', 'r', 'u', 'e'];
        if b {
            assert(answer@ =~= want);
        } else if answer.len() == 4 {
            assert(want[0] == 't' && want[1] == 'r' && want[2] == 'u' && want[3] == 'e');
        }
    }
    b
}

/// Judges a location before any log is asked for. It must exist and be a
/// directory, and it must be recognised as a repository.
pub fn check_validity(location: &Location) -> (verdict: Result<(), InvalidRepo>)
    ensures
        verdict == if !location.exists || !location.is_dir {
            Err::<(), InvalidRepo>(InvalidRepo::NotADirectory)
        } else if !recognised(*location) {
            Err(InvalidRepo::NotARepository)
        } else {
            Ok(())
        },
{
    if !location.exists || !location.is_dir {
        return Err(InvalidRepo::NotADirectory);
    }
    let recognised = location.has_marker || match &location.probe {
        Some(probe) => confirms(probe),
        None => false,
    };
    if recognised {
        Ok(())
    } else {
        Err(InvalidRepo::NotARepository)
    }
}

} // verus!
