//! What the tables show: one row for each repository, the row of totals,
//! and the list of commits of a repository.

use crate::calendar::{activity_level, level_of};
use crate::model::commit::Commit;
use crate::model::repo_stats::RepoStats;
use crate::text::{chars_of, string_of};
use vstd::prelude::*;
use vstd::slice::slice_subrange;

verus! {

/// `path` without what ends it and names nothing: every `/` at its end, and
/// every `.` at its end that stands alone behind a `/`.
pub open spec fn without_trailing_dots(path: Seq<char>) -> Seq<char>
    decreases path.len(),
{
    if path.len() > 0 && path.last() == '/' {
        without_trailing_dots(path.drop_last())
    } else if path.len() >= 2 && path.last() == '.' && path[path.len() - 2] == '/' {
        without_trailing_dots(path.drop_last())
    } else {
        path
    }
}

/// The index that follows the last `/` of `path`, or 0 where it has none.
pub open spec fn after_last_slash(path: Seq<char>) -> int
    decreases path.len(),
{
    if path.len() == 0 {
        0
    } else if path.last() == '/' {
        path.len() as int
    } else {
        after_last_slash(path.drop_last())
    }
}

/// The last component of `path`: what follows its last `/`, once the `/`
/// and the lone `.` that end the path are set aside.
pub open spec fn last_component(path: Seq<char>) -> Seq<char> {
    let named = without_trailing_dots(path);
    named.skip(after_last_slash(named))
}

/// The name under which the repository at `path` is shown: the path's last
/// component, or the whole path where that component is empty, `.` or `..`.
pub open spec fn project_name_of(path: Seq<char>) -> Seq<char> {
    let name = last_component(path);
    if name.len() == 0 || name == seq!['.'] || name == seq!['.', '.'] {
        path
    } else {
        name
    }
}

/// The name under which the repository at `path` is shown.
pub fn project_name(path: &str) -> (name: String)
    ensures
        name@ == project_name_of(path@),
{
    let chars = chars_of(path);
    let all = chars.as_slice();
    let mut end: usize = all.len();
    assert(all@.take(end as int) =~= all@);
    while end > 0 && (all[end - 1] == '/' || (end >= 2 && all[end - 1] == '.' && all[end - 2]
        == '/'))
        invariant
            end <= all.len(),
            without_trailing_dots(all@) == without_trailing_dots(all@.take(end as int)),
        decreases end,
    {
        assert(all@.take(end as int).drop_last() =~= all@.take(end - 1));
        end -= 1;
    }
    let ghost named = all@.take(end as int);
    let mut begin: usize = end;
    assert(named.take(begin as int) =~= named);
    while begin > 0 && all[begin - 1] != '/'
        invariant
            begin <= end <= all.len(),
            named == all@.take(end as int),
            after_last_slash(named) == after_last_slash(named.take(begin as int)),
        decreases begin,
    {
        assert(named.take(begin as int).drop_last() =~= named.take(begin - 1));
        begin -= 1;
    }
    let name = slice_subrange(all, begin, end);
    assert(name@ =~= named.skip(begin as int));
    let is_here = name.len() == 1 && name[0] == '.';
    let is_parent = name.len() == 2 && name[0] == '.' && name[1] == '.';
    proof {
        let here = seq!['.'];
        let parent = seq!['.', '.'];
        if is_here {
            assert(name@ =~= here);
        } else if name.len() == 1 {
            assert(here[0] == '.');
        }
        if is_parent {
            assert(name@ =~= parent);
        } else if name.len() == 2 {
            assert(parent[0] == '.' && parent[1] == '.');
        }
    }
    if name.len() == 0 || is_here || is_parent {
        string_of(all)
    } else {
        string_of(name)
    }
}

/// The short form of a commit's hash: its first seven characters, or all of
/// it where it has fewer.
pub open spec fn short_hash_of(hash: Seq<char>) -> Seq<char> {
    if hash.len() <= 7 {
        hash
    } else {
        hash.take(7)
    }
}

/// The short form of a commit's hash.
pub fn short_hash(hash: &str) -> (short: String)
    ensures
        short@ == short_hash_of(hash@),
{
    let chars = chars_of(hash);
    if chars.len() <= 7 {
        string_of(chars.as_slice())
    } else {
        string_of(slice_subrange(chars.as_slice(), 0, 7))
    }
}

/// The net lines of a repository: the lines added less the lines deleted,
/// and zero where more were deleted than added.
pub open spec fn net_lines(added: nat, deleted: nat) -> nat {
    if added >= deleted {
        (added - deleted) as nat
    } else {
        0
    }
}

/// The row of one repository.
#[derive(Debug)]
pub struct SummaryRow {
    pub project: String,
    pub loc: usize,
    pub added: usize,
    pub deleted: usize,
    pub commits: usize,
}

impl SummaryRow {
    /// Whether this is the row of `stats`.
    pub open spec fn shows(&self, stats: RepoStats) -> bool {
        &&& self.project@ == project_name_of(stats.path@)
        &&& self.loc == net_lines(stats.added as nat, stats.deleted as nat)
        &&& self.added == stats.added
        &&& self.deleted == stats.deleted
        &&& self.commits == stats.commits_amount
    }
}

/// The row of totals.
#[derive(Debug, Clone, Copy, PartialEq, Eq, Structural)]
pub struct Totals {
    pub loc: u128,
    pub added: u128,
    pub deleted: u128,
    pub commits: u128,
}

/// The sum of the net lines of `rows`.
pub open spec fn total_loc(rows: Seq<SummaryRow>) -> nat
    decreases rows.len(),
{
    if rows.len() == 0 {
        0
    } else {
        total_loc(rows.drop_last()) + rows.last().loc as nat
    }
}

/// The sum of the lines added of `rows`.
pub open spec fn total_added(rows: Seq<SummaryRow>) -> nat
    decreases rows.len(),
{
    if rows.len() == 0 {
        0
    } else {
        total_added(rows.drop_last()) + rows.last().added as nat
    }
}

/// The sum of the lines deleted of `rows`.
pub open spec fn total_deleted(rows: Seq<SummaryRow>) -> nat
    decreases rows.len(),
{
    if rows.len() == 0 {
        0
    } else {
        total_deleted(rows.drop_last()) + rows.last().deleted as nat
    }
}

/// The sum of the commits of `rows`.
pub open spec fn total_commits(rows: Seq<SummaryRow>) -> nat
    decreases rows.len(),
{
    if rows.len() == 0 {
        0
    } else {
        total_commits(rows.drop_last()) + rows.last().commits as nat
    }
}

/// The rows of all repositories and the row of their totals.
#[derive(Debug)]
pub struct Summary {
    pub rows: Vec<SummaryRow>,
    pub totals: Totals,
}

/// The row of `stats`.
pub fn summary_row(stats: &RepoStats) -> (row: SummaryRow)
    ensures
        row.shows(*stats),
{
    SummaryRow {
        project: project_name(stats.path.as_str()),
        loc: stats.added.saturating_sub(stats.deleted),
        added: stats.added,
        deleted: stats.deleted,
        commits: stats.commits_amount,
    }
}

/// As many values of at most `each` add up to no more than a `u128` holds,
/// as long as both numbers are those of a `usize`.
proof fn lemma_sum_fits(count: nat, each: nat)
    requires
        count <= usize::MAX,
        each <= usize::MAX,
    ensures
        count * each <= u128::MAX,
{
    assert(count * each <= 0xffff_ffff_ffff_ffff * 0xffff_ffff_ffff_ffff) by (nonlinear_arith)
        requires
            count <= 0xffff_ffff_ffff_ffff,
            each <= 0xffff_ffff_ffff_ffff,
    ;
}

/// The totals of `rows`: each column is the sum of that column over the
/// rows.
pub fn totals(rows: &[SummaryRow]) -> (sum: Totals)
    ensures
        sum.loc == total_loc(rows@),
        sum.added == total_added(rows@),
        sum.deleted == total_deleted(rows@),
        sum.commits == total_commits(rows@),
{
    let mut sum = Totals { loc: 0, added: 0, deleted: 0, commits: 0 };
    let mut i: usize = 0;
    assert(rows@.take(0) =~= Seq::<SummaryRow>::empty());
    while i < rows.len()
        invariant
            i <= rows.len(),
            sum.loc == total_loc(rows@.take(i as int)),
            sum.added == total_added(rows@.take(i as int)),
            sum.deleted == total_deleted(rows@.take(i as int)),
            sum.commits == total_commits(rows@.take(i as int)),
            sum.loc <= i * usize::MAX,
            sum.added <= i * usize::MAX,
            sum.deleted <= i * usize::MAX,
            sum.commits <= i * usize::MAX,
        decreases rows.len() - i,
    {
        proof {
            assert(rows@.take(i + 1).drop_last() =~= rows@.take(i as int));
            assert(rows@.take(i + 1).last() == rows@[i as int]);
            lemma_sum_fits((i + 1) as nat, usize::MAX as nat);
            assert((i + 1) * usize::MAX == i * usize::MAX + usize::MAX) by (nonlinear_arith);
        }
        sum.loc = sum.loc + rows[i].loc as u128;
        sum.added = sum.added + rows[i].added as u128;
        sum.deleted = sum.deleted + rows[i].deleted as u128;
        sum.commits = sum.commits + rows[i].commits as u128;
        i += 1;
    }
    assert(rows@.take(i as int) =~= rows@);
    sum
}

/// The summary of `stats`: one row for each repository, in the order
/// given, and the row of totals over those rows.
pub fn summary(stats: &[RepoStats]) -> (table: Summary)
    ensures
        table.rows.len() == stats.len(),
        forall|i: int| 0 <= i < stats.len() ==> (#[trigger] table.rows[i]).shows(stats[i]),
        table.totals.loc == total_loc(table.rows@),
        table.totals.added == total_added(table.rows@),
        table.totals.deleted == total_deleted(table.rows@),
        table.totals.commits == total_commits(table.rows@),
{
    let mut rows: Vec<SummaryRow> = Vec::new();
    let mut i: usize = 0;
    while i < stats.len()
        invariant
            i <= stats.len(),
            rows.len() == i,
            forall|k: int| 0 <= k < i ==> (#[trigger] rows[k]).shows(stats[k]),
        decreases stats.len() - i,
    {
        rows.push(summary_row(&stats[i]));
        i += 1;
    }
    let totals = totals(rows.as_slice());
    Summary { rows, totals }
}

/// One commit as the list of a repository's commits shows it.
#[derive(Debug)]
pub struct BreakdownLine {
    pub short_hash: String,
    pub message: String,
    pub added: u64,
    pub deleted: u64,
}

impl BreakdownLine {
    /// Whether this is the line of `commit`.
    pub open spec fn shows(&self, commit: Commit) -> bool {
        &&& self.short_hash@ == short_hash_of(commit.hash@)
        &&& self.message@ == commit.message@
        &&& self.added == commit.added
        &&& self.deleted == commit.deleted
    }
}

/// The commits of one repository, under the repository's name.
#[derive(Debug)]
pub struct Breakdown {
    pub project: String,
    pub lines: Vec<BreakdownLine>,
}

/// The list of the commits of `stats`, in their order, or `None` where it
/// has no commit.
pub fn breakdown(stats: &RepoStats) -> (section: Option<Breakdown>)
    ensures
        section is Some <==> stats.commits.len() > 0,
        section matches Some(s) ==> {
            &&& s.project@ == project_name_of(stats.path@)
            &&& s.lines.len() == stats.commits.len()
            &&& forall|i: int|
                0 <= i < s.lines.len() ==> (#[trigger] s.lines[i]).shows(stats.commits[i])
        },
{
    if stats.commits.len() == 0 {
        return None;
    }
    let mut lines: Vec<BreakdownLine> = Vec::new();
    let mut i: usize = 0;
    while i < stats.commits.len()
        invariant
            i <= stats.commits.len(),
            lines.len() == i,
            forall|k: int| 0 <= k < i ==> (#[trigger] lines[k]).shows(stats.commits[k]),
        decreases stats.commits.len() - i,
    {
        let commit = &stats.commits[i];
        lines.push(
            BreakdownLine {
                short_hash: short_hash(commit.hash.as_str()),
                message: commit.message.clone(),
                added: commit.added,
                deleted: commit.deleted,
            },
        );
        i += 1;
    }
    Some(Breakdown { project: project_name(stats.path.as_str()), lines })
}

/// The mark that stands for an activity level in the grid.
pub open spec fn mark_of(level: nat) -> Seq<char> {
    if level == 0 {
        "\u{2b1c}"@
    } else if level == 1 {
        "\u{1f7e9}"@
    } else if level == 2 {
        "\u{1f7e8}"@
    } else if level == 3 {
        "\u{1f7e7}"@
    } else {
        "\u{1f7e5}"@
    }
}

/// The mark that stands for the activity level `level`. A level above 4
/// has the mark of level 4.
pub fn level_mark(level: u8) -> (mark: &'static str)
    ensures
        mark@ == mark_of(level as nat),
{
    if level == 0 {
        "\u{2b1c}"
    } else if level == 1 {
        "\u{1f7e9}"
    } else if level == 2 {
        "\u{1f7e8}"
    } else if level == 3 {
        "\u{1f7e7}"
    } else {
        "\u{1f7e5}"
    }
}

/// The mark of a day with `count` commits.
pub fn get_activity_char(count: usize) -> (mark: &'static str)
    ensures
        mark@ == mark_of(level_of(count as nat)),
{
    level_mark(activity_level(count))
}

/// The three-letter name of the month `month`, or `???` where `month` is
/// none of 1 to 12.
pub open spec fn month_name(month: int) -> Seq<char> {
    if month == 1 {
        "Jan"@
    } else if month == 2 {
        "Feb"@
    } else if month == 3 {
        "Mar"@
    } else if month == 4 {
        "Apr"@
    } else if month == 5 {
        "May"@
    } else if month == 6 {
        "Jun"@
    } else if month == 7 {
        "Jul"@
    } else if month == 8 {
        "Aug"@
    } else if month == 9 {
        "Sep"@
    } else if month == 10 {
        "Oct"@
    } else if month == 11 {
        "Nov"@
    } else if month == 12 {
        "Dec"@
    } else {
        "???"@
    }
}

/// The three-letter name of the month `month`.
pub fn month_abbr(month: u32) -> (name: &'static str)
    ensures
        name@ == month_name(month as int),
{
    match month {
        1 => "Jan",
        2 => "Feb",
        3 => "Mar",
        4 => "Apr",
        5 => "May",
        6 => "Jun",
        7 => "Jul",
        8 => "Aug",
        9 => "Sep",
        10 => "Oct",
        11 => "Nov",
        12 => "Dec",
        _ => "???",
    }
}

/// `u` as an `i64`.
pub fn usize_to_i64(u: usize) -> (i: i64)
    requires
        u <= i64::MAX,
    ensures
        i == u,
{
    u as i64
}

} // verus!
