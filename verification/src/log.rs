//! The parser of a repository's log text.
//!
//! The text is a run of records. A record begins with a header line,
//! `commit <hash>|<date>|<subject>`, and goes on with change lines,
//! `<added> <deleted> <path>`, up to the next header or the end of the text.
//! Nothing in the text is an error: what cannot be read counts as zero or as
//! an empty field.

use crate::count::{clip, count_value, is_number, parse_count};
use crate::model::commit::{sum_added, sum_deleted, Commit, CommitView};
use crate::model::repo_stats::{RepoStats, RepoStatsView};
use crate::text::{
    chars_of, find, lemma_find_bounds, position, skip_spaces, starts_with, string_of, trim,
    trim_start, trimmed, word_end, word_len,
};
use vstd::prelude::*;
use vstd::slice::slice_subrange;

verus! {

/// The text that opens a header line.
pub open spec fn header_prefix() -> Seq<char> {
    seq!['c', 'o', 'm', 'm', 'i', 't', ' ']
}

/// Whether `line`, once trimmed, is a header line.
pub open spec fn is_header(line: Seq<char>) -> bool {
    starts_with(trim(line), header_prefix())
}

/// The three fields of a header line.
pub struct HeaderFields {
    pub hash: Seq<char>,
    pub date: Seq<char>,
    pub message: Seq<char>,
}

/// The fields of a header's payload: the text before the first `|`, the text
/// between the first and the second, and all that follows the second. A field
/// whose `|` is missing is empty.
pub open spec fn split_fields(payload: Seq<char>) -> HeaderFields {
    let i = find(payload, '|');
    if i >= payload.len() {
        HeaderFields { hash: payload, date: Seq::empty(), message: Seq::empty() }
    } else {
        let rest = payload.skip(i + 1);
        let j = find(rest, '|');
        if j >= rest.len() {
            HeaderFields { hash: payload.take(i), date: rest, message: Seq::empty() }
        } else {
            HeaderFields { hash: payload.take(i), date: rest.take(j), message: rest.skip(j + 1) }
        }
    }
}

/// The fields of the header line `line`.
pub open spec fn header_fields(line: Seq<char>) -> HeaderFields {
    split_fields(trim(line).skip(header_prefix().len() as int))
}

/// The first two words of `l`, where it has two.
pub open spec fn first_two_words(l: Seq<char>) -> Option<(Seq<char>, Seq<char>)> {
    let first = word_len(l);
    let rest = trim_start(l.skip(first));
    let second = word_len(rest);
    if second == 0 {
        None
    } else {
        Some((l.take(first), rest.take(second)))
    }
}

/// The first two words of `line`, where it has two: the tokens of a change
/// line.
pub open spec fn change_tokens(line: Seq<char>) -> Option<(Seq<char>, Seq<char>)> {
    first_two_words(trim(line))
}

/// The lines that `line` reports as added: the value of its first word where
/// it is a change line of two words or more, and zero otherwise.
pub open spec fn line_added(line: Seq<char>) -> nat {
    if is_header(line) {
        0
    } else {
        match change_tokens(line) {
            Some(tokens) => count_value(tokens.0),
            None => 0,
        }
    }
}

/// The lines that `line` reports as deleted: the value of its second word
/// where it is a change line, and zero otherwise.
pub open spec fn line_deleted(line: Seq<char>) -> nat {
    if is_header(line) {
        0
    } else {
        match change_tokens(line) {
            Some(tokens) => count_value(tokens.1),
            None => 0,
        }
    }
}

/// The lines added over all of `lines`.
pub open spec fn total_added(lines: Seq<Seq<char>>) -> nat
    decreases lines.len(),
{
    if lines.len() == 0 {
        0
    } else {
        total_added(lines.drop_last()) + line_added(lines.last())
    }
}

/// The lines deleted over all of `lines`.
pub open spec fn total_deleted(lines: Seq<Seq<char>>) -> nat
    decreases lines.len(),
{
    if lines.len() == 0 {
        0
    } else {
        total_deleted(lines.drop_last()) + line_deleted(lines.last())
    }
}

/// The number of header lines among `lines`.
pub open spec fn header_count(lines: Seq<Seq<char>>) -> nat
    decreases lines.len(),
{
    if lines.len() == 0 {
        0
    } else {
        header_count(lines.drop_last()) + if is_header(lines.last()) {
            1nat
        } else {
            0nat
        }
    }
}

/// The records that `lines` hold, in the order of their headers.
///
/// A header opens a record with its three fields and counts of zero. A
/// change line adds its counts to the record opened last. Change lines that
/// come before any header belong to no record of their own: their counts
/// are carried into the first record once it opens.
pub open spec fn records(lines: Seq<Seq<char>>) -> Seq<CommitView>
    decreases lines.len(),
{
    if lines.len() == 0 {
        Seq::empty()
    } else {
        let before = lines.drop_last();
        let line = lines.last();
        let earlier = records(before);
        if is_header(line) {
            let fields = header_fields(line);
            earlier.push(
                CommitView {
                    hash: fields.hash,
                    date: fields.date,
                    message: fields.message,
                    added: if earlier.len() == 0 {
                        total_added(before)
                    } else {
                        0
                    },
                    deleted: if earlier.len() == 0 {
                        total_deleted(before)
                    } else {
                        0
                    },
                },
            )
        } else if earlier.len() > 0 {
            earlier.update(
                earlier.len() - 1,
                CommitView {
                    added: earlier.last().added + line_added(line),
                    deleted: earlier.last().deleted + line_deleted(line),
                    ..earlier.last()
                },
            )
        } else {
            earlier
        }
    }
}

/// The lines of `text`: the pieces between its line feeds.
pub open spec fn lines(text: Seq<char>) -> Seq<Seq<char>>
    decreases text.len(),
    via lines_terminates
{
    let i = find(text, '\n');
    if i >= text.len() {
        seq![text]
    } else {
        seq![text.take(i)] + lines(text.skip(i + 1))
    }
}

#[via_fn]
proof fn lines_terminates(text: Seq<char>) {
    lemma_find_bounds(text, '\n');
}

/// The record with its counts clipped to what a `usize` holds.
pub open spec fn clipped(record: CommitView) -> CommitView {
    CommitView { added: clip(record.added), deleted: clip(record.deleted), ..record }
}

/// What the log text `text` of the repository at `path` amounts to.
pub open spec fn parsed(path: Seq<char>, text: Seq<char>) -> RepoStatsView {
    let all = lines(text);
    RepoStatsView {
        path,
        commits_amount: records(all).len(),
        added: clip(total_added(all)),
        deleted: clip(total_deleted(all)),
        commits: records(all).map_values(|r: CommitView| clipped(r)),
    }
}

/// Every header line yields exactly one record.
pub proof fn lemma_one_record_per_header(lines: Seq<Seq<char>>)
    ensures
        records(lines).len() == header_count(lines),
    decreases lines.len(),
{
    if lines.len() > 0 {
        lemma_one_record_per_header(lines.drop_last());
    }
}

/// The parser yields as many commits as the text has header lines, and
/// counts as many.
pub proof fn lemma_one_commit_per_header(path: Seq<char>, text: Seq<char>)
    ensures
        parsed(path, text).commits.len() == header_count(lines(text)),
        parsed(path, text).commits_amount == header_count(lines(text)),
{
    lemma_one_record_per_header(lines(text));
}

/// A line that is no header and whose counts are zero, such as one whose
/// tokens stand for a binary file, changes neither the records nor the
/// totals.
pub proof fn lemma_uncounted_line_changes_nothing(seen: Seq<Seq<char>>, line: Seq<char>)
    requires
        !is_header(line),
        line_added(line) == 0,
        line_deleted(line) == 0,
    ensures
        records(seen.push(line)) == records(seen),
        total_added(seen.push(line)) == total_added(seen),
        total_deleted(seen.push(line)) == total_deleted(seen),
{
    let now = seen.push(line);
    assert(now.drop_last() =~= seen);
    assert(records(now) =~= records(seen));
}

/// A change line counts nothing for a token that writes no number.
pub proof fn lemma_placeholder_counts_zero(line: Seq<char>)
    ensures
        match change_tokens(line) {
            Some(tokens) => {
                &&& !is_number(tokens.0) ==> line_added(line) == 0
                &&& !is_number(tokens.1) ==> line_deleted(line) == 0
            },
            None => line_added(line) == 0 && line_deleted(line) == 0,
        },
{
}

/// The sum over records that were extended by one.
proof fn lemma_sum_push(commits: Seq<CommitView>, last: CommitView)
    ensures
        sum_added(commits.push(last)) == sum_added(commits) + last.added,
        sum_deleted(commits.push(last)) == sum_deleted(commits) + last.deleted,
{
    assert(commits.push(last).drop_last() =~= commits);
}

/// The sum over records whose last one was replaced.
proof fn lemma_sum_replace_last(commits: Seq<CommitView>, last: CommitView)
    requires
        commits.len() > 0,
    ensures
        sum_added(commits.update(commits.len() - 1, last)) == sum_added(commits)
            - commits.last().added + last.added,
        sum_deleted(commits.update(commits.len() - 1, last)) == sum_deleted(commits)
            - commits.last().deleted + last.deleted,
{
    assert(commits.update(commits.len() - 1, last).drop_last() =~= commits.drop_last());
}

/// Once a header was read, the counts of the records add up to the totals.
/// Before that there are no records.
pub proof fn lemma_records_sum_to_totals(lines: Seq<Seq<char>>)
    ensures
        header_count(lines) > 0 ==> sum_added(records(lines)) == total_added(lines)
            && sum_deleted(records(lines)) == total_deleted(lines),
        header_count(lines) == 0 ==> records(lines).len() == 0,
    decreases lines.len(),
{
    if lines.len() > 0 {
        let before = lines.drop_last();
        let line = lines.last();
        let earlier = records(before);
        lemma_records_sum_to_totals(before);
        lemma_one_record_per_header(before);
        if is_header(line) {
            lemma_sum_push(earlier, records(lines).last());
        } else if earlier.len() > 0 {
            lemma_sum_replace_last(earlier, records(lines).last());
        }
    }
}

/// Clipping each count and then adding gives the clipped sum, as long as the
/// clipped counts add up to no more than a `usize` holds.
proof fn lemma_clipped_sums(found: Seq<CommitView>)
    requires
        sum_added(found.map_values(|r: CommitView| clipped(r))) <= usize::MAX,
        sum_deleted(found.map_values(|r: CommitView| clipped(r))) <= usize::MAX,
    ensures
        sum_added(found.map_values(|r: CommitView| clipped(r))) == clip(sum_added(found)),
        sum_deleted(found.map_values(|r: CommitView| clipped(r))) == clip(sum_deleted(found)),
    decreases found.len(),
{
    let fitted = found.map_values(|r: CommitView| clipped(r));
    if found.len() > 0 {
        assert(fitted.drop_last() =~= found.drop_last().map_values(|r: CommitView| clipped(r)));
        assert(fitted.last() == clipped(found.last()));
        lemma_clipped_sums(found.drop_last());
    }
}

/// The totals of a parsed log are the sums over its commits, and its count
/// is their number.
///
/// This holds wherever the fields can hold the sums: the text has a header
/// line for its change lines to belong to, or no count at all, and the
/// commits' counts add up to no more than a `usize` holds.
pub proof fn lemma_parsed_is_consistent(path: Seq<char>, text: Seq<char>)
    requires
        header_count(lines(text)) > 0 || (total_added(lines(text)) == 0 && total_deleted(
            lines(text),
        ) == 0),
        sum_added(parsed(path, text).commits) <= usize::MAX,
        sum_deleted(parsed(path, text).commits) <= usize::MAX,
    ensures
        parsed(path, text).consistent(),
{
    let all = lines(text);
    lemma_records_sum_to_totals(all);
    lemma_clipped_sums(records(all));
}

/// Parsing is a function of the text: two results for the same path and
/// text are equal in every field.
pub proof fn lemma_parse_is_deterministic(
    first: RepoStats,
    second: RepoStats,
    path: Seq<char>,
    text: Seq<char>,
)
    requires
        first@ == parsed(path, text),
        second@ == parsed(path, text),
    ensures
        first@ == second@,
        first.commits_amount == second.commits_amount,
        first.added == second.added,
        first.deleted == second.deleted,
        first.path@ == second.path@,
        first.commits.len() == second.commits.len(),
        forall|i: int| 0 <= i < first.commits.len() ==> first.commits[i]@ == second.commits[i]@,
{
    assert(first@.commits.len() == first.commits@.len());
    assert(second@.commits.len() == second.commits@.len());
    assert forall|i: int| 0 <= i < first.commits.len() implies first.commits[i]@
        == second.commits[i]@ by {
        assert(first@.commits[i] == first.commits@[i]@);
        assert(second@.commits[i] == second.commits@[i]@);
    }
}

/// Whether `l` begins as a header line does.
fn has_header_prefix(l: &[char]) -> (b: bool)
    ensures
        b == starts_with(l@, header_prefix()),
{
    if l.len() < 7 {
        return false;
    }
    let b = l[0] == 'c' && l[1] == 'o' && l[2] == 'm' && l[3] == 'm' && l[4] == 'i' && l[5] == 't'
        && l[6] == ' ';
    proof {
        let p = header_prefix();
        if b {
            assert(l@.take(7) =~= p);
        } else {
            let t = l@.take(7);
            assert(t[0] == l@[0] && t[1] == l@[1] && t[2] == l@[2] && t[3] == l@[3] && t[4]
                == l@[4] && t[5] == l@[5] && t[6] == l@[6]);
        }
    }
    b
}

/// The three fields of a header's payload.
fn read_fields(payload: &[char]) -> (fields: (String, String, String))
    ensures
        fields.0@ == split_fields(payload@).hash,
        fields.1@ == split_fields(payload@).date,
        fields.2@ == split_fields(payload@).message,
{
    let i = position(payload, '|');
    if i >= payload.len() {
        return (string_of(payload), String::new(), String::new());
    }
    let hash = string_of(slice_subrange(payload, 0, i));
    let rest = slice_subrange(payload, i + 1, payload.len());
    let j = position(rest, '|');
    if j >= rest.len() {
        return (hash, string_of(rest), String::new());
    }
    let date = string_of(slice_subrange(rest, 0, j));
    let message = string_of(slice_subrange(rest, j + 1, rest.len()));
    (hash, date, message)
}

/// The counts that the first two words of `l` write; zero for both where `l`
/// has fewer than two words.
fn read_counts(l: &[char]) -> (counts: (usize, usize))
    ensures
        counts.0 == match first_two_words(l@) {
            Some(tokens) => count_value(tokens.0),
            None => 0,
        },
        counts.1 == match first_two_words(l@) {
            Some(tokens) => count_value(tokens.1),
            None => 0,
        },
{
    let first = word_end(l);
    let rest = skip_spaces(slice_subrange(l, first, l.len()));
    let second = word_end(rest);
    if second == 0 {
        return (0, 0);
    }
    let added = parse_count(slice_subrange(l, 0, first));
    let deleted = parse_count(slice_subrange(rest, 0, second));
    (added, deleted)
}

/// The parser's state between two lines: the records that are closed, the
/// one that is open, and the running totals.
struct Tally {
    entries: Vec<Commit>,
    open: bool,
    hash: String,
    date: String,
    message: String,
    cur_added: usize,
    cur_deleted: usize,
    added: usize,
    deleted: usize,
}

impl Tally {
    /// Whether this is the state that reading the lines `seen` leads to.
    spec fn after(&self, seen: Seq<Seq<char>>) -> bool {
        let found = records(seen);
        &&& self.added == clip(total_added(seen))
        &&& self.deleted == clip(total_deleted(seen))
        &&& self.open == (found.len() > 0)
        &&& self.open ==> {
            &&& self.entries.len() == found.len() - 1
            &&& forall|i: int|
                0 <= i < self.entries.len() ==> (#[trigger] self.entries[i])@ == clipped(found[i])
            &&& self.hash@ == found.last().hash
            &&& self.date@ == found.last().date
            &&& self.message@ == found.last().message
            &&& self.cur_added == clip(found.last().added)
            &&& self.cur_deleted == clip(found.last().deleted)
        }
        &&& !self.open ==> {
            &&& self.entries.len() == 0
            &&& self.cur_added == self.added
            &&& self.cur_deleted == self.deleted
        }
    }

    fn new() -> (tally: Tally)
        ensures
            tally.after(Seq::empty()),
    {
        Tally {
            entries: Vec::new(),
            open: false,
            hash: String::new(),
            date: String::new(),
            message: String::new(),
            cur_added: 0,
            cur_deleted: 0,
            added: 0,
            deleted: 0,
        }
    }

    /// Reads one more line.
    fn feed(&mut self, line: &[char], Ghost(seen): Ghost<Seq<Seq<char>>>)
        requires
            old(self).after(seen),
        ensures
            final(self).after(seen.push(line@)),
    {
        let ghost now = seen.push(line@);
        let ghost found = records(seen);
        proof {
            assert(now.drop_last() =~= seen);
            assert(now.last() == line@);
        }
        let l = trimmed(line);
        if has_header_prefix(l) {
            if self.open {
                self.entries.push(
                    Commit {
                        hash: self.hash.clone(),
                        date: self.date.clone(),
                        message: self.message.clone(),
                        added: self.cur_added as u64,
                        deleted: self.cur_deleted as u64,
                    },
                );
                self.cur_added = 0;
                self.cur_deleted = 0;
            }
            let fields = read_fields(slice_subrange(l, 7, l.len()));
            self.hash = fields.0;
            self.date = fields.1;
            self.message = fields.2;
            self.open = true;
            proof {
                assert(l@.subrange(7, l@.len() as int) =~= l@.skip(7));
                assert(records(now).drop_last() =~= found);
            }
        } else {
            let counts = read_counts(l);
            self.cur_added = self.cur_added.saturating_add(counts.0);
            self.cur_deleted = self.cur_deleted.saturating_add(counts.1);
            self.added = self.added.saturating_add(counts.0);
            self.deleted = self.deleted.saturating_add(counts.1);
        }
    }

    /// Closes the record that is open and hands out the totals.
    fn finish(self, path: &str, Ghost(seen): Ghost<Seq<Seq<char>>>) -> (stats: RepoStats)
        requires
            self.after(seen),
        ensures
            stats@ == (RepoStatsView {
                path: path@,
                commits_amount: records(seen).len(),
                added: clip(total_added(seen)),
                deleted: clip(total_deleted(seen)),
                commits: records(seen).map_values(|r: CommitView| clipped(r)),
            }),
    {
        let mut entries = self.entries;
        if self.open {
            entries.push(
                Commit {
                    hash: self.hash,
                    date: self.date,
                    message: self.message,
                    added: self.cur_added as u64,
                    deleted: self.cur_deleted as u64,
                },
            );
        }
        let stats = RepoStats {
            path: path.to_owned(),
            commits_amount: entries.len(),
            added: self.added,
            deleted: self.deleted,
            commits: entries,
        };
        assert(stats@.commits =~= records(seen).map_values(|r: CommitView| clipped(r)));
        stats
    }
}

/// Parses the log text `text` of the repository at `path`.
///
/// Every header line yields one commit, in the order of the text, with the
/// counts of the change lines that follow it. The totals are those of all
/// the change lines. A count stops at the largest `usize` rather than
/// overflow.
pub fn parse_log(path: &str, text: &str) -> (stats: RepoStats)
    ensures
        stats@ == parsed(path@, text@),
        stats.commits.len() == header_count(lines(text@)),
        stats.commits_amount == header_count(lines(text@)),
{
    let chars = chars_of(text);
    let mut rest: &[char] = chars.as_slice();
    let mut tally = Tally::new();
    let ghost mut seen: Seq<Seq<char>> = Seq::empty();
    loop
        invariant_except_break
            tally.after(seen),
            lines(text@) == seen + lines(rest@),
        ensures
            tally.after(seen),
            lines(text@) == seen,
        decreases rest.len(),
    {
        let cut = position(rest, '\n');
        let line = slice_subrange(rest, 0, cut);
        tally.feed(line, Ghost(seen));
        proof {
            assert(line@ =~= rest@.take(cut as int));
            if cut == rest.len() {
                assert(line@ =~= rest@);
                assert(lines(rest@) =~= seq![rest@]);
                assert(seen + lines(rest@) =~= seen.push(line@));
            } else {
                assert(seen + lines(rest@) =~= seen.push(line@) + lines(rest@.skip(cut + 1)));
            }
            seen = seen.push(line@);
        }
        if cut == rest.len() {
            break ;
        }
        rest = slice_subrange(rest, cut + 1, rest.len());
    }
    let stats = tally.finish(path, Ghost(seen));
    proof {
        lemma_one_record_per_header(seen);
        assert(stats@.commits.len() == stats.commits@.len());
    }
    stats
}

} // verus!
