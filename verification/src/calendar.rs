//! Calendar days and the weekly grid of a year's activity.
//!
//! A day is held as its number in the proleptic Gregorian calendar, where
//! day 1 is January 1 of the year 1. Sums and differences of days are plain
//! integer arithmetic. What only a calendar can tell (the date that a text
//! writes, a day's month, its place in its year and in its week) comes from
//! `chrono`.

use crate::count::clip;
use crate::model::commit::Commit;
use crate::model::repo_stats::RepoStats;
use crate::text::{chars_of, find, position, string_of};
use std::collections::HashMap;
use chrono::{Datelike, Local, NaiveDate};
use vstd::prelude::*;
use vstd::slice::slice_subrange;

verus! {

/// The number of January 1 of the year -1.
pub const CALENDAR_FIRST: i32 = -730;

/// The number of December 31 of the year 9999.
pub const DAY_LAST: i32 = 3_652_059;

/// The number of December 31 of the year 10000.
pub const CALENDAR_LAST: i32 = 3_652_425;

/// Whether `number` is a day of the years -1 to 10000, the span over which
/// this library asks the calendar about a day.
pub open spec fn in_calendar(number: int) -> bool {
    CALENDAR_FIRST <= number <= CALENDAR_LAST
}

/// The day number of the date that `text` writes as year, month and day
/// with `-` between them, as `chrono` reads the format `%Y-%m-%d`; `None`
/// where `chrono` reads no date.
pub uninterp spec fn parsed_day_number(text: Seq<char>) -> Option<i32>;

/// The place of day `number` in its year, counted from 0 for January 1.
pub uninterp spec fn day_in_year(number: int) -> int;

/// The month of day `number`, from 1 for January to 12 for December.
pub uninterp spec fn month_number(number: int) -> int;

/// The place of day `number` in its week, counted from 0 for Sunday. Day 0,
/// December 31 of the year 0, is a Sunday.
pub open spec fn weekday_number(number: int) -> int {
    number % 7
}

/// Reads a date with `chrono::NaiveDate::parse_from_str` and the format
/// `%Y-%m-%d`, and numbers it with `Datelike::num_days_from_ce`. The result
/// is `None` where `chrono` reports an error. Nothing is claimed of which
/// texts are dates: the result is only given its name.
#[verifier::external_body]
fn read_day_number(text: &str) -> (number: Option<i32>)
    ensures
        number == parsed_day_number(text@),
{
    match NaiveDate::parse_from_str(text, "%Y-%m-%d") {
        Ok(date) => Some(date.num_days_from_ce()),
        Err(_) => None,
    }
}

/// The number of the local date of this moment, from `chrono::Local::now`.
/// Nothing is claimed of it.
#[verifier::external_body]
fn local_day_number() -> i32 {
    Local::now().naive_local().date().num_days_from_ce()
}

/// `Datelike::ordinal0` of the date that
/// `NaiveDate::from_num_days_from_ce_opt` makes of `number`: the day of the
/// year counted from 0, which `chrono` documents to lie between 0 and 365.
#[verifier::external_body]
fn ordinal_of(number: i32) -> (ordinal: u32)
    requires
        in_calendar(number as int),
    ensures
        ordinal == day_in_year(number as int),
        ordinal <= 365,
{
    NaiveDate::from_num_days_from_ce_opt(number).expect("a day of the years -1 to 10000").ordinal0()
}

/// `Datelike::month` of the date that
/// `NaiveDate::from_num_days_from_ce_opt` makes of `number`: the month
/// counted from 1, which `chrono` documents to lie between 1 and 12.
#[verifier::external_body]
fn month_of(number: i32) -> (month: u32)
    requires
        in_calendar(number as int),
    ensures
        month == month_number(number as int),
        1 <= month <= 12,
{
    NaiveDate::from_num_days_from_ce_opt(number).expect("a day of the years -1 to 10000").month()
}

/// `Weekday::num_days_from_sunday` of `Datelike::weekday` of the date that
/// `NaiveDate::from_num_days_from_ce_opt` makes of `number`. Weekdays
/// follow each other in step with the day numbers, and day 1 is a Monday,
/// so the result is the number's remainder by seven.
#[verifier::external_body]
fn weekday_of(number: i32) -> (weekday: u32)
    requires
        in_calendar(number as int),
    ensures
        weekday == weekday_number(number as int),
{
    NaiveDate::from_num_days_from_ce_opt(number).expect(
        "a day of the years -1 to 10000",
    ).weekday().num_days_from_sunday()
}

/// A calendar day.
#[derive(Debug, Clone, Copy, PartialEq, Eq, Structural)]
pub struct Day {
    /// The day's number: 1 for January 1 of the year 1.
    pub number: i32,
}

impl Day {
    /// Whether the day lies in the years 1 to 9999.
    pub open spec fn wf(self) -> bool {
        1 <= self.number <= DAY_LAST
    }

    /// January 1 of the day's year.
    pub open spec fn year_start(self) -> int {
        self.number - day_in_year(self.number as int)
    }

    /// The day with this number, where it lies in the years 1 to 9999.
    pub fn from_number(number: i32) -> (day: Option<Day>)
        ensures
            day == if 1 <= number <= DAY_LAST {
                Some(Day { number })
            } else {
                None::<Day>
            },
    {
        if 1 <= number && number <= DAY_LAST {
            Some(Day { number })
        } else {
            None
        }
    }

    /// The local date of this moment, where it lies in the years 1 to 9999.
    pub fn today() -> (day: Option<Day>)
        ensures
            day matches Some(d) ==> d.wf(),
    {
        Day::from_number(local_day_number())
    }

    /// The day's month, from 1 to 12.
    pub fn month(&self) -> (month: u32)
        requires
            self.wf(),
        ensures
            month == month_number(self.number as int),
            1 <= month <= 12,
    {
        month_of(self.number)
    }

    /// The day's place in its week, from 0 for Sunday to 6 for Saturday.
    pub fn days_from_sunday(&self) -> (weekday: u32)
        requires
            self.wf(),
        ensures
            weekday == weekday_number(self.number as int),
            weekday < 7,
    {
        weekday_of(self.number)
    }

    /// The number of January 1 of the day's year.
    pub fn first_of_year(&self) -> (number: i32)
        requires
            self.wf(),
        ensures
            number == self.year_start(),
            self.number - 365 <= number <= self.number,
    {
        let ordinal = ordinal_of(self.number);
        self.number - ordinal as i32
    }
}

/// The part of a commit's date that writes its day: all that comes before
/// the first `T`.
pub open spec fn date_part(date: Seq<char>) -> Seq<char> {
    date.take(find(date, 'T'))
}

/// The number of the day on which a commit dated `date` was made, or `None`
/// where the date cannot be read.
pub open spec fn commit_day_number(date: Seq<char>) -> Option<i32> {
    parsed_day_number(date_part(date))
}

/// The number of the day on which a commit dated `date` was made, or `None`
/// where the date cannot be read.
pub fn commit_day(date: &str) -> (number: Option<i32>)
    ensures
        number == commit_day_number(date@),
{
    let chars = chars_of(date);
    let cut = position(chars.as_slice(), 'T');
    let part = string_of(slice_subrange(chars.as_slice(), 0, cut));
    read_day_number(part.as_str())
}

/// The activity level of a day with `count` commits: 0 for none, 1 for
/// one, 2 for two to four, 3 for five to nine, 4 for ten and more.
pub open spec fn level_of(count: nat) -> nat {
    if count == 0 {
        0
    } else if count == 1 {
        1
    } else if count <= 4 {
        2
    } else if count <= 9 {
        3
    } else {
        4
    }
}

/// A day with more commits never has a lower level.
pub proof fn lemma_level_is_monotonic(fewer: nat, more: nat)
    requires
        fewer <= more,
    ensures
        level_of(fewer) <= level_of(more),
{
}

/// The activity level of a day with `count` commits.
pub fn activity_level(count: usize) -> (level: u8)
    ensures
        level == level_of(count as nat),
        level <= 4,
{
    if count == 0 {
        0
    } else if count == 1 {
        1
    } else if count <= 4 {
        2
    } else if count <= 9 {
        3
    } else {
        4
    }
}

/// How many of `commits` were made on day `day`. A commit whose date
/// cannot be read is made on no day.
pub open spec fn commits_on(commits: Seq<Commit>, day: i32) -> nat
    decreases commits.len(),
{
    if commits.len() == 0 {
        0
    } else {
        commits_on(commits.drop_last(), day) + if commit_day_number(commits.last().date@) == Some(
            day,
        ) {
            1nat
        } else {
            0nat
        }
    }
}

/// How many commits of all of `stats` were made on day `day`.
pub open spec fn activity_on(stats: Seq<RepoStats>, day: i32) -> nat
    decreases stats.len(),
{
    if stats.len() == 0 {
        0
    } else {
        activity_on(stats.drop_last(), day) + commits_on(stats.last().commits@, day)
    }
}

/// The count that `counts` holds for `day`: zero for a day it does not hold.
pub open spec fn tallied(counts: Map<i32, usize>, day: i32) -> nat {
    if counts.contains_key(day) {
        counts[day] as nat
    } else {
        0
    }
}

/// The days on which any commit of `stats` was made, each with the number
/// of its commits. A count stops at the largest `usize`.
pub open spec fn day_counts(stats: Seq<RepoStats>) -> Map<i32, usize> {
    Map::new(
        |day: i32| activity_on(stats, day) > 0,
        |day: i32| clip(activity_on(stats, day)) as usize,
    )
}

/// How many entries of `days` are the day `day`.
pub open spec fn occurrences(days: Seq<Option<i32>>, day: i32) -> nat
    decreases days.len(),
{
    if days.len() == 0 {
        0
    } else {
        occurrences(days.drop_last(), day) + if days.last() == Some(day) {
            1nat
        } else {
            0nat
        }
    }
}

/// The days that occur in `days`, each with the number of its entries. A
/// count stops at the largest `usize`.
pub open spec fn tally_of(days: Seq<Option<i32>>) -> Map<i32, usize> {
    Map::new(
        |day: i32| occurrences(days, day) > 0,
        |day: i32| clip(occurrences(days, day)) as usize,
    )
}

/// Counts the entries of `days` by day. An entry of `None`, which stands
/// for a date that could not be read, counts for no day.
pub fn tally_days(days: &[Option<i32>]) -> (counts: HashMap<i32, usize>)
    ensures
        counts@ == tally_of(days@),
{
    broadcast use vstd::std_specs::hash::group_hash_axioms;

    let mut counts: HashMap<i32, usize> = HashMap::new();
    let mut i: usize = 0;
    assert(days@.take(0) =~= Seq::<Option<i32>>::empty());
    while i < days.len()
        invariant
            i <= days.len(),
            forall|day: i32| counts@.contains_key(day) ==> counts@[day] > 0,
            forall|day: i32|
                #[trigger] tallied(counts@, day) == clip(occurrences(days@.take(i as int), day)),
        decreases days.len() - i,
    {
        let ghost before = counts@;
        proof {
            assert(days@.take(i + 1).drop_last() =~= days@.take(i as int));
            assert(days@.take(i + 1).last() == days@[i as int]);
        }
        match days[i] {
            Some(day) => {
                let so_far: usize = match counts.get(&day) {
                    Some(n) => *n,
                    None => 0,
                };
                assert(so_far == tallied(before, day));
                counts.insert(day, so_far.saturating_add(1));
            },
            None => {},
        }
        assert forall|other: i32| #[trigger]
            tallied(counts@, other) == clip(occurrences(days@.take(i + 1), other)) by {
            assert(tallied(before, other) == clip(occurrences(days@.take(i as int), other)));
        }
        i += 1;
    }
    proof {
        assert(days@.take(i as int) =~= days@);
        assert forall|day: i32| counts@.contains_key(day) <==> tally_of(days@).contains_key(
            day,
        ) by {
            assert(tallied(counts@, day) == clip(occurrences(days@, day)));
        }
        assert forall|day: i32| counts@.contains_key(day) implies counts@[day] == tally_of(
            days@,
        )[day] by {
            assert(tallied(counts@, day) == clip(occurrences(days@, day)));
        }
        assert(counts@ =~= tally_of(days@));
    }
    counts
}

/// Appends the day of each of `commits` to `days`.
fn push_commit_days(days: &mut Vec<Option<i32>>, commits: &Vec<Commit>)
    ensures
        forall|day: i32|
            #[trigger] occurrences(final(days)@, day) == occurrences(old(days)@, day) + commits_on(
                commits@,
                day,
            ),
{
    let mut j: usize = 0;
    assert(commits@.take(0) =~= Seq::<Commit>::empty());
    while j < commits.len()
        invariant
            j <= commits.len(),
            forall|day: i32|
                #[trigger] occurrences(days@, day) == occurrences(old(days)@, day) + commits_on(
                    commits@.take(j as int),
                    day,
                ),
        decreases commits.len() - j,
    {
        let ghost before = days@;
        let found = commit_day(commits[j].date.as_str());
        days.push(found);
        proof {
            assert(commits@.take(j + 1).drop_last() =~= commits@.take(j as int));
            assert(commits@.take(j + 1).last() == commits@[j as int]);
            assert(days@.drop_last() =~= before);
            assert forall|day: i32| #[trigger]
                occurrences(days@, day) == occurrences(old(days)@, day) + commits_on(
                    commits@.take(j + 1),
                    day,
                ) by {
                assert(occurrences(before, day) == occurrences(old(days)@, day) + commits_on(
                    commits@.take(j as int),
                    day,
                ));
            }
        }
        j += 1;
    }
    assert(commits@.take(j as int) =~= commits@);
}

/// The number of commits on each day, over all of `stats`.
pub fn count_days(stats: &[RepoStats]) -> (counts: HashMap<i32, usize>)
    ensures
        counts@ == day_counts(stats@),
{
    let mut days: Vec<Option<i32>> = Vec::new();
    let mut i: usize = 0;
    assert(stats@.take(0) =~= Seq::<RepoStats>::empty());
    while i < stats.len()
        invariant
            i <= stats.len(),
            forall|day: i32|
                #[trigger] occurrences(days@, day) == activity_on(stats@.take(i as int), day),
        decreases stats.len() - i,
    {
        let ghost before = days@;
        proof {
            assert(stats@.take(i + 1).drop_last() =~= stats@.take(i as int));
            assert(stats@.take(i + 1).last() == stats@[i as int]);
        }
        push_commit_days(&mut days, &stats[i].commits);
        assert forall|day: i32| #[trigger]
            occurrences(days@, day) == activity_on(stats@.take(i + 1), day) by {
            assert(occurrences(before, day) == activity_on(stats@.take(i as int), day));
        }
        i += 1;
    }
    let counts = tally_days(days.as_slice());
    proof {
        assert(stats@.take(i as int) =~= stats@);
        assert forall|day: i32| #[trigger]
            tally_of(days@).contains_key(day) == day_counts(stats@).contains_key(day) by {
            assert(occurrences(days@, day) == activity_on(stats@, day));
        }
        assert forall|day: i32| tally_of(days@).contains_key(day) implies tally_of(days@)[day]
            == day_counts(stats@)[day] by {
            assert(occurrences(days@, day) == activity_on(stats@, day));
        }
        assert(counts@ =~= day_counts(stats@));
    }
    counts
}

/// The Sunday on or before the day `number`.
pub open spec fn sunday_before(number: int) -> int {
    number - weekday_number(number)
}

/// The number of week columns from the day `start` to the day `today`: the
/// whole weeks between them, and the week that holds `today`.
pub open spec fn weeks_between(start: int, today: int) -> int {
    (today - start) / 7 + 1
}

/// The first day of the grid that ends on `today`: the Sunday on or before
/// January 1 of today's year.
pub open spec fn grid_start(today: Day) -> int {
    sunday_before(today.year_start())
}

/// The number of week columns of the grid that ends on `today`.
pub open spec fn week_count(today: Day) -> int {
    weeks_between(grid_start(today), today.number as int)
}

/// Among the first `weeks` weeks, of which `months` gives the month in
/// which each begins, those that begin in another month than the week
/// before, in rising order. The first week always does.
pub open spec fn boundaries_of(months: Seq<u32>, weeks: int) -> Seq<usize>
    decreases weeks,
{
    if weeks <= 0 {
        Seq::empty()
    } else if weeks == 1 || months[weeks - 1] != months[weeks - 2] {
        boundaries_of(months, weeks - 1).push((weeks - 1) as usize)
    } else {
        boundaries_of(months, weeks - 1)
    }
}

/// What a grid that ends on `today` shows for day `day`, given the counts
/// of the days: nothing for a day after `today`, and otherwise the level of
/// the day's count.
pub open spec fn shown(counts: Map<i32, usize>, today: int, day: int) -> Option<u8> {
    if day > today {
        None
    } else {
        Some(level_of(tallied(counts, day as i32)) as u8)
    }
}

/// Whether the week `week` of a grid that starts on day `start` begins in
/// another month than the week before it. The first week always does.
pub open spec fn is_month_boundary(start: int, week: int) -> bool {
    week == 0 || month_number(start + 7 * week) != month_number(start + 7 * (week - 1))
}

/// The month boundaries among the first `weeks` weeks of a grid that starts
/// on day `start`, in rising order.
pub open spec fn month_boundaries(start: int, weeks: int) -> Seq<usize>
    decreases weeks,
{
    if weeks <= 0 {
        Seq::empty()
    } else if is_month_boundary(start, weeks - 1) {
        month_boundaries(start, weeks - 1).push((weeks - 1) as usize)
    } else {
        month_boundaries(start, weeks - 1)
    }
}

/// What the grid shows for day `day`: nothing for a day after `today`, and
/// otherwise the level of the day's commits.
pub open spec fn cell_of(stats: Seq<RepoStats>, today: int, day: int) -> Option<u8> {
    if day > today {
        None
    } else {
        Some(level_of(activity_on(stats, day as i32)) as u8)
    }
}

/// The activity of the current year, laid out in weeks that begin on
/// Sunday.
#[derive(Debug)]
pub struct CalendarGrid {
    /// The first day of the grid, a Sunday.
    pub start_date: Day,
    /// The last day that the grid shows.
    pub today: Day,
    /// The week columns. Each holds seven cells, Sunday first; a cell is the
    /// day's activity level, or `None` for a day after `today`.
    pub weeks: Vec<Vec<Option<u8>>>,
    /// The number of commits on each day that has any.
    pub counts: HashMap<i32, usize>,
    /// The weeks that begin in another month than the week before.
    pub month_boundaries: Vec<usize>,
}

impl CalendarGrid {
    /// Whether the grid is laid out as a grid is: it ends with the week
    /// that holds `today`, begins at most 371 days before, has seven cells
    /// in every week, and its month boundaries are weeks of the grid in
    /// strictly rising order.
    pub open spec fn wf(&self) -> bool {
        &&& self.today.wf()
        &&& self.today.number - 371 <= self.start_date.number <= self.today.number
        &&& self.weeks.len() == (self.today.number - self.start_date.number) / 7 + 1
        &&& forall|w: int| 0 <= w < self.weeks.len() ==> (#[trigger] self.weeks[w]).len() == 7
        &&& forall|i: int|
            0 <= i < self.month_boundaries.len() ==> (#[trigger] self.month_boundaries[i])
                < self.weeks.len()
        &&& forall|i: int, j: int|
            0 <= i < j < self.month_boundaries.len() ==> self.month_boundaries[i]
                < self.month_boundaries[j]
    }

    /// Whether this is the grid that ends on `today`, in a year that begins
    /// on the day `january_first`, with the counts `counts` and with weeks
    /// that begin in the months `months`.
    pub open spec fn laid_out(
        &self,
        counts: Map<i32, usize>,
        today: Day,
        january_first: int,
        months: Seq<u32>,
    ) -> bool {
        &&& self.today == today
        &&& self.start_date.number == sunday_before(january_first)
        &&& self.counts@ == counts
        &&& self.month_boundaries@ == boundaries_of(months, months.len() as int)
        &&& self.weeks.len() == months.len()
        &&& forall|w: int| 0 <= w < self.weeks.len() ==> (#[trigger] self.weeks[w]).len() == 7
        &&& forall|w: int, d: int|
            0 <= w < self.weeks.len() && 0 <= d < 7 ==> #[trigger] self.weeks[w][d] == shown(
                counts,
                today.number as int,
                sunday_before(january_first) + 7 * w + d,
            )
    }

    /// Whether this is the grid of `stats` for the year of `today`.
    pub open spec fn describes(&self, stats: Seq<RepoStats>, today: Day) -> bool {
        &&& self.today == today
        &&& self.start_date.number == grid_start(today)
        &&& self.counts@ == day_counts(stats)
        &&& self.month_boundaries@ == month_boundaries(grid_start(today), week_count(today))
        &&& self.weeks.len() == week_count(today)
        &&& forall|w: int| 0 <= w < self.weeks.len() ==> (#[trigger] self.weeks[w]).len() == 7
        &&& forall|w: int, d: int|
            0 <= w < self.weeks.len() && 0 <= d < 7 ==> #[trigger] self.weeks[w][d] == cell_of(
                stats,
                today.number as int,
                grid_start(today) + 7 * w + d,
            )
    }
}

/// The grid's first day lies in the calendar and at most 371 days before
/// today, and the grid has between one and 54 weeks.
proof fn lemma_grid_bounds(today: Day)
    requires
        today.wf(),
        0 <= day_in_year(today.number as int) <= 365,
    ensures
        today.number - 371 <= grid_start(today) <= today.number,
        in_calendar(grid_start(today)),
        1 <= week_count(today) <= 54,
        grid_start(today) + 7 * (week_count(today) - 1) <= today.number,
{
}

/// The grid starts on a Sunday, on January 1 of today's year or up to six
/// days before it.
pub proof fn lemma_grid_starts_on_sunday(today: Day)
    ensures
        weekday_number(grid_start(today)) == 0,
        today.year_start() - 6 <= grid_start(today) <= today.year_start(),
{
}

/// A day has no level exactly when it comes after today.
pub proof fn lemma_no_level_after_today(stats: Seq<RepoStats>, today: int, day: int)
    ensures
        cell_of(stats, today, day) is None <==> day > today,
{
}

/// The level that clipping a count leaves unchanged.
proof fn lemma_level_of_clipped(count: nat)
    ensures
        level_of(clip(count)) == level_of(count),
{
}

/// The week column that begins on day `first`.
fn week_column(counts: &HashMap<i32, usize>, today: i32, first: i32) -> (column: Vec<Option<u8>>)
    requires
        first <= i32::MAX - 7,
    ensures
        column.len() == 7,
        forall|d: int| 0 <= d < 7 ==> #[trigger] column[d] == shown(counts@, today as int, first + d),
{
    broadcast use vstd::std_specs::hash::group_hash_axioms;

    let mut column: Vec<Option<u8>> = Vec::new();
    let mut d: i32 = 0;
    while d < 7
        invariant
            0 <= d <= 7,
            first <= i32::MAX - 7,
            column.len() == d,
            forall|k: int|
                0 <= k < d ==> #[trigger] column[k] == shown(counts@, today as int, first + k),
        decreases 7 - d,
    {
        let day: i32 = first + d;
        if day > today {
            column.push(None);
        } else {
            let count: usize = match counts.get(&day) {
                Some(n) => *n,
                None => 0,
            };
            column.push(Some(activity_level(count)));
        }
        d += 1;
    }
    column
}

/// The boundaries among weeks are weeks, in strictly rising order.
pub proof fn lemma_boundaries_rise(months: Seq<u32>, weeks: int)
    requires
        weeks <= usize::MAX,
    ensures
        forall|i: int|
            0 <= i < boundaries_of(months, weeks).len() ==> (#[trigger] boundaries_of(
                months,
                weeks,
            )[i]) < weeks,
        forall|i: int, j: int|
            0 <= i < j < boundaries_of(months, weeks).len() ==> boundaries_of(months, weeks)[i]
                < boundaries_of(months, weeks)[j],
    decreases weeks,
{
    if weeks > 0 {
        lemma_boundaries_rise(months, weeks - 1);
        let earlier = boundaries_of(months, weeks - 1);
        let now = boundaries_of(months, weeks);
        assert forall|i: int| 0 <= i < now.len() implies (#[trigger] now[i]) < weeks by {
            if i < earlier.len() {
                assert(now[i] == earlier[i]);
            }
        }
        assert forall|i: int, j: int| 0 <= i < j < now.len() implies now[i] < now[j] by {
            assert(now[i] == earlier[i]);
            if j < earlier.len() {
                assert(now[j] == earlier[j]);
            }
        }
    }
}

/// Where `months` gives the months in which the weeks of a grid begin, the
/// boundaries among them are the month boundaries of the grid.
pub proof fn lemma_boundaries_of_months(start: int, months: Seq<u32>, weeks: int)
    requires
        weeks <= months.len(),
        forall|w: int| 0 <= w < weeks ==> #[trigger] months[w] == month_number(start + 7 * w),
    ensures
        boundaries_of(months, weeks) == month_boundaries(start, weeks),
    decreases weeks,
{
    if weeks > 0 {
        lemma_boundaries_of_months(start, months, weeks - 1);
        if weeks > 1 {
            assert(months[weeks - 1] == month_number(start + 7 * (weeks - 1)));
            assert(months[weeks - 2] == month_number(start + 7 * (weeks - 2)));
        }
    }
}

/// The Sunday on or before the day `number`.
fn last_sunday(number: i32) -> (sunday: i32)
    requires
        in_calendar(number as int),
        in_calendar(number - 6),
    ensures
        sunday == sunday_before(number as int),
        number - 6 <= sunday <= number,
{
    let weekday: u32 = weekday_of(number);
    number - weekday as i32
}

/// Lays out the grid that ends on `today`, in a year that begins on the day
/// `january_first`, from what the calendar told: `counts` holds the number
/// of commits of each day, and `months[w]` is the month in which week `w`
/// of the grid begins, one entry for each week.
///
/// The grid starts on the Sunday on or before `january_first`. A day after
/// `today` has no level; every other day has the level of its count. The
/// month boundaries are the weeks whose month differs from that of the week
/// before.
pub fn lay_out(
    counts: HashMap<i32, usize>,
    today: Day,
    january_first: i32,
    months: &[u32],
) -> (grid: CalendarGrid)
    requires
        today.wf(),
        today.number - 365 <= january_first <= today.number,
        months.len() == weeks_between(sunday_before(january_first as int), today.number as int),
    ensures
        grid.wf(),
        grid.laid_out(counts@, today, january_first as int, months@),
{
    let start: i32 = last_sunday(january_first);
    let week_total: usize = months.len();
    let mut weeks: Vec<Vec<Option<u8>>> = Vec::new();
    let mut month_starts: Vec<usize> = Vec::new();
    let mut week: usize = 0;
    while week < week_total
        invariant
            week <= week_total == months.len() <= 54,
            today.wf(),
            today.number - 371 <= start <= today.number,
            start + 7 * (week_total - 1) <= today.number,
            month_starts@ == boundaries_of(months@, week as int),
            weeks.len() == week,
            forall|w: int| 0 <= w < week ==> (#[trigger] weeks[w]).len() == 7,
            forall|w: int, d: int|
                0 <= w < week && 0 <= d < 7 ==> #[trigger] weeks[w][d] == shown(
                    counts@,
                    today.number as int,
                    start + 7 * w + d,
                ),
        decreases week_total - week,
    {
        if week == 0 || months[week] != months[week - 1] {
            month_starts.push(week);
        }
        let column = week_column(&counts, today.number, start + 7 * (week as i32));
        weeks.push(column);
        week += 1;
    }
    proof {
        lemma_boundaries_rise(months@, week_total as int);
    }
    CalendarGrid {
        start_date: Day { number: start },
        today,
        weeks,
        counts,
        month_boundaries: month_starts,
    }
}

/// Builds the grid of `stats` for the year of `today`.
///
/// The grid starts on the Sunday on or before January 1 and ends with the
/// week that holds `today`. A day after `today` has no level; every other
/// day has the level of the commits made on it, over all repositories.
pub fn build_grid(stats: &[RepoStats], today: Day) -> (grid: CalendarGrid)
    requires
        today.wf(),
    ensures
        grid.wf(),
        grid.describes(stats@, today),
        weekday_number(grid.start_date.number as int) == 0,
        today.year_start() - 6 <= grid.start_date.number <= today.year_start(),
{
    let counts = count_days(stats);
    let january_first: i32 = today.first_of_year();
    let start: i32 = last_sunday(january_first);
    let week_total: usize = ((today.number - start) / 7 + 1) as usize;
    proof {
        lemma_grid_bounds(today);
    }
    let mut months: Vec<u32> = Vec::new();
    let mut week: usize = 0;
    while week < week_total
        invariant
            week <= week_total == week_count(today) <= 54,
            today.wf(),
            start == grid_start(today),
            in_calendar(start as int),
            start + 7 * (week_total - 1) <= today.number,
            months.len() == week,
            forall|w: int| 0 <= w < week ==> #[trigger] months[w] == month_number(start + 7 * w),
        decreases week_total - week,
    {
        months.push(month_of(start + 7 * (week as i32)));
        week += 1;
    }
    let grid = lay_out(counts, today, january_first, months.as_slice());
    proof {
        lemma_boundaries_of_months(start as int, months@, week_total as int);
        assert forall|w: int, d: int| 0 <= w < grid.weeks.len() && 0 <= d < 7 implies #[trigger]
            grid.weeks[w][d] == cell_of(stats@, today.number as int, start + 7 * w + d) by {
            lemma_level_of_clipped(activity_on(stats@, (start + 7 * w + d) as i32));
        }
    }
    grid
}

/// The label of a month above the grid.
#[derive(Debug, Clone, Copy, PartialEq, Eq, Structural)]
pub struct MonthLabel {
    /// The week above which the label begins.
    pub week: usize,
    /// The month, from 1 to 12.
    pub month: u32,
    /// The width of the label in characters: two for each week up to the
    /// next label or the end of the grid, and two more.
    pub width: usize,
}

/// The label that belongs to the boundary `index` among the month
/// boundaries `marks` of a grid that starts on day `start` and has `weeks`
/// weeks.
pub open spec fn label_of(start: int, weeks: int, marks: Seq<usize>, index: int) -> MonthLabel {
    let next = if index + 1 < marks.len() {
        marks[index + 1] as int
    } else {
        weeks
    };
    MonthLabel {
        week: marks[index],
        month: month_number(start + 7 * marks[index]) as u32,
        width: ((next - marks[index]) * 2 + 2) as usize,
    }
}

/// The labels of the months above the grid, one for each month boundary.
pub fn month_labels(grid: &CalendarGrid) -> (labels: Vec<MonthLabel>)
    requires
        grid.wf(),
    ensures
        labels.len() == grid.month_boundaries.len(),
        forall|i: int|
            0 <= i < labels.len() ==> #[trigger] labels[i] == label_of(
                grid.start_date.number as int,
                grid.weeks.len() as int,
                grid.month_boundaries@,
                i,
            ),
{
    let start: i32 = grid.start_date.number;
    let week_total: usize = grid.weeks.len();
    let mut labels: Vec<MonthLabel> = Vec::new();
    let mut i: usize = 0;
    while i < grid.month_boundaries.len()
        invariant
            grid.wf(),
            start == grid.start_date.number,
            week_total == grid.weeks.len(),
            i <= grid.month_boundaries.len(),
            labels.len() == i,
            forall|k: int|
                0 <= k < i ==> #[trigger] labels[k] == label_of(
                    start as int,
                    week_total as int,
                    grid.month_boundaries@,
                    k,
                ),
        decreases grid.month_boundaries.len() - i,
    {
        let week: usize = grid.month_boundaries[i];
        let next: usize = if i + 1 < grid.month_boundaries.len() {
            grid.month_boundaries[i + 1]
        } else {
            week_total
        };
        let month: u32 = month_of(start + 7 * (week as i32));
        labels.push(MonthLabel { week, month, width: (next - week) * 2 + 2 });
        i += 1;
    }
    labels
}

/// Whether the row `row` of a grid that starts on day `start` leaves a gap
/// before its cell of week `week`: the cell's day lies in another month
/// than the cell before it in the row, or, for the second cell, than the
/// grid's first day.
pub open spec fn has_gap(start: int, week: int, row: int) -> bool {
    week > 0 && month_number(start + 7 * week + row) != if week == 1 {
        month_number(start)
    } else {
        month_number(start + 7 * (week - 1) + row)
    }
}

/// For each week of the grid, whether the row `row` leaves a gap before its
/// cell of that week.
pub fn row_gaps(grid: &CalendarGrid, row: usize) -> (gaps: Vec<bool>)
    requires
        grid.wf(),
        row < 7,
    ensures
        gaps.len() == grid.weeks.len(),
        forall|w: int|
            0 <= w < gaps.len() ==> #[trigger] gaps[w] == has_gap(
                grid.start_date.number as int,
                w,
                row as int,
            ),
{
    let start: i32 = grid.start_date.number;
    let week_total: usize = grid.weeks.len();
    let mut previous_month: u32 = month_of(start);
    let mut gaps: Vec<bool> = Vec::new();
    let mut week: usize = 0;
    while week < week_total
        invariant
            grid.wf(),
            row < 7,
            start == grid.start_date.number,
            week_total == grid.weeks.len(),
            week <= week_total,
            gaps.len() == week,
            previous_month == if week <= 1 {
                month_number(start as int)
            } else {
                month_number(start + 7 * (week - 1) + row)
            },
            forall|w: int|
                0 <= w < week ==> #[trigger] gaps[w] == has_gap(start as int, w, row as int),
        decreases week_total - week,
    {
        let day: i32 = start + 7 * (week as i32) + row as i32;
        let month: u32 = month_of(day);
        let gap = week > 0 && month != previous_month;
        if gap {
            previous_month = month;
        }
        gaps.push(gap);
        week += 1;
    }
    gaps
}

/// Builds the grid of `stats` for the current year, as the local clock has
/// it. The result is `None` where the clock's date lies outside the years 1
/// to 9999.
pub fn current_grid(stats: &[RepoStats]) -> (grid: Option<CalendarGrid>)
    ensures
        grid matches Some(g) ==> g.wf() && g.describes(stats@, g.today),
{
    // The clock gives the number of today; the grid follows from it alone.
    let number: i32 = local_day_number();
    let grid = grid_on(stats, number);
    grid
}

/// Builds the grid of `stats` for the year of the day numbered `number`, or
/// nothing where that day lies outside the years 1 to 9999.
pub fn grid_on(stats: &[RepoStats], number: i32) -> (grid: Option<CalendarGrid>)
    ensures
        grid is Some <==> 1 <= number <= DAY_LAST,
        grid matches Some(g) ==> {
            &&& g.wf()
            &&& g.describes(stats@, Day { number })
            &&& weekday_number(g.start_date.number as int) == 0
            &&& (Day { number }).year_start() - 6 <= g.start_date.number <= (Day {
                number,
            }).year_start()
        },
{
    match Day::from_number(number) {
        Some(today) => Some(build_grid(stats, today)),
        None => None,
    }
}

} // verus!
