use chrono::{Datelike, Local, NaiveDate};
use consta::calendar::{
    activity_level, build_grid, commit_day, count_days, current_grid, grid_on, lay_out,
    month_labels, row_gaps, tally_days, Day, MonthLabel,
};
use std::collections::HashMap;
use consta::model::{Commit, RepoStats};

fn number(year: i32, month: u32, day: u32) -> i32 {
    NaiveDate::from_ymd_opt(year, month, day).unwrap().num_days_from_ce()
}

fn day(year: i32, month: u32, day: u32) -> Day {
    Day { number: number(year, month, day) }
}

fn commit(date: &str) -> Commit {
    Commit {
        hash: "0123456789abcdef".to_string(),
        date: date.to_string(),
        message: "work".to_string(),
        added: 1,
        deleted: 0,
    }
}

fn repo(dates: &[&str]) -> RepoStats {
    RepoStats {
        path: "repo".to_string(),
        commits_amount: dates.len(),
        added: dates.len(),
        deleted: 0,
        commits: dates.iter().map(|d| commit(d)).collect(),
    }
}

#[test]
fn levels_follow_the_thresholds() {
    assert_eq!(activity_level(0), 0);
    assert_eq!(activity_level(1), 1);
    assert_eq!(activity_level(2), 2);
    assert_eq!(activity_level(4), 2);
    assert_eq!(activity_level(5), 3);
    assert_eq!(activity_level(9), 3);
    assert_eq!(activity_level(10), 4);
    assert_eq!(activity_level(usize::MAX), 4);
}

#[test]
fn levels_never_fall_as_counts_rise() {
    let mut previous = 0;
    for count in 0..200usize {
        let level = activity_level(count);
        assert!(level >= previous);
        previous = level;
    }
}

#[test]
fn day_numbers_start_at_the_year_one() {
    assert_eq!(number(1, 1, 1), 1);
    assert_eq!(number(1970, 1, 1), 719_163);
    assert_eq!(number(9999, 12, 31), consta::calendar::DAY_LAST);
    assert_eq!(number(10000, 12, 31), consta::calendar::CALENDAR_LAST);
    assert_eq!(number(-1, 1, 1), consta::calendar::CALENDAR_FIRST);
}

#[test]
fn days_outside_the_years_one_to_9999_are_refused() {
    assert_eq!(Day::from_number(1), Some(Day { number: 1 }));
    assert_eq!(Day::from_number(3_652_059), Some(Day { number: 3_652_059 }));
    assert_eq!(Day::from_number(0), None);
    assert_eq!(Day::from_number(-5), None);
    assert_eq!(Day::from_number(3_652_060), None);
    assert_eq!(Day::from_number(i32::MAX), None);
    assert_eq!(Day::from_number(i32::MIN), None);
}

#[test]
fn today_is_the_local_date() {
    let before = Local::now().date_naive().num_days_from_ce();
    let today = Day::today().unwrap();
    let after = Local::now().date_naive().num_days_from_ce();
    assert!(before <= today.number && today.number <= after);
}

#[test]
fn weekday_is_the_remainder_by_seven() {
    assert_eq!(day(2024, 3, 17).days_from_sunday(), 0);
    assert_eq!(day(2024, 3, 15).days_from_sunday(), 5);
    assert_eq!(day(1970, 1, 1).days_from_sunday(), 4);
    assert_eq!(day(1, 1, 1).days_from_sunday(), 1);
    let mut n = 1;
    while n <= 3_652_059 {
        assert_eq!(Day { number: n }.days_from_sunday(), n.rem_euclid(7) as u32);
        n += 1 + n % 5;
    }
}

#[test]
fn month_of_a_day() {
    assert_eq!(day(2024, 1, 1).month(), 1);
    assert_eq!(day(2024, 2, 29).month(), 2);
    assert_eq!(day(2023, 12, 31).month(), 12);
    assert_eq!(day(9999, 12, 31).month(), 12);
    assert_eq!(Day { number: 1 }.month(), 1);
}

#[test]
fn first_of_the_year() {
    assert_eq!(day(2024, 3, 15).first_of_year(), number(2024, 1, 1));
    assert_eq!(day(2024, 12, 31).first_of_year(), number(2024, 1, 1));
    assert_eq!(day(2023, 1, 1).first_of_year(), number(2023, 1, 1));
    assert_eq!(Day { number: 200 }.first_of_year(), 1);
}

#[test]
fn commit_dates_are_read_up_to_the_time() {
    assert_eq!(commit_day("2024-03-01T10:00:00+00:00"), Some(number(2024, 3, 1)));
    assert_eq!(commit_day("2024-03-01"), Some(number(2024, 3, 1)));
    assert_eq!(commit_day("2024-3-1Tanything"), Some(number(2024, 3, 1)));
    assert_eq!(commit_day("1970-01-01T00:00:00Z"), Some(719_163));
}

#[test]
fn unreadable_commit_dates_are_skipped() {
    assert_eq!(commit_day(""), None);
    assert_eq!(commit_day("T2024-03-01"), None);
    assert_eq!(commit_day("yesterday"), None);
    assert_eq!(commit_day("2024-02-30T10:00:00+00:00"), None);
    assert_eq!(commit_day("2024-13-01"), None);
    assert_eq!(commit_day("2024-03-01 10:00:00"), None);
}

#[test]
fn commits_are_counted_by_day_over_all_repositories() {
    let stats = vec![
        repo(&["2024-03-01T10:00:00+00:00", "2024-03-01T23:59:59-08:00", "bad", "2024-02-29T00:00:00Z"]),
        repo(&[]),
        repo(&["2024-03-01T01:00:00+01:00", "2023-07-04T12:00:00Z"]),
    ];
    let counts = count_days(&stats);
    assert_eq!(counts.len(), 3);
    assert_eq!(counts.get(&number(2024, 3, 1)), Some(&3));
    assert_eq!(counts.get(&number(2024, 2, 29)), Some(&1));
    assert_eq!(counts.get(&number(2023, 7, 4)), Some(&1));
    assert_eq!(counts.get(&number(2024, 3, 2)), None);
}

#[test]
fn no_commits_no_counts() {
    assert!(count_days(&[]).is_empty());
    assert!(count_days(&[repo(&["nonsense"])]).is_empty());
}

#[test]
fn days_are_tallied_by_their_number() {
    let counts = tally_days(&[Some(8), None, Some(-3), Some(8), Some(8), None, Some(0)]);
    assert_eq!(counts.len(), 3);
    assert_eq!(counts.get(&8), Some(&3));
    assert_eq!(counts.get(&-3), Some(&1));
    assert_eq!(counts.get(&0), Some(&1));
    assert_eq!(counts.get(&9), None);
    assert!(tally_days(&[]).is_empty());
    assert!(tally_days(&[None, None]).is_empty());
}

#[test]
fn grid_is_laid_out_from_counts_and_months() {
    let mut counts: HashMap<i32, usize> = HashMap::new();
    counts.insert(7, 1);
    counts.insert(8, 2);
    counts.insert(9, 5);
    counts.insert(10, 10);
    counts.insert(15, 4);
    counts.insert(17, 9);
    counts.insert(18, 30);
    counts.insert(3, 30);
    let grid = lay_out(counts, Day { number: 17 }, 8, &[12, 1]);
    assert_eq!(grid.start_date, Day { number: 7 });
    assert_eq!(grid.today, Day { number: 17 });
    assert_eq!(grid.month_boundaries, vec![0, 1]);
    assert_eq!(
        grid.weeks,
        vec![
            vec![Some(1), Some(2), Some(3), Some(4), Some(0), Some(0), Some(0)],
            vec![Some(0), Some(2), Some(0), Some(3), None, None, None],
        ]
    );
    assert_eq!(grid.counts.len(), 8);
    assert_eq!(grid.counts.get(&18), Some(&30));
}

#[test]
fn boundaries_are_the_weeks_whose_month_changes() {
    let today = Day { number: 7 * 9 + 3 };
    let grid = lay_out(HashMap::new(), today, 7, &[1, 1, 1, 2, 2, 3, 3, 3, 4, 1]);
    assert_eq!(grid.start_date, Day { number: 7 });
    assert_eq!(grid.weeks.len(), 10);
    assert_eq!(grid.month_boundaries, vec![0, 3, 5, 8, 9]);
    let one = lay_out(HashMap::new(), Day { number: 14 }, 14, &[6]);
    assert_eq!(one.start_date, Day { number: 14 });
    assert_eq!(one.month_boundaries, vec![0]);
    assert_eq!(one.weeks, vec![vec![Some(0), None, None, None, None, None, None]]);
}

#[test]
fn grid_starts_on_the_sunday_on_or_before_january_first() {
    for (today, start) in [
        (day(2024, 3, 15), number(2023, 12, 31)),
        (day(2023, 6, 1), number(2023, 1, 1)),
        (day(2022, 1, 1), number(2021, 12, 26)),
        (day(2021, 12, 31), number(2020, 12, 27)),
        (day(2017, 1, 1), number(2017, 1, 1)),
    ] {
        let grid = build_grid(&[], today);
        assert_eq!(grid.start_date.number, start);
        assert_eq!(grid.today, today);
        let first = NaiveDate::from_num_days_from_ce_opt(grid.start_date.number).unwrap();
        assert_eq!(first.weekday().num_days_from_sunday(), 0);
        let january_first = today.first_of_year();
        assert!(january_first - 6 <= grid.start_date.number);
        assert!(grid.start_date.number <= january_first);
    }
}

#[test]
fn grid_start_is_a_sunday_for_every_day_of_some_years() {
    for n in number(1999, 1, 1)..=number(2030, 12, 31) {
        let today = Day { number: n };
        let grid = build_grid(&[], today);
        let first = NaiveDate::from_num_days_from_ce_opt(grid.start_date.number).unwrap();
        let date = NaiveDate::from_num_days_from_ce_opt(n).unwrap();
        let january_first = NaiveDate::from_ymd_opt(date.year(), 1, 1).unwrap();
        assert_eq!(first.weekday().num_days_from_sunday(), 0);
        assert!(first <= january_first);
        assert!((january_first - first).num_days() <= 6);
        assert_eq!(grid.weeks.len() as i64, (date - first).num_days() / 7 + 1);
    }
}

#[test]
fn grid_of_january_first_has_one_week() {
    let grid = build_grid(&[], day(2024, 1, 1));
    assert_eq!(grid.weeks.len(), 1);
    assert_eq!(grid.month_boundaries, vec![0]);
    assert_eq!(
        grid.weeks[0],
        vec![Some(0), Some(0), None, None, None, None, None]
    );
}

#[test]
fn grid_weeks_and_month_boundaries() {
    let grid = build_grid(&[], day(2024, 3, 15));
    assert_eq!(grid.weeks.len(), 11);
    assert!(grid.weeks.iter().all(|week| week.len() == 7));
    assert_eq!(grid.month_boundaries, vec![0, 1, 5, 9]);
    let full_year = build_grid(&[], day(2023, 12, 31));
    assert_eq!(full_year.start_date.number, number(2023, 1, 1));
    assert_eq!(full_year.weeks.len(), 53);
    assert_eq!(full_year.month_boundaries, vec![0, 5, 9, 13, 18, 22, 26, 31, 35, 39, 44, 48]);
}

#[test]
fn commit_of_today_shows_and_commit_of_tomorrow_does_not() {
    let today = day(2024, 3, 15);
    let stats = vec![repo(&["2024-03-15T08:30:00+00:00", "2024-03-16T08:30:00+00:00"])];
    let grid = build_grid(&stats, today);
    assert_eq!(grid.weeks.len(), 11);
    assert_eq!(grid.weeks[10][5], Some(1));
    assert_eq!(grid.weeks[10][6], None);
    assert_eq!(grid.weeks[10][4], Some(0));
    for (w, week) in grid.weeks.iter().enumerate() {
        for (d, cell) in week.iter().enumerate() {
            let date = grid.start_date.number + 7 * w as i32 + d as i32;
            if date > today.number {
                assert_eq!(*cell, None);
            } else if date == today.number {
                assert_eq!(*cell, Some(1));
            } else {
                assert_eq!(*cell, Some(0));
            }
        }
    }
    assert_eq!(grid.counts.get(&number(2024, 3, 16)), Some(&1));
}

#[test]
fn cells_hold_the_level_of_their_day() {
    let mut dates = vec!["2024-01-01T00:00:00Z"; 10];
    dates.extend(vec!["2024-01-02T00:00:00Z"; 5]);
    dates.extend(vec!["2024-01-03T00:00:00Z"; 4]);
    dates.extend(vec!["2023-12-31T00:00:00Z"; 2]);
    dates.push("2024-01-06T12:00:00Z");
    dates.push("2022-01-04T12:00:00Z");
    let grid = build_grid(&[repo(&dates[..12]), repo(&dates[12..])], day(2024, 1, 10));
    assert_eq!(grid.weeks.len(), 2);
    assert_eq!(
        grid.weeks[0],
        vec![Some(2), Some(4), Some(3), Some(2), Some(0), Some(0), Some(1)]
    );
    assert_eq!(
        grid.weeks[1],
        vec![Some(0), Some(0), Some(0), Some(0), None, None, None]
    );
}

#[test]
fn month_labels_span_the_weeks_of_their_month() {
    let grid = build_grid(&[], day(2024, 3, 15));
    assert_eq!(
        month_labels(&grid),
        vec![
            MonthLabel { week: 0, month: 12, width: 4 },
            MonthLabel { week: 1, month: 1, width: 10 },
            MonthLabel { week: 5, month: 2, width: 10 },
            MonthLabel { week: 9, month: 3, width: 6 },
        ]
    );
    let one_week = build_grid(&[], day(2023, 1, 3));
    assert_eq!(month_labels(&one_week), vec![MonthLabel { week: 0, month: 1, width: 4 }]);
}

#[test]
fn rows_leave_a_gap_where_the_month_changes() {
    let grid = build_grid(&[], day(2024, 3, 15));
    let sunday: Vec<usize> =
        row_gaps(&grid, 0).iter().enumerate().filter(|(_, g)| **g).map(|(w, _)| w).collect();
    assert_eq!(sunday, vec![1, 5, 9]);
    let monday: Vec<usize> =
        row_gaps(&grid, 1).iter().enumerate().filter(|(_, g)| **g).map(|(w, _)| w).collect();
    assert_eq!(monday, vec![1, 5, 9]);
    let friday: Vec<usize> =
        row_gaps(&grid, 5).iter().enumerate().filter(|(_, g)| **g).map(|(w, _)| w).collect();
    assert_eq!(friday, vec![1, 4, 8]);
    assert_eq!(row_gaps(&grid, 6).len(), 11);
}

#[test]
fn grid_of_a_numbered_day() {
    let stats = vec![repo(&["2024-03-15T08:30:00+00:00"])];
    let grid = grid_on(&stats, number(2024, 3, 15)).unwrap();
    assert_eq!(grid.today, day(2024, 3, 15));
    assert_eq!(grid.start_date.number, number(2023, 12, 31));
    assert_eq!(grid.weeks.len(), 11);
    assert_eq!(grid.weeks[10][5], Some(1));
    assert_eq!(grid.month_boundaries, vec![0, 1, 5, 9]);
    assert!(grid_on(&stats, 1).is_some());
    assert!(grid_on(&stats, 3_652_059).is_some());
}

#[test]
fn no_grid_for_a_day_outside_the_years_one_to_9999() {
    assert!(grid_on(&[], 0).is_none());
    assert!(grid_on(&[], -719_163).is_none());
    assert!(grid_on(&[], 3_652_060).is_none());
    assert!(grid_on(&[], i32::MAX).is_none());
    assert!(grid_on(&[], i32::MIN).is_none());
}

#[test]
fn current_grid_ends_today() {
    let stats = vec![repo(&["2024-03-15T08:30:00+00:00"])];
    let grid = current_grid(&stats).unwrap();
    let today = Local::now().date_naive();
    assert!((grid.today.number - today.num_days_from_ce()).abs() <= 1);
    assert_eq!(grid.weeks.len(), ((grid.today.number - grid.start_date.number) / 7 + 1) as usize);
    assert_eq!(grid.start_date.number.rem_euclid(7), 0);
}
