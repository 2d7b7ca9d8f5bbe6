use consta::model::{Commit, RepoStats};
use consta::table::{
    breakdown, get_activity_char, level_mark, month_abbr, project_name, short_hash, summary, summary_row,
    totals, usize_to_i64, SummaryRow, Totals,
};

fn repo(path: &str, commits: usize, added: usize, deleted: usize) -> RepoStats {
    RepoStats { path: path.to_string(), commits_amount: commits, added, deleted, commits: vec![] }
}

fn row(loc: usize, added: usize, deleted: usize, commits: usize) -> SummaryRow {
    SummaryRow { project: "p".to_string(), loc, added, deleted, commits }
}

#[test]
fn project_is_named_by_the_last_component() {
    assert_eq!(project_name("/home/ann/work/consta"), "consta");
    assert_eq!(project_name("work/consta/"), "consta");
    assert_eq!(project_name("work/consta///"), "consta");
    assert_eq!(project_name("consta"), "consta");
    assert_eq!(project_name("./consta"), "consta");
    assert_eq!(project_name("/a b/c.d"), "c.d");
}

#[test]
fn project_without_a_last_component_is_named_by_its_path() {
    assert_eq!(project_name(""), "");
    assert_eq!(project_name("/"), "/");
    assert_eq!(project_name("///"), "///");
    assert_eq!(project_name(".."), "..");
    assert_eq!(project_name("work/.."), "work/..");
    assert_eq!(project_name("work/../"), "work/../");
}

#[test]
fn lone_dots_at_the_end_of_a_path_name_nothing() {
    assert_eq!(project_name("work/."), "work");
    assert_eq!(project_name("work/.//"), "work");
    assert_eq!(project_name("/srv/git/tool/././"), "tool");
    assert_eq!(project_name("a/.b"), ".b");
    assert_eq!(project_name("a/b."), "b.");
    assert_eq!(project_name("a/./b"), "b");
    assert_eq!(project_name("a/..."), "...");
}

#[test]
fn path_of_dots_alone_is_shown_whole() {
    assert_eq!(project_name("./"), "./");
    assert_eq!(project_name("."), ".");
    assert_eq!(project_name("/."), "/.");
    assert_eq!(project_name("./."), "./.");
    assert_eq!(project_name("a/../."), "a/../.");
}

#[test]
fn project_names_agree_with_the_file_name_of_the_path() {
    for path in [
        "", "/", "//", ".", "..", "./", "../", "/.", "/..", "a", "a/", "a//", "a/.", "a/./", "a/..",
        "a/../", "a/b", "a/b/", "a/b/.", "a/b/./.", "a/./b", "a/../b", "./a", "../a", "/a", "/a/b.c",
        ".a", "a.", "..a", "a..", "...", "a/.b", "a/b.", "a/.b/", "a/.b/.", " a ", "a b/c d",
    ] {
        let expected = std::path::Path::new(path)
            .file_name()
            .map_or_else(|| path.to_string(), |name| name.to_string_lossy().into_owned());
        assert_eq!(project_name(path), expected, "path {path:?}");
    }
}

#[test]
fn short_hash_is_the_first_seven_characters() {
    assert_eq!(short_hash("0123456789abcdef"), "0123456");
    assert_eq!(short_hash("0123456"), "0123456");
    assert_eq!(short_hash("01234567"), "0123456");
    assert_eq!(short_hash("abc"), "abc");
    assert_eq!(short_hash(""), "");
}

#[test]
fn row_of_a_repository() {
    let shown = summary_row(&repo("/srv/git/tool", 7, 120, 20));
    assert_eq!(shown.project, "tool");
    assert_eq!(shown.loc, 100);
    assert_eq!(shown.added, 120);
    assert_eq!(shown.deleted, 20);
    assert_eq!(shown.commits, 7);
}

#[test]
fn net_lines_are_floored_at_zero() {
    assert_eq!(summary_row(&repo("r", 1, 5, 9)).loc, 0);
    assert_eq!(summary_row(&repo("r", 1, 9, 9)).loc, 0);
    assert_eq!(summary_row(&repo("r", 1, 0, usize::MAX)).loc, 0);
    assert_eq!(summary_row(&repo("r", 1, usize::MAX, 0)).loc, usize::MAX);
}

#[test]
fn totals_are_the_sums_of_the_rows() {
    let table = summary(&[repo("a", 2, 18, 3), repo("b", 0, 0, 0), repo("c", 5, 10, 40)]);
    assert_eq!(table.rows.len(), 3);
    assert_eq!(table.rows[0].project, "a");
    assert_eq!(table.rows[2].project, "c");
    assert_eq!(table.rows[2].loc, 0);
    assert_eq!(table.totals, Totals { loc: 15, added: 28, deleted: 43, commits: 7 });
    let loc: u128 = table.rows.iter().map(|r| r.loc as u128).sum();
    let added: u128 = table.rows.iter().map(|r| r.added as u128).sum();
    let deleted: u128 = table.rows.iter().map(|r| r.deleted as u128).sum();
    let commits: u128 = table.rows.iter().map(|r| r.commits as u128).sum();
    assert_eq!(table.totals, Totals { loc, added, deleted, commits });
}

#[test]
fn totals_of_no_repository_are_zero() {
    let table = summary(&[]);
    assert!(table.rows.is_empty());
    assert_eq!(table.totals, Totals { loc: 0, added: 0, deleted: 0, commits: 0 });
    assert_eq!(totals(&[]), Totals { loc: 0, added: 0, deleted: 0, commits: 0 });
}

#[test]
fn totals_do_not_overflow() {
    let big = usize::MAX;
    let sum = totals(&[row(big, big, 1, 2), row(big, big, big, big), row(1, big, 0, 0)]);
    assert_eq!(sum.loc, 2 * big as u128 + 1);
    assert_eq!(sum.added, 3 * big as u128);
    assert_eq!(sum.deleted, big as u128 + 1);
    assert_eq!(sum.commits, big as u128 + 2);
}

#[test]
fn breakdown_lists_the_commits_in_order() {
    let commit = |hash: &str, message: &str, added: u64, deleted: u64| Commit {
        hash: hash.to_string(),
        date: "2024-03-01T10:00:00+00:00".to_string(),
        message: message.to_string(),
        added,
        deleted,
    };
    let stats = RepoStats {
        path: "/srv/tool/".to_string(),
        commits_amount: 2,
        added: 18,
        deleted: 3,
        commits: vec![commit("abc1234def", "fix bug", 8, 2), commit("def56", "add feature", 10, 1)],
    };
    let section = breakdown(&stats).unwrap();
    assert_eq!(section.project, "tool");
    assert_eq!(section.lines.len(), 2);
    assert_eq!(section.lines[0].short_hash, "abc1234");
    assert_eq!(section.lines[0].message, "fix bug");
    assert_eq!((section.lines[0].added, section.lines[0].deleted), (8, 2));
    assert_eq!(section.lines[1].short_hash, "def56");
    assert_eq!(section.lines[1].message, "add feature");
    assert_eq!((section.lines[1].added, section.lines[1].deleted), (10, 1));
}

#[test]
fn repository_without_commits_has_no_breakdown() {
    assert!(breakdown(&repo("r", 0, 0, 0)).is_none());
    assert!(breakdown(&repo("r", 3, 1, 1)).is_none());
}

#[test]
fn marks_of_the_levels() {
    assert_eq!(get_activity_char(0), "\u{2b1c}");
    assert_eq!(get_activity_char(1), "\u{1f7e9}");
    assert_eq!(get_activity_char(2), "\u{1f7e8}");
    assert_eq!(get_activity_char(3), "\u{1f7e8}");
    assert_eq!(get_activity_char(4), "\u{1f7e8}");
    assert_eq!(get_activity_char(5), "\u{1f7e7}");
    assert_eq!(get_activity_char(6), "\u{1f7e7}");
    assert_eq!(get_activity_char(9), "\u{1f7e7}");
    assert_eq!(get_activity_char(10), "\u{1f7e5}");
    assert_eq!(get_activity_char(10_000), "\u{1f7e5}");
}

#[test]
fn marks_by_level() {
    assert_eq!(level_mark(0), "\u{2b1c}");
    assert_eq!(level_mark(1), "\u{1f7e9}");
    assert_eq!(level_mark(2), "\u{1f7e8}");
    assert_eq!(level_mark(3), "\u{1f7e7}");
    assert_eq!(level_mark(4), "\u{1f7e5}");
    assert_eq!(level_mark(200), "\u{1f7e5}");
}

#[test]
fn month_names() {
    let names: Vec<&str> = (0..=13).map(month_abbr).collect();
    assert_eq!(
        names,
        vec![
            "???", "Jan", "Feb", "Mar", "Apr", "May", "Jun", "Jul", "Aug", "Sep", "Oct", "Nov",
            "Dec", "???"
        ]
    );
    assert_eq!(month_abbr(u32::MAX), "???");
}

#[test]
fn sizes_that_fit_convert_unchanged() {
    assert_eq!(usize_to_i64(0), 0);
    assert_eq!(usize_to_i64(53), 53);
    assert_eq!(usize_to_i64(i64::MAX as usize), i64::MAX);
}
