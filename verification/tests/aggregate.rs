use consta::cli::Args;
use consta::git::{
    blank, check_validity, collect, collect_repo, confirms, log_query, needs_probe, InvalidRepo,
    Location, Probe, Retrieval,
};

fn args(author: &str, since: Option<&str>, until: Option<&str>, repos: &[&str]) -> Args {
    Args {
        author: author.to_string(),
        since: since.map(|s| s.to_string()),
        until: until.map(|s| s.to_string()),
        breakdown: false,
        repos: repos.iter().map(|r| r.to_string()).collect(),
    }
}

fn location(exists: bool, is_dir: bool, has_marker: bool, probe: Option<(bool, &str)>) -> Location {
    Location {
        exists,
        is_dir,
        has_marker,
        probe: probe.map(|(success, stdout)| Probe { success, stdout: stdout.to_string() }),
    }
}

#[test]
fn failed_retrieval_yields_zeroed_stats() {
    let stats = collect_repo("/srv/unreachable", &Retrieval::Failed);
    assert_eq!(stats.path, "/srv/unreachable");
    assert_eq!(stats.commits_amount, 0);
    assert_eq!(stats.added, 0);
    assert_eq!(stats.deleted, 0);
    assert!(stats.commits.is_empty());
}

#[test]
fn unsuccessful_run_is_a_failed_retrieval() {
    assert!(matches!(Retrieval::of(false, "commit a|d|m\n".to_string()), Retrieval::Failed));
    match Retrieval::of(true, "commit a|d|m\n".to_string()) {
        Retrieval::Log(text) => assert_eq!(text, "commit a|d|m\n"),
        Retrieval::Failed => panic!("a successful run has a log"),
    }
}

#[test]
fn retrieved_log_is_parsed() {
    let log = Retrieval::Log("commit a|d|m\n3\t1\tf\n".to_string());
    let stats = collect_repo("r", &log);
    assert_eq!(stats.commits_amount, 1);
    assert_eq!(stats.added, 3);
    assert_eq!(stats.deleted, 1);
}

#[test]
fn one_failed_repository_leaves_the_others_intact() {
    let run = args("me", None, None, &["one", "two", "three"]);
    let retrievals = vec![
        Retrieval::Log("commit a|d|m\n1\t2\tf\n".to_string()),
        Retrieval::Failed,
        Retrieval::Log("commit b|d|m\ncommit c|d|m\n5\t0\tg\n".to_string()),
    ];
    let all = collect(&run, &retrievals);
    assert_eq!(all.len(), 3);
    assert_eq!(all[0].path, "one");
    assert_eq!((all[0].commits_amount, all[0].added, all[0].deleted), (1, 1, 2));
    assert_eq!(all[1].path, "two");
    assert_eq!((all[1].commits_amount, all[1].added, all[1].deleted), (0, 0, 0));
    assert!(all[1].commits.is_empty());
    assert_eq!(all[2].path, "three");
    assert_eq!((all[2].commits_amount, all[2].added, all[2].deleted), (2, 5, 0));
}

#[test]
fn repository_without_a_retrieval_counts_as_failed() {
    let run = args("me", None, None, &["one", "two"]);
    let all = collect(&run, &vec![Retrieval::Log("commit a|d|m\n".to_string())]);
    assert_eq!(all.len(), 2);
    assert_eq!(all[0].commits_amount, 1);
    assert_eq!(all[1].path, "two");
    assert_eq!(all[1].commits_amount, 0);
}

#[test]
fn no_repository_yields_no_stats() {
    let run = args("me", None, None, &[]);
    assert!(collect(&run, &vec![Retrieval::Failed]).is_empty());
}

#[test]
fn query_without_filters() {
    let run = args("", None, None, &["r"]);
    assert_eq!(log_query(&run), vec!["log", "--numstat", "--pretty=format:commit %H|%cI|%s"]);
}

#[test]
fn query_with_every_filter() {
    let run = args("Ann Lee", Some("2024-01-01"), Some("last week"), &["r"]);
    assert_eq!(
        log_query(&run),
        vec![
            "log",
            "--numstat",
            "--pretty=format:commit %H|%cI|%s",
            "--author",
            "Ann Lee",
            "--since",
            "2024-01-01",
            "--until",
            "last week",
        ]
    );
}

#[test]
fn blank_filters_are_left_out_and_values_pass_verbatim() {
    let run = args("  \t", Some(""), Some(" 2 days ago "), &["r"]);
    assert_eq!(
        log_query(&run),
        vec!["log", "--numstat", "--pretty=format:commit %H|%cI|%s", "--until", " 2 days ago "]
    );
    let run = args(" ann ", Some("   "), None, &["r"]);
    assert_eq!(
        log_query(&run),
        vec!["log", "--numstat", "--pretty=format:commit %H|%cI|%s", "--author", " ann "]
    );
}

#[test]
fn blank_texts() {
    assert!(blank(""));
    assert!(blank(" \t\r\n"));
    assert!(!blank(" a "));
}

#[test]
fn missing_location_is_no_directory() {
    assert_eq!(check_validity(&location(false, false, false, None)), Err(InvalidRepo::NotADirectory));
    assert_eq!(check_validity(&location(true, false, true, None)), Err(InvalidRepo::NotADirectory));
    assert_eq!(
        check_validity(&location(false, true, true, Some((true, "true")))),
        Err(InvalidRepo::NotADirectory)
    );
}

#[test]
fn directory_with_marker_is_valid() {
    assert_eq!(check_validity(&location(true, true, true, None)), Ok(()));
    assert_eq!(check_validity(&location(true, true, true, Some((false, "")))), Ok(()));
}

#[test]
fn directory_without_marker_needs_the_probe_to_confirm() {
    assert_eq!(check_validity(&location(true, true, false, Some((true, "true\n")))), Ok(()));
    assert_eq!(
        check_validity(&location(true, true, false, Some((true, "false\n")))),
        Err(InvalidRepo::NotARepository)
    );
    assert_eq!(
        check_validity(&location(true, true, false, Some((false, "true\n")))),
        Err(InvalidRepo::NotARepository)
    );
    assert_eq!(check_validity(&location(true, true, false, None)), Err(InvalidRepo::NotARepository));
}

#[test]
fn probe_answers() {
    assert!(confirms(&Probe { success: true, stdout: "  true \n".to_string() }));
    assert!(!confirms(&Probe { success: true, stdout: "True".to_string() }));
    assert!(!confirms(&Probe { success: true, stdout: "true true".to_string() }));
    assert!(!confirms(&Probe { success: true, stdout: "tru".to_string() }));
    assert!(!confirms(&Probe { success: true, stdout: "".to_string() }));
    assert!(!confirms(&Probe { success: false, stdout: "true".to_string() }));
}

#[test]
fn probe_is_needed_only_for_a_directory_without_marker() {
    assert!(needs_probe(true, true, false));
    assert!(!needs_probe(true, true, true));
    assert!(!needs_probe(false, true, false));
    assert!(!needs_probe(true, false, false));
}
