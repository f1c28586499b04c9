use rgvg::common::Match;
use rgvg::search::{compare_matches, dry_run_line, outcome, sort_matches, RunOutcome};

fn m(f: &str, l: usize, t: &str) -> Match {
    Match { filename: f.to_string(), line: l, matched: t.to_string() }
}

#[test]
fn dry_run_quotes_arguments() {
    let cmd = ("grep".to_string(), vec!["foo".to_string(), "-Hnr".to_string()]);
    assert_eq!(dry_run_line(&cmd), "grep \"foo\" \"-Hnr\"");
    let none = ("rg".to_string(), vec![]);
    assert_eq!(dry_run_line(&none), "rg ");
}

#[test]
fn outcomes_of_a_run() {
    assert!(outcome(false, true) == RunOutcome::NoMatches);
    assert!(outcome(false, false) == RunOutcome::Failed);
    assert!(outcome(true, true) == RunOutcome::Output);
    assert!(outcome(true, false) == RunOutcome::Output);
}

#[test]
fn results_compare_by_file_line_text() {
    assert_eq!(compare_matches(&m("a", 9, "z"), &m("b", 1, "a")), -1);
    assert_eq!(compare_matches(&m("a", 2, "a"), &m("a", 10, "a")), -1);
    assert_eq!(compare_matches(&m("a", 2, "b"), &m("a", 2, "a")), 1);
    assert_eq!(compare_matches(&m("a", 2, "b"), &m("a", 2, "b")), 0);
}

#[test]
fn sorting_results() {
    let v = vec![m("b", 1, "x"), m("a", 10, "y"), m("a", 2, "z"), m("a", 2, "a")];
    let r = sort_matches(v);
    let keys: Vec<(String, usize, String)> =
        r.iter().map(|x| (x.filename.clone(), x.line, x.matched.clone())).collect();
    assert_eq!(
        keys,
        vec![
            ("a".to_string(), 2, "a".to_string()),
            ("a".to_string(), 2, "z".to_string()),
            ("a".to_string(), 10, "y".to_string()),
            ("b".to_string(), 1, "x".to_string()),
        ]
    );
    assert!(sort_matches(vec![]).is_empty());
}

#[test]
fn search_requests() {
    let mut a = rgvg::tools::Args {
        tool: "grep".to_string(),
        list_tools: false,
        color: "yes".to_string(),
        dry: false,
        order_results: false,
        remove_leading: false,
        regex_pattern: None,
        file: None,
        casei: false,
        include_files: vec![],
        exclude_files: vec![],
        include_dir: vec![],
        exclude_dir: vec![],
    };
    assert_eq!(rgvg::search::request(&a), rgvg::search::Request::ShowLast);
    a.regex_pattern = Some("x".to_string());
    assert_eq!(rgvg::search::request(&a), rgvg::search::Request::Search);
    a.list_tools = true;
    assert_eq!(rgvg::search::request(&a), rgvg::search::Request::ListTools);
}
