use rgvg::framework::{Convertible, PathText};
use rgvg::tools::{grep, is_tool, picker, ripgrep, ugrep, Args};

fn owned(v: &[&str]) -> Vec<String> {
    v.iter().map(|s| s.to_string()).collect()
}

fn args(pattern: &str) -> Args {
    Args {
        tool: "grep".to_string(),
        list_tools: false,
        color: "yes".to_string(),
        dry: false,
        order_results: false,
        remove_leading: false,
        regex_pattern: Some(pattern.to_string()),
        file: None,
        casei: false,
        include_files: vec![],
        exclude_files: vec![],
        include_dir: vec![],
        exclude_dir: vec![],
    }
}

fn command_for(tool: &str, a: &Args) -> (String, Vec<String>) {
    let mut g = picker(tool);
    let q = g.populate(a);
    g.generate(q)
}

#[test]
fn known_tools() {
    assert!(is_tool("grep") && is_tool("ripgrep") && is_tool("ugrep"));
    assert!(!is_tool("ag"));
    assert!(!is_tool(""));
}

#[test]
fn grep_plain_search() {
    let (program, words) = command_for("grep", &args("foo"));
    assert_eq!(program, "grep");
    assert_eq!(words, owned(&["foo", "-Hnr"]));
}

#[test]
fn grep_full_search() {
    let mut a = args("foo");
    a.file = Some(PathText { text: "src".to_string() });
    a.casei = true;
    a.include_files = owned(&["*.rs"]);
    a.exclude_dir = owned(&["target"]);
    let (program, words) = command_for("grep", &a);
    assert_eq!(program, "grep");
    assert_eq!(
        words,
        owned(&["foo", "src", "-i", "--exclude_dir=target", "--include=*.rs", "-Hnr"])
    );
}

#[test]
fn ripgrep_globs() {
    let mut a = args("bar");
    a.include_files = owned(&["*.rs"]);
    a.exclude_files = owned(&["*.o"]);
    let (program, words) = command_for("ripgrep", &a);
    assert_eq!(program, "rg");
    assert_eq!(words, owned(&["bar", "-g=*.rs", "-g=!*.o", "-Hn", "--no-heading"]));
}

#[test]
fn ugrep_dirs() {
    let mut a = args("baz");
    a.include_dir = owned(&["lib"]);
    let (program, words) = command_for("ugrep", &a);
    assert_eq!(program, "ugrep");
    assert_eq!(words, owned(&["baz", "--include-dir=lib", "-rn"]));
}

#[test]
fn fresh_tools_generate_from_fixed_entries() {
    let mut g = grep();
    let a = args("x");
    let q = g.populate(&a);
    assert_eq!(q.len(), 7);
    let mut r = ripgrep();
    let q = r.populate(&a);
    // ripgrep passes all globs under the one name -g.
    assert_eq!(q.len(), 4);
    let mut u = ugrep();
    let q = u.populate(&a);
    assert_eq!(q.len(), 7);
}

#[test]
fn tool_list() {
    assert_eq!(rgvg::tools::known_tools(), owned(&["grep", "ripgrep", "ugrep"]));
}

#[test]
fn bundle_without_pattern_is_not_ready() {
    let mut a = args("x");
    a.regex_pattern = None;
    let mut g = picker("grep");
    let q = g.populate(&a);
    assert!(!q.ready());
    let mut g = picker("grep");
    let q = g.populate(&args("x"));
    assert!(q.ready());
}

#[test]
fn search_commands() {
    let c = rgvg::tools::search_command(&args("foo")).unwrap();
    assert_eq!(c, ("grep".to_string(), owned(&["foo", "-Hnr"])));
    let mut a = args("foo");
    a.tool = "ripgrep".to_string();
    a.casei = true;
    let c = rgvg::tools::search_command(&a).unwrap();
    assert_eq!(c, ("rg".to_string(), owned(&["foo", "-i", "-Hn", "--no-heading"])));
    let mut none = args("foo");
    none.regex_pattern = None;
    assert!(rgvg::tools::search_command(&none).is_none());
}
