use rgvg::open::names_of_groups;
use rgvg::common::Match;
use rgvg::open::{
    editor_command, get_tool, join_path, try_get_tool, new_registry, open_command, registry_entry,
    registry_or_default, to_command, tool_names, OpenError, TOOLS,
};

fn owned(v: &[&str]) -> Vec<String> {
    v.iter().map(|s| s.to_string()).collect()
}

fn lines(s: &str) -> Vec<String> {
    s.split('\n').map(|l| l.to_string()).collect()
}

#[test]
fn tool_lookup() {
    assert_eq!(get_tool(&lines(TOOLS), "pico"), " pico +{line} {file}");
    assert_eq!(get_tool(&lines(TOOLS), "vscode"), " code -g {file}:{line}");
    assert_eq!(
        get_tool(&owned(&["vscode: code -g {file}:{line}", "pico: pico +{line} {file}"]), "pico"),
        " pico +{line} {file}"
    );
    assert_eq!(try_get_tool(&lines(TOOLS), "pico"), Ok(" pico +{line} {file}".to_string()));
    assert_eq!(try_get_tool(&lines(TOOLS), "ed"), Err(OpenError::NoTool));
    assert_eq!(try_get_tool(&owned(&["pico: x"]), "vim"), Err(OpenError::NoTool));
    assert_eq!(try_get_tool(&lines(TOOLS), "("), Err(OpenError::BadPattern));
    assert_eq!(try_get_tool(&vec![], "pico"), Err(OpenError::NoTool));
}

#[test]
fn first_definition_wins() {
    let reg = lines("vim: vi +{line} {file}\nvim: vim {file}");
    assert_eq!(get_tool(&reg, "vim"), " vi +{line} {file}");
}

#[test]
fn commands_from_templates() {
    let c = editor_command(" pico +{line} {file}", "/p/a.rs", 7).unwrap();
    assert_eq!(c, ("pico".to_string(), owned(&["+7", "/p/a.rs"])));
    let v = editor_command(" code -g {file}:{line}", "x.rs", 12).unwrap();
    assert_eq!(v, ("code".to_string(), owned(&["-g", "x.rs:12"])));
    assert_eq!(editor_command("   ", "x", 1), Err(OpenError::NoExecutable));
}

#[test]
fn only_first_placeholder_is_filled() {
    let c = editor_command("e {file}{file}", "f", 1).unwrap();
    assert_eq!(c, ("e".to_string(), owned(&["f{file}"])));
}

#[test]
fn command_from_words() {
    assert_eq!(to_command(&owned(&["", "a", "", "b"])), Ok(("a".to_string(), owned(&["b"]))));
    assert_eq!(to_command(&owned(&["", ""])), Err(OpenError::NoExecutable));
}

#[test]
fn paths_join_like_pathbuf() {
    assert_eq!(join_path(b"/home/me", b"a.rs"), b"/home/me/a.rs".to_vec());
    assert_eq!(join_path(b"/home/me/", b"a.rs"), b"/home/me/a.rs".to_vec());
    assert_eq!(join_path(b"", b"a.rs"), b"a.rs".to_vec());
    assert_eq!(join_path(b"/home/me", b"/etc/x"), b"/etc/x".to_vec());
}

#[test]
fn opening_a_result() {
    let results = vec![
        Match { filename: "a.rs".to_string(), line: 3, matched: "foo".to_string() },
        Match { filename: "src/b.rs".to_string(), line: 40, matched: "bar".to_string() },
    ];
    let c = open_command(TOOLS, b"/w", &results, 1, "nano").unwrap();
    assert_eq!(c, ("nano".to_string(), owned(&["+40", "/w/src/b.rs"])));
    assert_eq!(open_command(TOOLS, b"/w", &results, 2, "nano"), Err(OpenError::BadId));
    assert_eq!(open_command(TOOLS, b"/w", &results, 0, "ed"), Err(OpenError::NoTool));
    // Bytes that are not UTF-8 are shown with U+FFFD.
    let c = open_command(TOOLS, &[0xff], &results, 0, "vim").unwrap();
    assert_eq!(c, ("vim".to_string(), owned(&["+3", "\u{FFFD}/a.rs"])));
}

#[test]
fn tool_listing() {
    assert_eq!(
        tool_names(TOOLS).unwrap(),
        owned(&["vscode", "pico", "nano", "vim", "emacs"])
    );
    assert_eq!(tool_names("").unwrap(), Vec::<String>::new());
}

#[test]
fn registry_texts() {
    assert_eq!(new_registry("ed: ed {file}"), format!("{}ed: ed {{file}}\n", TOOLS));
    assert_eq!(registry_entry("ed: ed {file}"), "ed: ed {file}\n");
    assert_eq!(registry_or_default(None), TOOLS);
    assert_eq!(registry_or_default(Some("x: y".to_string())), "x: y");
}

#[test]
fn open_requests() {
    let base = rgvg::open::Args {
        id: None,
        color: "yes".to_string(),
        tool: "pico".to_string(),
        new_tool: None,
        list_tools: false,
    };
    assert_eq!(rgvg::open::request(&base), rgvg::open::Request::ShowLast);
    let mut a = base;
    a.list_tools = true;
    assert_eq!(rgvg::open::request(&a), rgvg::open::Request::ListTools);
    a.new_tool = Some("ed: ed {file}".to_string());
    assert_eq!(rgvg::open::request(&a), rgvg::open::Request::AddTool);
    a.id = Some(0);
    assert_eq!(rgvg::open::request(&a), rgvg::open::Request::Open);
}

#[test]
fn names_from_groups() {
    assert_eq!(
        names_of_groups(&vec![Some("vim".to_string()), Some("ed".to_string())]),
        Some(owned(&["vim", "ed"]))
    );
    assert_eq!(names_of_groups(&vec![Some("vim".to_string()), None]), None);
    assert_eq!(names_of_groups(&vec![]), Some(vec![]));
}
