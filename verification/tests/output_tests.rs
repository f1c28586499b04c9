use rgvg::output::matches_of_rows;
use rgvg::output::{
    create_outputformat, display, grep_format, picker, read, ripgrep_format, strip, try_read,
    try_strip, ugrep_format, Overflowable,
};

#[test]
fn output_pattern_of_tools() {
    let p = create_outputformat(&grep_format());
    assert_eq!(p, "(?P<f>.+):(?P<l>(\\d)+):(?P<m>.+)\n");
    assert_eq!(create_outputformat(&ripgrep_format()), p);
    assert_eq!(create_outputformat(&ugrep_format()), p);
    assert_eq!(create_outputformat(&picker("ugrep")), p);
}

#[test]
fn reading_tool_output() {
    let r = try_read(&grep_format(), "a.rs:3:foo\nb/c.rs:12:bar baz\n").unwrap();
    assert_eq!(r.len(), 2);
    assert_eq!((r[0].filename.as_str(), r[0].line, r[0].matched.as_str()), ("a.rs", 3, "foo"));
    assert_eq!((r[1].filename.as_str(), r[1].line, r[1].matched.as_str()), ("b/c.rs", 12, "bar baz"));
    let same = read(grep_format(), "a.rs:3:foo\n");
    assert_eq!(same.len(), 1);
    assert_eq!(same[0].matched, "foo");
}

#[test]
fn unreadable_line_number() {
    assert_eq!(try_read(&grep_format(), "a.rs:x:foo\n").unwrap().len(), 0);
    assert!(try_read(&grep_format(), "a.rs:99999999999999999999999:foo\n").is_none());
}

#[test]
fn reading_nothing() {
    assert_eq!(try_read(&grep_format(), "").unwrap().len(), 0);
}

#[test]
fn colors_are_stripped() {
    assert_eq!(strip("\x1b[35ma.rs\x1b[0m:1"), "a.rs:1");
    assert_eq!(try_strip("plain").unwrap(), "plain");
}

#[test]
fn display_in_this_directory() {
    let r = try_read(&grep_format(), "a:1:b\n").unwrap();
    assert_eq!(display(&r, false), vec!["Within this directory:", "0 a 1 b"]);
}

#[test]
fn overflowable_keeps_at_most_max() {
    let o = Overflowable::new(&['a', 'b', 'c'], 2);
    assert_eq!(o.to_text(), "ab\x1b[1m\x1b[31m\u{25C0}\u{FE0E}\x1b[0m");
    let p = Overflowable::new(&['a'], 3);
    assert_eq!(p.to_text(), "a");
    assert_eq!(p.to_bytes(), vec![0, 0, 0, 97, 48, 48]);
}

#[test]
fn leading_space_removed() {
    let r = try_read(&grep_format(), "a.rs:3:    let x = 1;\nb.rs:4:\tfoo \n").unwrap();
    let t = rgvg::output::remove_leading(&r);
    assert_eq!(t.len(), 2);
    assert_eq!(t[0].matched, "let x = 1;");
    assert_eq!(t[1].matched, "foo ");
    assert_eq!(t[0].filename, "a.rs");
    assert_eq!(t[1].line, 4);
}

#[test]
fn overflowable_bytes_padded_with_zero_digits() {
    let o = Overflowable::new(&[1u8, 2, 3], 5);
    assert_eq!(o.to_bytes(), vec![1, 2, 3, 48, 48]);
    let full = Overflowable::new(&[7u8, 8, 9], 2);
    assert_eq!(full.to_bytes(), vec![7, 8]);
}

#[test]
fn matches_from_capture_rows() {
    let rows = vec![
        vec![Some("a.rs".to_string()), Some("3".to_string()), Some("foo".to_string())],
        vec![Some("b.rs".to_string()), Some("10".to_string()), Some("bar".to_string())],
    ];
    let r = matches_of_rows(&rows).unwrap();
    assert_eq!(r.len(), 2);
    assert_eq!((r[1].filename.as_str(), r[1].line, r[1].matched.as_str()), ("b.rs", 10, "bar"));
    let bad = vec![vec![Some("a.rs".to_string()), Some("x".to_string()), Some("foo".to_string())]];
    assert!(matches_of_rows(&bad).is_none());
    let missing = vec![vec![Some("a.rs".to_string()), None, Some("foo".to_string())]];
    assert!(matches_of_rows(&missing).is_none());
    assert!(matches_of_rows(&vec![vec![]]).is_none());
    assert_eq!(matches_of_rows(&vec![]).unwrap().len(), 0);
}

#[test]
fn colors_removed_from_colored_match() {
    let r = try_read(&grep_format(), "src/a.rs:42:let x = 1;\n").unwrap();
    assert_eq!(strip(&r[0].disp()), r[0].to_text());
}
