use rgvg::common::{
    color, display, display_head, display_once, encode_last, is_color, last_file_readable,
    parse_last, place_label, read_header, Match, DATA_LEN, HEADER_LEN, LINE_LEN, MATCH_LEN,
    NAME_LEN, VERSION,
};

fn m(f: &str, l: usize, t: &str) -> Match {
    Match { filename: f.to_string(), line: l, matched: t.to_string() }
}

fn same(a: &Match, b: &Match) -> bool {
    a.filename == b.filename && a.line == b.line && a.matched == b.matched
}

#[test]
fn record_layout() {
    let r = m("a.rs", 258, "x").to_record();
    assert_eq!(r.len(), DATA_LEN);
    assert_eq!(&r[0..4], b"a.rs");
    assert!(r[4..NAME_LEN].iter().all(|b| *b == 0));
    assert_eq!(LINE_LEN, std::mem::size_of::<usize>());
    assert_eq!(&r[NAME_LEN..NAME_LEN + LINE_LEN], &258usize.to_be_bytes()[..]);
    assert_eq!(r[NAME_LEN + LINE_LEN], b'x');
    assert_eq!(r.len(), NAME_LEN + LINE_LEN + MATCH_LEN);
}

#[test]
fn record_roundtrip() {
    let one = m("src/main.rs", 12, "fn main() {");
    let back = Match::from_record(&one.to_record());
    assert!(same(&one, &back));
}

#[test]
fn last_file_roundtrip() {
    let results = vec![m("a.rs", 1, "one"), m("b/c.rs", 22, "two")];
    let bytes = encode_last(b"/home/me/project", &results);
    assert_eq!(bytes.len(), HEADER_LEN + 2 * DATA_LEN);
    assert!(last_file_readable(&bytes));
    let (path, back) = parse_last(bytes).unwrap();
    assert_eq!(path, b"/home/me/project".to_vec());
    assert_eq!(back.len(), 2);
    assert!(same(&back[0], &results[0]));
    assert!(same(&back[1], &results[1]));
}

#[test]
fn last_file_of_other_version_is_ignored() {
    let mut bytes = encode_last(b"/x", &vec![]);
    bytes[LINE_LEN - 1] = (VERSION + 1) as u8;
    assert!(last_file_readable(&bytes));
    assert!(parse_last(bytes).is_none());
}

#[test]
fn short_last_file_is_unreadable() {
    assert!(!last_file_readable(&[0u8; 10]));
}

#[test]
fn header_is_read_off() {
    let mut bytes = encode_last(b"/dir", &vec![m("f", 3, "t")]);
    let (v, p) = read_header(&mut bytes);
    assert_eq!(v, VERSION);
    assert_eq!(p, b"/dir".to_vec());
    assert_eq!(bytes.len(), DATA_LEN);
}

#[test]
fn match_as_text() {
    assert_eq!(m("a.rs", 3, "foo").to_text(), "a.rs 3 foo");
    let long = "x".repeat(NAME_LEN);
    assert_eq!(m(&long, 1, "y").to_text(), format!("{}> 1 y", long));
}

#[test]
fn match_in_color() {
    assert_eq!(
        m("a.rs", 3, "foo").disp(),
        "\x1b[35ma.rs\x1b[34m 3\x1b[32m foo\x1b[0m"
    );
}

#[test]
fn place_names() {
    assert_eq!(place_label(b"", false), "this directory");
    assert_eq!(place_label(b"/x", true), "this directory");
    assert_eq!(place_label(b"/x", false), "/x");
    assert_eq!(place_label(&[0xff, 0xfe], false), "{unprintable_string}");
}

#[test]
fn display_lines() {
    assert_eq!(display_head(b"/x", false, false), "Within /x:");
    assert_eq!(display_head(b"/x", false, true), "Within \x1b[35m/x\x1b[39m:");
    assert_eq!(display_once(0, &m("a", 1, "b"), false), "0 a 1 b");
    assert_eq!(
        display_once(1, &m("a", 1, "b"), true),
        "\x1b[31m1\x1b[39m \x1b[1m\x1b[35ma\x1b[34m 1\x1b[32m b\x1b[0m\x1b[0m"
    );
    let lines = display(b"", false, &vec![m("a", 1, "b"), m("c", 2, "d")], false);
    assert_eq!(lines, vec!["Within this directory:", "0 a 1 b", "1 c 2 d"]);
}

#[test]
fn color_settings() {
    assert!(is_color("yes") && is_color("always") && is_color("no") && is_color("never"));
    assert!(!is_color("maybe"));
    assert!(color("yes"));
    assert!(color("always"));
    assert!(!color("no"));
    assert!(!color("never"));
}
