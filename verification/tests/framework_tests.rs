use rgvg::framework::entry_of_row;
use rgvg::framework::{
    Argument, DefaultValue, Entry, EntryMap, Expand, Formatter, Generate, Name, PathText,
    Transform, Transformable,
};
use std::cmp::Ordering;

fn owned(v: &[&str]) -> Vec<String> {
    v.iter().map(|s| s.to_string()).collect()
}

#[test]
fn names_in_conventional_order() {
    let blank = Name::Blank(3);
    let short = Name::Short('j');
    let long = Name::Long("exclude".to_string());
    assert_eq!(blank.compare(&short), Ordering::Less);
    assert_eq!(short.compare(&long), Ordering::Less);
    assert_eq!(long.compare(&blank), Ordering::Greater);
    assert_eq!(long.compare(&Name::Undefined), Ordering::Less);
    assert_eq!(Name::Blank(1).compare(&Name::Blank(2)), Ordering::Less);
    assert_eq!(Name::Short('b').order(&Name::Short('a')), 1);
    assert_eq!(
        Name::Long("a".to_string()).compare(&Name::LongC("b")),
        Ordering::Less
    );
}

#[test]
fn long_and_constant_long_are_the_same_name() {
    assert!(Name::Long("x".to_string()).equals(&Name::LongC("x")));
    assert!(Name::Long("x".to_string()) == Name::LongC("x"));
    assert!(Name::Short('x') != Name::LongC("x"));
    assert!(Name::Undefined == Name::Undefined);
    assert!(Name::Blank(1) != Name::Blank(2));
}

#[test]
fn partial_order_of_names() {
    assert_eq!(Name::Blank(0).partial_compare(&Name::Short('a')), Some(Ordering::Less));
    assert_eq!(Name::Short('a').partial_cmp(&Name::Blank(0)), Some(Ordering::Greater));
    assert_eq!(Name::Undefined.partial_compare(&Name::Blank(0)), None);
    assert_eq!(Name::LongC("a").partial_compare(&Name::Long("a".to_string())), None);
    assert!(Name::Short('a') < Name::Long("a".to_string()));
}

#[test]
fn default_name_is_undefined() {
    assert!(Name::default() == Name::Undefined);
    assert!(Name::undefined() == Name::Undefined);
}

#[test]
fn name_text_and_words() {
    assert_eq!(Name::Short('j').text(), "-j");
    assert_eq!(Name::Long("exclude".to_string()).text(), "--exclude");
    assert_eq!(Name::Blank(2).text(), "");
    let mut words = owned(&["a", ""]);
    Name::Long("x".to_string()).name(&mut words);
    assert_eq!(words, owned(&["--x=a", "--x"]));
    let mut words = owned(&["a"]);
    Name::Blank(0).name(&mut words);
    assert_eq!(words, owned(&["a"]));
}

#[test]
fn cleanup_owns_constant_names() {
    let mut n = Name::LongC("include");
    n.cleanup();
    assert!(matches!(n, Name::Long(ref s) if s == "include"));
    let mut s = Name::Short('i');
    s.cleanup();
    assert!(matches!(s, Name::Short('i')));
}

#[test]
fn names_from_captures() {
    assert!(matches!(Name::from_capture("#12", "d1"), Ok(Name::Blank(12))));
    assert!(matches!(Name::from_capture("-j", "d2"), Ok(Name::Short('j'))));
    assert!(matches!(Name::from_capture("--foo", "d3"), Ok(Name::Long(ref s)) if s == "foo"));
    assert!(Name::from_capture("#999", "d1").is_err());
    assert!(Name::from_capture("-j", "n1").is_err());
}

#[test]
fn entries_from_format() {
    let p = Entry::from_format("#0!{pattern}[str]").ok().unwrap();
    assert!(matches!(p.target_name, Name::Blank(0)));
    assert!(matches!(p.defaults_to, DefaultValue::Mandatory));
    assert!(matches!(p.target_type, Argument::Text(None)));
    assert!(matches!(p.format, (Formatter::Default, Formatter::Default)));
    let f = Entry::from_format("#1<->{path}[path]").ok().unwrap();
    assert!(matches!(f.target_name, Name::Blank(1)));
    assert!(matches!(f.defaults_to, DefaultValue::Default(Argument::Text(Some(ref d))) if d == "-"));
    assert!(matches!(f.target_type, Argument::PathPattern(None)));
    let i = Entry::from_format("-i{casei}").ok().unwrap();
    assert!(matches!(i.target_name, Name::Short('i')));
    assert!(matches!(i.defaults_to, DefaultValue::Skip));
    assert!(matches!(i.target_type, Argument::BooleanFlag(None)));
    let l = Entry::from_format("--exclude{ex}[str]").ok().unwrap();
    assert!(matches!(l.target_name, Name::Long(ref s) if s == "exclude"));
    assert!(Entry::from_format("--exclude{ex}[int]").is_err());
    assert!(Entry::from_format("#300{x}").is_err());
    assert!(Entry::from_format("nothing here").is_err());
}

#[test]
fn fixed_entries() {
    let e = Entry::ignore();
    assert!(e.target_name == Name::Undefined);
    assert!(matches!(e.target_type, Argument::Empty(None)));
    assert!(matches!(e.defaults_to, DefaultValue::Skip));
    let b = Entry::bool(Name::Short('i'));
    assert!(matches!(b.target_type, Argument::BooleanFlag(None)));
    assert!(b == Entry::bool(Name::Short('i')));
    assert_eq!(b.compare(&Entry::ignore()), Ordering::Less);
}

#[test]
fn arguments_from_values() {
    assert!(matches!(Argument::from_text("x".to_string()), Argument::Text(Some(ref s)) if s == "x"));
    assert!(matches!(Argument::from_static("y"), Argument::Text(Some(ref s)) if s == "y"));
    assert!(matches!(
        Argument::from_path(PathText { text: "p".to_string() }),
        Argument::PathPattern(Some(ref p)) if p.text == "p"
    ));
    assert!(matches!(Argument::from_default(DefaultValue::Skip), Argument::Empty(Some(()))));
    assert!(matches!(Argument::from_default(DefaultValue::Mandatory), Argument::Empty(None)));
}

#[test]
fn arguments_take_values() {
    let mut a = Argument::Text(None);
    a.transform(&"v".to_string());
    assert!(matches!(a, Argument::Text(Some(ref s)) if s == "v"));
    let mut b = Argument::BooleanFlag(None);
    b.transform(&true);
    assert!(matches!(b, Argument::BooleanFlag(Some(true))));
    let mut t = Argument::Text(None);
    t.transform(&false);
    assert!(matches!(t, Argument::Text(Some(ref s)) if s == "false"));
    let mut c = Argument::CollectionText(None);
    c.transform(&owned(&["a", "b"]));
    assert!(matches!(c, Argument::CollectionText(Some(ref v)) if v.len() == 2));
    let mut e = Argument::Empty(None);
    e.transform(&"ignored".to_string());
    assert!(matches!(e, Argument::Empty(Some(()))));
}

#[test]
fn entries_generate_words() {
    let mut e = Entry::bool(Name::Short('i'));
    e.fill(&true);
    assert_eq!(e.generate(), owned(&[""]));
    let mut f = Entry::bool(Name::Short('i'));
    f.fill(&false);
    assert_eq!(f.generate(), Vec::<String>::new());
    let skip = Entry {
        defaults_to: DefaultValue::Default(Argument::Text(Some("d".to_string()))),
        format: (Formatter::Default, Formatter::Default),
        target_name: Name::Blank(0),
        target_type: Argument::Text(None),
    };
    assert_eq!(skip.generate(), owned(&["d"]));
}

#[test]
fn words_take_prefix() {
    let mut w = owned(&["a", "b"]);
    w.transform(&Formatter::Prefix("!"));
    assert_eq!(w, owned(&["!a", "!b"]));
}

#[test]
fn filing_keeps_names_sorted() {
    let mut m = EntryMap::new();
    m.expand(Name::LongC("z"), Entry::bool(Name::LongC("z")));
    m.expand(Name::Short('a'), Entry::bool(Name::Short('a')));
    m.expand(Name::Blank(1), Entry::bool(Name::Blank(1)));
    m.expand_field(&Entry::bool(Name::Short('a')));
    assert_eq!(m.len(), 3);
    assert!(m.group(0).0 == Name::Blank(1));
    assert!(m.group(1).0 == Name::Short('a'));
    assert_eq!(m.group(1).1.len(), 2);
    assert!(m.group(2).0 == Name::Long("z".to_string()));
}

#[test]
fn entry_readiness() {
    let mandatory = Entry {
        defaults_to: DefaultValue::Mandatory,
        format: (Formatter::Default, Formatter::Default),
        target_name: Name::Blank(0),
        target_type: Argument::Text(None),
    };
    assert!(!mandatory.ready());
    assert!(Entry::bool(Name::Short('i')).ready());
    let mut constant = Entry::bool(Name::LongC("x"));
    assert!(constant.ready());
    constant.target_type = Argument::BooleanFlag(Some(true));
    assert!(!constant.ready());
}

#[test]
fn entry_from_groups() {
    let s = |t: &str| Some(t.to_string());
    let row = vec![None, None, s("--glob"), None, s("<x>"), s("[path]")];
    let e = entry_of_row(&row).unwrap();
    assert!(matches!(e.target_name, Name::Long(ref n) if n == "glob"));
    assert!(matches!(e.defaults_to, DefaultValue::Default(Argument::Text(Some(ref d))) if d == "x"));
    assert!(matches!(e.target_type, Argument::PathPattern(None)));
    let flag = vec![None, s("-v"), None, s("!"), None, None];
    let f = entry_of_row(&flag).unwrap();
    assert!(matches!(f.target_name, Name::Short('v')));
    assert!(matches!(f.defaults_to, DefaultValue::Mandatory));
    assert!(matches!(f.target_type, Argument::BooleanFlag(None)));
    assert!(entry_of_row(&vec![None, None, None, None, None, None]).is_none());
    assert!(entry_of_row(&vec![s("#7"), None, None, None, None, s("[int]")]).is_none());
    assert!(entry_of_row(&vec![s("#7")]).is_none());
}
