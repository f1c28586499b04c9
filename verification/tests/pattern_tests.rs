use rgvg::pattern::rc;

#[test]
fn capture_labels() {
    assert_eq!(rc(None), "");
    assert_eq!(rc(Some("")), "None");
    assert_eq!(rc(Some("abc")), "abc");
}
