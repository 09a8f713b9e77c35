use active911::document::find_json;

#[test]
fn test_find_json() {
    const EXPECTED: &str = r#"{"result":"success","message":\n"#;
    const INPUT: &str = r#"};

        a91.data={"result":"success","message":\n"#;

    assert_eq!(Some(EXPECTED), find_json(INPUT));
}

#[test]
fn find_json_returns_text_after_marker_whatever_precedes_it() {
    assert_eq!(Some("{}"), find_json("a91.data={}"));
    assert_eq!(Some("[1,2]"), find_json("var x = 1;\n<script>a91.data=[1,2]"));
    assert_eq!(Some(" tail"), find_json("ééé ✓ a91.data= tail"));
    assert_eq!(Some("ü→"), find_json("prefix a91.data=ü→"));
}

#[test]
fn find_json_marker_at_end_gives_empty_text() {
    assert_eq!(Some(""), find_json("abc a91.data="));
    assert_eq!(Some(""), find_json("a91.data="));
}

#[test]
fn find_json_without_marker_is_none() {
    assert_eq!(None, find_json(""));
    assert_eq!(None, find_json("a91.data"));
    assert_eq!(None, find_json("a91.dat={}"));
    assert_eq!(None, find_json("A91.DATA={}"));
    assert_eq!(None, find_json("a91 .data={}"));
    assert_eq!(None, find_json("<html>no payload here</html>"));
}

#[test]
fn find_json_first_marker_wins() {
    assert_eq!(
        Some("{\"a\":1};a91.data={\"b\":2}"),
        find_json("x a91.data={\"a\":1};a91.data={\"b\":2}")
    );
    assert_eq!(Some("a91.data="), find_json("a91.data=a91.data="));
}

#[test]
fn find_json_overlapping_prefix_of_marker() {
    assert_eq!(Some("1"), find_json("a91.a91.data=1"));
    assert_eq!(Some("x"), find_json("aa91.data=x"));
}

#[test]
fn find_json_prefix_ending_like_marker_start() {
    assert_eq!(Some("{}"), find_json("a91.dataa91.data={}"));
    assert_eq!(Some("{}"), find_json("a91.d a91.data={}"));
}
