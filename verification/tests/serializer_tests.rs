use rsp::document::Document;
use rsp::error::RspError;
use rsp::peeler::Peeler;
use serde_yaml::value::{Tag, TaggedValue};
use serde_yaml::{Number, Value};

fn text(s: &str) -> Document {
    Document::String(s.to_string())
}

fn mapping(entries: Vec<(&str, Document)>) -> Document {
    Document::Mapping(entries.into_iter().map(|(k, v)| (text(k), v)).collect())
}

fn render(document: &Document) -> String {
    Peeler::new().serialize_yaml_with_pipes(document).unwrap()
}

#[test]
fn plain_values_are_bare() {
    let document = mapping(vec![("simple", text("no newlines here")), ("name", text("test-config"))]);
    assert_eq!(render(&document), "simple: no newlines here\nname: test-config\n");
    assert_eq!(render(&mapping(vec![("a.json", text("{a: b}"))])), "a.json: {a: b}\n");
    assert_eq!(render(&mapping(vec![("empty", text(""))])), "empty: \n");
}

#[test]
fn values_that_need_quotes_are_quoted() {
    assert_eq!(render(&mapping(vec![("k", text("say \"hi\""))])), "k: \"say \\\"hi\\\"\"\n");
    assert_eq!(render(&mapping(vec![("k", text(" x"))])), "k: \" x\"\n");
    assert_eq!(render(&mapping(vec![("k", text("x "))])), "k: \"x \"\n");
    // a newline under a key that names no embedded document
    assert_eq!(render(&mapping(vec![("notes.txt", text("a\nb"))])), "notes.txt: \"a\nb\"\n");
    // a double quote under a key that names one, but without a newline
    assert_eq!(render(&mapping(vec![("a.json", text("{\"a\":1}"))])), "a.json: \"{\\\"a\\\":1}\"\n");
}

#[test]
fn blocks_under_eligible_keys() {
    for key in ["c.yaml", "c.yml", "c.json", "c.toml"] {
        assert_eq!(
            render(&mapping(vec![(key, text("a: 1\nb: \"2\"\n"))])),
            format!("{}: |\n  a: 1\n  b: \"2\"\n", key)
        );
    }
    assert_eq!(render(&mapping(vec![("c.json", text("\n"))])), "c.json: |\n  \n");
    assert_eq!(render(&mapping(vec![("c.json", text(" a\n b "))])), "c.json: |\n   a\n   b \n");
    assert_eq!(render(&mapping(vec![("c.json", text("a\r\nb"))])), "c.json: |\n  a\n  b\n");
}

#[test]
fn nested_mappings_are_indented() {
    let document = mapping(vec![
        ("apiVersion", text("v1")),
        ("metadata", mapping(vec![("name", text("n")), ("labels", mapping(vec![("app.yaml", text("x\ny"))]))])),
        ("data", Document::Mapping(vec![])),
        ("end", text("e")),
    ]);
    assert_eq!(
        render(&document),
        "apiVersion: v1\nmetadata:\n  name: n\n  labels:\n    app.yaml: |\n      x\n      y\ndata:\nend: e\n"
    );
    assert_eq!(render(&Document::Mapping(vec![])), "");
}

#[test]
fn entries_without_a_string_key_are_left_out() {
    let document = Document::Mapping(vec![
        (Document::Number(Number::from(1)), text("one")),
        (text("a"), text("b")),
        (Document::Null, mapping(vec![("x", text("y"))])),
        (Document::Bool(true), Document::Number(Number::from(2))),
    ]);
    assert_eq!(render(&document), "a: b\n");
}

#[test]
fn other_values_are_written_by_the_yaml_library() {
    assert_eq!(render(&Document::Null), "null\n");
    assert_eq!(render(&Document::Bool(true)), "true\n");
    assert_eq!(render(&Document::Number(Number::from(42))), "42\n");
    assert_eq!(render(&Document::Number(Number::from(-1.5))), "-1.5\n");
    assert_eq!(
        render(&Document::Sequence(vec![Value::String("a".to_string()), Value::Number(Number::from(2))])),
        "- a\n- 2\n"
    );
    assert_eq!(render(&Document::Sequence(vec![])), "[]\n");
    let tagged = TaggedValue { tag: Tag::new("Thing"), value: Value::String("x".to_string()) };
    assert_eq!(render(&Document::Tagged(tagged)), "!Thing x\n");
}

#[test]
fn other_values_under_a_key_follow_on_the_next_line() {
    let document = mapping(vec![
        ("count", Document::Number(Number::from(42))),
        ("flag.json", Document::Bool(false)),
        ("nothing", Document::Null),
        ("items", Document::Sequence(vec![Value::String("a".to_string()), Value::String("b".to_string())])),
        ("after", text("x")),
    ]);
    assert_eq!(
        render(&document),
        "count:\n42\nflag.json:\nfalse\nnothing:\nnull\nitems:\n- a\n- b\nafter: x\n"
    );
    let nested = mapping(vec![("outer", mapping(vec![("n", Document::Number(Number::from(7)))]))]);
    assert_eq!(render(&nested), "outer:\n  n:\n7\n");
}

#[test]
fn a_root_string_is_an_inline_scalar() {
    assert_eq!(render(&text("plain")), "plain");
    assert_eq!(render(&text("two\nlines")), "\"two\nlines\"");
    assert_eq!(render(&text("")), "");
}

fn unwritable() -> Document {
    let inner = TaggedValue { tag: Tag::new("inner"), value: Value::Null };
    Document::Tagged(TaggedValue { tag: Tag::new("outer"), value: Value::Tagged(Box::new(inner)) })
}

#[test]
fn a_value_that_cannot_be_written_fails_the_whole_text() {
    let peeler = Peeler::new();
    assert!(matches!(peeler.serialize_yaml_with_pipes(&unwritable()), Err(RspError::Yaml(_))));
    let document = mapping(vec![("a", text("b")), ("bad", unwritable()), ("c", text("d"))]);
    assert!(matches!(peeler.serialize_yaml_with_pipes(&document), Err(RspError::Yaml(_))));
    let deep = mapping(vec![("outer", mapping(vec![("bad", unwritable())]))]);
    assert!(matches!(peeler.serialize_yaml_with_pipes(&deep), Err(RspError::Yaml(_))));
    // under a key that is no string it is never written
    let skipped = Document::Mapping(vec![(Document::Null, unwritable()), (text("a"), text("b"))]);
    assert_eq!(peeler.serialize_yaml_with_pipes(&skipped).unwrap(), "a: b\n");
}

#[test]
fn peel_content_end_to_end() {
    let peeler = Peeler::new();
    let yaml = r#"apiVersion: v1
kind: ConfigMap
metadata:
  name: test-config
data:
  config.json: "{\"hello\":\"world\",\n\"foo\":\"bar\"}"
  app.yaml: "key: value\\nanother: \\\"test\\\""
  count: 3
  normal-file: "kept \\n as it is"
"#;
    let expected = "apiVersion: v1\nkind: ConfigMap\nmetadata:\n  name: test-config\ndata:\n  config.json: |\n    {\"hello\":\"world\",\n    \"foo\":\"bar\"}\n  app.yaml: |\n    key: value\n    another: \"test\"\n  count:\n3\n  normal-file: kept \\n as it is\n";
    assert_eq!(peeler.peel_content(yaml).unwrap(), expected);
}

#[test]
fn peel_content_leaves_other_kinds_escaped() {
    let peeler = Peeler::new();
    let yaml = "kind: Secret\ndata:\n  config.json: \"a\\\\nb\"\n";
    assert_eq!(peeler.peel_content(yaml).unwrap(), "kind: Secret\ndata:\n  config.json: a\\nb\n");
}

#[test]
fn peel_content_errors() {
    let peeler = Peeler::new();
    assert!(matches!(peeler.peel_content("invalid: yaml: content: [unclosed"), Err(RspError::Yaml(_))));
    assert!(matches!(peeler.peel_content(""), Err(RspError::InvalidFormat(_))));
    assert!(matches!(peeler.peel_content("just a string"), Err(RspError::InvalidFormat(_))));
    assert!(matches!(peeler.peel_content("- a\n- b\n"), Err(RspError::InvalidFormat(_))));
    assert!(matches!(peeler.peel_content("42"), Err(RspError::InvalidFormat(_))));
}
