use lock_timeline::document::Node;
use lock_timeline::error::LockError;
use lock_timeline::json_text::parse_json;
use lock_timeline::records::{find_version, read_package, read_packages, version_in_document, Package};
use lock_timeline::text::text_eq;
use lock_timeline::toml_text::parse_toml;

fn text(s: &str) -> Node {
    Node::Text(s.to_string())
}

fn table(members: Vec<(&str, Node)>) -> Node {
    Node::Table(members.into_iter().map(|(k, v)| (k.to_string(), v)).collect())
}

#[test]
fn json_scalars_become_nodes_of_their_kind() {
    assert_eq!(parse_json("null"), Ok(Node::Null));
    assert_eq!(parse_json("true"), Ok(Node::Bool(true)));
    assert_eq!(parse_json("false"), Ok(Node::Bool(false)));
    assert_eq!(parse_json("17"), Ok(Node::Number));
    assert_eq!(parse_json("-2.5e3"), Ok(Node::Number));
    assert_eq!(parse_json(r#""a string""#), Ok(text("a string")));
    assert_eq!(parse_json(r#""""#), Ok(text("")));
    assert_eq!(parse_json(r#""é\n""#), Ok(text("é\n")));
}

#[test]
fn json_lists_keep_their_items_in_order() {
    assert_eq!(parse_json("[]"), Ok(Node::List(vec![])));
    assert_eq!(
        parse_json(r#"[1, "two", null, [true], {}]"#),
        Ok(Node::List(vec![
            Node::Number,
            text("two"),
            Node::Null,
            Node::List(vec![Node::Bool(true)]),
            Node::Table(vec![]),
        ]))
    );
}

#[test]
fn json_objects_become_tables() {
    assert_eq!(parse_json("{}"), Ok(Node::Table(vec![])));
    let doc = parse_json(r#"{"b": {"c": "deep"}, "a": [1, 2]}"#).unwrap();
    assert_eq!(doc.members().map(|m| m.len()), Some(2));
    assert_eq!(doc.member("a"), Some(&Node::List(vec![Node::Number, Node::Number])));
    assert_eq!(doc.member("b"), Some(&table(vec![("c", text("deep"))])));
    assert_eq!(doc.member("b").unwrap().member("c"), Some(&text("deep")));
    assert_eq!(doc.member("c"), None);
    assert_eq!(doc.member(""), None);
}

#[test]
fn json_that_is_malformed_is_a_syntax_error() {
    for bad in ["", " ", "{", "}", "[1,]", "{\"a\":}", "nul", "'a'", "{\"a\":1}}", "1 2"] {
        assert_eq!(parse_json(bad), Err(LockError::Syntax), "{bad:?}");
    }
}

#[test]
fn toml_values_become_nodes_of_their_kind() {
    let doc = parse_toml(
        "s = \"text\"\ni = 7\nf = 0.5\nb = true\nd = 1979-05-27T07:32:00Z\nl = [\"x\", 1]\n\n[t]\nk = \"v\"\n",
    )
    .unwrap();
    assert_eq!(doc.member("s"), Some(&text("text")));
    assert_eq!(doc.member("i"), Some(&Node::Number));
    assert_eq!(doc.member("f"), Some(&Node::Number));
    assert_eq!(doc.member("b"), Some(&Node::Bool(true)));
    assert_eq!(doc.member("d"), Some(&Node::Datetime));
    assert_eq!(doc.member("l"), Some(&Node::List(vec![text("x"), Node::Number])));
    assert_eq!(doc.member("t"), Some(&table(vec![("k", text("v"))])));
    assert_eq!(doc.member("missing"), None);
    assert_eq!(doc.members().map(|m| m.len()), Some(7));
}

#[test]
fn toml_the_empty_text_is_the_empty_table() {
    assert_eq!(parse_toml(""), Ok(Node::Table(vec![])));
    assert_eq!(parse_toml("# only a comment\n"), Ok(Node::Table(vec![])));
}

#[test]
fn toml_arrays_of_tables_become_lists_of_tables() {
    let doc = parse_toml("[[package]]\nname = \"a\"\n\n[[package]]\nname = \"b\"\n").unwrap();
    assert_eq!(
        doc.member("package"),
        Some(&Node::List(vec![
            table(vec![("name", text("a"))]),
            table(vec![("name", text("b"))]),
        ]))
    );
}

#[test]
fn toml_that_is_malformed_is_a_syntax_error() {
    for bad in ["=", "a =", "[t", "a = 1\na = 2\n", "a = [1,", "{\"a\": 1}", "a = 'x"] {
        assert_eq!(parse_toml(bad), Err(LockError::Syntax), "{bad:?}");
    }
}

#[test]
fn member_takes_the_first_of_several_members_of_one_key() {
    let node = table(vec![("k", text("first")), ("other", Node::Null), ("k", text("second"))]);
    assert_eq!(node.member("k"), Some(&text("first")));
    assert_eq!(node.member("other"), Some(&Node::Null));
    assert_eq!(node.member("K"), None);
}

#[test]
fn only_a_table_has_members() {
    for node in [Node::Null, Node::Bool(true), Node::Number, Node::Datetime, text("k"), Node::List(vec![text("k")])] {
        assert_eq!(node.member("k"), None);
        assert_eq!(node.members(), None);
    }
    assert_eq!(table(vec![]).members(), Some(&vec![]));
}

#[test]
fn accessors_tell_the_kinds_apart() {
    assert_eq!(text("x").text(), Some(&"x".to_string()));
    assert_eq!(Node::Null.text(), None);
    assert_eq!(Node::Number.text(), None);
    assert_eq!(Node::List(vec![Node::Null]).items(), Some(&vec![Node::Null]));
    assert_eq!(text("x").items(), None);
    assert_eq!(table(vec![]).items(), None);
    assert!(Node::Null.is_null());
    assert!(!text("").is_null());
    assert!(!Node::Bool(false).is_null());
    assert!(!Node::List(vec![]).is_null());
}

#[test]
fn texts_are_equal_letter_for_letter() {
    assert!(text_eq("", ""));
    assert!(text_eq("Cargo.lock", "Cargo.lock"));
    assert!(text_eq("naïve ☃", "naïve ☃"));
    assert!(!text_eq("Cargo.lock", "cargo.lock"));
    assert!(!text_eq("a", "ab"));
    assert!(!text_eq("ab", "a"));
    assert!(!text_eq("", " "));
    assert!(!text_eq("é", "e\u{301}"));
}

#[test]
fn a_record_needs_a_name_and_a_version_that_are_strings() {
    assert_eq!(
        read_package(&table(vec![("name", text("a")), ("version", text("1"))])),
        Some(Package { name: "a".to_string(), version: "1".to_string() })
    );
    assert_eq!(
        read_package(&table(vec![("version", text("1")), ("extra", Node::Number), ("name", text("a"))])),
        Some(Package { name: "a".to_string(), version: "1".to_string() })
    );
    assert_eq!(read_package(&table(vec![("name", text("a"))])), None);
    assert_eq!(read_package(&table(vec![("version", text("1"))])), None);
    assert_eq!(read_package(&table(vec![("name", text("a")), ("version", Node::Number)])), None);
    assert_eq!(read_package(&table(vec![("name", Node::Null), ("version", text("1"))])), None);
    assert_eq!(read_package(&Node::List(vec![text("a"), text("1")])), None);
    assert_eq!(read_package(&text("a")), None);
}

#[test]
fn records_are_read_from_the_named_field_in_order() {
    let doc = table(vec![
        ("other", Node::List(vec![])),
        (
            "packages",
            Node::List(vec![
                table(vec![("name", text("b")), ("version", text("2"))]),
                table(vec![("name", text("a")), ("version", text("1"))]),
            ]),
        ),
    ]);
    assert_eq!(
        read_packages(&doc, "packages"),
        Ok(vec![
            Package { name: "b".to_string(), version: "2".to_string() },
            Package { name: "a".to_string(), version: "1".to_string() },
        ])
    );
    assert_eq!(read_packages(&doc, "other"), Ok(vec![]));
    assert_eq!(read_packages(&doc, "package"), Err(LockError::Shape));
    assert_eq!(version_in_document(&doc, "packages", "a"), Ok(Some("1".to_string())));
    assert_eq!(version_in_document(&doc, "packages", "c"), Ok(None));
    assert_eq!(version_in_document(&doc, "other", "a"), Ok(None));
    assert_eq!(version_in_document(&doc, "missing", "a"), Err(LockError::Shape));
    assert_eq!(version_in_document(&Node::Null, "packages", "a"), Err(LockError::Shape));
}

#[test]
fn the_first_record_of_a_name_decides() {
    let packages = vec![
        Package { name: "a".to_string(), version: "1".to_string() },
        Package { name: "b".to_string(), version: "2".to_string() },
        Package { name: "a".to_string(), version: "3".to_string() },
    ];
    assert_eq!(find_version(&packages, "a"), Some("1".to_string()));
    assert_eq!(find_version(&packages, "b"), Some("2".to_string()));
    assert_eq!(find_version(&packages, "c"), None);
    assert_eq!(find_version(&Vec::new(), "a"), None);
}
