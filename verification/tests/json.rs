use phpmd_lsp::json::{json_from, parse_json, Json};

#[test]
fn values_are_parsed() {
    let value = parse_json(r#" {"a": [1, "x", null, true], "b": {"c": -2}, "a b": 1.5} "#).unwrap();
    let a = value.member("a").unwrap().items().unwrap();
    assert_eq!(a.len(), 4);
    assert_eq!(a[0].unsigned(), Some(1));
    assert_eq!(a[1].text().map(|t| t.as_str()), Some("x"));
    assert!(matches!(a[2], Json::Null));
    assert!(matches!(a[3], Json::Bool(true)));
    assert_eq!(value.member("b").unwrap().member_unsigned("c"), None);
    assert_eq!(value.member_unsigned("a b"), None);
    assert!(value.member("missing").is_none());
}

#[test]
fn large_numbers_keep_their_value() {
    let value = parse_json(r#"{"n": 18446744073709551615, "m": 18446744073709551616}"#).unwrap();
    assert_eq!(value.member_unsigned("n"), Some(18446744073709551615));
    assert_eq!(value.member_unsigned("m"), None);
}

#[test]
fn the_last_of_equal_members_counts() {
    let value = parse_json(r#"{"a": 1, "a": 2}"#).unwrap();
    assert_eq!(value.member_unsigned("a"), Some(2));
}

#[test]
fn escapes_are_resolved() {
    let value = parse_json(r#"{"t": "a\"\\é\n"}"#).unwrap();
    assert_eq!(value.member_text("t").as_deref(), Some("a\"\\\u{e9}\n"));
}

#[test]
fn other_texts_are_refused() {
    for text in ["", "{", "{'a': 1}", "[1,]", "01", "nul", "{} x"] {
        assert!(parse_json(text).is_none(), "{text:?}");
    }
}

#[test]
fn scalars_have_no_members() {
    for text in ["1", "\"files\"", "[]", "null", "false"] {
        assert!(parse_json(text).unwrap().member("files").is_none());
    }
    assert!(parse_json("{}").unwrap().items().is_none());
    assert!(parse_json("1").unwrap().text().is_none());
}

#[test]
fn parsed_values_are_taken_over() {
    let value = json_from(serde_json::from_str(r#"{"rulesets": "codesize", "x": [0.5]}"#).unwrap());
    assert_eq!(value.member_text("rulesets").as_deref(), Some("codesize"));
    let x = value.member_copy("x").unwrap();
    assert!(matches!(&x.items().unwrap()[0], Json::Number(None, text) if text == "0.5"));
}
