use mcpg_policy_cedar::advice::{
    advice_args, annotation_advice, parse_advice, parse_redaction, read_json, split_advice,
};
use mcpg_policy_cedar::json::Json;

fn json(text: &str) -> Json {
    read_json(text).unwrap()
}

#[test]
fn parse_advice_kind_only() {
    let obl = parse_advice("audit.emit").expect("kind-only parses");
    assert_eq!(obl.kind, "audit.emit");
    assert_eq!(obl.args, Json::Null);
}

#[test]
fn parse_advice_kind_with_json_args() {
    let obl = parse_advice("audit.emit:{\"level\":\"warn\"}").expect("kind + json parses");
    assert_eq!(obl.kind, "audit.emit");
    assert_eq!(obl.args, json("{ \"level\": \"warn\" }"));
}

#[test]
fn parse_advice_kind_with_string_args_falls_back() {
    let obl = parse_advice("audit.emit:warn").expect("string fallback");
    assert_eq!(obl.kind, "audit.emit");
    assert_eq!(obl.args, Json::Text("warn".to_owned()));
}

#[test]
fn parse_advice_strips_whitespace_around_kind_and_args() {
    let obl =
        parse_advice("  notify.operator  :  {\"who\":\"sec\"}  ").expect("whitespace-tolerant");
    assert_eq!(obl.kind, "notify.operator");
    assert_eq!(obl.args, json("{ \"who\": \"sec\" }"));
}

#[test]
fn parse_advice_rejects_empty_or_blank() {
    assert!(parse_advice("").is_none());
    assert!(parse_advice("   ").is_none());
    assert!(parse_advice(":foo").is_none());
}

#[test]
fn advice_is_split_at_the_first_colon() {
    assert_eq!(split_advice("a:b:c"), Some(("a", "b:c")));
    assert_eq!(split_advice(" a : "), Some(("a", "")));
    assert_eq!(split_advice("a"), Some(("a", "")));
    assert_eq!(split_advice(" : x"), None);
    assert_eq!(split_advice("é:ü"), Some(("é", "ü")));
    assert_eq!(parse_advice("a:").unwrap().args, Json::Null);
}

#[test]
fn written_values_are_read_back() {
    let mut deep = "[".repeat(127);
    deep.push_str(&"]".repeat(127));
    for text in [
        "null",
        "true",
        "0",
        "18446744073709551615",
        "-9223372036854775808",
        "\"a:b \\\" \\u0007 \"",
        "[1,[],{}]",
        "{\"b\":{\"x\":1},\"a\":[\"u:v\",null]}",
        deep.as_str(),
    ] {
        let value: serde_json::Value = serde_json::from_str(text).unwrap();
        let written = value.to_string();
        for pad in ["", " ", "\t\n", "\u{a0}\u{3000}"] {
            let obl = parse_advice(&format!("{pad}k.x{pad}:{pad}{written}{pad}")).unwrap();
            assert_eq!(obl.kind, "k.x");
            assert_eq!(obl.args, json(&written));
        }
        assert_eq!(value.to_string(), serde_json::from_str::<serde_json::Value>(&written).unwrap().to_string());
    }
}

#[test]
fn no_advice_exactly_without_a_kind() {
    for s in ["", " ", ":", " :", "\t: a", "::", "\u{2003}:{}"] {
        assert!(parse_advice(s).is_none(), "{s:?}");
    }
    for s in ["a", " a", "a:", "a ::", " a : :", "a:\u{2003}"] {
        assert!(parse_advice(s).is_some(), "{s:?}");
    }
}

#[test]
fn arguments_from_what_was_read() {
    assert_eq!(advice_args("", Some(Json::Bool(true))), Json::Null);
    assert_eq!(advice_args("x", Some(Json::Bool(true))), Json::Bool(true));
    assert_eq!(advice_args("x", None), Json::Text("x".to_owned()));
}

#[test]
fn json_texts_are_read() {
    assert_eq!(read_json(" [1, \"a\", null] ").unwrap(), Json::Array(vec![
        Json::unsigned(1),
        Json::text("a"),
        Json::Null,
    ]));
    assert!(read_json("[1").is_none());
    assert!(read_json("").is_none());
}

#[test]
fn redactions_keep_the_pointer() {
    let r = parse_redaction("  /result/ssn ").unwrap();
    assert_eq!(r.json_pointer, "  /result/ssn ");
    assert_eq!(r.replacement, Json::text("***"));
    assert!(parse_redaction(" \n").is_none());
}

#[test]
fn annotations_in_order() {
    let annotations: Vec<(String, String)> = [
        ("advice", "a"),
        ("owner", "x"),
        ("redact", "/p"),
        ("advice", ""),
        ("advice", "b:[]"),
        ("Advice", "c"),
    ]
    .iter()
    .map(|(k, v)| (k.to_string(), v.to_string()))
    .collect();
    let (obligations, redactions) = annotation_advice(&annotations, true);
    assert_eq!(obligations.len(), 2);
    assert_eq!(obligations[0].kind, "a");
    assert_eq!(obligations[1].kind, "b");
    assert_eq!(obligations[1].args, Json::Array(vec![]));
    assert_eq!(redactions.len(), 1);
    let (obligations, redactions) = annotation_advice(&annotations, false);
    assert_eq!(obligations.len(), 2);
    assert!(redactions.is_empty());
}
