use mcpg_policy_cedar::advice::read_json;
use mcpg_policy_cedar::json::Json;

fn member(name: &str, value: Json) -> (String, Json) {
    (name.to_owned(), value)
}

#[test]
fn members_of_one_name_are_found() {
    let twice = || Json::Object(vec![member("a", Json::Null), member("a", Json::Bool(true))]);
    let once = || Json::Object(vec![member("a", Json::Null), member("b", Json::Null)]);
    assert!(!twice().is_distinct());
    assert!(once().is_distinct());
    assert!(Json::text("a").is_distinct());
    assert!(!Json::Array(vec![once(), twice()]).is_distinct());
    assert!(Json::Array(vec![once(), once()]).is_distinct());
    assert!(!Json::Object(vec![member("x", once()), member("y", twice())]).is_distinct());
    assert!(read_json("{\"a\": {\"a\": [{\"a\": 1}]}}").unwrap().is_distinct());
}

#[test]
fn duplicates_are_equal() {
    let text = "{\"a\": [1, -2, 0.5, null, true, \"x\"], \"b\": {\"c\": {}}}";
    let json = read_json(text).unwrap();
    assert_eq!(json.duplicate(), json);
}

#[test]
fn simple_values() {
    assert_eq!(Json::unsigned(u64::MAX), read_json("18446744073709551615").unwrap());
    assert_eq!(Json::text("a\"b"), read_json("\"a\\\"b\"").unwrap());
}

#[test]
fn the_last_of_two_members_is_read() {
    assert_eq!(read_json("{\"a\": 1, \"a\": 2}"), read_json("{\"a\": 2}"));
}
