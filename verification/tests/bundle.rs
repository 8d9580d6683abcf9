use mcpg_policy_cedar::bundle::{
    accept_validated, bundle_source, combine, parse_bundle_with_schema, parse_entities,
    parse_full_bundle, parse_schema, refusal, BundleSource, PolicyFile, ReloadError, SourcePart,
    TextFile,
};
use mcpg_policy_cedar::config::default_anonymous_id;
use mcpg_policy_cedar::{
    CedarConfig, EvaluationConfig, ReloadConfig, TranslationConfig,
};

fn policies(path: &str, text: &str) -> PolicyFile {
    PolicyFile { path: path.to_owned(), contents: Ok(text.as_bytes().to_vec()) }
}

fn file(path: &str, text: &str) -> Option<TextFile> {
    Some(TextFile { path: path.to_owned(), contents: Ok(text.to_owned()) })
}

fn unreadable(path: &str) -> Option<TextFile> {
    Some(TextFile { path: path.to_owned(), contents: Err("gone".to_owned()) })
}

fn parse_message(e: ReloadError) -> String {
    match e {
        ReloadError::Parse(text) => text,
        other => panic!("{other:?}"),
    }
}

fn io_parts(e: ReloadError) -> (String, String) {
    match e {
        ReloadError::Io { path, error } => (path, error),
        other => panic!("{other:?}"),
    }
}

fn err<T>(r: Result<T, ReloadError>) -> ReloadError {
    match r {
        Ok(_) => panic!("accepted"),
        Err(e) => e,
    }
}

const PERMIT: &str = "permit(principal, action, resource);";
const FORBID: &str = "forbid(principal, action, resource);";
const SCHEMA: &str = "entity User; entity Tool; action read appliesTo { principal: [User], resource: [Tool] };";
const JSON_SCHEMA: &str = r#"{"": {"entityTypes": {"User": {}, "Tool": {}}, "actions": {"read": {"appliesTo": {"principalTypes": ["User"], "resourceTypes": ["Tool"]}}}}}"#;

fn config(schema: Option<&str>, entities: Option<&str>) -> CedarConfig {
    CedarConfig {
        policy_dir: "/policies".to_owned(),
        translation: TranslationConfig {
            principal_type: "User".to_owned(),
            action_namespace: "Action".to_owned(),
            resource_types: vec![],
            anonymous_principal_id: default_anonymous_id(),
        },
        evaluation: EvaluationConfig::default(),
        reload: ReloadConfig::default(),
        schema_path: schema.map(|s| s.to_owned()),
        entities_path: entities.map(|s| s.to_owned()),
        include_input_as_context: false,
    }
}

fn is_policy_dir(part: &SourcePart) -> bool {
    match part {
        SourcePart::Directory { root, extension } => {
            root == "/policies" && extension.as_deref() == Some("cedar")
        }
        _ => false,
    }
}

fn is_file(part: &SourcePart, name: &str) -> bool {
    matches!(part, SourcePart::File(path) if path == name)
}

#[test]
fn sources_cover_every_input() {
    assert!(matches!(
        bundle_source(&config(None, None)),
        BundleSource::Single(part) if is_policy_dir(&part)
    ));
    match bundle_source(&config(Some("s"), Some("e"))) {
        BundleSource::Composite(parts) => {
            assert_eq!(parts.len(), 3);
            assert!(is_policy_dir(&parts[0]));
            assert!(is_file(&parts[1], "s"));
            assert!(is_file(&parts[2], "e"));
        }
        other => panic!("{other:?}"),
    }
    match bundle_source(&config(None, Some("e"))) {
        BundleSource::Composite(parts) => {
            assert_eq!(parts.len(), 2);
            assert!(is_file(&parts[1], "e"));
        }
        other => panic!("{other:?}"),
    }
}

#[test]
fn policy_files_are_put_together() {
    let files = vec![policies("a", "x"), policies("b", "é"), policies("c", "")];
    assert_eq!(combine(&files).unwrap_or_else(|e| panic!("{e:?}")), "x\né\n\n");
    assert_eq!(combine(&vec![]).unwrap_or_else(|e| panic!("{e:?}")), "");
}

#[test]
fn the_first_faulty_policy_file_is_reported() {
    let bad = PolicyFile { path: "b".to_owned(), contents: Ok(vec![b'a', 0xff]) };
    let gone = PolicyFile { path: "c".to_owned(), contents: Err("gone".to_owned()) };
    let files = vec![policies("a", "x"), bad, gone];
    assert_eq!(
        parse_message(err(combine(&files))),
        "non-utf8 in b: invalid utf-8 sequence of 1 bytes from index 1"
    );
    let gone = PolicyFile { path: "c".to_owned(), contents: Err("gone".to_owned()) };
    let files = vec![policies("a", "x"), gone];
    assert_eq!(io_parts(err(combine(&files))), ("c".to_owned(), "gone".to_owned()));
}

#[test]
fn forbids_are_known_by_their_ids() {
    let files = vec![policies("a", PERMIT), policies("b", FORBID), policies("c", PERMIT)];
    let bundle = parse_full_bundle(Ok(files), &None, &None).unwrap_or_else(|e| panic!("{e:?}"));
    assert_eq!(bundle.policies_count(), 3);
    assert!(bundle.schema().is_none());
    assert!(!bundle.forbids("policy0"));
    assert!(bundle.forbids("policy1"));
    assert!(!bundle.forbids("policy2"));
    assert!(!bundle.forbids("policy3"));
}

#[test]
fn matched_policies_are_described() {
    let files = vec![policies("a", "@owner(\"x\") @advice(\"k\") permit(principal, action, resource);")];
    let bundle = parse_full_bundle(Ok(files), &None, &None).unwrap_or_else(|e| panic!("{e:?}"));
    let found = bundle.matched("policy0");
    assert_eq!(found.id, "policy0");
    assert!(!found.forbids);
    assert_eq!(
        found.annotations,
        vec![
            ("advice".to_owned(), "k".to_owned()),
            ("owner".to_owned(), "x".to_owned()),
        ]
    );
    let missing = bundle.matched("a\nb");
    assert_eq!(missing.id, "a\\nb");
    assert!(missing.annotations.is_empty());
}

#[test]
fn cedar_answers_with_the_policies_that_settled() {
    let files = vec![policies("a", PERMIT), policies("b", FORBID)];
    let bundle = parse_full_bundle(Ok(files), &None, &None).unwrap_or_else(|e| panic!("{e:?}"));
    let uid = |text: &str| text.parse::<cedar_policy::EntityUid>().unwrap();
    let request = cedar_policy::Request::new(
        uid("User::\"a\""),
        uid("Action::\"b\""),
        uid("Tool::\"c\""),
        cedar_policy::Context::empty(),
        None,
    )
    .unwrap();
    let answer = bundle.answer(&request);
    assert!(!answer.allows);
    assert_eq!(answer.reasons, vec!["policy1".to_owned()]);
}

#[test]
fn policies_that_do_not_parse_are_refused() {
    let files = vec![policies("a", "permit(")];
    let message = parse_message(err(parse_full_bundle(Ok(files), &None, &None)));
    assert!(message.starts_with("parsing combined PolicySet: "), "{message}");
}

#[test]
fn policies_that_could_not_be_listed_are_refused() {
    let e = ReloadError::Io { path: "/policies".to_owned(), error: "gone".to_owned() };
    let e = err(parse_full_bundle(Err(e), &None, &None));
    assert_eq!(io_parts(e), ("/policies".to_owned(), "gone".to_owned()));
}

#[test]
fn schemas_in_both_syntaxes() {
    let none = parse_schema(&None).unwrap_or_else(|e| panic!("{e:?}"));
    assert!(none.is_none());
    for text in [SCHEMA, JSON_SCHEMA] {
        let schema = parse_schema(&file("s", text)).unwrap_or_else(|e| panic!("{e:?}"));
        assert!(schema.is_some());
        let files = vec![policies("a", PERMIT)];
        let bundle = parse_full_bundle(Ok(files), &file("s", text), &None)
            .unwrap_or_else(|e| panic!("{e:?}"));
        assert!(bundle.schema().is_some());
    }
    let message = parse_message(err(parse_schema(&file("s.json", "{"))));
    assert!(message.starts_with("schema parse 's.json' failed: "), "{message}");
    assert_eq!(
        io_parts(err(parse_schema(&unreadable("s")))),
        ("s".to_owned(), "gone".to_owned())
    );
}

#[test]
fn entities_under_a_schema() {
    let schema = parse_schema(&file("s", SCHEMA)).unwrap_or_else(|e| panic!("{e:?}"));
    let user = r#"[{"uid": {"type": "User", "id": "a"}, "attrs": {}, "parents": []}]"#;
    let other = r#"[{"uid": {"type": "Other", "id": "a"}, "attrs": {}, "parents": []}]"#;
    assert!(parse_entities(&file("e", user), schema.as_ref()).is_ok());
    assert!(parse_entities(&file("e", other), None).is_ok());
    let message = parse_message(err(parse_entities(&file("e", other), schema.as_ref())));
    assert!(message.starts_with("entities parse 'e' failed: "), "{message}");
    assert_eq!(
        io_parts(err(parse_entities(&unreadable("e"), None))),
        ("e".to_owned(), "gone".to_owned())
    );
    assert!(parse_entities(&None, None).is_ok());
}

#[test]
fn policies_are_validated_under_a_schema() {
    let schema = parse_schema(&file("s", SCHEMA)).unwrap_or_else(|e| panic!("{e:?}"));
    let text = "permit(principal, action == Action::\"write\", resource);";
    assert!(parse_bundle_with_schema(Ok(vec![policies("a", text)]), None).is_ok());
    let r = parse_bundle_with_schema(Ok(vec![policies("a", text)]), schema.as_ref());
    let message = parse_message(err(r));
    assert!(message.starts_with("schema validation failed: "), "{message}");
    assert!(accept_validated(&vec![]).is_ok());
    let message = parse_message(err(accept_validated(&vec!["a".to_owned(), "b".to_owned()])));
    assert_eq!(message, "schema validation failed: a; b");
}

#[test]
fn the_schema_is_looked_at_first() {
    let gone = || Err(ReloadError::Parse("policies".to_owned()));
    let e = err(parse_full_bundle(gone(), &unreadable("s"), &unreadable("e")));
    assert_eq!(io_parts(e).0, "s");
    let e = err(parse_full_bundle(gone(), &file("s", SCHEMA), &unreadable("e")));
    assert_eq!(io_parts(e).0, "e");
    let e = err(parse_full_bundle(gone(), &file("s", SCHEMA), &None));
    assert_eq!(parse_message(e), "policies");
}

#[test]
fn refusals_name_the_file() {
    assert_eq!(refusal("schema", "/s", "bad"), "schema parse '/s' failed: bad");
}
