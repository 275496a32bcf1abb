//! Environments: files of variables, and what is done with them.
use apex_api::document::CURRENT_SCHEMA_VERSION;
use apex_api::domain::{StableId, ValueSensitivity};
use apex_api::environment::{
    format_variable_set, keeps_numbers, parse_variable_set, SecretRef, SourceReading, StoredVariable,
    StoredVariableSource, VariableSetDocument,
};
use apex_api::environment_operation::{apply_environment_operation, environment_sensitivity};
use apex_api::error::WorkspaceError;
use apex_api::files::{FileNode, FileTree};
use apex_api::manifest::WorkspaceManifest;
use apex_api::order::TextMap;
use apex_api::repository::WorkspaceRepository;
use apex_api::repository_documents::{place_of_environment, place_of_override};
use apex_api::value::VariableValue;

fn id(value: &str) -> StableId {
    StableId::parse(value).expect("valid id")
}

fn variable_set() -> VariableSetDocument {
    VariableSetDocument {
        schema_version: CURRENT_SCHEMA_VERSION,
        id: id("development"),
        name: "Development".to_owned(),
        variables: vec![
            StoredVariable {
                name: "service".to_owned(),
                source: StoredVariableSource::Literal(VariableValue::Object(vec![(
                    "host".to_owned(),
                    VariableValue::String("api.example.test".to_owned()),
                )])),
                sensitivity: ValueSensitivity::Public,
                enabled: true,
                description: Some("Service configuration".to_owned()),
            },
            StoredVariable {
                name: "token".to_owned(),
                source: StoredVariableSource::Secret(
                    SecretRef::new("development", "token").expect("valid secret ref"),
                ),
                sensitivity: ValueSensitivity::Secret,
                enabled: true,
                description: None,
            },
        ],
        unknown_fields: TextMap::new(),
    }
}

#[test]
fn variable_set_round_trip_preserves_nested_values_and_secret_references() {
    let original = variable_set();
    let formatted = format_variable_set(&original).expect("formats");
    assert!(!formatted.contains("top-secret"));
    assert_eq!(parse_variable_set(&formatted).expect("parses"), original);
}

#[test]
fn resolves_secret_references_without_persisting_values() {
    let resolved = variable_set()
        .resolve(&[
            SourceReading::Unavailable,
            SourceReading::Found {
                text: "top-secret".to_owned(),
                store: "session".to_owned(),
            },
        ])
        .expect("resolves");
    let token = resolved.get("token").expect("token");
    assert_eq!(token.value, VariableValue::String("top-secret".to_owned()));
    assert_eq!(token.sensitivity, ValueSensitivity::Secret);
}

#[test]
fn rejects_secret_source_without_secret_sensitivity() {
    let input = r#"schema_version = 1
id = "development"
name = "Development"

[[variables]]
name = "token"
enabled = true
sensitivity = "public"
source = "secret"
secret_namespace = "development"
secret_name = "token"
"#;
    let error = parse_variable_set(input).expect_err("secret source must remain secret");
    assert!(matches!(error, WorkspaceError::InvalidFormat(_)));
}

fn temporary_repository() -> (WorkspaceRepository, FileTree) {
    let repository = WorkspaceRepository::new("/workspace/environments").expect("repository");
    let mut files = FileTree::new();
    repository
        .initialize(
            &mut files,
            &WorkspaceManifest::new(id("workspace"), "Environment fixture".to_owned()),
        )
        .expect("initialize");
    (repository, files)
}

fn set(name: &str) -> VariableSetDocument {
    VariableSetDocument::new(id("development"), name.to_owned())
}

fn public_variable(name: &str, value: &str) -> StoredVariable {
    StoredVariable {
        name: name.to_owned(),
        source: StoredVariableSource::Literal(VariableValue::String(value.to_owned())),
        sensitivity: ValueSensitivity::Public,
        enabled: true,
        description: None,
    }
}

#[test]
fn environment_crud_and_local_override_are_listed_without_secret_values() {
    let (repository, mut files) = temporary_repository();
    let id = id("development");
    let mut environment = set("Development");
    environment.variables.push(public_variable("host", "development.test"));
    let fingerprint = repository
        .create_environment(&mut files, &environment)
        .expect("create environment");
    let fingerprint = repository
        .rename_environment(&mut files, &id, "Developer machine".to_owned(), fingerprint)
        .expect("rename environment");
    let mut local = set("Development local");
    local.variables.push(public_variable("host", "127.0.0.1"));
    repository
        .save_local_environment_override(&mut files, &id, &local, None)
        .expect("local override");

    let environments = repository.list_environments(&files).expect("list environments");
    assert_eq!(environments.len(), 1);
    assert_eq!(environments[0].name, "Developer machine");
    assert!(environments[0].has_local_override);
    assert_eq!(
        repository
            .load_environment(&files, &id)
            .expect("updated environment")
            .fingerprint,
        fingerprint
    );
}

#[test]
fn stale_environment_update_is_rejected() {
    let (repository, mut files) = temporary_repository();
    let id = id("development");
    let fingerprint = repository
        .create_environment(&mut files, &set("Development"))
        .expect("create environment");
    files.observe(
        place_of_environment(&id),
        FileNode::File(b"external edit".to_vec()),
    );
    assert!(matches!(
        repository.rename_environment(&mut files, &id, "Changed".to_owned(), fingerprint),
        Err(WorkspaceError::ExternalChange(_))
    ));
}

#[test]
fn local_override_id_must_match_environment() {
    let (repository, mut files) = temporary_repository();
    repository
        .create_environment(&mut files, &set("Development"))
        .expect("create environment");
    let wrong = VariableSetDocument::new(id("staging"), "Wrong local override".to_owned());
    assert!(matches!(
        repository.save_local_environment_override(&mut files, &id("development"), &wrong, None),
        Err(WorkspaceError::InvalidFormat(_))
    ));
}

#[test]
fn deleting_default_environment_requires_explicit_default_change() {
    let (repository, mut files) = temporary_repository();
    let id = id("development");
    let fingerprint = repository
        .create_environment(&mut files, &set("Development"))
        .expect("create environment");
    let manifest = repository.load_manifest(&files).expect("manifest");
    repository
        .set_default_environment(&mut files, Some(&id), manifest.fingerprint)
        .expect("set default");
    assert!(matches!(
        repository.delete_environment(&mut files, &id, fingerprint, 1),
        Err(WorkspaceError::InvalidFormat(_))
    ));
    assert!(files.has(&place_of_environment(&id)));
}

#[test]
fn deleting_environment_also_removes_ignored_local_override() {
    let (repository, mut files) = temporary_repository();
    let id = id("development");
    let fingerprint = repository
        .create_environment(&mut files, &set("Development"))
        .expect("create environment");
    repository
        .save_local_environment_override(&mut files, &id, &set("Development local"), None)
        .expect("local override");
    let receipt = repository
        .delete_environment(&mut files, &id, fingerprint, 7)
        .expect("delete environment");
    assert_eq!(receipt.id, id);
    assert_eq!(receipt.cleanup_pending, None);
    assert!(!files.has(&place_of_environment(&receipt.id)));
    assert!(!files.has(&place_of_override(&receipt.id)));
}

#[test]
fn local_override_delete_is_fingerprint_guarded() {
    let (repository, mut files) = temporary_repository();
    let id = id("development");
    repository
        .create_environment(&mut files, &set("Development"))
        .expect("create environment");
    let fingerprint = repository
        .save_local_environment_override(&mut files, &id, &set("Development local"), None)
        .expect("local override");
    files.observe(place_of_override(&id), FileNode::File(b"external edit".to_vec()));
    assert!(matches!(
        repository.delete_local_environment_override(&mut files, &id, fingerprint, 1),
        Err(WorkspaceError::ExternalChange(_))
    ));
}

#[test]
fn empty_environment_names_are_rejected() {
    let mut document = variable_set();
    document.name = "  ".to_owned();
    assert!(matches!(
        format_variable_set(&document),
        Err(WorkspaceError::InvalidFormat(_))
    ));
}

#[test]
fn rejects_plaintext_secret_literals() {
    let input = r#"schema_version = 1
id = "development"
name = "Development"

[[variables]]
name = "token"
enabled = true
sensitivity = "secret"
source = "literal"
value_kind = "string"
value = "do-not-store"
"#;
    let error = parse_variable_set(input).expect_err("must reject plaintext secret");
    assert!(matches!(error, WorkspaceError::SecretResolution(_)));
}

#[test]
fn environment_operations_preserve_secret_boundaries() {
    let (repository, mut files) = temporary_repository();
    apply_environment_operation(&repository, &mut files, "create|development|Development", 1)
        .expect("create");
    apply_environment_operation(
        &repository,
        &mut files,
        "set|development|host|literal|api.example.test|public|true",
        2,
    )
    .expect("set literal");
    assert!(apply_environment_operation(
        &repository,
        &mut files,
        "set|development|token|literal|plaintext|secret|true",
        3,
    )
    .is_err());
    apply_environment_operation(
        &repository,
        &mut files,
        "set|development|token|secret|env/APEX_TOKEN|secret|true",
        4,
    )
    .expect("set secret reference");
    apply_environment_operation(&repository, &mut files, "default|development", 5)
        .expect("default");
    let loaded = repository.load_environment(&files, &id("development")).expect("load");
    assert_eq!(loaded.value.variables.len(), 2);
    assert!(matches!(
        loaded.value.variables[1].source,
        StoredVariableSource::Secret(_)
    ));
}

#[test]
fn environment_operations_say_what_came_of_them() {
    let (repository, mut files) = temporary_repository();
    let mut run = |command: &str| apply_environment_operation(&repository, &mut files, command, 1);
    assert_eq!(run("create|a|A"), Ok("Created environment 'a'".to_owned()));
    assert_eq!(run("create|a"), Err("create is missing name".to_owned()));
    assert_eq!(run("rename | a | B"), Ok("Renamed environment 'a'".to_owned()));
    assert_eq!(
        run("set|a|x|env|HOME|public|true"),
        Ok("Updated variable 'x' in 'a'".to_owned())
    );
    assert_eq!(
        run("set|a|x|file|HOME|public|true"),
        Err("unknown variable source kind 'file'".to_owned())
    );
    assert_eq!(
        run("set|a|x|env|HOME|public|maybe"),
        Err("enabled flag must be true or false".to_owned())
    );
    assert_eq!(
        run("set|a|x|secret|token|secret|true"),
        Err("secret source must use namespace/name".to_owned())
    );
    assert_eq!(
        run("remove|a|y"),
        Err("variable 'y' was not found".to_owned())
    );
    assert_eq!(run("remove|a|x"), Ok("Removed variable 'x' from 'a'".to_owned()));
    assert_eq!(run("default|none"), Ok("Default environment set to none".to_owned()));
    assert_eq!(run("delete|a"), Ok("Deleted environment 'a'".to_owned()));
    assert_eq!(
        run("erase|a"),
        Err("environment command must be create, rename, delete, default, set, or remove".to_owned())
    );
    assert_eq!(
        environment_sensitivity("hidden"),
        Err("unknown sensitivity 'hidden'".to_owned())
    );
}

#[test]
fn secret_references_need_both_parts() {
    assert!(SecretRef::new("", "token").is_err());
    assert!(SecretRef::new("a/b", "token").is_err());
    assert_eq!(
        SecretRef::new("env", "TOKEN").expect("reference").display_name(),
        "env/TOKEN"
    );
}

#[test]
fn a_secret_that_cannot_be_read_is_an_error() {
    let readings = [SourceReading::Unavailable, SourceReading::Unavailable];
    assert!(matches!(
        variable_set().resolve(&readings),
        Err(WorkspaceError::SecretResolution(_))
    ));
    let readings = [
        SourceReading::Unavailable,
        SourceReading::Failed("locked".to_owned()),
    ];
    assert!(matches!(
        variable_set().resolve(&readings),
        Err(WorkspaceError::SecretResolution(_))
    ));
}

#[test]
fn environments_are_listed_by_name_without_regard_to_case() {
    let (repository, mut files) = temporary_repository();
    for (slug, name) in [("one", "beta"), ("two", "Alpha"), ("three", "alpha")] {
        repository
            .create_environment(&mut files, &VariableSetDocument::new(id(slug), name.to_owned()))
            .expect("creates");
    }
    let names = repository
        .list_environments(&files)
        .expect("lists")
        .into_iter()
        .map(|e| e.id.as_str().to_owned())
        .collect::<Vec<_>>();
    assert_eq!(names, ["three", "two", "one"]);
}

#[test]
fn environments_have_places_of_their_own() {
    let repository = WorkspaceRepository::new("/workspace/demo").unwrap();
    let id = StableId::parse("dev").unwrap();
    assert_eq!(
        repository.environment_path(&id).as_text(),
        "/workspace/demo/environments/dev.toml"
    );
    assert_eq!(
        repository.local_environment_override_path(&id).as_text(),
        "/workspace/demo/.apex/environments/dev.local.toml"
    );
    assert_eq!(repository.manifest_path().as_text(), "/workspace/demo/apex.toml");
}

fn with_value(value: VariableValue) -> VariableSetDocument {
    let mut document = variable_set();
    document.variables.truncate(1);
    document.variables[0].source = StoredVariableSource::Literal(value);
    document
}

fn written_value(value: VariableValue) -> Result<VariableValue, WorkspaceError> {
    let text = format_variable_set(&with_value(value))?;
    match parse_variable_set(&text)?.variables.remove(0).source {
        StoredVariableSource::Literal(value) => Ok(value),
        _ => panic!("a literal"),
    }
}

#[test]
fn numbers_are_kept_in_their_shortest_form() {
    let number = |text: &str| VariableValue::Number(text.to_owned());
    assert_eq!(written_value(number("1.50")).unwrap(), number("1.5"));
    assert_eq!(written_value(number("2e3")).unwrap(), number("2000"));
    assert!(written_value(number("1e999")).is_err());
    assert!(written_value(number("many")).is_err());
    let nested = VariableValue::Array(vec![number("0.1"), VariableValue::Null, number("7")]);
    let text = format_variable_set(&with_value(nested)).unwrap();
    assert!(text.contains("value = \"[0.1,null,7.0]\""));
    let read = VariableValue::Array(vec![number("0.1"), VariableValue::Null, number("7")]);
    assert_eq!(
        parse_variable_set(&text).unwrap(),
        with_value(read)
    );
}

#[test]
fn objects_are_read_in_the_order_of_their_names() {
    let text = format_variable_set(&variable_set())
        .unwrap()
        .replace("{\\\"host\\\":\\\"api.example.test\\\"}", "{\\\"b\\\":true,\\\"a\\\":[1,2.5]}");
    let read = parse_variable_set(&text).unwrap();
    assert_eq!(
        read.variables[0].source,
        StoredVariableSource::Literal(VariableValue::Object(vec![
            (
                "a".to_owned(),
                VariableValue::Array(vec![
                    VariableValue::Number("1".to_owned()),
                    VariableValue::Number("2.5".to_owned())
                ])
            ),
            ("b".to_owned(), VariableValue::Bool(true)),
        ]))
    );
    assert!(parse_variable_set(&text.replace("[1,2.5]", "[1,")).is_err());
}

#[test]
fn a_set_that_was_read_is_written_and_read_again() {
    let written = format_variable_set(&variable_set()).expect("formats");
    let text = format!("# a note\n{written}\n\n");
    let read = parse_variable_set(&text).expect("parses");
    let again = format_variable_set(&read).expect("formats again");
    assert_eq!(parse_variable_set(&again).expect("parses again"), read);
}

#[test]
fn numbers_that_were_read_are_kept() {
    for (written, shown) in [
        ("1.50", "1.5"),
        ("-0.1", "-0.1"),
        ("1e21", "1000000000000000000000"),
        ("0.30000000000000004", "0.30000000000000004"),
        ("5e-324", &format!("0.{}5", "0".repeat(323))),
    ] {
        let mut document = variable_set();
        document.variables.truncate(1);
        document.variables[0].source =
            StoredVariableSource::Literal(VariableValue::Number(written.to_owned()));
        let text = format_variable_set(&document).expect("formats");
        let read = parse_variable_set(&text).expect("parses");
        assert_eq!(
            read.variables[0].source,
            StoredVariableSource::Literal(VariableValue::Number(shown.to_owned()))
        );
        assert_eq!(keeps_numbers(&document), written == shown);
        assert!(keeps_numbers(&read));
        let again = format_variable_set(&read).expect("formats again");
        assert_eq!(parse_variable_set(&again).expect("parses again"), read);
    }
    assert!(keeps_numbers(&variable_set()));
    let mut nested = variable_set();
    nested.variables[0].source = StoredVariableSource::Literal(VariableValue::Array(vec![
        VariableValue::Number("1".to_owned()),
    ]));
    assert!(!keeps_numbers(&nested));
}

#[test]
fn environments_stay_where_they_cannot_be_moved_aside() {
    let (repository, mut files) = temporary_repository();
    let id = id("development");
    let fingerprint = repository
        .create_environment(&mut files, &set("Development"))
        .expect("create environment");
    repository
        .save_local_environment_override(&mut files, &id, &set("Development local"), None)
        .expect("local override");
    let trash = ".apex/trash/environments/development-7";
    files.observe(".apex/trash".to_owned(), FileNode::Directory);
    files.observe(".apex/trash/environments".to_owned(), FileNode::Directory);
    files.observe(trash.to_owned(), FileNode::Directory);
    files.observe(format!("{trash}/local.toml"), FileNode::Directory);
    assert_eq!(
        repository.delete_environment(&mut files, &id, fingerprint, 7),
        Err(WorkspaceError::Io(format!(
            "cannot move to /workspace/environments/{trash}/local.toml"
        )))
    );
    assert!(files.has(&place_of_environment(&id)));
    assert!(files.has(&place_of_override(&id)));
    assert!(!files.has(trash));
    repository
        .delete_environment(&mut files, &id, fingerprint, 7)
        .expect("delete environment");
    assert!(!files.has(&place_of_environment(&id)));
}
