//! Workspaces: the manifest, requests, conflicts and variables in files.
use apex_api::conflict::detect_conflict_markers;
use apex_api::domain::{
    Authentication, FormField, HeaderEntry, HttpMethod, HttpRequest, MultipartField,
    MultipartValue, RequestBody, RequestSettings, StableId, ValueSensitivity,
};
use apex_api::environment::{
    SourceReading, StoredVariable, StoredVariableSource, VariableSetDocument,
};
use apex_api::error::WorkspaceError;
use apex_api::files::{FileAction, FileNode, FileTree, LinkTarget};
use apex_api::fingerprint::FileFingerprint;
use apex_api::manifest::{format_manifest, parse_manifest, WorkspaceManifest};
use apex_api::paths::ResourcePath;
use apex_api::repository::WorkspaceRepository;
use apex_api::repository_documents::{place_of_environment, place_of_override};
use apex_api::request::{format_request, RequestDocument};
use apex_api::request_reader::parse_request;
use apex_api::scope::VariableScope;
use apex_api::value::{VariableDefinition, VariableValue};
use apex_api::workspace_variables::{
    inspect_effective_variables, load_workspace_variables, LoadedWorkspaceVariables, SourceBook,
    VariableLayerSource, WorkspaceVariableError, WorkspaceVariableSelection,
};

const ROOT: &str = "/workspace/demo";

fn id(value: &str) -> StableId {
    StableId::parse(value).expect("valid id")
}

fn started() -> (WorkspaceRepository, FileTree) {
    let repository = WorkspaceRepository::new(ROOT).expect("valid repository");
    let mut files = FileTree::new();
    let manifest = WorkspaceManifest::new(id("workspace-1"), "Demo".to_owned());
    repository.initialize(&mut files, &manifest).expect("initializes");
    (repository, files)
}

fn text(files: &FileTree, place: &str) -> String {
    String::from_utf8(files.file(place).expect("file").to_vec()).expect("text")
}

fn sample_request() -> HttpRequest {
    HttpRequest {
        id: id("get-user"),
        name: "Get user".to_owned(),
        method: HttpMethod::Get,
        url: "https://{{host}}/users/{{user_id}}".to_owned(),
        query: vec![
            FormField {
                name: "tag".to_owned(),
                value: "one".to_owned(),
                enabled: true,
                sensitivity: ValueSensitivity::Public,
            },
            FormField {
                name: "tag".to_owned(),
                value: "two".to_owned(),
                enabled: true,
                sensitivity: ValueSensitivity::Sensitive,
            },
        ],
        headers: vec![
            HeaderEntry::new("Accept", "application/json").expect("valid header"),
            HeaderEntry::new("X-Trace", "one").expect("valid header"),
            HeaderEntry::new("X-Trace", "two").expect("valid header"),
        ],
        authentication: Authentication::Anonymous,
        body: RequestBody::Empty,
        settings: RequestSettings::default(),
        documentation: "Fetch one user.".to_owned(),
    }
}

#[test]
fn manifest_round_trip_is_stable() {
    let mut manifest = WorkspaceManifest::new(id("workspace-1"), "Demo".to_owned());
    manifest.default_environment = Some("development".to_owned());
    manifest
        .unknown_fields
        .insert("future_option".to_owned(), "\"preserved\"".to_owned());
    let first = format_manifest(&manifest);
    let parsed = parse_manifest(&first).expect("parses");
    assert_eq!(format_manifest(&parsed), first);
}

#[test]
fn request_round_trip_preserves_duplicate_query_and_headers() {
    let document = RequestDocument::new(sample_request());
    let formatted = format_request(&document);
    let parsed = parse_request(&formatted).expect("parses");
    assert_eq!(
        parsed
            .request
            .query
            .iter()
            .filter(|field| field.name == "tag")
            .map(|field| field.value.as_str())
            .collect::<Vec<_>>(),
        ["one", "two"]
    );
    assert_eq!(parsed.request.query[1].sensitivity, ValueSensitivity::Sensitive);
    assert_eq!(parsed.request.header_values("x-trace"), ["one", "two"]);
    assert_eq!(format_request(&parsed), formatted);
}

#[test]
fn request_round_trip_preserves_secret_references_for_authentication() {
    let mut request = sample_request();
    request.authentication = Authentication::Bearer {
        token: "{{access_token}}".to_owned(),
    };
    let document = RequestDocument::new(request);
    let formatted = format_request(&document);
    let parsed = parse_request(&formatted).expect("auth request parses");
    assert_eq!(parsed, document);
    assert_eq!(format_request(&parsed), formatted);
}

#[test]
fn rejects_plaintext_authentication_credentials() {
    let input = r#"
schema_version = 1
id = "plaintext-auth"
name = "Plaintext auth"
method = "GET"
url = "https://example.test"

[auth]
kind = "bearer"
token = "literal-secret"

[body]
kind = "empty"
"#;
    let error = parse_request(input).expect_err("plaintext auth must be rejected");
    assert!(matches!(error, WorkspaceError::InvalidFormat(_)));
    assert!(error.message().contains("plaintext credentials are forbidden"));
}

#[test]
fn initialization_creates_local_state_ignore_without_overwriting_existing_file() {
    let manifest = WorkspaceManifest::new(id("workspace-1"), "Demo".to_owned());
    let (_, files) = started();
    assert_eq!(text(&files, ".gitignore"), ".apex/\n");

    let repository = WorkspaceRepository::new("/workspace/existing").expect("valid repository");
    let mut files = FileTree::new();
    files.observe(".gitignore".to_owned(), FileNode::File(b"target/\n".to_vec()));
    repository.initialize(&mut files, &manifest).expect("initializes");
    assert_eq!(text(&files, ".gitignore"), "target/\n");
}

#[test]
fn request_round_trip_preserves_form_fields() {
    let mut request = sample_request();
    request.body = RequestBody::FormUrlEncoded(vec![
        FormField {
            name: "tag".to_owned(),
            value: "one".to_owned(),
            enabled: true,
            sensitivity: ValueSensitivity::Public,
        },
        FormField {
            name: "tag".to_owned(),
            value: "two".to_owned(),
            enabled: false,
            sensitivity: ValueSensitivity::Sensitive,
        },
    ]);
    let document = RequestDocument::new(request);
    let formatted = format_request(&document);
    let parsed = parse_request(&formatted).expect("form request parses");
    assert_eq!(parsed, document);
    assert_eq!(format_request(&parsed), formatted);
}

#[test]
fn request_round_trip_preserves_multipart_file_fields() {
    let mut request = sample_request();
    request.body = RequestBody::Multipart(vec![
        MultipartField {
            name: "metadata".to_owned(),
            value: MultipartValue::Text("{\"kind\":\"avatar\"}".to_owned()),
            content_type: Some("application/json".to_owned()),
            enabled: true,
            sensitivity: ValueSensitivity::Public,
        },
        MultipartField {
            name: "file".to_owned(),
            value: MultipartValue::File {
                relative_path: "fixtures/avatar.png".to_owned(),
            },
            content_type: Some("image/png".to_owned()),
            enabled: true,
            sensitivity: ValueSensitivity::Sensitive,
        },
    ]);
    let document = RequestDocument::new(request);
    let formatted = format_request(&document);
    let parsed = parse_request(&formatted).expect("multipart request parses");
    assert_eq!(parsed, document);
    assert_eq!(format_request(&parsed), formatted);
}

#[test]
fn request_index_lists_nested_collections_in_stable_order() {
    let (repository, mut files) = started();
    let first_path = repository
        .root()
        .join("collections")
        .join("users")
        .join("admin")
        .join("get-user.request.toml");
    repository
        .save_request(
            &mut files,
            &first_path,
            &RequestDocument::new(sample_request()),
            None,
            &[],
        )
        .expect("saves nested request");

    let mut second = sample_request();
    second.id = id("create-user");
    second.name = "Create user".to_owned();
    second.method = HttpMethod::Post;
    let second_path = repository.request_path("users", "create-user").expect("valid path");
    repository
        .save_request(&mut files, &second_path, &RequestDocument::new(second), None, &[])
        .expect("saves request");

    let entries = repository.list_requests(&files).expect("indexes requests");
    assert_eq!(entries.len(), 2);
    assert_eq!(entries[0].slug, "get-user");
    assert_eq!(entries[0].collection, "users");
    assert_eq!(entries[0].folders, ["admin"]);
    assert_eq!(entries[1].slug, "create-user");
    assert_eq!(entries[1].method, HttpMethod::Post);
}

#[test]
fn atomic_save_detects_external_edits() {
    let (repository, mut files) = started();
    let loaded = repository.load_manifest(&files).expect("loads");
    files.observe("apex.toml".to_owned(), FileNode::File(b"external = true\n".to_vec()));
    let error = repository
        .save_manifest(&mut files, &loaded.value, Some(loaded.fingerprint))
        .expect_err("must detect conflict");
    assert!(matches!(error, WorkspaceError::ExternalChange(_)));
}

#[test]
fn refuses_plaintext_secrets() {
    let (repository, mut files) = started();
    let path = repository.request_path("users", "get-user").expect("valid path");
    let mut document = RequestDocument::new(sample_request());
    document
        .unknown_fields
        .insert("api_key".to_owned(), "\"plaintext-secret\"".to_owned());
    let before = files.journal().len();
    let error = repository
        .save_request(&mut files, &path, &document, None, &["api_key".to_owned()])
        .expect_err("must reject secret");
    assert!(matches!(error, WorkspaceError::SecretLeak(_)));
    assert_eq!(files.journal().len(), before);
    assert!(!files.has("collections/users/get-user.request.toml"));
}

#[test]
fn detects_merge_conflicts() {
    let markers = detect_conflict_markers("<<<<<<< ours\na = 1\n=======\na = 2\n>>>>>>> theirs\n");
    assert_eq!(markers.len(), 1);
    assert_eq!(markers[0].start_line, 1);
    assert_eq!(markers[0].separator_line, Some(3));
    assert_eq!(markers[0].end_line, Some(5));
}

#[test]
fn rejects_resource_path_traversal() {
    let input = r#"
schema_version = 1
id = "upload"
name = "Upload"
method = "POST"
url = "https://example.test"

[body]
kind = "binary_file"
relative_path = "../../secret"
"#;
    assert!(matches!(parse_request(input), Err(WorkspaceError::PathTraversal(_))));
}

fn variable(name: &str, value: &str) -> StoredVariable {
    StoredVariable {
        name: name.to_owned(),
        source: StoredVariableSource::Literal(VariableValue::String(value.to_owned())),
        sensitivity: ValueSensitivity::Public,
        enabled: true,
        description: None,
    }
}

fn empty_book() -> SourceBook {
    SourceBook {
        secrets: Vec::new(),
        process: Vec::new(),
    }
}

fn workspace_with_default() -> (WorkspaceRepository, FileTree) {
    let repository = WorkspaceRepository::new(ROOT).expect("repository");
    let mut files = FileTree::new();
    let mut manifest = WorkspaceManifest::new(id("workspace"), "Workspace".to_owned());
    manifest.default_environment = Some("development".to_owned());
    repository.initialize(&mut files, &manifest).expect("initialize");
    (repository, files)
}

#[test]
fn loads_workspace_environment_and_local_override_with_precedence() {
    let (repository, mut files) = workspace_with_default();

    let mut workspace =
        VariableSetDocument::new(id("workspace-vars"), "Workspace variables".to_owned());
    workspace.variables.push(variable("host", "workspace.test"));
    let place = repository.place(&repository.workspace_variables_path()).expect("place");
    repository
        .save_variable_set(&mut files, &place, &workspace, None)
        .expect("save workspace variables");

    let environment_id = id("development");
    let mut environment =
        VariableSetDocument::new(environment_id.clone(), "Development".to_owned());
    environment.variables.push(variable("host", "environment.test"));
    repository
        .save_variable_set(&mut files, &place_of_environment(&environment_id), &environment, None)
        .expect("save environment");

    let mut local =
        VariableSetDocument::new(environment_id.clone(), "Development local".to_owned());
    local.variables.push(variable("host", "local.test"));
    repository
        .save_variable_set(&mut files, &place_of_override(&environment_id), &local, None)
        .expect("save local override");

    let loaded = load_workspace_variables(
        &repository,
        &files,
        &WorkspaceVariableSelection {
            environment: None,
            include_local_override: true,
        },
        &empty_book(),
    )
    .expect("loads variables");
    let (scope, definition) = loaded
        .context
        .effective_definition("host")
        .expect("effective variable");
    assert_eq!(scope, VariableScope::LocalEnvironmentOverride);
    assert_eq!(definition.value, VariableValue::String("local.test".to_owned()));
    assert_eq!(loaded.environment.expect("environment").name, "Development");
    assert_eq!(loaded.sources.len(), 3);
}

fn described(value: &str, sensitivity: ValueSensitivity, enabled: bool, description: Option<&str>) -> VariableDefinition {
    VariableDefinition {
        value: VariableValue::String(value.to_owned()),
        sensitivity,
        enabled,
        description: description.map(str::to_owned),
    }
}

#[test]
fn effective_inspection_reports_sources_and_redacts_selected_secret() {
    let mut loaded = LoadedWorkspaceVariables::new();
    loaded.context.layer_mut(VariableScope::Workspace).insert(
        "token".to_owned(),
        described(
            "workspace-public",
            ValueSensitivity::Public,
            true,
            Some("workspace candidate"),
        ),
    );
    loaded.context.layer_mut(VariableScope::Environment).insert(
        "token".to_owned(),
        described("top-secret", ValueSensitivity::Secret, true, Some("secret candidate")),
    );
    loaded
        .context
        .layer_mut(VariableScope::LocalEnvironmentOverride)
        .insert(
            "token".to_owned(),
            described("disabled-local", ValueSensitivity::Sensitive, false, None),
        );
    loaded.sources = vec![
        VariableLayerSource {
            scope: VariableScope::Workspace,
            label: "variables.toml".to_owned(),
            variable_count: 1,
        },
        VariableLayerSource {
            scope: VariableScope::Environment,
            label: "environments/development.toml".to_owned(),
            variable_count: 1,
        },
        VariableLayerSource {
            scope: VariableScope::LocalEnvironmentOverride,
            label: ".apex/environments/development.local.toml".to_owned(),
            variable_count: 1,
        },
    ];

    let inspection = inspect_effective_variables(&loaded);
    assert_eq!(inspection.len(), 1);
    let token = &inspection[0];
    assert_eq!(token.name, "token");
    assert_eq!(token.selected_scope, Some(VariableScope::Environment));
    assert_eq!(token.displayed_value, "[REDACTED]");
    assert!(!format!("{token:?}").contains("top-secret"));
    assert_eq!(token.candidates.len(), 3);
    assert_eq!(
        token
            .candidates
            .iter()
            .find(|candidate| candidate.selected)
            .expect("selected candidate")
            .source_label,
        "environments/development.toml"
    );
    assert!(
        !token
            .candidates
            .iter()
            .find(|candidate| candidate.scope == VariableScope::LocalEnvironmentOverride)
            .expect("local candidate")
            .selected
    );
}

#[test]
fn explicit_environment_overrides_manifest_default() {
    let (repository, mut files) = workspace_with_default();
    let staging_id = id("staging");
    let staging = VariableSetDocument::new(staging_id.clone(), "Staging".to_owned());
    repository
        .save_variable_set(&mut files, &place_of_environment(&staging_id), &staging, None)
        .expect("save staging");
    let loaded = load_workspace_variables(
        &repository,
        &files,
        &WorkspaceVariableSelection {
            environment: Some("staging".to_owned()),
            include_local_override: false,
        },
        &empty_book(),
    )
    .expect("loads staging");
    assert_eq!(loaded.environment.expect("environment").id, staging_id);
}

#[test]
fn a_link_that_leads_nowhere_is_no_local_override() {
    let (repository, mut files) = workspace_with_default();
    let staging_id = id("staging");
    let staging = VariableSetDocument::new(staging_id.clone(), "Staging".to_owned());
    repository
        .save_variable_set(&mut files, &place_of_environment(&staging_id), &staging, None)
        .expect("save staging");
    let selection = WorkspaceVariableSelection {
        environment: Some("staging".to_owned()),
        include_local_override: true,
    };
    let overridden = |files: &FileTree| {
        load_workspace_variables(&repository, files, &selection, &empty_book())
            .expect("loads staging")
            .environment
            .expect("environment")
            .has_local_override
    };
    let place = place_of_override(&staging_id);
    assert!(!overridden(&files));
    files.observe(place.clone(), FileNode::Link(LinkTarget::Missing));
    assert!(!overridden(&files));
    let bytes = files.file(&place_of_environment(&staging_id)).expect("file").to_vec();
    files.observe(place, FileNode::Link(LinkTarget::File(bytes)));
    assert!(overridden(&files));
}

#[test]
fn an_environment_that_cannot_be_named_is_refused() {
    let (repository, files) = workspace_with_default();
    let result = load_workspace_variables(
        &repository,
        &files,
        &WorkspaceVariableSelection {
            environment: Some("not valid".to_owned()),
            include_local_override: false,
        },
        &empty_book(),
    );
    assert!(matches!(result, Err(WorkspaceVariableError::InvalidEnvironment(_))));
}

#[test]
fn variables_are_read_from_where_they_are_kept() {
    let (repository, mut files) = workspace_with_default();
    let mut workspace = VariableSetDocument::new(id("workspace-vars"), "Variables".to_owned());
    workspace.variables.push(StoredVariable {
        name: "home".to_owned(),
        source: StoredVariableSource::ProcessEnvironment {
            name: "HOME".to_owned(),
        },
        sensitivity: ValueSensitivity::Public,
        enabled: true,
        description: None,
    });
    repository
        .save_variable_set(&mut files, "variables.toml", &workspace, None)
        .expect("saves");
    repository
        .save_variable_set(
            &mut files,
            &place_of_environment(&id("development")),
            &VariableSetDocument::new(id("development"), "Development".to_owned()),
            None,
        )
        .expect("saves");
    let book = SourceBook {
        secrets: Vec::new(),
        process: vec![(
            "HOME".to_owned(),
            SourceReading::Found {
                text: "/home/ada".to_owned(),
                store: "process".to_owned(),
            },
        )],
    };
    let selection = WorkspaceVariableSelection {
        environment: None,
        include_local_override: true,
    };
    let loaded =
        load_workspace_variables(&repository, &files, &selection, &book).expect("loads variables");
    let (_, found) = loaded.context.effective_definition("home").expect("home");
    assert_eq!(found.value, VariableValue::String("/home/ada".to_owned()));
    assert!(load_workspace_variables(&repository, &files, &selection, &empty_book()).is_err());
}

#[test]
fn saved_request_is_read_again_and_says_its_fingerprint() {
    let (repository, mut files) = started();
    let path = repository.request_path("users", "get-user").expect("path");
    let document = RequestDocument::new(sample_request());
    let fingerprint = repository
        .save_request(&mut files, &path, &document, None, &[])
        .expect("saves");
    let loaded = repository.load_request(&files, &path).expect("loads");
    assert_eq!(loaded.value, document);
    assert_eq!(loaded.fingerprint, fingerprint);
    assert_eq!(
        FileFingerprint::from_bytes(files.file("collections/users/get-user.request.toml").expect("file")),
        fingerprint
    );
    let again = repository.save_request(&mut files, &path, &document, None, &[]);
    assert!(matches!(again, Err(WorkspaceError::AlreadyExists(_))));
}

#[test]
fn fingerprints_tell_contents_apart() {
    let empty = FileFingerprint::from_bytes(b"");
    let one = FileFingerprint::from_bytes(b"a");
    let other = FileFingerprint::from_bytes(b"b");
    assert_ne!(one, other);
    assert_ne!(empty, one);
    assert_eq!(one, FileFingerprint::from_bytes(b"a"));
    assert_eq!(one.to_hex().len(), 16);
    assert!(one.to_hex().chars().all(|c| c.is_ascii_hexdigit()));
}

#[test]
fn paths_outside_the_workspace_are_refused() {
    let (repository, mut files) = started();
    let document = RequestDocument::new(sample_request());
    for path in [
        "/elsewhere/a.request.toml",
        "/workspace/demo/../a.request.toml",
    ] {
        let result = repository.save_request(
            &mut files,
            &ResourcePath::new(path),
            &document,
            None,
            &[],
        );
        assert!(matches!(result, Err(WorkspaceError::PathTraversal(_))), "path: {path}");
    }
    assert!(WorkspaceRepository::new("").is_err());
    assert!(repository.request_path("us ers", "a").is_err());
    assert_eq!(
        repository.request_path("users", "a").expect("path").as_text(),
        "/workspace/demo/collections/users/a.request.toml"
    );
}

#[test]
fn a_file_with_a_merge_conflict_is_not_read() {
    let (repository, mut files) = started();
    files.observe(
        "variables.toml".to_owned(),
        FileNode::File(b"<<<<<<< ours\n=======\n>>>>>>> theirs\n".to_vec()),
    );
    let result = repository.load_variable_set(&files, "variables.toml");
    assert!(matches!(result, Err(WorkspaceError::MergeConflict { .. })));
    let found = repository.scan_conflicts(&files).expect("scans");
    assert_eq!(found.len(), 1);
    assert_eq!(found[0].1.len(), 1);
}

#[test]
fn bytes_that_are_no_text_are_refused_where_text_is_read() {
    let (repository, mut files) = started();
    files.observe("variables.toml".to_owned(), FileNode::File(vec![0xff, 0xfe]));
    assert!(matches!(
        repository.load_variable_set(&files, "variables.toml"),
        Err(WorkspaceError::InvalidUtf8(_))
    ));
    let mut bytes = b"<<<<<<< \xff\n".to_vec();
    bytes.extend_from_slice(b"=======\n>>>>>>> b\n");
    files.observe("notes.toml".to_owned(), FileNode::File(bytes));
    assert_eq!(repository.scan_conflicts(&files).expect("scans").len(), 1);
}

#[test]
fn every_change_is_written_down_for_the_disk() {
    let (repository, mut files) = started();
    let before = files.journal().len();
    let path = repository.request_path("users", "get-user").expect("path");
    repository
        .save_request(&mut files, &path, &RequestDocument::new(sample_request()), None, &[])
        .expect("saves");
    let added = &files.journal()[before..];
    assert!(added.iter().any(|action| matches!(
        action,
        FileAction::Write { path, .. } if path == "collections/users/get-user.request.toml"
    )));
}

#[test]
fn unknown_schema_versions_are_refused() {
    let result = parse_manifest("schema_version = 9\nid = \"a\"\nname = \"A\"\n");
    assert!(matches!(
        result,
        Err(WorkspaceError::UnsupportedSchemaVersion { found: 9, .. })
    ));
}
