//! The main window and what the tools around it answer.
use apex_api::domain::{StableId, ValueSensitivity};
use apex_api::editor::default_request;
use apex_api::environment::{StoredVariable, StoredVariableSource, VariableSetDocument};
use apex_api::error::WorkspaceError;
use apex_api::files::{FileAction, FileNode, FileTree};
use apex_api::import_export::GeneratedRequest;
use apex_api::manifest::WorkspaceManifest;
use apex_api::naming::IdSource;
use apex_api::paths::ResourcePath;
use apex_api::repository::WorkspaceRepository;
use apex_api::request::RequestDocument;
use apex_api::scope::VariableScope;
use apex_api::shell::{ApexShell, Notice, WorkspaceMonitorMessage};
use apex_api::tool_commands::{GitCommand, MockCommand, StreamCommand};
use apex_api::tool_replies::{
    find_code_place, find_import_target, search_for, show_diagnostics, show_found, show_git_reply,
    show_mock_reply, show_stream_reply,
};
use apex_api::value::VariableValue;
use apex_api::watch::{
    WorkspaceChange, WorkspaceChangeKind, WorkspaceChangedPath, WorkspaceResourceKind,
};
use apex_api::workspace_effect::{OperationInputs, OperationReport};
use apex_api::workspace_operation::Ancestry;
use apex_api::workspace_variables::SourceBook;

const ROOT: &str = "/workspace/demo";

fn id(value: &str) -> StableId {
    StableId::parse(value).unwrap()
}

fn workspace() -> (WorkspaceRepository, FileTree) {
    let repository = WorkspaceRepository::new(ROOT).unwrap();
    let mut files = FileTree::new();
    repository
        .initialize(&mut files, &WorkspaceManifest::new(id("workspace"), "Demo".to_owned()))
        .unwrap();
    files.perform(FileAction::MakeDirectories("collections/users".to_owned()));
    repository
        .save_request(
            &mut files,
            &ResourcePath::new("/workspace/demo/collections/users/get.request.toml"),
            &RequestDocument::new(default_request()),
            None,
            &[],
        )
        .unwrap();
    for (name, host) in [("dev", "dev.test"), ("live", "live.test")] {
        let mut environment = VariableSetDocument::new(id(name), name.to_uppercase());
        environment.variables.push(StoredVariable {
            name: "host".to_owned(),
            source: StoredVariableSource::Literal(VariableValue::String(host.to_owned())),
            sensitivity: ValueSensitivity::Public,
            enabled: true,
            description: None,
        });
        repository.create_environment(&mut files, &environment).unwrap();
    }
    (repository, files)
}

fn book() -> SourceBook {
    SourceBook {
        secrets: Vec::new(),
        process: Vec::new(),
    }
}

fn shell(files: &FileTree) -> ApexShell {
    ApexShell::new_with_workspace_and_environment(
        Some(ROOT),
        files,
        Some("dev".to_owned()),
        &book(),
        Err("no draft".to_owned()),
        &[],
        None,
        &[],
        None,
    )
}

fn inside() -> Ancestry {
    Ancestry {
        canonical_root: Ok(ResourcePath::new(ROOT)),
        existing: Some(ResourcePath::new(ROOT)),
        canonical: Ok(ResourcePath::new(ROOT)),
    }
}

fn host(shell: &ApexShell) -> Option<String> {
    shell
        .variable_context
        .effective_definition("host")
        .map(|(scope, definition)| {
            assert_eq!(scope, VariableScope::Environment);
            definition.value.display_value()
        })
}

#[test]
fn a_window_opens_on_the_first_request() {
    let (_, files) = workspace();
    let shell = shell(&files);
    assert_eq!(shell.request_panel.base_request, default_request());
    assert_eq!(shell.environment_label, "DEV");
    assert_eq!(shell.watch.status(), "watching");
    assert_eq!(shell.variable_error, None);
    assert_eq!(host(&shell).as_deref(), Some("dev.test"));
}

#[test]
fn a_window_without_a_workspace_shows_the_draft() {
    let shell = ApexShell::new_with_workspace_and_environment(
        None,
        &FileTree::new(),
        None,
        &book(),
        Err("no draft".to_owned()),
        &[],
        None,
        &[],
        Some("unused".to_owned()),
    );
    assert_eq!(shell.request_panel.document_error.as_deref(), Some("no draft"));
    assert_eq!(shell.watch.status(), "not active");
    assert_eq!(shell.environment_label, "No environment");
    let shell = ApexShell::new(Err("no draft".to_owned()), &[], None, &[]);
    assert_eq!(shell.browser.label, "Local Draft Workspace");
    assert_eq!(shell.collections.items[0].label, "Local Drafts");
}

#[test]
fn environments_are_gone_through_in_turn() {
    let (_, mut files) = workspace();
    let mut shell = shell(&files);
    assert_eq!(
        shell.cycle_environment(&files, &book()),
        Notice::Success("Environment: LIVE".to_owned())
    );
    assert_eq!(host(&shell).as_deref(), Some("live.test"));
    files.observe(
        "environments/dev.toml".to_owned(),
        FileNode::File(b"not an environment".to_vec()),
    );
    assert!(matches!(shell.cycle_environment(&files, &book()), Notice::Failure(_)));
    assert_eq!(shell.selected_environment.as_deref(), Some("live"));
    assert_eq!(host(&shell).as_deref(), Some("live.test"));
}

#[test]
fn the_tree_follows_the_monitor() {
    let (_, files) = workspace();
    let mut shell = shell(&files);
    let change = || WorkspaceChange {
        kind: WorkspaceChangeKind::Modified,
        paths: vec![WorkspaceChangedPath {
            relative_path: ResourcePath::new("collections/users/get.request.toml"),
            resource: WorkspaceResourceKind::Request,
        }],
    };
    let check = shell.apply_workspace_monitor_message(WorkspaceMonitorMessage::Update {
        change: change(),
        requests: Some(Err("unreadable".to_owned())),
    });
    assert!(check.is_some());
    assert_eq!(shell.collections.error.as_deref(), Some("unreadable"));
    assert!(shell.collections.request_paths.contains("collections/users/get.request.toml"));
    shell.apply_workspace_monitor_message(WorkspaceMonitorMessage::Update {
        change: change(),
        requests: Some(Ok(Vec::new())),
    });
    assert_eq!(shell.collections.error, None);
    assert!(!shell.collections.request_paths.contains("collections/users/get.request.toml"));
    assert_eq!(shell.collections.items[0].label, "Local Drafts");
    shell.apply_workspace_monitor_message(WorkspaceMonitorMessage::Failed("gone".to_owned()));
    assert_eq!(shell.watch.status(), "watch error: gone");
}

#[test]
fn commands_bring_the_tree_up_to_date() {
    let (_, mut files) = workspace();
    let mut shell = shell(&files);
    let inputs = OperationInputs {
        nonce: 3,
        ids: IdSource {
            timestamp: 9,
            sequence: 0,
        },
        leaks: vec![Vec::new()],
    };
    let command = "create_request|collections/users/new.request.toml|new|New|https://new.test";
    let report = shell.apply_mutation(&mut files, command, &[inside()], &inputs).unwrap();
    assert_eq!(
        report,
        OperationReport::Completed(
            "Created request /workspace/demo/collections/users/new.request.toml".to_owned()
        )
    );
    assert_eq!(
        shell.open_item(&files, "collections/users/new.request.toml"),
        Some(Notice::Success(
            "Opened /workspace/demo/collections/users/new.request.toml".to_owned()
        ))
    );
    assert_eq!(shell.request_panel.base_request.url, "https://new.test");
    assert_eq!(shell.open_item(&files, "collection:users"), None);
    assert_eq!(
        shell.apply_mutation(&mut files, "archive_collection|users|maybe", &[], &inputs).err(),
        Some("Workspace operation failed: archive_collection requires true or false".to_owned())
    );
}

#[test]
fn a_change_that_is_left_is_told_once_it_was_tried() {
    let (_, mut files) = workspace();
    let mut shell = shell(&files);
    let inputs = OperationInputs {
        nonce: 3,
        ids: IdSource {
            timestamp: 9,
            sequence: 0,
        },
        leaks: Vec::new(),
    };
    let command = "delete_request|collections/users/get.request.toml";
    let change = match shell.apply_mutation(&mut files, command, &[inside()], &inputs) {
        Ok(OperationReport::Left(change)) => change,
        other => panic!("{other:?}"),
    };
    assert!(shell.collections.request_paths.contains("collections/users/get.request.toml"));
    assert_eq!(
        shell.finish_mutation(&files, &change, Err(WorkspaceError::Io("denied".to_owned()))),
        Err("Workspace operation failed: workspace I/O failed: denied".to_owned())
    );
    files.perform(FileAction::RemoveTree("collections/users/get.request.toml".to_owned()));
    assert_eq!(
        shell.finish_mutation(&files, &change, Ok(())),
        Ok("Deleted request /workspace/demo/collections/users/get.request.toml".to_owned())
    );
    assert!(!shell.collections.request_paths.contains("collections/users/get.request.toml"));
}

#[test]
fn generated_requests_are_written_and_edited() {
    let (repository, mut files) = workspace();
    let mut shell = shell(&files);
    let generated = || GeneratedRequest {
        method: "GET".to_owned(),
        url: "https://api.example.test/users".to_owned(),
        headers: Vec::new(),
        body: None,
    };
    let mut open = |files: &mut FileTree| {
        shell.request_panel.open_generated(
            &repository,
            files,
            "listUsers",
            "collections/users/list.request.toml",
            generated(),
            Some(&inside()),
            &[],
        )
    };
    assert_eq!(
        open(&mut files),
        Ok("Generated and opened OpenAPI operation 'listUsers'".to_owned())
    );
    assert!(open(&mut files).is_err());
    assert!(files.has("collections/users/list.request.toml"));
    assert_eq!(shell.request_panel.base_request.name, "listUsers");
}

#[test]
fn nothing_is_written_before_it_was_looked_at() {
    let (repository, _) = workspace();
    let open = Some(&repository);
    let told = |errors: Option<bool>| find_import_target(open, errors, "imported", Some(&inside()));
    assert_eq!(told(None), Err("Preview the import first".to_owned()));
    assert_eq!(
        told(Some(true)),
        Err("Import diagnostics contain errors; no files were written".to_owned())
    );
    assert_eq!(told(Some(false)).unwrap().as_text(), "/workspace/demo/imported");
    assert_eq!(
        find_code_place(open, true, "code.txt", Some(&inside()), true),
        Err("Refusing to overwrite /workspace/demo/code.txt".to_owned())
    );
    assert_eq!(
        find_code_place(open, false, "code.txt", Some(&inside()), false),
        Err("Generate code first".to_owned())
    );
    assert!(find_code_place(open, true, "code.txt", Some(&inside()), false).is_ok());
    assert_eq!(
        find_code_place(None, true, "code.txt", None, false),
        Err("No workspace is open".to_owned())
    );
}

#[test]
fn tools_answer_in_words() {
    assert_eq!(
        show_mock_reply(MockCommand::Start, "127.0.0.1:80".to_owned()),
        "Mock server listening on http://127.0.0.1:80"
    );
    assert_eq!(show_mock_reply(MockCommand::Stop, String::new()), "Mock server stopped");
    let stage = GitCommand::Stage {
        path: "a.txt".to_owned(),
    };
    assert_eq!(show_git_reply(&stage, String::new()), "Staged a.txt");
    assert_eq!(show_git_reply(&GitCommand::Status, "clean".to_owned()), "clean");
    assert_eq!(
        show_stream_reply(&StreamCommand::Connect, String::new()),
        "Stream session marked connected"
    );
    assert_eq!(show_stream_reply(&StreamCommand::Export, "[]".to_owned()), "[]");
    assert_eq!(
        show_diagnostics(&[
            ("/paths".to_owned(), "missing".to_owned()),
            ("/info".to_owned(), "empty".to_owned())
        ]),
        "/paths: missing\n/info: empty"
    );
    assert_eq!(show_found(&[]), "0 search result(s)");
    assert_eq!(search_for("users".to_owned()).limit, Some(100));
}
