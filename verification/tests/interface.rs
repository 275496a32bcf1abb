//! What the windows around a request show and which commands they take.
use std::collections::BTreeSet;

use apex_api::browser::{
    next_environment, show_request_status, show_status_line, WatchState, WorkspaceBrowser,
};
use apex_api::browser_tree::{workspace_browser_items, workspace_tree};
use apex_api::commands::{commands, CommandKind};
use apex_api::domain::{HttpMethod, StableId};
use apex_api::editor::default_request;
use apex_api::environment::VariableSetDocument;
use apex_api::files::{FileAction, FileTree};
use apex_api::history::{
    compare_latest, list_history, show_record, BodyDifference, HistoryRecord, ResponseDifference,
};
use apex_api::import_export::{
    apply_import, code_target, generated_request, import_format, show_code, show_import,
    CodeTarget, GeneratedRequest, ImportDiagnostic, ImportFormat,
};
use apex_api::manifest::WorkspaceManifest;
use apex_api::paths::ResourcePath;
use apex_api::repository::WorkspaceRepository;
use apex_api::repository_listing::WorkspaceRequestEntry;
use apex_api::request::RequestDocument;
use apex_api::sections::{
    LifecycleSection, ProtocolToolSection, RequestSection, ResponseTab, WorkspaceToolSection,
};
use apex_api::tool_commands::{
    parse_plugin_capability, read_ai_command, read_git_command, read_graphql_command,
    read_grpc_command, read_mock_command, read_openapi_command, read_plugin_command,
    read_stream_command, show_git_status, show_mock_log, AiCommand, GitCommand, GraphqlCommand,
    GrpcCommand, MockCommand, OpenApiCommand, PluginCapability, PluginCommand, StreamCommand,
    StreamDirection,
};

const ROOT: &str = "/workspace/demo";

fn entry(folders: &[&str], slug: &str, name: &str) -> WorkspaceRequestEntry {
    let mut relative = "collections/users".to_owned();
    for folder in folders {
        relative.push('/');
        relative.push_str(folder);
    }
    relative.push_str(&format!("/{slug}.request.toml"));
    WorkspaceRequestEntry {
        path: ResourcePath::new(&format!("/workspace/{relative}")),
        relative_path: ResourcePath::new(&relative),
        collection: "users".to_owned(),
        folders: folders.iter().map(|f| f.to_string()).collect(),
        slug: slug.to_owned(),
        id: StableId::parse("get-user").unwrap(),
        name: name.to_owned(),
        method: HttpMethod::Get,
        url: "https://example.test/users/1".to_owned(),
    }
}

fn workspace() -> (WorkspaceRepository, FileTree) {
    let repository = WorkspaceRepository::new(ROOT).unwrap();
    let mut files = FileTree::new();
    repository
        .initialize(
            &mut files,
            &WorkspaceManifest::new(StableId::parse("workspace").unwrap(), "Demo".to_owned()),
        )
        .unwrap();
    (repository, files)
}

#[test]
fn command_ids_are_stable_and_unique() {
    let all = commands();
    let mut ids = all.iter().map(|command| command.id).collect::<Vec<_>>();
    ids.sort_unstable();
    ids.dedup();
    assert_eq!(ids.len(), all.len());
    assert!(all.iter().all(|command| command.id.contains('.')));
    assert!(all.iter().any(|command| command.id == "environment.cycle"));
}

#[test]
fn request_and_response_tabs_have_unique_labels() {
    let request = (0..).map_while(RequestSection::at).collect::<Vec<_>>();
    let mut labels = request.iter().map(|section| section.label()).collect::<Vec<_>>();
    labels.sort_unstable();
    labels.dedup();
    assert_eq!(labels.len(), request.len());
    assert_eq!(request.len(), 8);

    let response = (0..).map_while(ResponseTab::at).collect::<Vec<_>>();
    let mut labels = response.iter().map(|tab| tab.label()).collect::<Vec<_>>();
    labels.sort_unstable();
    labels.dedup();
    assert_eq!(labels.len(), response.len());
    assert_eq!(response.len(), 6);
}

#[test]
fn collection_tree_groups_nested_workspace_requests() {
    let entries = vec![entry(&["admin"], "get", "Get user")];
    let tree = workspace_tree(&entries);
    assert_eq!(tree.len(), 1);
    assert_eq!(tree[0].label.as_str(), "users");
    assert_eq!(tree[0].children[0].label.as_str(), "admin");
    assert_eq!(tree[0].children[0].children[0].label.as_str(), "GET  Get user");
}

#[test]
fn every_request_has_a_place_in_the_tree() {
    let entries = vec![
        entry(&["admin"], "a", "A"),
        entry(&[], "b", "B"),
        entry(&["admin", "deep"], "c", "C"),
    ];
    let tree = workspace_browser_items(&entries);
    assert_eq!(tree.len(), 1);
    let mut open = tree.iter().collect::<Vec<_>>();
    let mut labels = BTreeSet::new();
    while let Some(item) = open.pop() {
        labels.insert(item.label.as_str());
        open.extend(item.children.iter());
    }
    for label in ["GET  A", "GET  B", "GET  C", "admin", "deep"] {
        assert!(labels.contains(label), "{label}");
    }
}

#[test]
fn sections_are_found_where_they_stand() {
    for i in 0..5 {
        assert_eq!(LifecycleSection::at(i).unwrap().position(), i);
        assert_eq!(WorkspaceToolSection::at(i).unwrap().position(), i);
    }
    for i in 0..3 {
        assert_eq!(ProtocolToolSection::at(i).unwrap().position(), i);
    }
    assert_eq!(ProtocolToolSection::at(3), None);
    assert_eq!(LifecycleSection::Ai.label(), LifecycleSection::at(4).unwrap().label());
}

#[test]
fn commands_keep_their_kind() {
    let all = commands();
    assert_eq!(all.len(), 10);
    let send = all.iter().find(|command| command.kind == CommandKind::Send).unwrap();
    assert!(send.id.starts_with("request."));
}

#[test]
fn a_workspace_is_opened_with_what_it_holds() {
    let (repository, mut files) = workspace();
    files.perform(FileAction::MakeDirectories("collections/users".to_owned()));
    repository
        .save_request(
            &mut files,
            &ResourcePath::new("/workspace/demo/collections/users/get.request.toml"),
            &RequestDocument::new(default_request()),
            None,
            &[],
        )
        .unwrap();
    let id = StableId::parse("dev").unwrap();
    repository
        .create_environment(&mut files, &VariableSetDocument::new(id, "Development".to_owned()))
        .unwrap();
    let browser = WorkspaceBrowser::open(Some(ROOT), &files);
    assert_eq!(browser.label, "Demo");
    assert_eq!(browser.error, None);
    assert_eq!(browser.requests.len(), 1);
    assert_eq!(browser.environment_name(Some("dev")), "Development");
    assert_eq!(browser.environment_name(None), "No environment");
    let (_, request, _) = browser.initial_document(&files).expect("a request");
    assert_eq!(request, default_request());
    assert_eq!(browser.initial_environment(None), None);
    assert_eq!(browser.initial_environment(Some("dev".to_owned())).as_deref(), Some("dev"));
    assert_eq!(next_environment(&browser.environments, None), Some(0));
    assert_eq!(next_environment(&browser.environments, Some("dev")), Some(0));
    assert_eq!(next_environment(&[], None), None);
    assert_eq!(
        WorkspaceBrowser::open(None, &FileTree::new()).label,
        "Local Draft Workspace"
    );
    assert!(WorkspaceBrowser::open(Some(ROOT), &FileTree::new()).error.is_some());
}

#[test]
fn the_status_says_what_counts_most() {
    assert_eq!(show_request_status(true, true, true), "Request running");
    assert_eq!(show_request_status(false, true, true), "External workspace change");
    assert_eq!(show_request_status(false, false, true), "Unsaved draft");
    assert_eq!(show_request_status(false, false, false), "Saved");
    let line = show_status_line("Demo", "Dev", false, &WatchState::Failed("gone".to_owned()));
    assert_eq!(
        line,
        [
            "workspace: Demo",
            "environment: Dev",
            "HTTP: idle",
            "watch: watch error: gone",
            "proxy: direct",
            "TLS: rustls",
            "UTF-8"
        ]
    );
}

#[test]
fn history_is_listed_and_compared() {
    let record = HistoryRecord {
        execution_id: "e1".to_owned(),
        request_name: "Get".to_owned(),
        status: Some(200),
        duration_ms: 12,
        has_request_snapshot: true,
        has_response_snapshot: false,
    };
    assert_eq!(show_record(&record), "200 Get · 12ms · snapshot");
    assert_eq!(list_history(&[record])[0].0, "e1");
    assert_eq!(
        list_history(&[]),
        [("__history-empty".to_owned(), "No history entries".to_owned())]
    );
    assert_eq!(compare_latest(1, None), "At least two history entries are required.");
    assert_eq!(compare_latest(2, None), "History entries changed; refresh and try again.");
    assert_eq!(
        compare_latest(
            2,
            Some(ResponseDifference {
                status_changed: true,
                header_changes: 2,
                cookie_changes: 0,
                body: BodyDifference::Json,
            })
        ),
        "Latest vs previous: status changed · 2 header change(s) · 0 cookie change(s) · JSON changed"
    );
}

#[test]
fn code_targets_and_import_formats_are_named() {
    assert_eq!(code_target("curl"), Ok(CodeTarget::Curl));
    assert_eq!(code_target("go-net-http"), Ok(CodeTarget::GoNetHttp));
    assert_eq!(code_target("unknown"), Err("unknown code target 'unknown'".to_owned()));
    assert_eq!(import_format("postman-v2.1"), Ok(ImportFormat::Postman));
    assert_eq!(import_format("har"), Err("Unknown import format 'har'".to_owned()));
    assert_eq!(show_code(&["careful".to_owned()], "curl x"), "Warning: careful\ncurl x");
    assert_eq!(
        show_import(
            1,
            "curl",
            &[ImportDiagnostic {
                severity: "Warning".to_owned(),
                code: "c1".to_owned(),
                message: "odd flag".to_owned(),
            }],
            &["--proxy".to_owned()],
        ),
        "1 request(s) from curl\nWarning c1: odd flag\nUnsupported: --proxy"
    );
}

#[test]
fn imported_requests_are_written_one_by_one() {
    let (repository, mut files) = workspace();
    files.perform(FileAction::MakeDirectories("collections/imported".to_owned()));
    let document = RequestDocument::new(default_request());
    let name = document.request.id.as_str().to_owned();
    let destination = ResourcePath::new("/workspace/demo/collections/imported");
    let documents = [document];
    assert_eq!(
        apply_import(&repository, &mut files, &destination, &documents, &[Vec::new()]),
        Ok("Imported 1 request(s) into /workspace/demo/collections/imported".to_owned())
    );
    assert!(files.has(&format!("collections/imported/{name}.request.toml")));
    assert!(apply_import(&repository, &mut files, &destination, &documents, &[Vec::new()]).is_err());
}

#[test]
fn generated_requests_are_named_after_their_file() {
    let generated = || GeneratedRequest {
        method: "GET".to_owned(),
        url: "https://api.example.test/users".to_owned(),
        headers: Vec::new(),
        body: None,
    };
    let request = generated_request("listUsers", "collections/users/list.request.toml", generated()).unwrap();
    assert_eq!(request.url, "https://api.example.test/users");
    assert_eq!(
        request.documentation,
        "Generated from OpenAPI. Review generated fields before committing."
    );
    assert_eq!(
        generated_request("listUsers", "collections/users/list.toml", generated()),
        Err("destination must end with .request.toml".to_owned())
    );
}

#[test]
fn plugins_are_validated_before_they_run() {
    assert_eq!(parse_plugin_capability("viewer"), Ok(PluginCapability::Viewer));
    assert!(parse_plugin_capability("filesystem").is_err());
    assert_eq!(
        read_plugin_command("invoke|viewer", false),
        Err("validate a plugin first".to_owned())
    );
    assert_eq!(
        read_plugin_command("invoke|viewer", true),
        Ok(PluginCommand::Invoke {
            point: PluginCapability::Viewer
        })
    );
    assert!(read_plugin_command("validate", true).is_err());
}

#[test]
fn assistants_are_shown_a_preview_first() {
    assert_eq!(read_ai_command("preview", false), Ok(AiCommand::Preview));
    assert_eq!(
        read_ai_command("confirm:abc", false),
        Err("preview an AI payload first".to_owned())
    );
    assert_eq!(
        read_ai_command("confirm:abc", true),
        Ok(AiCommand::Confirm {
            token: "confirm:abc".to_owned()
        })
    );
    assert!(read_ai_command("send", true).is_err());
}

#[test]
fn tools_take_the_commands_they_name() {
    assert_eq!(read_openapi_command("list", false), Ok(OpenApiCommand::List));
    assert_eq!(
        read_openapi_command("generate|op|path", false),
        Err("No workspace is open".to_owned())
    );
    assert_eq!(
        read_openapi_command("generate|op|path", true),
        Ok(OpenApiCommand::Generate {
            operation: "op".to_owned(),
            relative_path: "path".to_owned(),
            server: None
        })
    );
    assert_eq!(read_mock_command("start", false), Ok(MockCommand::Start));
    assert_eq!(
        read_mock_command("start", true),
        Err("mock server is already running".to_owned())
    );
    assert_eq!(
        show_mock_log(&[("GET".to_owned(), "/a".to_owned(), 200)]),
        "GET /a -> 200"
    );
    assert_eq!(read_git_command("diff staged"), Ok(GitCommand::Diff { staged: true }));
    assert_eq!(read_git_command("commit"), Err("commit requires a message".to_owned()));
    assert_eq!(show_git_status(&None, &["M a".to_owned()]), "branch=detached\nM a");
    assert_eq!(read_graphql_command("build"), Ok(GraphqlCommand::Build));
    assert_eq!(
        read_grpc_command("reflection|users"),
        Ok(GrpcCommand::Reflection {
            service: "users".to_owned()
        })
    );
    assert_eq!(
        read_stream_command("connect", false),
        Err("create a stream log first".to_owned())
    );
    assert_eq!(
        read_stream_command("push incoming|message|hi", true),
        Ok(StreamCommand::Push {
            direction: StreamDirection::Incoming,
            event_type: Some("message".to_owned()),
            data: "hi".to_owned()
        })
    );
}
