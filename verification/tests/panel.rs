//! The request panel: tabs, edits, saving, changes from outside and sending.
use apex_api::automation::{prepare_run, RunRefusal};
use apex_api::document_store::{
    draft_state_root, tab_session_state_path, workspace_store_for_request, DocumentStore,
};
use apex_api::domain::{HttpMethod, StableId};
use apex_api::editor::default_request;
use apex_api::external_state::RequestExternalState;
use apex_api::files::{FileAction, FileNode, FileTree};
use apex_api::manifest::WorkspaceManifest;
use apex_api::open_documents::OpenRequestDocument;
use apex_api::paths::ResourcePath;
use apex_api::reconcile::ExternalChangeReason;
use apex_api::repository::WorkspaceRepository;
use apex_api::request::{format_request, RequestDocument};
use apex_api::request_panel::RequestPanel;
use apex_api::request_panel_flow::SendStep;
use apex_api::request_panel_start::{reload_document_for_resource, InitialDocument};
use apex_api::resolver::{DynamicVariableProvider, ResolverOptions};
use apex_api::response::{
    format_event, CompletedResponse, ExecutionEvent, NetworkMessage, ResponsePanel, ResponseState,
    StoredBody,
};
use apex_api::scope::{VariableContext, VariableScope};
use apex_api::sections::ResponseTab;
use apex_api::session::{RequestTabState, ResourceIdentity};
use apex_api::value::{VariableDefinition, VariableValue};
use apex_api::watch::{
    WorkspaceChange, WorkspaceChangeKind, WorkspaceChangedPath, WorkspaceResourceKind,
};

const ROOT: &str = "/workspace/demo";

struct NoDynamic;

impl DynamicVariableProvider for NoDynamic {
    fn resolve(&self, _name: &str) -> Option<VariableDefinition> {
        None
    }
}

fn document(id: &str, url: &str) -> RequestDocument {
    let mut request = default_request();
    request.id = StableId::parse(id).unwrap();
    request.name = id.to_owned();
    request.url = url.to_owned();
    RequestDocument::new(request)
}

fn place(slug: &str) -> String {
    format!("collections/users/{slug}.request.toml")
}

fn workspace() -> (WorkspaceRepository, FileTree) {
    let repository = WorkspaceRepository::new(ROOT).unwrap();
    let mut files = FileTree::new();
    repository
        .initialize(
            &mut files,
            &WorkspaceManifest::new(StableId::parse("workspace").unwrap(), "Demo".to_owned()),
        )
        .unwrap();
    files.perform(FileAction::MakeDirectories("collections/users".to_owned()));
    for slug in ["one", "two"] {
        repository
            .save_request(
                &mut files,
                &ResourcePath::new(&format!("{ROOT}/{}", place(slug))),
                &document(slug, "https://example.test"),
                None,
                &[],
            )
            .unwrap();
    }
    (repository, files)
}

fn store(slug: &str) -> DocumentStore {
    DocumentStore::new(
        WorkspaceRepository::new(ROOT).unwrap(),
        ResourcePath::new(&format!("{ROOT}/{}", place(slug))),
    )
}

fn panel(files: &FileTree) -> RequestPanel {
    let (request, fingerprint) = store("one").load(files).unwrap();
    RequestPanel::new(
        InitialDocument::Workspace {
            store: store("one"),
            request,
            fingerprint,
        },
        &[],
        None,
        &[],
    )
}

fn modified(slug: &str) -> WorkspaceChange {
    WorkspaceChange {
        kind: WorkspaceChangeKind::Modified,
        paths: vec![WorkspaceChangedPath {
            relative_path: ResourcePath::new(&place(slug)),
            resource: WorkspaceResourceKind::Request,
        }],
    }
}

fn edit(panel: &mut RequestPanel, url: &str) {
    panel.texts.url = url.to_owned();
    panel.mark_dirty_from_editor();
}

fn write_outside(files: &mut FileTree, slug: &str, url: &str) {
    let text = format_request(&document(slug, url));
    files.observe(place(slug), FileNode::File(text.into_bytes()));
}

#[test]
fn switching_tabs_keeps_edits() {
    let (_, files) = workspace();
    let mut panel = panel(&files);
    edit(&mut panel, "https://edited.test");
    panel.open_document(store("two"), &files).unwrap();
    assert_eq!(panel.base_request.name, "two");
    assert_eq!(panel.session.tabs().len(), 2);
    panel.activate_tab(0).unwrap();
    assert_eq!(panel.texts.url, "https://edited.test");
    assert!(panel.dirty);
    assert_eq!(panel.title(), "GET one •");
    assert!(panel.activate_tab(5).is_err());
}

#[test]
fn unsaved_tabs_are_not_closed() {
    let (_, files) = workspace();
    let mut panel = panel(&files);
    panel.open_document(store("two"), &files).unwrap();
    edit(&mut panel, "https://edited.test");
    assert_eq!(
        panel.close_tab(1),
        Err("Save or discard changes in 'two' before closing the tab".to_owned())
    );
    assert!(panel.close_other_tabs(0).is_err());
    assert!(panel.close_tabs_to_right(0).is_err());
    assert_eq!(panel.session.tabs().len(), 2);
    assert_eq!(panel.close_tab(0), Ok(()));
    assert_eq!(panel.texts.url, "https://edited.test");
}

#[test]
fn closed_tabs_come_back() {
    let (_, files) = workspace();
    let mut panel = panel(&files);
    panel.open_document(store("two"), &files).unwrap();
    panel.close_tab(1).unwrap();
    assert_eq!(panel.base_request.name, "one");
    let index = panel.begin_reopen().expect("a closed tab");
    let (request, fingerprint) = store("two").load(&files).unwrap();
    let loaded = OpenRequestDocument::opened(request, Some(store("two")), Some(fingerprint), None, false);
    panel.finish_reopen(index, Ok(loaded)).unwrap();
    assert_eq!(panel.base_request.name, "two");
    panel.close_tab(1).unwrap();
    let index = panel.begin_reopen().expect("a closed tab");
    assert_eq!(
        panel.finish_reopen(index, Err("file is gone".to_owned())),
        Err("Could not reopen 'two': file is gone".to_owned())
    );
    assert_eq!(panel.session.tabs().len(), 1);
}

#[test]
fn tabs_are_pinned_moved_and_walked() {
    let (_, files) = workspace();
    let mut panel = panel(&files);
    panel.open_document(store("two"), &files).unwrap();
    panel.activate_relative_tab(true).unwrap();
    assert_eq!(panel.session.active_index(), Some(0));
    panel.activate_relative_tab(false).unwrap();
    assert_eq!(panel.session.active_index(), Some(1));
    panel.toggle_pin(1);
    assert!(panel.session.tabs().iter().any(|tab| tab.pinned && tab.title == "two"));
    let strip = panel.tab_strip(8);
    assert_eq!((strip.start, strip.end), (0, 2));
    assert!(strip.labels.iter().any(|label| label.starts_with("📌 two")));
}

#[test]
fn saving_writes_what_is_shown() {
    let (_, mut files) = workspace();
    let mut panel = panel(&files);
    edit(&mut panel, "https://saved.test");
    panel.cycle_method();
    let path = panel.save_draft(&mut files, &[]).unwrap();
    assert_eq!(path.as_text(), "/workspace/demo/collections/users/one.request.toml");
    assert!(!panel.dirty);
    let (request, _) = store("one").load(&files).unwrap();
    assert_eq!(request.url, "https://saved.test");
    assert_eq!(request.method, HttpMethod::Post);
}

#[test]
fn refused_saves_change_nothing() {
    let (_, mut files) = workspace();
    let mut panel = panel(&files);
    edit(&mut panel, "https://saved.test");
    write_outside(&mut files, "one", "https://outside.test");
    assert!(panel.save_draft(&mut files, &[]).is_err());
    assert!(panel.dirty);
    assert_eq!(store("one").load(&files).unwrap().0.url, "https://outside.test");
    let leak = ["url holds a token".to_owned()];
    write_outside(&mut files, "one", "https://example.test");
    assert!(panel.save_draft(&mut files, &leak).is_err());
    assert_eq!(store("one").load(&files).unwrap().0.url, "https://example.test");
}

#[test]
fn clean_requests_may_be_reloaded() {
    let (repository, mut files) = workspace();
    let mut panel = panel(&files);
    write_outside(&mut files, "one", "https://outside.test");
    let check = panel.observe_workspace_change(&repository, &modified("one")).expect("a check");
    assert_eq!(check.reason, ExternalChangeReason::Modified);
    let found = check.store.load(&files);
    panel.finish_check(check, found);
    assert!(matches!(panel.external_state, RequestExternalState::ReloadAvailable(_)));
    let banner = panel.external_state.banner().expect("a banner");
    assert!(!banner.conflict);
    assert_eq!(banner.reload_label.as_deref(), Some("Reload from disk"));
    assert!(panel.save_draft(&mut files, &[]).is_err());
    panel.reload_external();
    assert_eq!(panel.texts.url, "https://outside.test");
    assert!(matches!(panel.external_state, RequestExternalState::InSync));
}

#[test]
fn edited_requests_are_in_conflict() {
    let (repository, mut files) = workspace();
    let mut panel = panel(&files);
    edit(&mut panel, "https://mine.test");
    write_outside(&mut files, "one", "https://outside.test");
    let check = panel.observe_workspace_change(&repository, &modified("one")).expect("a check");
    let found = check.store.load(&files);
    panel.finish_check(check, found);
    assert!(matches!(panel.external_state, RequestExternalState::Conflict(_)));
    assert_eq!(panel.texts.url, "https://mine.test");
    assert!(panel.external_state.has_attention());
    assert_eq!(panel.title(), "GET one • ⚠");
}

#[test]
fn late_checks_are_passed_over() {
    let (repository, mut files) = workspace();
    let mut panel = panel(&files);
    write_outside(&mut files, "one", "https://outside.test");
    let late = panel.observe_workspace_change(&repository, &modified("one")).expect("a check");
    let found = late.store.load(&files);
    let check = panel.observe_workspace_change(&repository, &modified("one")).expect("a check");
    panel.finish_check(late, found);
    assert!(matches!(panel.external_state, RequestExternalState::Checking { .. }));
    panel.finish_check(check, Err("unreadable".to_owned()));
    match &panel.external_state {
        RequestExternalState::Failed { message, .. } => assert_eq!(
            message,
            "the request was modified externally; disk verification failed: unreadable"
        ),
        _ => panic!("the check failed"),
    }
}

#[test]
fn other_requests_are_left_alone() {
    let (repository, files) = workspace();
    let mut panel = panel(&files);
    assert!(panel.observe_workspace_change(&repository, &modified("two")).is_none());
    assert!(matches!(panel.external_state, RequestExternalState::InSync));
}

#[test]
fn one_request_is_sent_at_a_time() {
    let (_, files) = workspace();
    let mut panel = panel(&files);
    edit(&mut panel, "https://{{host}}/users");
    let mut context = VariableContext::default();
    let options = ResolverOptions::default();
    assert!(matches!(
        panel.start_send(&Some("no variables".to_owned()), &context, &NoDynamic, options),
        SendStep::VariablesUnavailable(_)
    ));
    context.layer_mut(VariableScope::Workspace).insert(
        "host".to_owned(),
        VariableDefinition {
            value: VariableValue::String("api.test".to_owned()),
            sensitivity: apex_api::domain::ValueSensitivity::Public,
            enabled: true,
            description: None,
        },
    );
    let generation = match panel.start_send(&None, &context, &NoDynamic, options) {
        SendStep::Send {
            request,
            resource_root,
            generation,
        } => {
            assert_eq!(request.url, "https://api.test/users");
            assert_eq!(resource_root.unwrap().as_text(), ROOT);
            generation
        }
        _ => panic!("the request is sent"),
    };
    assert!(panel.running);
    assert!(matches!(
        panel.start_send(&None, &context, &NoDynamic, options),
        SendStep::AlreadyRunning
    ));
    panel.hear(generation - 1, NetworkMessage::Cancelled);
    assert!(panel.running);
    panel.hear(generation, NetworkMessage::Cancelled);
    assert!(!panel.running);
    assert_eq!(panel.response.summary(), "Cancelled");
}

#[test]
fn unreadable_editors_are_not_sent() {
    let (_, files) = workspace();
    let mut panel = panel(&files);
    panel.texts.headers = "no colon".to_owned();
    assert!(panel.try_current_request().is_err());
    assert!(matches!(
        panel.start_send(
            &None,
            &VariableContext::default(),
            &NoDynamic,
            ResolverOptions::default()
        ),
        SendStep::Invalid(_)
    ));
    assert!(!panel.running);
    panel.fail_send("request".to_owned(), "bad header".to_owned());
    assert_eq!(panel.response.summary(), "request: bad header");
}

#[test]
fn drafts_are_kept_apart() {
    let state = draft_state_root(None, Some("/home/me")).unwrap();
    assert_eq!(state.as_text(), "/home/me/.local/state");
    assert_eq!(draft_state_root(Some("/state"), None).unwrap().as_text(), "/state");
    assert_eq!(
        draft_state_root(None, None),
        Err("neither XDG_STATE_HOME nor HOME is set".to_owned())
    );
    assert_eq!(
        tab_session_state_path(&state).as_text(),
        "/home/me/.local/state/apex-api/ui-session.json"
    );
    let mut drafts = FileTree::new();
    let id = StableId::parse("draft-one").unwrap();
    let (store, found) = DocumentStore::open_draft_for(&state, &drafts, &id).unwrap();
    assert!(found.is_none());
    assert_eq!(
        store.path().as_text(),
        "/home/me/.local/state/apex-api/draft-workspace/collections/local-drafts/draft-one.request.toml"
    );
    let request = document("draft-one", "https://draft.test").request;
    store.save(&mut drafts, &request, None, &[]).unwrap();
    let resource = ResourceIdentity::Draft(id);
    let opened =
        reload_document_for_resource(&resource, false, &state, &drafts, None, &FileTree::new()).unwrap();
    assert_eq!(opened.request.url, "https://draft.test");
    let gone = ResourceIdentity::Draft(StableId::parse("gone").unwrap());
    assert!(matches!(
        reload_document_for_resource(&gone, false, &state, &drafts, None, &FileTree::new()),
        Err(e) if e == "draft 'gone' no longer exists"
    ));
    assert!(workspace_store_for_request(&ResourcePath::new("/nowhere/x"), None).is_err());
}

#[test]
fn a_panel_starts_with_the_tabs_it_is_given() {
    let (_, files) = workspace();
    let (request, fingerprint) = store("one").load(&files).unwrap();
    let (other, other_fingerprint) = store("two").load(&files).unwrap();
    let path = |slug: &str| ResourceIdentity::WorkspaceRequest(ResourcePath::new(&format!("{ROOT}/{}", place(slug))));
    let tabs = [
        RequestTabState::saved(path("two"), "two"),
        RequestTabState::saved(path("three"), "three"),
    ];
    let panel = RequestPanel::new(
        InitialDocument::Workspace {
            store: store("one"),
            request,
            fingerprint,
        },
        &tabs,
        Some(path("two")),
        &[
            Some(OpenRequestDocument::opened(
                other,
                Some(store("two")),
                Some(other_fingerprint),
                None,
                false,
            )),
            None,
        ],
    );
    let titles = panel.session.tabs().iter().map(|tab| tab.title.as_str()).collect::<Vec<_>>();
    assert_eq!(titles, ["two", "one"]);
    assert_eq!(panel.base_request.name, "two");
}

#[test]
fn requests_from_history_open_in_tabs_of_their_own() {
    let (_, files) = workspace();
    let mut panel = panel(&files);
    let old = document("old", "https://old.test").request;
    assert_eq!(
        panel.open_history_document(old.clone(), Err("no state directory".to_owned())),
        Err("no state directory".to_owned())
    );
    assert_eq!(panel.session.tabs().len(), 1);
    let state = ResourcePath::new("/state");
    let (kept, _) = DocumentStore::open_draft_for(&state, &FileTree::new(), &old.id).unwrap();
    panel.open_history_document(old, Ok((kept, None))).unwrap();
    assert_eq!(panel.session.tabs().len(), 2);
    assert_eq!(panel.session.active().unwrap().title, "old (history)");
    assert!(panel.dirty);
    panel.new_draft(Err("no state directory".to_owned()));
    assert_eq!(panel.document_error.as_deref(), Some("no state directory"));
    assert_eq!(
        panel.save_draft(&mut FileTree::new(), &[]),
        Err("no state directory".to_owned())
    );
}

#[test]
fn events_are_shown_in_words() {
    assert_eq!(
        format_event(&ExecutionEvent::UploadProgress {
            sent_bytes: 3,
            total_bytes: None
        }),
        "Upload: 3/?"
    );
    assert_eq!(
        format_event(&ExecutionEvent::StreamItem {
            sequence: 4,
            kind: "message".to_owned(),
            preview: "hi".to_owned()
        }),
        "Stream 4 [message]: hi"
    );
    let mut panel = ResponsePanel::new();
    assert_eq!(panel.summary(), "No response yet");
    panel.begin();
    panel.apply_message(NetworkMessage::Event(ExecutionEvent::PhaseStarted("dns".to_owned())));
    panel.apply_message(NetworkMessage::Event(ExecutionEvent::Completed));
    assert_eq!(panel.console, ["Phase: dns", "Completed"]);
}

#[test]
fn responses_are_shown_by_tab() {
    let mut panel = ResponsePanel::new();
    panel.apply_message(NetworkMessage::Completed(CompletedResponse {
        status: Some(200),
        status_text: Some("OK".to_owned()),
        received_bytes: 5,
        protocol_version: "HTTP/2".to_owned(),
        headers: vec![("a".to_owned(), "b".to_owned())],
        timing: vec![("total".to_owned(), "3ms".to_owned())],
        stored_body: StoredBody::InMemory(vec![b'h', 0xff, b'i']),
    }));
    assert!(matches!(panel.state, ResponseState::Completed(_)));
    assert_eq!(panel.summary(), "200 OK · 5 bytes · HTTP/2");
    assert_eq!(panel.body_preview(), "h\u{fffd}i");
    panel.selected_tab = ResponseTab::Headers;
    assert_eq!(panel.content(), "a: b");
    panel.selected_tab = ResponseTab::Timeline;
    assert_eq!(panel.content(), "total: 3ms");
    panel.selected_tab = ResponseTab::Tests;
    assert_eq!(panel.content(), "Assertions have not run for this request.");
    panel.reset();
    assert_eq!(panel.summary(), "No response yet");
}

#[test]
fn tabs_change_places() {
    let (_, files) = workspace();
    let mut panel = panel(&files);
    panel.open_document(store("two"), &files).unwrap();
    panel.move_tab(0, 1).unwrap();
    let titles = panel.session.tabs().iter().map(|tab| tab.title.as_str()).collect::<Vec<_>>();
    assert_eq!(titles, ["two", "one"]);
    assert_eq!(panel.base_request.name, "two");
    assert!(panel.move_tab(0, 9).is_err());
}

#[test]
fn a_check_that_does_not_begin_is_reported() {
    let (repository, files) = workspace();
    let mut panel = panel(&files);
    let check = panel.observe_workspace_change(&repository, &modified("one")).expect("a check");
    panel.check_not_started(&check, "no thread".to_owned());
    assert!(matches!(
        &panel.external_state,
        RequestExternalState::Failed { message, conflict: false } if message == "no thread"
    ));
}

#[test]
fn the_usual_draft_is_opened_once() {
    let (_, files) = workspace();
    let mut panel = panel(&files);
    let state = ResourcePath::new("/state");
    let (kept, found) = DocumentStore::open_draft(&state, &FileTree::new()).unwrap();
    assert!(found.is_none());
    assert!(kept.path().as_text().ends_with("/gui-draft.request.toml"));
    panel.new_draft(Ok((kept, None)));
    assert_eq!(panel.base_request, default_request());
    assert!(panel.dirty);
    panel.activate_tab(0).unwrap();
    panel.new_draft(Err("unused".to_owned()));
    assert_eq!(panel.session.tabs().len(), 2);
    assert_eq!(panel.session.active_index(), Some(1));
}

#[test]
fn runs_take_every_request_of_a_workspace() {
    let (repository, files) = workspace();
    let context = VariableContext::default();
    let config = "concurrency=4\nretries=2\nfailure_policy=stop\nreport=junit";
    let run = |running: bool, open: bool, config: &str| {
        let target = if open { Some((&repository, &files)) } else { None };
        prepare_run(running, target, config, None, &context, &NoDynamic)
    };
    let prepared = run(false, true, config).expect("a run");
    let names = prepared.items.iter().map(|item| item.name.as_str()).collect::<Vec<_>>();
    assert_eq!(names, ["one", "two"]);
    assert_eq!(
        run(true, true, config).err(),
        Some(RunRefusal::Idle("A collection run is already active".to_owned()))
    );
    assert_eq!(
        run(false, false, config).err(),
        Some(RunRefusal::Failed("No workspace is open".to_owned()))
    );
    assert!(matches!(run(false, true, "concurrency=0").err(), Some(RunRefusal::Failed(_))));
}
