//! Changes on disk: which count, and how they are kept until they are read.
use apex_api::paths::ResourcePath;
use apex_api::watch::{
    classify_resource, normalize_event, rescan_change, FileEvent, FileEventKind, WatchQueue,
    WatchSignal, WorkspaceChange, WorkspaceChangeKind, WorkspaceChangedPath,
    WorkspaceResourceKind, WorkspaceWatchError,
};

fn root() -> ResourcePath {
    ResourcePath::new("/workspace/demo")
}

fn event(kind: FileEventKind, paths: &[&str]) -> FileEvent {
    FileEvent {
        kind,
        need_rescan: false,
        paths: paths.iter().map(|path| root().join(path)).collect(),
    }
}

#[test]
fn normalizes_request_create_events_to_relative_paths() {
    let event = event(FileEventKind::Create, &["collections/users/get.request.toml"]);
    let change = normalize_event(&root(), &event).expect("relevant event");
    assert_eq!(change.kind, WorkspaceChangeKind::Created);
    assert_eq!(
        change.paths,
        vec![WorkspaceChangedPath {
            relative_path: ResourcePath::new("collections/users/get.request.toml"),
            resource: WorkspaceResourceKind::Request,
        }]
    );
}

#[test]
fn rename_events_preserve_source_and_destination_order() {
    let event = event(
        FileEventKind::Rename,
        &["collections/users/old.request.toml", "collections/users/new.request.toml"],
    );
    let change = normalize_event(&root(), &event).expect("relevant event");
    assert_eq!(change.kind, WorkspaceChangeKind::Renamed);
    assert_eq!(
        change
            .paths
            .iter()
            .map(|path| path.relative_path.as_text())
            .collect::<Vec<_>>(),
        vec!["collections/users/old.request.toml", "collections/users/new.request.toml"]
    );
}

#[test]
fn ignores_access_internal_and_temporary_events() {
    assert_eq!(
        normalize_event(&root(), &event(FileEventKind::Access, &["apex.toml"])),
        None
    );
    for path in [
        ".git/index",
        ".apex/history.sqlite",
        "../outside.request.toml",
        "collections/users/.get.request.toml.123.tmp",
        "collections/users/get.request.toml.swp",
    ] {
        let event = event(FileEventKind::Modify, &[path]);
        assert_eq!(normalize_event(&root(), &event), None, "path: {path}");
    }
}

#[test]
fn queue_overflow_requires_a_rescan() {
    let mut queue = WatchQueue::new(1);
    queue.try_enqueue_event(WatchSignal::Event(event(FileEventKind::Modify, &["apex.toml"])));
    queue.try_enqueue_event(WatchSignal::Event(event(FileEventKind::Modify, &["variables.toml"])));

    assert_eq!(queue.take_overflow(), Some(rescan_change()));
    assert_eq!(queue.take_overflow(), None);
    let change = queue.try_recv(&root()).expect("reads").expect("first queued event");
    assert_eq!(change.paths[0].relative_path.as_text(), "apex.toml");
    assert_eq!(queue.try_recv(&root()), Ok(None));
}

#[test]
fn rescan_events_are_never_dropped() {
    let event = FileEvent {
        kind: FileEventKind::Unclear,
        need_rescan: true,
        paths: Vec::new(),
    };
    assert_eq!(
        normalize_event(&root(), &event),
        Some(WorkspaceChange {
            kind: WorkspaceChangeKind::RescanRequired,
            paths: Vec::new(),
        })
    );
}

#[test]
fn classifies_workspace_resource_families() {
    let cases = [
        ("apex.toml", WorkspaceResourceKind::Manifest),
        ("variables.toml", WorkspaceResourceKind::Variables),
        ("environments/development.toml", WorkspaceResourceKind::Environment),
        ("collections/users/collection.toml", WorkspaceResourceKind::Collection),
        ("schemas/users.json", WorkspaceResourceKind::Schema),
        ("grpc/users.proto", WorkspaceResourceKind::Grpc),
        ("mocks/users.toml", WorkspaceResourceKind::Mock),
        ("profiles/team.toml", WorkspaceResourceKind::Profile),
        ("README.md", WorkspaceResourceKind::Other),
    ];
    for (path, expected) in cases {
        assert_eq!(classify_resource(&ResourcePath::new(path)), expected, "path: {path}");
    }
}

#[test]
fn a_queue_that_lost_its_source_says_so() {
    let mut queue = WatchQueue::new(4);
    queue.try_enqueue_event(WatchSignal::Failed("backend gone".to_owned()));
    queue.close();
    assert_eq!(
        queue.try_recv(&root()),
        Err(WorkspaceWatchError::Backend("backend gone".to_owned()))
    );
    assert_eq!(queue.try_recv(&root()), Err(WorkspaceWatchError::Disconnected));
    assert_eq!(
        WorkspaceWatchError::Disconnected.message(),
        "workspace watcher event channel disconnected"
    );
}
