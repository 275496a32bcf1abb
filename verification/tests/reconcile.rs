//! What a change of a workspace asks of the open request.
use apex_api::paths::ResourcePath;
use apex_api::reconcile::{
    reconcile_workspace_change, DocumentReconcileAction, ExternalChangeReason,
};
use apex_api::watch::{
    WorkspaceChange, WorkspaceChangeKind, WorkspaceChangedPath, WorkspaceResourceKind,
};

const GET: &str = "collections/users/get.request.toml";

fn path(value: &str) -> ResourcePath {
    ResourcePath::new(value)
}

fn request_path(value: &str) -> WorkspaceChangedPath {
    WorkspaceChangedPath {
        relative_path: path(value),
        resource: WorkspaceResourceKind::Request,
    }
}

#[test]
fn clean_modified_document_is_verified_before_reload() {
    let change = WorkspaceChange {
        kind: WorkspaceChangeKind::Modified,
        paths: vec![request_path(GET)],
    };
    let reconciliation = reconcile_workspace_change(Some(&path(GET)), false, &change);
    assert!(reconciliation.refresh_tree);
    assert_eq!(
        reconciliation.document,
        DocumentReconcileAction::Verify {
            path: path(GET),
            reason: ExternalChangeReason::Modified,
            conflict_if_changed: false,
        }
    );
}

#[test]
fn dirty_modified_document_verifies_without_allowing_silent_reload() {
    let change = WorkspaceChange {
        kind: WorkspaceChangeKind::Modified,
        paths: vec![request_path(GET)],
    };
    let reconciliation = reconcile_workspace_change(Some(&path(GET)), true, &change);
    assert_eq!(
        reconciliation.document,
        DocumentReconcileAction::Verify {
            path: path(GET),
            reason: ExternalChangeReason::Modified,
            conflict_if_changed: true,
        }
    );
}

#[test]
fn removed_document_records_dirty_state() {
    let change = WorkspaceChange {
        kind: WorkspaceChangeKind::Removed,
        paths: vec![request_path(GET)],
    };
    let reconciliation = reconcile_workspace_change(Some(&path(GET)), true, &change);
    assert_eq!(
        reconciliation.document,
        DocumentReconcileAction::Missing {
            path: path(GET),
            reason: ExternalChangeReason::Removed,
            had_unsaved_changes: true,
        }
    );
}

#[test]
fn rename_follows_destination_and_preserves_conflict_policy() {
    let change = WorkspaceChange {
        kind: WorkspaceChangeKind::Renamed,
        paths: vec![
            request_path("collections/users/old.request.toml"),
            request_path("collections/users/new.request.toml"),
        ],
    };
    let reconciliation = reconcile_workspace_change(
        Some(&path("collections/users/old.request.toml")),
        true,
        &change,
    );
    assert_eq!(
        reconciliation.document,
        DocumentReconcileAction::Verify {
            path: path("collections/users/new.request.toml"),
            reason: ExternalChangeReason::Renamed {
                from: path("collections/users/old.request.toml"),
                to: Some(path("collections/users/new.request.toml")),
            },
            conflict_if_changed: true,
        }
    );
}

#[test]
fn rescan_rechecks_active_document_and_tree() {
    let change = WorkspaceChange {
        kind: WorkspaceChangeKind::RescanRequired,
        paths: Vec::new(),
    };
    let reconciliation = reconcile_workspace_change(Some(&path(GET)), false, &change);
    assert!(reconciliation.refresh_tree);
    assert_eq!(
        reconciliation.document,
        DocumentReconcileAction::Verify {
            path: path(GET),
            reason: ExternalChangeReason::RescanRequired,
            conflict_if_changed: false,
        }
    );
}

#[test]
fn unrelated_environment_change_does_not_touch_request_state() {
    let change = WorkspaceChange {
        kind: WorkspaceChangeKind::Modified,
        paths: vec![WorkspaceChangedPath {
            relative_path: path("environments/development.toml"),
            resource: WorkspaceResourceKind::Environment,
        }],
    };
    let reconciliation = reconcile_workspace_change(Some(&path(GET)), false, &change);
    assert!(!reconciliation.refresh_tree);
    assert_eq!(reconciliation.document, DocumentReconcileAction::Unaffected);
}

#[test]
fn reasons_are_told_in_words() {
    assert_eq!(
        ExternalChangeReason::Modified.summary(),
        "the request was modified externally"
    );
    let renamed = ExternalChangeReason::Renamed {
        from: path("a"),
        to: Some(path("b")),
    };
    assert_eq!(renamed.summary(), "the request was renamed externally from a to b");
    let moved = ExternalChangeReason::Renamed {
        from: path("a"),
        to: None,
    };
    assert_eq!(moved.summary(), "the request path changed externally from a");
}
