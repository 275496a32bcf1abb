//! What a change on disk asks of the request that is open.
use crate::message::{concat2, concat4};
use crate::paths::{components, ResourcePath};
use crate::watch::{
    changed_path_views, ChangeView, ChangedPathView, WorkspaceChange, WorkspaceChangeKind,
    WorkspaceChangedPath, WorkspaceResourceKind,
};
use vstd::prelude::*;

verus! {

/// What happened to the open request outside of the editor.
#[derive(Clone, Debug, PartialEq, Eq)]
pub enum ExternalChangeReason {
    Created,
    Modified,
    Removed,
    Renamed { from: ResourcePath, to: Option<ResourcePath> },
    RescanRequired,
}

/// What happened to the open request, by its contents.
pub enum ReasonView {
    Created,
    Modified,
    Removed,
    Renamed { from: Seq<char>, to: Option<Seq<char>> },
    RescanRequired,
}

/// The contents of an optional path.
pub open spec fn optional_path(path: Option<ResourcePath>) -> Option<Seq<char>> {
    match path {
        Some(p) => Some(p@),
        None => None,
    }
}

impl View for ExternalChangeReason {
    type V = ReasonView;

    open spec fn view(&self) -> ReasonView {
        match self {
            ExternalChangeReason::Created => ReasonView::Created,
            ExternalChangeReason::Modified => ReasonView::Modified,
            ExternalChangeReason::Removed => ReasonView::Removed,
            ExternalChangeReason::Renamed { from, to } => ReasonView::Renamed {
                from: from@,
                to: optional_path(*to),
            },
            ExternalChangeReason::RescanRequired => ReasonView::RescanRequired,
        }
    }
}

/// What is said of a change.
pub open spec fn reason_text(reason: ReasonView) -> Seq<char> {
    match reason {
        ReasonView::Created => "the request was created externally"@,
        ReasonView::Modified => "the request was modified externally"@,
        ReasonView::Removed => "the request was removed externally"@,
        ReasonView::Renamed { from, to } => match to {
            Some(to) => "the request was renamed externally from "@ + from + " to "@ + to,
            None => "the request path changed externally from "@ + from,
        },
        ReasonView::RescanRequired =>
            "the filesystem watcher requires the workspace to be rescanned"@,
    }
}

impl ExternalChangeReason {
    /// The same reason.
    pub fn copy(&self) -> (r: ExternalChangeReason)
        ensures
            r@ == self@,
    {
        match self {
            ExternalChangeReason::Created => ExternalChangeReason::Created,
            ExternalChangeReason::Modified => ExternalChangeReason::Modified,
            ExternalChangeReason::Removed => ExternalChangeReason::Removed,
            ExternalChangeReason::Renamed { from, to } => {
                let to: Option<ResourcePath> = match to {
                    Some(p) => Some(p.copy()),
                    None => None,
                };
                ExternalChangeReason::Renamed { from: from.copy(), to }
            },
            ExternalChangeReason::RescanRequired => ExternalChangeReason::RescanRequired,
        }
    }

    /// What is said of the change.
    pub fn summary(&self) -> (r: String)
        ensures
            r@ == reason_text(self@),
    {
        match self {
            ExternalChangeReason::Created => "the request was created externally".to_owned(),
            ExternalChangeReason::Modified => "the request was modified externally".to_owned(),
            ExternalChangeReason::Removed => "the request was removed externally".to_owned(),
            ExternalChangeReason::Renamed { from, to } => match to {
                Some(to) => concat4(
                    "the request was renamed externally from ",
                    from.as_text(),
                    " to ",
                    to.as_text(),
                ),
                None => concat2("the request path changed externally from ", from.as_text()),
            },
            ExternalChangeReason::RescanRequired =>
                "the filesystem watcher requires the workspace to be rescanned".to_owned(),
        }
    }
}

/// What has to be done about the open request.
#[derive(Clone, Debug, PartialEq, Eq)]
pub enum DocumentReconcileAction {
    Unaffected,
    /// The file has to be read again; a difference is a conflict where there are unsaved
    /// changes.
    Verify { path: ResourcePath, reason: ExternalChangeReason, conflict_if_changed: bool },
    Missing { path: ResourcePath, reason: ExternalChangeReason, had_unsaved_changes: bool },
}

/// What has to be done about the open request, by its contents.
pub enum ActionView {
    Unaffected,
    Verify { path: Seq<char>, reason: ReasonView, conflict_if_changed: bool },
    Missing { path: Seq<char>, reason: ReasonView, had_unsaved_changes: bool },
}

impl View for DocumentReconcileAction {
    type V = ActionView;

    open spec fn view(&self) -> ActionView {
        match self {
            DocumentReconcileAction::Unaffected => ActionView::Unaffected,
            DocumentReconcileAction::Verify { path, reason, conflict_if_changed } =>
                ActionView::Verify {
                path: path@,
                reason: reason@,
                conflict_if_changed: *conflict_if_changed,
            },
            DocumentReconcileAction::Missing { path, reason, had_unsaved_changes } =>
                ActionView::Missing {
                path: path@,
                reason: reason@,
                had_unsaved_changes: *had_unsaved_changes,
            },
        }
    }
}

/// What a change asks of the list of requests and of the open request.
#[derive(Clone, Debug, PartialEq, Eq)]
pub struct WorkspaceReconciliation {
    pub refresh_tree: bool,
    pub document: DocumentReconcileAction,
}

/// What a change asks, by its contents.
pub struct ReconciliationView {
    pub refresh_tree: bool,
    pub document: ActionView,
}

impl View for WorkspaceReconciliation {
    type V = ReconciliationView;

    open spec fn view(&self) -> ReconciliationView {
        ReconciliationView { refresh_tree: self.refresh_tree, document: self.document@ }
    }
}

/// Whether two texts write the same path.
pub open spec fn same_paths(a: Seq<char>, b: Seq<char>) -> bool {
    components(a) == components(b)
}

/// Whether a path stands among those that changed.
pub open spec fn mentions(paths: Seq<ChangedPathView>, path: Seq<char>) -> bool {
    exists|i: int| 0 <= i < paths.len() && same_paths((#[trigger] paths[i]).relative_path, path)
}

/// Whether a change can change the list of requests.
pub open spec fn touches_tree(change: ChangeView) -> bool {
    ||| change.kind == WorkspaceChangeKind::RescanRequired
    ||| exists|i: int|
        0 <= i < change.paths.len() && ((#[trigger] change.paths[i]).resource
            == WorkspaceResourceKind::Request || change.paths[i].resource
            == WorkspaceResourceKind::Collection)
}

/// What a rename asks of the open request: the request is followed to where it went.
pub open spec fn rename_action(current: Seq<char>, dirty: bool, paths: Seq<ChangedPathView>) -> ActionView {
    if paths.len() == 0 {
        ActionView::Unaffected
    } else {
        let from = paths[0].relative_path;
        let to = if paths.len() > 1 {
            Some(paths[1].relative_path)
        } else {
            None
        };
        if same_paths(from, current) {
            ActionView::Verify {
                path: match to {
                    Some(p) => p,
                    None => current,
                },
                reason: ReasonView::Renamed { from, to },
                conflict_if_changed: dirty,
            }
        } else if to is Some && same_paths(to->Some_0, current) {
            ActionView::Verify {
                path: current,
                reason: ReasonView::Renamed { from, to },
                conflict_if_changed: dirty,
            }
        } else {
            ActionView::Unaffected
        }
    }
}

/// What a change asks of the open request.
pub open spec fn document_action(current: Seq<char>, dirty: bool, change: ChangeView) -> ActionView {
    match change.kind {
        WorkspaceChangeKind::RescanRequired => ActionView::Verify {
            path: current,
            reason: ReasonView::RescanRequired,
            conflict_if_changed: dirty,
        },
        WorkspaceChangeKind::Renamed => rename_action(current, dirty, change.paths),
        WorkspaceChangeKind::Removed => if mentions(change.paths, current) {
            ActionView::Missing {
                path: current,
                reason: ReasonView::Removed,
                had_unsaved_changes: dirty,
            }
        } else {
            ActionView::Unaffected
        },
        WorkspaceChangeKind::Created => if mentions(change.paths, current) {
            ActionView::Verify {
                path: current,
                reason: ReasonView::Created,
                conflict_if_changed: dirty,
            }
        } else {
            ActionView::Unaffected
        },
        WorkspaceChangeKind::Modified => if mentions(change.paths, current) {
            ActionView::Verify {
                path: current,
                reason: ReasonView::Modified,
                conflict_if_changed: dirty,
            }
        } else {
            ActionView::Unaffected
        },
    }
}

/// What a change asks.
pub open spec fn reconciliation(current: Option<Seq<char>>, dirty: bool, change: ChangeView) -> ReconciliationView {
    ReconciliationView {
        refresh_tree: touches_tree(change),
        document: match current {
            None => ActionView::Unaffected,
            Some(path) => document_action(path, dirty, change),
        },
    }
}

fn list_mentions(paths: &[WorkspaceChangedPath], path: &ResourcePath) -> (r: bool)
    ensures
        r == mentions(changed_path_views(paths@), path@),
{
    let ghost all = changed_path_views(paths@);
    for i in 0..paths.len()
        invariant
            all == changed_path_views(paths@),
            forall|k: int| 0 <= k < i ==> !same_paths((#[trigger] all[k]).relative_path, path@),
    {
        assert(all[i as int] == paths@[i as int]@);
        if paths[i].relative_path.same_path(path) {
            return true;
        }
    }
    false
}

fn change_touches_tree(change: &WorkspaceChange) -> (r: bool)
    ensures
        r == touches_tree(change@),
{
    let ghost all = change@.paths;
    if change.kind == WorkspaceChangeKind::RescanRequired {
        return true;
    }
    for i in 0..change.paths.len()
        invariant
            all == change@.paths,
            forall|k: int|
                0 <= k < i ==> !((#[trigger] all[k]).resource == WorkspaceResourceKind::Request
                    || all[k].resource == WorkspaceResourceKind::Collection),
    {
        assert(all[i as int] == change.paths@[i as int]@);
        match change.paths[i].resource {
            WorkspaceResourceKind::Request => {
                return true;
            },
            WorkspaceResourceKind::Collection => {
                return true;
            },
            _ => {},
        }
    }
    false
}

fn reconcile_rename(current: &ResourcePath, dirty: bool, paths: &[WorkspaceChangedPath]) -> (r:
    DocumentReconcileAction)
    ensures
        r@ == rename_action(current@, dirty, changed_path_views(paths@)),
{
    let ghost all = changed_path_views(paths@);
    if paths.len() == 0 {
        return DocumentReconcileAction::Unaffected;
    }
    assert(all[0] == paths@[0]@);
    let from = &paths[0].relative_path;
    let to: Option<&ResourcePath> = if paths.len() > 1 {
        assert(all[1] == paths@[1]@);
        Some(&paths[1].relative_path)
    } else {
        None
    };
    if from.same_path(current) {
        return match to {
            Some(p) => DocumentReconcileAction::Verify {
                path: p.copy(),
                reason: ExternalChangeReason::Renamed { from: from.copy(), to: Some(p.copy()) },
                conflict_if_changed: dirty,
            },
            None => DocumentReconcileAction::Verify {
                path: current.copy(),
                reason: ExternalChangeReason::Renamed { from: from.copy(), to: None },
                conflict_if_changed: dirty,
            },
        };
    }
    match to {
        Some(p) => if p.same_path(current) {
            DocumentReconcileAction::Verify {
                path: current.copy(),
                reason: ExternalChangeReason::Renamed { from: from.copy(), to: Some(p.copy()) },
                conflict_if_changed: dirty,
            }
        } else {
            DocumentReconcileAction::Unaffected
        },
        None => DocumentReconcileAction::Unaffected,
    }
}

/// Finds what a change asks of the list of requests, and of the request that is open.
pub fn reconcile_workspace_change(
    current_request: Option<&ResourcePath>,
    dirty: bool,
    change: &WorkspaceChange,
) -> (r: WorkspaceReconciliation)
    ensures
        r@ == reconciliation(
            match current_request {
                Some(p) => Some(p@),
                None => None,
            },
            dirty,
            change@,
        ),
{
    let refresh_tree = change_touches_tree(change);
    let current = match current_request {
        Some(p) => p,
        None => {
            return WorkspaceReconciliation {
                refresh_tree,
                document: DocumentReconcileAction::Unaffected,
            };
        },
    };
    let document = match change.kind {
        WorkspaceChangeKind::RescanRequired => DocumentReconcileAction::Verify {
            path: current.copy(),
            reason: ExternalChangeReason::RescanRequired,
            conflict_if_changed: dirty,
        },
        WorkspaceChangeKind::Renamed => reconcile_rename(current, dirty, change.paths.as_slice()),
        WorkspaceChangeKind::Removed => if list_mentions(change.paths.as_slice(), current) {
            DocumentReconcileAction::Missing {
                path: current.copy(),
                reason: ExternalChangeReason::Removed,
                had_unsaved_changes: dirty,
            }
        } else {
            DocumentReconcileAction::Unaffected
        },
        WorkspaceChangeKind::Created => if list_mentions(change.paths.as_slice(), current) {
            DocumentReconcileAction::Verify {
                path: current.copy(),
                reason: ExternalChangeReason::Created,
                conflict_if_changed: dirty,
            }
        } else {
            DocumentReconcileAction::Unaffected
        },
        WorkspaceChangeKind::Modified => if list_mentions(change.paths.as_slice(), current) {
            DocumentReconcileAction::Verify {
                path: current.copy(),
                reason: ExternalChangeReason::Modified,
                conflict_if_changed: dirty,
            }
        } else {
            DocumentReconcileAction::Unaffected
        },
    };
    WorkspaceReconciliation { refresh_tree, document }
}

/// Unsaved changes are never given up in silence: whatever happens on disk, a request with
/// unsaved changes is read again only as a conflict, and is only called missing together with
/// its unsaved changes.
pub proof fn law_unsaved_changes_are_kept(current: Seq<char>, change: ChangeView)
    ensures
        match reconciliation(Some(current), true, change).document {
            ActionView::Unaffected => true,
            ActionView::Verify { conflict_if_changed, .. } => conflict_if_changed,
            ActionView::Missing { had_unsaved_changes, .. } => had_unsaved_changes,
        },
{
}

/// Where events were missed, the open request is read again, and so is the list.
pub proof fn law_rescan_reads_everything(current: Seq<char>, dirty: bool, change: ChangeView)
    requires
        change.kind == WorkspaceChangeKind::RescanRequired,
    ensures
        reconciliation(Some(current), dirty, change).refresh_tree,
        reconciliation(Some(current), dirty, change).document == (ActionView::Verify {
            path: current,
            reason: ReasonView::RescanRequired,
            conflict_if_changed: dirty,
        }),
{
}

} // verus!
