//! Opening, checking, saving and sending the request that is edited.
use crate::document_store::{
    loaded_outcome, path_in_workspace, store_loaded, store_saved, DocumentStore, StoreView,
};
use crate::domain::{HttpRequest, RequestView};
use crate::editor::{default_request, draft_request};
use crate::editor_fields::said;
use crate::editor_request::request_edited;
use crate::external_state::{
    gone, save_refusal, ExternalView, PendingExternalDocument, PendingView, RequestExternalState,
};
use crate::files::{FileTree, FilesView};
use crate::fingerprint::FileFingerprint;
use crate::message::{concat2, concat3, concat4};
use crate::open_documents::{opened_document, OpenRequestDocument, OpenView};
use crate::paths::{components, joined, ResourcePath};
use crate::reconcile::{
    optional_path, reason_text, reconcile_workspace_change, reconciliation, ActionView,
    DocumentReconcileAction, ExternalChangeReason, ReasonView,
};
use crate::repository::{expected_number, WorkspaceRepository};
use crate::request_panel::{
    active_marked, after_generation, applied, next_generation, restored, snapshot, tab_activated,
    PanelOutcome, PanelView, RequestPanel,
};
use crate::resolved_request::{
    request_heard, resolution_message, resolve_http_request, resolved_request, RequestSurroundings,
};
use crate::resolver::{DynamicVariableProvider, ResolverOptions};
use crate::response::{begun, heard, NetworkMessage, ResponseState, ResponseView};
use crate::scope::VariableContext;
use crate::session::{
    force_closed, key_of, lemma_tab_of, opened, reopened, tab_of, tab_views, IdentityView,
    RequestTabState, ResourceIdentity, SessionView, TabView,
};
use crate::text::{optional_text, texts};
use crate::watch::{ChangeView, WorkspaceChange};
use vstd::prelude::*;

verus! {

/// A look at the file of the request that has to be taken.
#[derive(Debug, PartialEq, Eq)]
pub struct FileCheck {
    pub store: DocumentStore,
    pub reason: ExternalChangeReason,
    pub conflict_if_changed: bool,
    pub generation: u64,
}

/// A look at the file of the request, by its contents.
pub struct CheckView {
    pub store: StoreView,
    pub reason: ReasonView,
    pub conflict_if_changed: bool,
    pub generation: u64,
}

impl View for FileCheck {
    type V = CheckView;

    open spec fn view(&self) -> CheckView {
        CheckView {
            store: self.store@,
            reason: self.reason@,
            conflict_if_changed: self.conflict_if_changed,
            generation: self.generation,
        }
    }
}

/// The path of the request that is edited under the root of a workspace.
pub open spec fn edited_path(v: PanelView, root: Seq<char>) -> Option<Seq<char>> {
    match v.store {
        Some(store) => path_in_workspace(store, root),
        None => None,
    }
}

/// What a change of the workspace asks for: a look at a file, or nothing more.
pub open spec fn change_seen(v: PanelView, root: Seq<char>, change: ChangeView) -> (
    Option<CheckView>,
    PanelView,
) {
    let generation = next_generation(v.external_generation);
    match reconciliation(edited_path(v, root), v.dirty, change).document {
        ActionView::Unaffected => (None, v),
        ActionView::Verify { path, reason, conflict_if_changed } => (
            Some(
                CheckView {
                    store: StoreView { root, path: joined(root, path) },
                    reason,
                    conflict_if_changed,
                    generation,
                },
            ),
            PanelView {
                external_generation: generation,
                external: ExternalView::Checking { reason },
                ..v
            },
        ),
        ActionView::Missing { path, reason, had_unsaved_changes } => (
            None,
            PanelView {
                external_generation: generation,
                external: gone(reason, path, had_unsaved_changes),
                ..v
            },
        ),
    }
}

/// The panel once a file was looked at: what an earlier look found is passed over.
pub open spec fn file_checked(
    v: PanelView,
    check: CheckView,
    found: Result<(RequestView, u64), Seq<char>>,
) -> PanelView {
    let conflict = check.conflict_if_changed || v.dirty;
    if v.external_generation != check.generation {
        v
    } else {
        PanelView {
            external: match found {
                Ok((request, fingerprint)) => if v.fingerprint == Some(fingerprint)
                    && v.store is Some && components(v.store->Some_0.path) == components(
                    check.store.path,
                ) {
                    ExternalView::InSync
                } else {
                    let pending = PendingView {
                        store: check.store,
                        request,
                        fingerprint,
                        reason: check.reason,
                    };
                    if conflict {
                        ExternalView::Conflict(pending)
                    } else {
                        ExternalView::ReloadAvailable(pending)
                    }
                },
                Err(e) => ExternalView::Failed {
                    message: reason_text(check.reason) + "; disk verification failed: "@ + e,
                    conflict,
                },
            },
            ..v
        }
    }
}

/// What came of opening a request at a path, and the panel after it.
pub open spec fn document_opened(
    v: PanelView,
    store: StoreView,
    loaded: Result<(RequestView, u64), Seq<char>>,
) -> PanelOutcome {
    let s = snapshot(v);
    let resource = IdentityView::WorkspaceRequest(store.path);
    match tab_of(s.session.tabs, key_of(resource)) {
        Some(index) => tab_activated(s, index),
        None => match loaded {
            Err(e) => (Err(e), s),
            Ok((request, fingerprint)) => {
                let document = opened_document(
                    request,
                    Some(store),
                    Some(fingerprint),
                    None,
                    false,
                );
                let tab = TabView {
                    resource,
                    title: request.name,
                    dirty: false,
                    pinned: false,
                    preview: true,
                };
                (
                    Ok(()),
                    restored(
                        PanelView {
                            documents: s.documents.insert(key_of(resource), document),
                            session: opened(s.session, tab).1,
                            ..s
                        },
                        document,
                    ),
                )
            },
        },
    }
}

/// A tab of a request that was never saved.
pub open spec fn draft_tab(id: Seq<char>, title: Seq<char>) -> TabView {
    TabView {
        resource: IdentityView::Draft(id),
        title,
        dirty: true,
        pinned: false,
        preview: false,
    }
}

/// What came of opening a request out of the history, given where such a request is kept and
/// the fingerprint of what is there.
pub open spec fn history_opened(
    v: PanelView,
    request: RequestView,
    kept: Result<(StoreView, Option<u64>), Seq<char>>,
) -> PanelOutcome {
    let s = snapshot(v);
    let key = key_of(IdentityView::Draft(request.id));
    match kept {
        Err(e) => (Err(e), s),
        Ok((store, fingerprint)) => {
            let at = tab_of(s.session.tabs, key);
            if at is Some && s.session.tabs[at->Some_0].dirty {
                tab_activated(s, at->Some_0)
            } else {
                let document = opened_document(request, Some(store), fingerprint, None, true);
                let documents = s.documents.insert(key, document);
                let session = match at {
                    Some(i) => active_marked(SessionView { active: Some(i), ..s.session }, true),
                    None => opened(
                        s.session,
                        draft_tab(request.id, request.name + " (history)"@),
                    ).1,
                };
                (Ok(()), restored(PanelView { documents, session, ..s }, document))
            }
        },
    }
}

/// The panel with a new draft, given where it is kept and the fingerprint of what is there.
pub open spec fn draft_begun(v: PanelView, kept: Result<(StoreView, Option<u64>), Seq<char>>) -> PanelView {
    let s = snapshot(v);
    let request = draft_request();
    let key = key_of(IdentityView::Draft(request.id));
    match tab_of(s.session.tabs, key) {
        Some(index) => tab_activated(s, index).1,
        None => {
            let document = match kept {
                Ok((store, fingerprint)) => opened_document(
                    request,
                    Some(store),
                    fingerprint,
                    None,
                    true,
                ),
                Err(e) => opened_document(request, None, None, Some(e), true),
            };
            restored(
                PanelView {
                    documents: s.documents.insert(key, document),
                    session: opened(s.session, draft_tab(request.id, request.name)).1,
                    ..s
                },
                document,
            )
        },
    }
}

/// The contents of where a draft is kept, or of what is said in its place.
pub open spec fn kept_outcome(
    r: Result<(DocumentStore, Option<FileFingerprint>), String>,
) -> Result<(StoreView, Option<u64>), Seq<char>> {
    match r {
        Ok((store, fingerprint)) => Ok((store@, expected_number(fingerprint))),
        Err(e) => Err(e@),
    }
}

/// The request that would be saved and where, or why it may not be.
pub open spec fn save_checked(v: PanelView) -> Result<(RequestView, StoreView), Seq<char>> {
    match save_refusal(v.external) {
        Some(e) => Err(e),
        None => match v.error {
            Some(e) => Err(e),
            None => match request_edited(v.base, v.method, v.texts) {
                Err(e) => Err(e),
                Ok(request) => match v.store {
                    None => Err("document store is unavailable"@),
                    Some(store) => Ok((request, store)),
                },
            },
        },
    }
}

/// What came of saving the request, with the files and the panel after it.
pub open spec fn request_kept(v: PanelView, files: FilesView, leaks: Seq<Seq<char>>) -> (
    Result<Seq<char>, Seq<char>>,
    FilesView,
    PanelView,
) {
    match save_checked(v) {
        Err(e) => (Err(e), files, v),
        Ok((request, store)) => {
            let (r, after) = store_saved(files, store, request, v.fingerprint, leaks);
            match r {
                Err(e) => (Err(e), after, v),
                Ok(fingerprint) => (
                    Ok(store.path),
                    after,
                    snapshot(
                        PanelView {
                            fingerprint: Some(fingerprint),
                            base: request,
                            dirty: false,
                            session: active_marked(v.session, false),
                            ..v
                        },
                    ),
                ),
            }
        },
    }
}

/// What has to be done when the request is to be sent.
#[derive(Debug, PartialEq, Eq)]
pub enum SendStep {
    /// A request is being carried out already.
    AlreadyRunning,
    /// What is typed cannot be read.
    Invalid(String),
    /// The variables could not be read.
    VariablesUnavailable(String),
    /// A variable has no value.
    Unresolved(String),
    /// The request is to be sent.
    Send { request: HttpRequest, resource_root: Option<ResourcePath>, generation: u64 },
}

/// What has to be done when the request is to be sent, by its contents.
pub enum SendView {
    AlreadyRunning,
    Invalid(Seq<char>),
    VariablesUnavailable(Seq<char>),
    Unresolved(Seq<char>),
    Send { request: RequestView, resource_root: Option<Seq<char>>, generation: u64 },
}

impl View for SendStep {
    type V = SendView;

    open spec fn view(&self) -> SendView {
        match self {
            SendStep::AlreadyRunning => SendView::AlreadyRunning,
            SendStep::Invalid(e) => SendView::Invalid(e@),
            SendStep::VariablesUnavailable(e) => SendView::VariablesUnavailable(e@),
            SendStep::Unresolved(e) => SendView::Unresolved(e@),
            SendStep::Send { request, resource_root, generation } => SendView::Send {
                request: request@,
                resource_root: optional_path(*resource_root),
                generation: *generation,
            },
        }
    }
}

/// The panel once the request began to be carried out.
pub open spec fn sending(v: PanelView) -> PanelView {
    PanelView {
        running: true,
        generation: next_generation(v.generation),
        response: begun(v.response),
        ..v
    }
}

/// What has to be done when the request is to be sent, given what its variables come to.
pub open spec fn send_step(
    v: PanelView,
    variable_error: Option<Seq<char>>,
    resolved: spec_fn(RequestView) -> Result<RequestView, Seq<char>>,
) -> (SendView, PanelView) {
    if v.running {
        (SendView::AlreadyRunning, v)
    } else {
        match request_edited(v.base, v.method, v.texts) {
            Err(e) => (SendView::Invalid(e), v),
            Ok(request) => match variable_error {
                Some(e) => (SendView::VariablesUnavailable(e), v),
                None => match resolved(request) {
                    Err(e) => (SendView::Unresolved(e), v),
                    Ok(r) => (
                        SendView::Send {
                            request: r,
                            resource_root: match v.store {
                                Some(s) => Some(s.root),
                                None => None,
                            },
                            generation: next_generation(v.generation),
                        },
                        sending(v),
                    ),
                },
            },
        }
    }
}

/// The panel once something is heard of a request: what is heard of an earlier one is passed
/// over.
pub open spec fn message_heard(v: PanelView, generation: u64, message: NetworkMessage) -> PanelView {
    if v.generation != generation {
        v
    } else {
        PanelView {
            running: v.running && message is Event,
            response: heard(v.response, message),
            ..v
        }
    }
}

/// What came of opening the tab again that was closed last, given what its request was read as.
pub open spec fn tab_reopened(
    v: PanelView,
    index: int,
    loaded: Result<OpenView, Seq<char>>,
) -> PanelOutcome {
    let tab = v.session.tabs[index];
    match loaded {
        Ok(document) => (
            Ok(()),
            restored(
                PanelView {
                    documents: v.documents.insert(key_of(tab.resource), document),
                    ..v
                },
                document,
            ),
        ),
        Err(e) => (
            Err("Could not reopen '"@ + tab.title + "': "@ + e),
            PanelView { session: force_closed(v.session, index).1, ..v },
        ),
    }
}

impl RequestPanel {
    /// Takes note of a change of a workspace: a look at a file may have to be taken.
    pub fn observe_workspace_change(
        &mut self,
        repository: &WorkspaceRepository,
        change: &WorkspaceChange,
    ) -> (r: Option<FileCheck>)
        requires
            old(self).wf(),
        ensures
            final(self).wf(),
            (match r {
                Some(c) => Some(c@),
                None => None,
            }, final(self)@) == change_seen(old(self)@, repository@, change@),
    {
        let current: Option<ResourcePath> = match &self.document_store {
            Some(store) => store.relative_path_in(repository),
            None => None,
        };
        let found = reconcile_workspace_change(current.as_ref(), self.dirty, change);
        match found.document {
            DocumentReconcileAction::Unaffected => None,
            DocumentReconcileAction::Verify { path, reason, conflict_if_changed } => {
                let store = DocumentStore::from_relative(repository.copy(), &path);
                self.external_generation = after_generation(self.external_generation);
                self.external_state = RequestExternalState::Checking { reason: reason.copy() };
                Some(
                    FileCheck {
                        store,
                        reason,
                        conflict_if_changed,
                        generation: self.external_generation,
                    },
                )
            },
            DocumentReconcileAction::Missing { path, reason, had_unsaved_changes } => {
                self.external_generation = after_generation(self.external_generation);
                self.external_state = RequestExternalState::lost(
                    &reason,
                    path.as_text(),
                    had_unsaved_changes,
                );
                None
            },
        }
    }

    /// Takes note that a look at a file could not be taken.
    pub fn check_not_started(&mut self, check: &FileCheck, error: String)
        requires
            old(self).wf(),
        ensures
            final(self).wf(),
            final(self)@ == (PanelView {
                external: ExternalView::Failed {
                    message: error@,
                    conflict: check.conflict_if_changed || old(self)@.dirty,
                },
                ..old(self)@
            }),
    {
        self.external_state = RequestExternalState::Failed {
            message: error,
            conflict: check.conflict_if_changed || self.dirty,
        };
    }

    /// Takes note of what a look at a file found.
    pub fn finish_check(
        &mut self,
        check: FileCheck,
        found: Result<(HttpRequest, FileFingerprint), String>,
    )
        requires
            old(self).wf(),
        ensures
            final(self).wf(),
            final(self)@ == file_checked(old(self)@, check@, loaded_outcome(found)),
    {
        if self.external_generation != check.generation {
            return ;
        }
        let conflict = check.conflict_if_changed || self.dirty;
        match found {
            Ok((request, fingerprint)) => {
                let same_content = match self.document_fingerprint {
                    Some(f) => {
                        proof {
                            FileFingerprint::lemma_same(f, fingerprint);
                        }
                        f == fingerprint
                    },
                    None => false,
                };
                let same_place = match &self.document_store {
                    Some(current) => current.path().same_path(check.store.path()),
                    None => false,
                };
                if same_content && same_place {
                    self.external_state = RequestExternalState::InSync;
                } else {
                    let pending = PendingExternalDocument {
                        store: check.store,
                        request,
                        fingerprint,
                        reason: check.reason,
                    };
                    self.external_state = if conflict {
                        RequestExternalState::Conflict(pending)
                    } else {
                        RequestExternalState::ReloadAvailable(pending)
                    };
                }
            },
            Err(e) => {
                self.external_state = RequestExternalState::Failed {
                    message: concat3(
                        check.reason.summary().as_str(),
                        "; disk verification failed: ",
                        e.as_str(),
                    ),
                    conflict,
                };
            },
        }
    }

    /// Takes over the version that was found on disk, if there is one.
    pub fn reload_external(&mut self)
        requires
            old(self).wf(),
        ensures
            final(self).wf(),
            final(self)@ == (match old(self)@.external {
                ExternalView::ReloadAvailable(p) => applied(
                    old(self)@,
                    p.request,
                    p.store,
                    p.fingerprint,
                ),
                ExternalView::Conflict(p) => applied(
                    old(self)@,
                    p.request,
                    p.store,
                    p.fingerprint,
                ),
                _ => old(self)@,
            }),
    {
        let pending = match &self.external_state {
            RequestExternalState::ReloadAvailable(p) => p.copy(),
            RequestExternalState::Conflict(p) => p.copy(),
            _ => {
                return ;
            },
        };
        self.apply_request(pending.request, pending.store, pending.fingerprint);
    }

    /// Opens the request at a path of a workspace.
    pub fn open_document(&mut self, store: DocumentStore, files: &FileTree) -> (r: Result<
        (),
        String,
    >)
        requires
            old(self).wf(),
            old(self)@.session.tabs.len() < usize::MAX,
            files.wf(),
        ensures
            final(self).wf(),
            (said(r), final(self)@) == document_opened(
                old(self)@,
                store@,
                store_loaded(files@.nodes, store@),
            ),
    {
        self.snapshot_active();
        let resource = ResourceIdentity::WorkspaceRequest(store.path().copy());
        if let Some(index) = self.session.position(&resource) {
            return self.activate_tab(index);
        }
        let (request, fingerprint) = match store.load(files) {
            Ok(loaded) => loaded,
            Err(e) => {
                return Err(e);
            },
        };
        let title = request.name.clone();
        let document = OpenRequestDocument::opened(
            request,
            Some(store),
            Some(fingerprint),
            None,
            false,
        );
        self.documents.insert(resource.copy(), document.copy());
        let mut tab = RequestTabState::saved(resource, title.as_str());
        tab.preview = true;
        let _ = self.session.open(tab);
        self.restore_document(document);
        Ok(())
    }

    /// Opens a request out of the history, given where such a request is kept and the
    /// fingerprint of what is there.
    pub fn open_history_document(
        &mut self,
        request: HttpRequest,
        kept: Result<(DocumentStore, Option<FileFingerprint>), String>,
    ) -> (r: Result<(), String>)
        requires
            old(self).wf(),
            old(self)@.session.tabs.len() < usize::MAX,
        ensures
            final(self).wf(),
            (said(r), final(self)@) == history_opened(
                old(self)@,
                request@,
                kept_outcome(kept),
            ),
    {
        self.snapshot_active();
        let resource = ResourceIdentity::Draft(request.id.copy());
        let (store, fingerprint) = match kept {
            Ok(k) => k,
            Err(e) => {
                return Err(e);
            },
        };
        proof {
            lemma_tab_of(self@.session.tabs, key_of(resource@));
        }
        let at: Option<usize> = self.session.position(&resource);
        if let Some(index) = at {
            let tabs = self.session.tabs();
            assert(tab_views(tabs@)[index as int] == tabs@[index as int]@);
            if tabs[index].dirty {
                return self.activate_tab(index);
            }
        }
        let title = concat2(request.name.as_str(), " (history)");
        let id = request.id.copy();
        let document = OpenRequestDocument::opened(request, Some(store), fingerprint, None, true);
        self.documents.insert(resource, document.copy());
        match at {
            Some(index) => {
                match self.session.activate(index) {
                    Ok(_) => {},
                    Err(e) => {
                        return Err(e.message());
                    },
                }
                match self.session.mark_dirty(index, true) {
                    Ok(_) => {},
                    Err(e) => {
                        return Err(e.message());
                    },
                }
            },
            None => {
                let _ = self.session.open(RequestTabState::draft(id, title.as_str()));
            },
        }
        self.restore_document(document);
        Ok(())
    }

    /// Begins a draft, given where it is kept and the fingerprint of what is there.
    pub fn new_draft(&mut self, kept: Result<(DocumentStore, Option<FileFingerprint>), String>)
        requires
            old(self).wf(),
            old(self)@.session.tabs.len() < usize::MAX,
        ensures
            final(self).wf(),
            final(self)@ == draft_begun(old(self)@, kept_outcome(kept)),
    {
        self.snapshot_active();
        let request = default_request();
        let resource = ResourceIdentity::Draft(request.id.copy());
        if let Some(index) = self.session.position(&resource) {
            let _ = self.activate_tab(index);
            return ;
        }
        let id = request.id.copy();
        let title = request.name.clone();
        let document = match kept {
            Ok((store, fingerprint)) => OpenRequestDocument::opened(
                request,
                Some(store),
                fingerprint,
                None,
                true,
            ),
            Err(e) => OpenRequestDocument::opened(request, None, None, Some(e), true),
        };
        self.documents.insert(resource, document.copy());
        let _ = self.session.open(RequestTabState::draft(id, title.as_str()));
        self.restore_document(document);
    }

    /// Saves the request where it is kept, given what was found to look secret in it.
    pub fn save_draft(&mut self, files: &mut FileTree, leaks: &[String]) -> (r: Result<
        ResourcePath,
        String,
    >)
        requires
            old(self).wf(),
            old(files).wf(),
        ensures
            final(self).wf(),
            final(files).wf(),
            (
                crate::workspace_operation::path_or_reason(r),
                final(files)@,
                final(self)@,
            ) == request_kept(old(self)@, old(files)@, texts(leaks@)),
    {
        if let Some(e) = self.external_state.blocks_save() {
            return Err(e);
        }
        if let Some(e) = &self.document_error {
            return Err(e.clone());
        }
        let request = match self.try_current_request() {
            Ok(r) => r,
            Err(e) => {
                return Err(e);
            },
        };
        let store = match &self.document_store {
            Some(s) => s.copy(),
            None => {
                return Err("document store is unavailable".to_owned());
            },
        };
        let fingerprint = match store.save(files, &request, self.document_fingerprint, leaks) {
            Ok(f) => f,
            Err(e) => {
                return Err(e);
            },
        };
        self.document_fingerprint = Some(fingerprint);
        self.base_request = request;
        self.dirty = false;
        self.mark_active(false);
        self.snapshot_active();
        Ok(store.path().copy())
    }

    /// Finds what has to be done when the request is to be sent; where it is sent, it is being
    /// carried out from now on.
    pub fn start_send<P: DynamicVariableProvider>(
        &mut self,
        variable_error: &Option<String>,
        context: &VariableContext,
        dynamic: &P,
        options: ResolverOptions,
    ) -> (r: SendStep)
        requires
            old(self).wf(),
            context.wf(),
        ensures
            final(self).wf(),
            exists|w: RequestSurroundings|
                w.context == context@ && w.options == options && send_heard(
                    dynamic,
                    w,
                    request_to_send(old(self)@, optional_text(*variable_error)),
                ) && (r@, final(self)@) == #[trigger] send_in(
                    old(self)@,
                    optional_text(*variable_error),
                    w,
                ),
    {
        let ghost before = self@;
        let ghost error = optional_text(*variable_error);
        let ghost any = RequestSurroundings { context: context@, options, runs: seq![] };
        if self.running {
            assert((SendView::AlreadyRunning, before) == send_in(before, error, any));
            return SendStep::AlreadyRunning;
        }
        let request = match self.try_current_request() {
            Ok(r) => r,
            Err(e) => {
                let r = SendStep::Invalid(e);
                assert((r@, before) == send_in(before, error, any));
                return r;
            },
        };
        if let Some(e) = variable_error {
            let r = SendStep::VariablesUnavailable(e.clone());
            assert((r@, before) == send_in(before, error, any));
            return r;
        }
        let result = resolve_http_request(&request, context, dynamic, options);
        let ghost w = choose|w: RequestSurroundings|
            w.context == context@ && w.options == options && request_heard(dynamic, w, request@)
                && crate::error::outcome(result) == #[trigger] resolved_request(w, request@);
        match result {
            Err(e) => {
                let r = SendStep::Unresolved(e.message());
                assert((r@, before) == send_in(before, error, w));
                r
            },
            Ok(resolved) => {
                let root: Option<ResourcePath> = match &self.document_store {
                    Some(s) => Some(s.resource_root()),
                    None => None,
                };
                self.running = true;
                self.request_generation = after_generation(self.request_generation);
                self.response.begin();
                let r = SendStep::Send {
                    request: resolved.request,
                    resource_root: root,
                    generation: self.request_generation,
                };
                assert((r@, self@) == send_in(before, error, w));
                r
            },
        }
    }

    /// Takes note that the request could not be sent.
    pub fn fail_send(&mut self, category: String, message: String)
        requires
            old(self).wf(),
        ensures
            final(self).wf(),
            final(self)@ == (PanelView {
                response: ResponseView {
                    state: ResponseState::Failed { category, message },
                    console: old(self)@.response.console.push(message@),
                    ..old(self)@.response
                },
                ..old(self)@
            }),
    {
        let line = message.clone();
        self.response.state = ResponseState::Failed { category, message };
        self.response.report(line);
    }

    /// Takes note of what is heard of a request.
    pub fn hear(&mut self, generation: u64, message: NetworkMessage)
        requires
            old(self).wf(),
        ensures
            final(self).wf(),
            final(self)@ == message_heard(old(self)@, generation, message),
    {
        if self.request_generation != generation {
            return ;
        }
        match message {
            NetworkMessage::Event(_) => {},
            _ => {
                self.running = false;
            },
        }
        self.response.apply_message(message);
    }

    /// Opens the tab again that was closed last: which it is, if there is one.
    pub fn begin_reopen(&mut self) -> (r: Option<usize>)
        requires
            old(self).wf(),
            old(self)@.session.tabs.len() < usize::MAX,
        ensures
            final(self).wf(),
            (match r {
                Some(i) => Some(i as int),
                None => None,
            }, final(self)@) == ({
                let s = snapshot(old(self)@);
                let (i, session) = reopened(s.session);
                (i, PanelView { session, ..s })
            }),
            r matches Some(i) ==> i < final(self)@.session.tabs.len(),
    {
        self.snapshot_active();
        proof {
            let s = self@.session;
            if s.closed.len() > 0 {
                lemma_tab_of(
                    (SessionView { closed: s.closed.skip(1), ..s }).tabs,
                    key_of(s.closed[0].resource),
                );
            }
        }
        self.session.reopen_closed()
    }

    /// Edits the request of the tab that was opened again, given what it was read as.
    pub fn finish_reopen(&mut self, index: usize, loaded: Result<OpenRequestDocument, String>) -> (r:
        Result<(), String>)
        requires
            old(self).wf(),
            index < old(self)@.session.tabs.len(),
        ensures
            final(self).wf(),
            (said(r), final(self)@) == tab_reopened(
                old(self)@,
                index as int,
                crate::error::outcome(loaded),
            ),
    {
        let tabs = self.session.tabs();
        assert(tab_views(tabs@)[index as int] == tabs@[index as int]@);
        let tab = tabs[index].copy();
        match loaded {
            Ok(document) => {
                self.documents.insert(tab.resource, document.copy());
                self.restore_document(document);
                Ok(())
            },
            Err(e) => {
                let _ = self.session.force_close(index);
                Err(concat4("Could not reopen '", tab.title.as_str(), "': ", e.as_str()))
            },
        }
    }
}

/// The request whose variables get their values when it is to be sent: none while another is
/// being carried out, where what is typed cannot be read, or without variables.
pub open spec fn request_to_send(v: PanelView, variable_error: Option<Seq<char>>) -> Option<RequestView> {
    if v.running || variable_error is Some {
        None
    } else {
        match request_edited(v.base, v.method, v.texts) {
            Err(_) => None,
            Ok(request) => Some(request),
        }
    }
}

/// Whether the answers are those that the source of dynamic variables gave for a request, and
/// none where no request gets its values.
pub open spec fn send_heard<P: DynamicVariableProvider>(
    dynamic: &P,
    w: RequestSurroundings,
    request: Option<RequestView>,
) -> bool {
    match request {
        None => w.runs.len() == 0,
        Some(request) => request_heard(dynamic, w, request),
    }
}

/// What has to be done when the request is to be sent, in some surroundings.
pub open spec fn send_in(v: PanelView, variable_error: Option<Seq<char>>, w: RequestSurroundings) -> (
    SendView,
    PanelView,
) {
    send_step(
        v,
        variable_error,
        |request: RequestView|
            match resolved_request(w, request) {
                Ok(r) => Ok(r.request),
                Err(e) => Err(resolution_message(e)),
            },
    )
}

} // verus!
