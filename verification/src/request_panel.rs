//! The request that is edited, among those that are open in tabs.
use crate::document_store::{optional_store, DocumentStore, StoreView};
use crate::domain::{HttpMethod, HttpRequest, MethodView, RequestView};
use crate::editor_fields::said;
use crate::editor_request::{
    editor_texts, method_after, next_method, read_request, request_edited, shown_texts,
    EditorTexts, EditorView,
};
use crate::error::outcome;
use crate::external_state::{after_edit, ExternalView, RequestExternalState};
use crate::fingerprint::FileFingerprint;
use crate::message::concat3;
use crate::open_documents::{
    copy_store, kept_open, OpenDocuments, OpenRequestDocument, OpenTable, OpenView,
};
use crate::repository::expected_number;
use crate::response::{no_response, ResponsePanel, ResponseState, ResponseView};
use crate::sections::RequestSection;
use crate::session::{
    key_of, marked, others_closed, pinned_tab, reordered, right_closed, tab_closed, tab_error_text,
    tab_views, CloseTabError, IdentityKey, IdentityView, ResourceIdentity, SessionView,
    TabErrorView, WorkspaceSession,
};
use crate::text::{copy_optional_text, optional_text};
use vstd::prelude::*;

verus! {

/// The request that is edited, the requests that are open, and what became of the one that was
/// carried out last.
#[derive(Debug)]
pub struct RequestPanel {
    /// What is typed.
    pub texts: EditorTexts,
    pub selected_section: RequestSection,
    pub method: HttpMethod,
    /// The request as it was before it was edited.
    pub base_request: HttpRequest,
    /// Whether a request is being carried out.
    pub running: bool,
    /// How often a request was carried out: what is heard of an earlier one is passed over.
    pub request_generation: u64,
    pub document_store: Option<DocumentStore>,
    pub document_fingerprint: Option<FileFingerprint>,
    pub document_error: Option<String>,
    pub external_state: RequestExternalState,
    /// How often the file was looked at: what an earlier look found is passed over.
    pub external_generation: u64,
    pub dirty: bool,
    pub session: WorkspaceSession,
    pub documents: OpenDocuments,
    pub response: ResponsePanel,
}

/// The request that is edited, by its contents.
#[verifier::ext_equal]
pub struct PanelView {
    pub texts: EditorView,
    pub section: RequestSection,
    pub method: MethodView,
    pub base: RequestView,
    pub running: bool,
    pub generation: u64,
    pub store: Option<StoreView>,
    pub fingerprint: Option<u64>,
    pub error: Option<Seq<char>>,
    pub external: ExternalView,
    pub external_generation: u64,
    pub dirty: bool,
    pub session: SessionView,
    pub documents: OpenTable,
    pub response: ResponseView,
}

impl View for RequestPanel {
    type V = PanelView;

    open spec fn view(&self) -> PanelView {
        PanelView {
            texts: self.texts@,
            section: self.selected_section,
            method: self.method@,
            base: self.base_request@,
            running: self.running,
            generation: self.request_generation,
            store: optional_store(self.document_store),
            fingerprint: expected_number(self.document_fingerprint),
            error: optional_text(self.document_error),
            external: self.external_state@,
            external_generation: self.external_generation,
            dirty: self.dirty,
            session: self.session@,
            documents: self.documents@,
            response: self.response@,
        }
    }
}

/// The number after another; after the last comes the first.
pub open spec fn next_generation(n: u64) -> u64 {
    if n == u64::MAX {
        0
    } else {
        (n + 1) as u64
    }
}

pub(crate) fn after_generation(n: u64) -> (r: u64)
    ensures
        r == next_generation(n),
{
    if n == u64::MAX {
        0
    } else {
        n + 1
    }
}

/// The resource that the active tab shows.
pub open spec fn active_resource(s: SessionView) -> Option<IdentityView> {
    match s.active {
        Some(i) => Some(s.tabs[i].resource),
        None => None,
    }
}

/// What tells the resource of the active tab from others.
pub open spec fn active_key(s: SessionView) -> Option<IdentityKey> {
    match active_resource(s) {
        Some(r) => Some(key_of(r)),
        None => None,
    }
}

/// The request as it is edited, or as it was where what is typed cannot be read.
pub open spec fn request_shown(v: PanelView) -> RequestView {
    match request_edited(v.base, v.method, v.texts) {
        Ok(r) => r,
        Err(_) => v.base,
    }
}

/// The request that is edited, as one that is open.
pub open spec fn document_shown(v: PanelView) -> OpenView {
    OpenView {
        request: request_shown(v),
        store: v.store,
        fingerprint: v.fingerprint,
        document_error: v.error,
        external: v.external,
        section: v.section,
        dirty: v.dirty,
    }
}

/// The request that is edited is kept under its resource.
pub open spec fn snapshot(v: PanelView) -> PanelView {
    match active_resource(v.session) {
        Some(r) => PanelView {
            documents: v.documents.insert(key_of(r), document_shown(v)),
            ..v
        },
        None => v,
    }
}

/// The tabs with the active one marked.
pub open spec fn active_marked(s: SessionView, dirty: bool) -> SessionView {
    match s.active {
        Some(i) => SessionView { tabs: s.tabs.update(i, marked(s.tabs[i], dirty)), ..s },
        None => s,
    }
}

/// What is carried out is stopped.
pub open spec fn cancelled(v: PanelView) -> PanelView {
    if v.running {
        PanelView {
            running: false,
            response: ResponseView {
                state: ResponseState::Cancelled,
                console: v.response.console.push("Cancellation requested"@),
                ..v.response
            },
            ..v
        }
    } else {
        v
    }
}

/// An open request is edited in place of the one that was.
pub open spec fn restored(v: PanelView, d: OpenView) -> PanelView {
    PanelView {
        texts: shown_texts(d.request),
        section: d.section,
        method: d.request.method,
        base: d.request,
        running: false,
        store: d.store,
        fingerprint: d.fingerprint,
        error: d.document_error,
        external: d.external,
        dirty: d.dirty,
        session: active_marked(v.session, d.dirty),
        response: no_response(),
        ..v
    }
}

/// The open request of the active tab is edited, where it is open.
pub open spec fn active_restored(v: PanelView) -> PanelView {
    match active_key(v.session) {
        Some(k) => if v.documents.dom().contains(k) {
            restored(v, v.documents[k])
        } else {
            v
        },
        None => v,
    }
}

/// What came of an operation, and the panel after it.
pub type PanelOutcome = (Result<(), Seq<char>>, PanelView);

/// The outcome of making a tab the active one.
pub open spec fn tab_activated(v: PanelView, index: int) -> PanelOutcome {
    if v.session.active == Some(index) {
        (Ok(()), v)
    } else {
        let s = snapshot(v);
        if index < 0 || index >= s.session.tabs.len() {
            (Err(tab_error_text(TabErrorView::InvalidIndex(index))), s)
        } else {
            let after = PanelView { session: SessionView { active: Some(index), ..s.session }, ..s };
            let key = key_of(s.session.tabs[index].resource);
            if !after.documents.dom().contains(key) {
                (Err("the selected request document is unavailable"@), after)
            } else {
                (Ok(()), restored(after, after.documents[key]))
            }
        }
    }
}

/// The tab beside the active one, going round.
pub open spec fn beside(s: SessionView, forward: bool) -> Option<int> {
    let count = s.tabs.len() as int;
    let current = match s.active {
        Some(i) => i,
        None => 0,
    };
    if count < 2 {
        None
    } else if forward {
        Some(
            if current + 1 == count {
                0
            } else {
                current + 1
            },
        )
    } else {
        Some(
            if current == 0 {
                count - 1
            } else {
                current - 1
            },
        )
    }
}

/// The outcome of closing a tab.
pub open spec fn tab_shut(v: PanelView, index: int) -> PanelOutcome {
    let s = snapshot(v);
    let (r, session) = tab_closed(s.session, index);
    match r {
        Ok(tab) => {
            let after = PanelView {
                session,
                documents: s.documents.remove(key_of(tab.resource)),
                ..s
            };
            (
                Ok(()),
                if active_key(session) == active_key(s.session) {
                    after
                } else {
                    active_restored(after)
                },
            )
        },
        Err(TabErrorView::UnsavedChanges { title, .. }) => (
            Err("Save or discard changes in '"@ + title + "' before closing the tab"@),
            s,
        ),
        Err(e) => (Err(tab_error_text(e)), s),
    }
}

/// The outcome of closing several tabs, given what the tabs came to.
pub open spec fn tabs_shut(v: PanelView, done: (Result<(), TabErrorView>, SessionView)) -> PanelOutcome {
    match done.0 {
        Ok(_) => {
            let after = PanelView {
                session: done.1,
                documents: kept_open(v.documents, done.1.tabs),
                ..v
            };
            (Ok(()), active_restored(after))
        },
        Err(e) => (Err(tab_error_text(e)), v),
    }
}

/// What is typed was changed.
pub open spec fn edited(v: PanelView) -> PanelView {
    PanelView {
        dirty: true,
        session: active_marked(v.session, true),
        external: after_edit(v.external),
        ..v
    }
}

/// A request that was read is edited in place of the one that was.
pub open spec fn applied(v: PanelView, request: RequestView, store: StoreView, fingerprint: u64) -> PanelView {
    let base = PanelView {
        texts: shown_texts(request),
        section: RequestSection::Params,
        method: request.method,
        base: request,
        running: false,
        store: Some(store),
        fingerprint: Some(fingerprint),
        error: None,
        external: ExternalView::InSync,
        external_generation: next_generation(v.external_generation),
        dirty: false,
        session: active_marked(v.session, false),
        response: no_response(),
        ..v
    };
    snapshot(base)
}

impl RequestPanel {
    /// Whether the tabs and the open requests are in order.
    pub open spec fn wf(&self) -> bool {
        self.session.wf() && self.documents.wf()
    }

    fn find_active(&self) -> (r: Option<ResourceIdentity>)
        requires
            self.wf(),
        ensures
            match r {
                Some(i) => active_resource(self@.session) == Some(i@),
                None => active_resource(self@.session) is None,
            },
    {
        match self.session.active() {
            Some(tab) => Some(tab.resource.copy()),
            None => None,
        }
    }

    /// The request that is edited, if what is typed can be read.
    pub fn try_current_request(&self) -> (r: Result<HttpRequest, String>)
        ensures
            outcome(r) == request_edited(self@.base, self@.method, self@.texts),
    {
        read_request(&self.base_request, &self.method, &self.texts)
    }

    /// The request that is edited, or what it was where what is typed cannot be read.
    pub fn current_request(&self) -> (r: HttpRequest)
        ensures
            r@ == request_shown(self@),
    {
        match self.try_current_request() {
            Ok(r) => r,
            Err(_) => self.base_request.copy(),
        }
    }

    /// Keeps the request that is edited under its resource.
    pub fn snapshot_active(&mut self)
        requires
            old(self).wf(),
        ensures
            final(self).wf(),
            final(self)@ == snapshot(old(self)@),
    {
        let resource = match self.find_active() {
            Some(r) => r,
            None => {
                return ;
            },
        };
        let document = OpenRequestDocument {
            request: self.current_request(),
            store: copy_store(&self.document_store),
            fingerprint: self.document_fingerprint,
            document_error: copy_optional_text(&self.document_error),
            external_state: self.external_state.copy(),
            selected_section: self.selected_section,
            dirty: self.dirty,
        };
        self.documents.insert(resource, document);
    }

    pub(crate) fn mark_active(&mut self, dirty: bool)
        requires
            old(self).wf(),
        ensures
            final(self).wf(),
            final(self)@ == (PanelView {
                session: active_marked(old(self)@.session, dirty),
                ..old(self)@
            }),
    {
        if let Some(index) = self.session.active_index() {
            let _ = self.session.mark_dirty(index, dirty);
        }
    }

    /// Stops what is carried out, if anything is.
    pub fn cancel(&mut self)
        requires
            old(self).wf(),
        ensures
            final(self).wf(),
            final(self)@ == cancelled(old(self)@),
    {
        if self.running {
            self.running = false;
            self.response.state = ResponseState::Cancelled;
            self.response.report("Cancellation requested".to_owned());
        }
    }

    pub(crate) fn restore_document(&mut self, document: OpenRequestDocument)
        requires
            old(self).wf(),
        ensures
            final(self).wf(),
            final(self)@ == restored(old(self)@, document@),
    {
        self.cancel();
        self.method = document.request.method.copy();
        self.texts = editor_texts(&document.request);
        self.base_request = document.request;
        self.document_store = document.store;
        self.document_fingerprint = document.fingerprint;
        self.document_error = document.document_error;
        self.external_state = document.external_state;
        self.selected_section = document.selected_section;
        self.dirty = document.dirty;
        self.mark_active(document.dirty);
        self.response.reset();
    }

    fn restore_active(&mut self)
        requires
            old(self).wf(),
        ensures
            final(self).wf(),
            final(self)@ == active_restored(old(self)@),
    {
        let resource = match self.find_active() {
            Some(r) => r,
            None => {
                return ;
            },
        };
        let document = match self.documents.get(&resource) {
            Some(d) => d.copy(),
            None => {
                return ;
            },
        };
        self.restore_document(document);
    }

    /// Makes a tab the active one, and edits its request.
    pub fn activate_tab(&mut self, index: usize) -> (r: Result<(), String>)
        requires
            old(self).wf(),
        ensures
            final(self).wf(),
            (said(r), final(self)@) == tab_activated(
                old(self)@,
                index as int,
            ),
    {
        if let Some(active) = self.session.active_index() {
            if active == index {
                return Ok(());
            }
        }
        self.snapshot_active();
        match self.session.activate(index) {
            Err(e) => {
                return Err(e.message());
            },
            Ok(_) => {},
        }
        let resource = match self.find_active() {
            Some(r) => r,
            None => {
                return Err("the selected request tab is unavailable".to_owned());
            },
        };
        let document = match self.documents.get(&resource) {
            Some(d) => d.copy(),
            None => {
                return Err("the selected request document is unavailable".to_owned());
            },
        };
        self.restore_document(document);
        Ok(())
    }

    /// Makes the tab beside the active one the active one, going round.
    pub fn activate_relative_tab(&mut self, forward: bool) -> (r: Result<(), String>)
        requires
            old(self).wf(),
        ensures
            final(self).wf(),
            (said(r), final(self)@) == (match beside(
                old(self)@.session,
                forward,
            ) {
                Some(i) => tab_activated(old(self)@, i),
                None => (Ok::<(), Seq<char>>(()), old(self)@),
            }),
    {
        let count: usize = self.session.tabs().len();
        if count < 2 {
            return Ok(());
        }
        let current: usize = match self.session.active_index() {
            Some(i) => i,
            None => 0,
        };
        let next: usize = if forward {
            if current + 1 == count {
                0
            } else {
                current + 1
            }
        } else if current == 0 {
            count - 1
        } else {
            current - 1
        };
        self.activate_tab(next)
    }

    /// Closes a tab, unless it has unsaved changes.
    pub fn close_tab(&mut self, index: usize) -> (r: Result<(), String>)
        requires
            old(self).wf(),
        ensures
            final(self).wf(),
            (said(r), final(self)@) == tab_shut(old(self)@, index as int),
    {
        self.snapshot_active();
        let ghost s = self@;
        let previous = self.find_active();
        match self.session.close(index) {
            Ok(closed) => {
                self.documents.remove(&closed.resource);
                let next = self.find_active();
                let same = match (&previous, &next) {
                    (Some(a), Some(b)) => a.same(b),
                    (None, None) => true,
                    _ => false,
                };
                if !same {
                    self.restore_active();
                }
                Ok(())
            },
            Err(CloseTabError::UnsavedChanges { index: _, title }) => Err(
                concat3(
                    "Save or discard changes in '",
                    title.as_str(),
                    "' before closing the tab",
                ),
            ),
            Err(e) => Err(e.message()),
        }
    }

    /// Closes all tabs but one, unless one of them has unsaved changes.
    pub fn close_other_tabs(&mut self, keep: usize) -> (r: Result<(), String>)
        requires
            old(self).wf(),
        ensures
            final(self).wf(),
            (said(r), final(self)@) == tabs_shut(
                snapshot(old(self)@),
                others_closed(old(self)@.session, keep as int),
            ),
    {
        self.snapshot_active();
        match self.session.close_others(keep) {
            Ok(_) => {
                self.documents.retain(self.session.tabs());
                self.restore_active();
                Ok(())
            },
            Err(e) => Err(e.message()),
        }
    }

    /// Closes all tabs after one, unless one of them has unsaved changes.
    pub fn close_tabs_to_right(&mut self, index: usize) -> (r: Result<(), String>)
        requires
            old(self).wf(),
        ensures
            final(self).wf(),
            (said(r), final(self)@) == tabs_shut(
                snapshot(old(self)@),
                right_closed(old(self)@.session, index as int),
            ),
    {
        self.snapshot_active();
        match self.session.close_to_right(index) {
            Ok(_) => {
                self.documents.retain(self.session.tabs());
                self.restore_active();
                Ok(())
            },
            Err(e) => Err(e.message()),
        }
    }

    /// Pins a tab, or pins it no more.
    pub fn toggle_pin(&mut self, index: usize)
        requires
            old(self).wf(),
        ensures
            final(self).wf(),
            final(self)@ == (if index < old(self)@.session.tabs.len() {
                let tab = old(self)@.session.tabs[index as int];
                PanelView {
                    session: SessionView {
                        tabs: old(self)@.session.tabs.update(
                            index as int,
                            pinned_tab(tab, !tab.pinned),
                        ),
                        ..old(self)@.session
                    },
                    ..old(self)@
                }
            } else {
                old(self)@
            }),
    {
        let tabs = self.session.tabs();
        if index < tabs.len() {
            assert(tab_views(tabs@)[index as int] == tabs@[index as int]@);
            let pinned: bool = tabs[index].pinned;
            let _ = self.session.set_pinned(index, !pinned);
        }
    }

    /// Gives a tab another place.
    pub fn move_tab(&mut self, from: usize, to: usize) -> (r: Result<(), String>)
        requires
            old(self).wf(),
        ensures
            final(self).wf(),
            (said(r), final(self)@) == ({
                let s = old(self)@.session;
                if from >= s.tabs.len() {
                    (
                        Err::<(), Seq<char>>(
                            tab_error_text(TabErrorView::InvalidIndex(from as int)),
                        ),
                        old(self)@,
                    )
                } else if to >= s.tabs.len() {
                    (
                        Err::<(), Seq<char>>(tab_error_text(TabErrorView::InvalidIndex(to as int))),
                        old(self)@,
                    )
                } else {
                    (
                        Ok::<(), Seq<char>>(()),
                        PanelView { session: reordered(s, from as int, to as int), ..old(self)@ },
                    )
                }
            }),
    {
        match self.session.reorder(from, to) {
            Ok(_) => Ok(()),
            Err(e) => Err(e.message()),
        }
    }

    /// Notes that what is typed was changed.
    pub fn mark_dirty_from_editor(&mut self)
        requires
            old(self).wf(),
        ensures
            final(self).wf(),
            final(self)@ == edited(old(self)@),
    {
        self.dirty = true;
        self.mark_active(true);
        let mut state = RequestExternalState::InSync;
        std::mem::swap(&mut state, &mut self.external_state);
        self.external_state = state.edited();
    }

    /// Goes on to the next method.
    pub fn cycle_method(&mut self)
        requires
            old(self).wf(),
        ensures
            final(self).wf(),
            final(self)@ == edited(
                PanelView { method: next_method(old(self)@.method), ..old(self)@ },
            ),
    {
        self.method = method_after(&self.method);
        self.mark_dirty_from_editor();
    }

    /// Edits a request that was read in place of the one that was.
    pub fn apply_request(
        &mut self,
        request: HttpRequest,
        store: DocumentStore,
        fingerprint: FileFingerprint,
    )
        requires
            old(self).wf(),
        ensures
            final(self).wf(),
            final(self)@ == applied(old(self)@, request@, store@, fingerprint.number()),
    {
        self.cancel();
        self.method = request.method.copy();
        self.texts = editor_texts(&request);
        self.base_request = request;
        self.document_store = Some(store);
        self.document_fingerprint = Some(fingerprint);
        self.document_error = None;
        self.external_generation = after_generation(self.external_generation);
        self.external_state = RequestExternalState::InSync;
        self.selected_section = RequestSection::Params;
        self.dirty = false;
        self.mark_active(false);
        self.response.reset();
        self.snapshot_active();
    }
}

} // verus!
