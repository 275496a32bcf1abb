//! The request that is edited when the program starts, and how the open requests are shown.
use crate::document_store::{
    draft_opened, opened_outcome, store_loaded, store_of_request, workspace_store_for_request,
    DocumentStore, StoreView,
};
use crate::domain::{method_text, HttpRequest, RequestView};
use crate::editor::{default_request, draft_request};
use crate::editor_request::{editor_texts, shown_texts};
use crate::error::outcome;
use crate::files::{FileTree, Nodes};
use crate::fingerprint::FileFingerprint;
use crate::message::{concat3, concat4};
use crate::open_documents::{opened_document, OpenDocuments, OpenRequestDocument, OpenTable, OpenView};
use crate::paths::ResourcePath;
use crate::preferences::{least, request_tab_window, shown_tabs, window_start};
use crate::request_panel::{PanelView, RequestPanel};
use crate::response::{no_response, ResponsePanel};
use crate::session::{
    key_of, lemma_preview_tab, lemma_tab_of, opened, tab_of, tab_views, IdentityKey, IdentityView, RequestTabState,
    ResourceIdentity, SessionView, TabView, WorkspaceSession,
};
use crate::text::texts;
use vstd::prelude::*;

verus! {

/// The request that is edited first: one of a workspace, or a draft, which may not be there.
#[derive(Debug)]
pub enum InitialDocument {
    Workspace { store: DocumentStore, request: HttpRequest, fingerprint: FileFingerprint },
    Draft(Result<(DocumentStore, Option<(HttpRequest, FileFingerprint)>), String>),
}

/// The request that is edited first, by its contents.
pub enum InitialView {
    Workspace { store: StoreView, request: RequestView, fingerprint: u64 },
    Draft(Result<(StoreView, Option<(RequestView, u64)>), Seq<char>>),
}

impl View for InitialDocument {
    type V = InitialView;

    open spec fn view(&self) -> InitialView {
        match self {
            InitialDocument::Workspace { store, request, fingerprint } => InitialView::Workspace {
                store: store@,
                request: request@,
                fingerprint: fingerprint.number(),
            },
            InitialDocument::Draft(r) => InitialView::Draft(opened_outcome(*r)),
        }
    }
}

/// The request that is edited first, as one that is open.
pub open spec fn initial_document(i: InitialView) -> OpenView {
    match i {
        InitialView::Workspace { store, request, fingerprint } => opened_document(
            request,
            Some(store),
            Some(fingerprint),
            None,
            false,
        ),
        InitialView::Draft(Ok((store, Some((request, fingerprint))))) => opened_document(
            request,
            Some(store),
            Some(fingerprint),
            None,
            false,
        ),
        InitialView::Draft(Ok((store, None))) => opened_document(
            draft_request(),
            Some(store),
            None,
            None,
            false,
        ),
        InitialView::Draft(Err(e)) => opened_document(draft_request(), None, None, Some(e), false),
    }
}

/// The resource of the request that is edited first.
pub open spec fn initial_resource(i: InitialView) -> IdentityView {
    match i {
        InitialView::Workspace { store, .. } => IdentityView::WorkspaceRequest(store.path),
        InitialView::Draft(_) => IdentityView::Draft(initial_document(i).request.id),
    }
}

/// What a resource is read as, given where drafts and the request are kept.
pub open spec fn resource_loaded(
    resource: IdentityView,
    dirty: bool,
    state: Seq<char>,
    drafts: Nodes,
    root: Option<Seq<char>>,
    nodes: Nodes,
) -> Result<OpenView, Seq<char>> {
    match resource {
        IdentityView::Draft(id) => match draft_opened(drafts, state, id) {
            Err(e) => Err(e),
            Ok((_, None)) => Err("draft '"@ + id + "' no longer exists"@),
            Ok((store, Some((request, fingerprint)))) => Ok(
                opened_document(request, Some(store), Some(fingerprint), None, dirty),
            ),
        },
        IdentityView::WorkspaceRequest(path) => match store_of_request(path, root) {
            Err(e) => Err(e),
            Ok(store) => match store_loaded(nodes, store) {
                Err(e) => Err(e),
                Ok((request, fingerprint)) => Ok(
                    opened_document(request, Some(store), Some(fingerprint), None, dirty),
                ),
            },
        },
    }
}

/// Reads a resource, given where drafts are kept and the nearest directory above the request
/// that holds a manifest, with the files of both.
pub fn reload_document_for_resource(
    resource: &ResourceIdentity,
    dirty: bool,
    state: &ResourcePath,
    drafts: &FileTree,
    root: Option<&ResourcePath>,
    files: &FileTree,
) -> (r: Result<OpenRequestDocument, String>)
    requires
        drafts.wf(),
        files.wf(),
    ensures
        outcome(r) == resource_loaded(
            resource@,
            dirty,
            state@,
            drafts@.nodes,
            match root {
                Some(p) => Some(p@),
                None => None,
            },
            files@.nodes,
        ),
{
    match resource {
        ResourceIdentity::Draft(id) => match DocumentStore::open_draft_for(state, drafts, id) {
            Err(e) => Err(e),
            Ok((_, None)) => Err(concat3("draft '", id.as_str(), "' no longer exists")),
            Ok((store, Some((request, fingerprint)))) => Ok(
                OpenRequestDocument::opened(request, Some(store), Some(fingerprint), None, dirty),
            ),
        },
        ResourceIdentity::WorkspaceRequest(path) => match workspace_store_for_request(path, root) {
            Err(e) => Err(e),
            Ok(store) => match store.load(files) {
                Err(e) => Err(e),
                Ok((request, fingerprint)) => Ok(
                    OpenRequestDocument::opened(
                        request,
                        Some(store),
                        Some(fingerprint),
                        None,
                        dirty,
                    ),
                ),
            },
        },
    }
}

/// The contents of a list of requests that may have been read.
pub open spec fn load_views(list: Seq<Option<OpenRequestDocument>>) -> Seq<Option<OpenView>> {
    list.map_values(
        |d: Option<OpenRequestDocument>|
            match d {
                Some(d) => Some(d@),
                None => None,
            },
    )
}

/// The tabs and open requests that were there before: a tab whose request cannot be read is left
/// out.
pub open spec fn reopened_tabs(
    key: IdentityKey,
    initial: OpenView,
    tabs: Seq<TabView>,
    loads: Seq<Option<OpenView>>,
) -> (SessionView, OpenTable)
    decreases tabs.len(),
{
    if tabs.len() == 0 {
        (
            SessionView { tabs: seq![], active: None, closed: seq![], limit: 20 },
            OpenTable::empty(),
        )
    } else {
        let (session, table) = reopened_tabs(key, initial, tabs.drop_last(), loads.drop_last());
        let tab = tabs.last();
        let loaded = if key_of(tab.resource) == key {
            Some(initial)
        } else {
            loads.last()
        };
        match loaded {
            Some(d) => (opened(session, tab).1, table.insert(key_of(tab.resource), d)),
            None => (session, table),
        }
    }
}

/// The tabs and open requests with the one that is edited first among them.
pub open spec fn with_initial(
    initial: InitialView,
    tabs: Seq<TabView>,
    loads: Seq<Option<OpenView>>,
) -> (SessionView, OpenTable) {
    let resource = initial_resource(initial);
    let document = initial_document(initial);
    let key = key_of(resource);
    let (session, table) = reopened_tabs(key, document, tabs, loads);
    if table.dom().contains(key) {
        (session, table)
    } else {
        (
            opened(
                session,
                TabView {
                    resource,
                    title: document.request.name,
                    dirty: false,
                    pinned: false,
                    preview: false,
                },
            ).1,
            table.insert(key, document),
        )
    }
}

/// The panel when the program starts, given the tabs that were there before, which of them was
/// active, and what their requests were read as.
pub open spec fn panel_started(
    initial: InitialView,
    tabs: Seq<TabView>,
    active: Option<IdentityView>,
    loads: Seq<Option<OpenView>>,
) -> PanelView {
    let (session, table) = with_initial(initial, tabs, loads);
    let key = match active {
        Some(r) => if table.dom().contains(key_of(r)) {
            key_of(r)
        } else {
            key_of(initial_resource(initial))
        },
        None => key_of(initial_resource(initial)),
    };
    let d = table[key];
    PanelView {
        texts: shown_texts(d.request),
        section: d.section,
        method: d.request.method,
        base: d.request,
        running: false,
        generation: 0,
        store: d.store,
        fingerprint: d.fingerprint,
        error: d.document_error,
        external: d.external,
        external_generation: 0,
        dirty: d.dirty,
        session: match tab_of(session.tabs, key) {
            Some(i) => SessionView { active: Some(i), ..session },
            None => session,
        },
        documents: table,
        response: no_response(),
    }
}

fn first_document(initial: InitialDocument) -> (r: (ResourceIdentity, OpenRequestDocument))
    ensures
        r.0@ == initial_resource(initial@),
        r.1@ == initial_document(initial@),
{
    match initial {
        InitialDocument::Workspace { store, request, fingerprint } => {
            let resource = ResourceIdentity::WorkspaceRequest(store.path().copy());
            (
                resource,
                OpenRequestDocument::opened(request, Some(store), Some(fingerprint), None, false),
            )
        },
        InitialDocument::Draft(Ok((store, Some((request, fingerprint))))) => {
            let resource = ResourceIdentity::Draft(request.id.copy());
            (
                resource,
                OpenRequestDocument::opened(request, Some(store), Some(fingerprint), None, false),
            )
        },
        InitialDocument::Draft(Ok((store, None))) => {
            let request = default_request();
            let resource = ResourceIdentity::Draft(request.id.copy());
            (resource, OpenRequestDocument::opened(request, Some(store), None, None, false))
        },
        InitialDocument::Draft(Err(e)) => {
            let request = default_request();
            let resource = ResourceIdentity::Draft(request.id.copy());
            (resource, OpenRequestDocument::opened(request, None, None, Some(e), false))
        },
    }
}

proof fn lemma_opened_adds_one(s: SessionView, tab: TabView)
    ensures
        opened(s, tab).1.tabs.len() <= s.tabs.len() + 1,
{
    lemma_preview_tab(s.tabs);
}

fn reopen_tabs(
    resource: &ResourceIdentity,
    initial: &OpenRequestDocument,
    tabs: &[RequestTabState],
    loads: &[Option<OpenRequestDocument>],
) -> (r: (WorkspaceSession, OpenDocuments))
    requires
        tabs@.len() == loads@.len(),
        tabs@.len() < usize::MAX,
    ensures
        r.0.wf(),
        r.1.wf(),
        (r.0@, r.1@) == reopened_tabs(
            key_of(resource@),
            initial@,
            tab_views(tabs@),
            load_views(loads@),
        ),
        r.0@.tabs.len() <= tabs@.len(),
{
    let ghost key = key_of(resource@);
    let ghost all = tab_views(tabs@);
    let ghost read = load_views(loads@);
    let mut session = WorkspaceSession::default();
    let mut documents = OpenDocuments::new();
    proof {
        assert(all.take(0) =~= seq![]);
        assert(read.take(0) =~= seq![]);
    }
    for i in 0..tabs.len()
        invariant
            key == key_of(resource@),
            all == tab_views(tabs@),
            read == load_views(loads@),
            tabs@.len() == loads@.len(),
            tabs@.len() < usize::MAX,
            session.wf(),
            documents.wf(),
            (session@, documents@) == reopened_tabs(
                key,
                initial@,
                all.take(i as int),
                read.take(i as int),
            ),
            session@.tabs.len() <= i,
    {
        let tab = tabs[i].copy();
        proof {
            assert(all[i as int] == tabs@[i as int]@);
            assert(all.take(i + 1).drop_last() =~= all.take(i as int));
            assert(read.take(i + 1).drop_last() =~= read.take(i as int));
            assert(all.take(i + 1).last() == all[i as int]);
            assert(read.take(i + 1).last() == read[i as int]);
            lemma_opened_adds_one(session@, tab@);
        }
        let loaded: Option<OpenRequestDocument> = if tab.resource.same(resource) {
            Some(initial.copy())
        } else {
            match &loads[i] {
                Some(d) => Some(d.copy()),
                None => None,
            }
        };
        if let Some(document) = loaded {
            documents.insert(tab.resource.copy(), document);
            let _ = session.open(tab);
        }
    }
    proof {
        assert(all.take(tabs@.len() as int) =~= all);
        assert(read.take(loads@.len() as int) =~= read);
    }
    (session, documents)
}

/// The texts before and after the title of a tab.
pub open spec fn tab_label(tab: TabView) -> Seq<char> {
    (if tab.pinned {
        "📌 "@
    } else {
        Seq::empty()
    }) + tab.title + (if tab.preview {
        " ◇"@
    } else {
        Seq::empty()
    }) + (if tab.dirty {
        " •"@
    } else {
        Seq::empty()
    })
}

fn show_tab(tab: &RequestTabState) -> (r: String)
    ensures
        r@ == tab_label(tab@),
{
    let nothing = String::new();
    assert(nothing@ =~= Seq::empty());
    concat4(
        if tab.pinned {
            "📌 "
        } else {
            nothing.as_str()
        },
        tab.title.as_str(),
        if tab.preview {
            " ◇"
        } else {
            nothing.as_str()
        },
        if tab.dirty {
            " •"
        } else {
            nothing.as_str()
        },
    )
}

/// The tabs that are shown, and how many are not on either side.
#[derive(Clone, Debug, PartialEq, Eq)]
pub struct TabStrip {
    pub start: usize,
    pub end: usize,
    pub hidden_left: usize,
    pub hidden_right: usize,
    pub labels: Vec<String>,
}

/// The labels of the tabs from one to another.
pub open spec fn tab_labels(tabs: Seq<TabView>, start: int, end: int) -> Seq<Seq<char>> {
    tabs.subrange(start, end).map_values(|t: TabView| tab_label(t))
}

/// What is said of the request that is edited.
pub open spec fn panel_title(v: PanelView) -> Seq<char> {
    method_text(v.method) + " "@ + v.base.name + (if v.dirty {
        " •"@
    } else {
        Seq::empty()
    }) + (if v.external is InSync {
        Seq::empty()
    } else {
        " ⚠"@
    })
}

impl RequestPanel {
    /// The panel when the program starts, given the tabs that were there before, which of them
    /// was active, and what their requests were read as.
    pub fn new(
        initial: InitialDocument,
        tabs: &[RequestTabState],
        active: Option<ResourceIdentity>,
        loads: &[Option<OpenRequestDocument>],
    ) -> (r: RequestPanel)
        requires
            tabs@.len() == loads@.len(),
            tabs@.len() < usize::MAX,
        ensures
            r.wf(),
            r@ == panel_started(
                initial@,
                tab_views(tabs@),
                match active {
                    Some(i) => Some(i@),
                    None => None,
                },
                load_views(loads@),
            ),
    {
        let ghost given = initial@;
        let (resource, document) = first_document(initial);
        let (mut session, mut documents) = reopen_tabs(&resource, &document, tabs, loads);
        if !documents.has(&resource) {
            let tab = RequestTabState::saved(resource.copy(), document.request.name.as_str());
            documents.insert(resource.copy(), document.copy());
            let _ = session.open(tab);
        }
        let chosen: ResourceIdentity = match active {
            Some(a) => if documents.has(&a) {
                a
            } else {
                resource
            },
            None => resource,
        };
        proof {
            lemma_tab_of(session@.tabs, key_of(chosen@));
        }
        if let Some(index) = session.position(&chosen) {
            let _ = session.activate(index);
        }
        let current = match documents.get(&chosen) {
            Some(d) => d.copy(),
            None => document,
        };
        let texts = editor_texts(&current.request);
        RequestPanel {
            texts,
            selected_section: current.selected_section,
            method: current.request.method.copy(),
            base_request: current.request,
            running: false,
            request_generation: 0,
            document_store: current.store,
            document_fingerprint: current.fingerprint,
            document_error: current.document_error,
            external_state: current.external_state,
            external_generation: 0,
            dirty: current.dirty,
            session,
            documents,
            response: ResponsePanel::new(),
        }
    }

    /// What is said of the request that is edited.
    pub fn title(&self) -> (r: String)
        ensures
            r@ == panel_title(self@),
    {
        let nothing = String::new();
        assert(nothing@ =~= Seq::empty());
        let head = concat3(self.method.as_str(), " ", self.base_request.name.as_str());
        concat3(
            head.as_str(),
            if self.dirty {
                " •"
            } else {
                nothing.as_str()
            },
            if self.external_state.has_attention() {
                " ⚠"
            } else {
                nothing.as_str()
            },
        )
    }

    /// The tabs that are shown, given how many may be.
    pub fn tab_strip(&self, maximum_visible_tabs: usize) -> (r: TabStrip)
        requires
            self.wf(),
        ensures
            ({
                let count = self@.session.tabs.len() as int;
                let active: Option<usize> = match self@.session.active {
                    Some(i) => Some(i as usize),
                    None => None,
                };
                let start = window_start(count, active, maximum_visible_tabs as int);
                let end = start + least(count, shown_tabs(maximum_visible_tabs as int));
                &&& r.start == start
                &&& r.end == end
                &&& r.hidden_left == start
                &&& r.hidden_right == count - end
                &&& texts(r.labels@) == tab_labels(self@.session.tabs, start, end)
            }),
    {
        let tabs = self.session.tabs();
        let range = request_tab_window(
            tabs.len(),
            self.session.active_index(),
            maximum_visible_tabs,
        );
        let ghost all = self@.session.tabs;
        let start: usize = range.start;
        let end: usize = range.end;
        let mut labels: Vec<String> = Vec::new();
        for i in start..end
            invariant
                start <= end <= tabs@.len(),
                all == tab_views(tabs@),
                labels@.len() == i - start,
                forall|k: int|
                    0 <= k < labels@.len() ==> (#[trigger] labels@[k])@ == tab_label(all[start + k]),
        {
            assert(all[i as int] == tabs@[i as int]@);
            labels.push(show_tab(&tabs[i]));
        }
        assert(texts(labels@) =~= tab_labels(all, start as int, end as int));
        TabStrip { start, end, hidden_left: start, hidden_right: tabs.len() - end, labels }
    }
}

} // verus!
