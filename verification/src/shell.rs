//! The main window: a workspace, its requests and the one that is edited.
use crate::browser::{
    browser_opened, environment_after, environment_shown, first_request, next_environment,
    nothing_shown, variables_for, watch_text, BrowserView, WatchState, WorkspaceBrowser,
};
use crate::browser_tree::{item_views, shown_items, workspace_browser_items, BrowserItem, ItemView};
use crate::document_store::{opened_outcome, store_loaded, DocumentStore, StoreView};
use crate::domain::{HttpRequest, RequestView};
use crate::error::{error_message, outcome, WorkspaceError, WorkspaceErrorView};
use crate::files::{FileTree, FilesView, Nodes};
use crate::fingerprint::FileFingerprint;
use crate::message::concat2;
use crate::naming::IdSource;
use crate::open_documents::OpenRequestDocument;
use crate::order::{map_of, TextMap};
use crate::paths::ResourcePath;
use crate::repository_documents::{leak_views, optional_slug};
use crate::repository_listing::{all_entries, entry_views, RequestEntryView, WorkspaceRequestEntry};
use crate::request_panel::{PanelView, RequestPanel};
use crate::request_panel_flow::{change_seen, document_opened, CheckView, FileCheck};
use crate::request_panel_start::{load_views, panel_started, InitialDocument, InitialView};
use crate::scope::{ContextView, VariableContext};
use crate::session::{tab_views, RequestTabState, ResourceIdentity};
use crate::text::{copy_optional_text, optional_text};
use crate::watch::{ChangeView, WorkspaceChange};
use crate::workspace_effect::{
    apply_workspace_operation, change_told, command_done, tell_request_change, OperationInputs,
    OperationReport, ReportView, RequestChange, RequestChangeView,
};
use crate::workspace_operation::{ancestry_views, Ancestry, AncestryView};
use crate::workspace_variables::{BookView, SourceBook};
use vstd::prelude::*;

verus! {

/// The requests of a workspace as a tree, and where each is kept.
#[derive(Debug)]
pub struct CollectionsPanel {
    pub items: Vec<BrowserItem>,
    pub request_paths: TextMap<ResourcePath>,
    pub error: Option<String>,
}

/// The requests of a workspace as a tree, by their contents.
#[verifier::ext_equal]
pub struct CollectionsView {
    pub items: Seq<ItemView>,
    pub request_paths: Map<Seq<char>, Seq<char>>,
    pub error: Option<Seq<char>>,
}

impl View for CollectionsPanel {
    type V = CollectionsView;

    open spec fn view(&self) -> CollectionsView {
        CollectionsView {
            items: item_views(self.items@),
            request_paths: self.request_paths@,
            error: optional_text(self.error),
        }
    }
}

/// Where each request is kept, by its path in the workspace.
pub open spec fn paths_of(list: Seq<RequestEntryView>) -> Map<Seq<char>, Seq<char>> {
    map_of(list.map_values(|e: RequestEntryView| (e.relative_path, e.path)))
}

fn request_paths(list: &[WorkspaceRequestEntry]) -> (r: TextMap<ResourcePath>)
    ensures
        r.wf(),
        r@ == paths_of(entry_views(list@)),
{
    let ghost all = entry_views(list@).map_values(
        |e: RequestEntryView| (e.relative_path, e.path),
    );
    let mut r: TextMap<ResourcePath> = TextMap::new();
    assert(map_of(all.take(0)) =~= Map::empty());
    for i in 0..list.len()
        invariant
            all == entry_views(list@).map_values(
                |e: RequestEntryView| (e.relative_path, e.path),
            ),
            r.wf(),
            r@ == map_of(all.take(i as int)),
    {
        r.insert(list[i].relative_path.as_text().to_owned(), list[i].path.copy());
        proof {
            let next = all.take(i + 1);
            assert(next.drop_last() =~= all.take(i as int));
            assert(next.last() == (list@[i as int].relative_path@, list@[i as int].path@));
        }
    }
    assert(all.take(all.len() as int) =~= all);
    r
}

/// A list of requests, or why there is none.
pub open spec fn listed(r: Result<Vec<WorkspaceRequestEntry>, String>) -> Result<
    Seq<RequestEntryView>,
    Seq<char>,
> {
    match r {
        Ok(list) => Ok(entry_views(list@)),
        Err(e) => Err(e@),
    }
}

/// The panel once the requests have been listed anew. Where that failed, what was shown stays
/// and the reason is told.
pub open spec fn index_applied(
    v: CollectionsView,
    requests: Result<Seq<RequestEntryView>, Seq<char>>,
) -> CollectionsView {
    match requests {
        Ok(list) => CollectionsView {
            items: shown_items(list),
            request_paths: paths_of(list),
            error: None,
        },
        Err(e) => CollectionsView { error: Some(e), ..v },
    }
}

impl CollectionsPanel {
    /// Whether the paths are in order.
    pub open spec fn wf(&self) -> bool {
        self.request_paths.wf()
    }

    /// Shows the requests of a workspace.
    pub fn new(browser: &WorkspaceBrowser) -> (r: CollectionsPanel)
        ensures
            r.wf(),
            r@ == (CollectionsView {
                items: shown_items(browser@.requests),
                request_paths: paths_of(browser@.requests),
                error: browser@.error,
            }),
    {
        CollectionsPanel {
            items: workspace_browser_items(browser.requests.as_slice()),
            request_paths: request_paths(browser.requests.as_slice()),
            error: copy_optional_text(&browser.error),
        }
    }

    /// Takes over a new list of requests.
    pub fn apply_request_index(&mut self, requests: Result<Vec<WorkspaceRequestEntry>, String>)
        requires
            old(self).wf(),
        ensures
            final(self).wf(),
            final(self)@ == index_applied(old(self)@, listed(requests)),
    {
        match requests {
            Ok(list) => {
                self.request_paths = request_paths(list.as_slice());
                self.items = workspace_browser_items(list.as_slice());
                self.error = None;
            },
            Err(e) => {
                self.error = Some(e);
            },
        }
    }
}

/// What a monitor of the workspace tells.
#[derive(Debug)]
pub enum WorkspaceMonitorMessage {
    /// Something changed; the requests are listed anew where the tree changes with it.
    Update { change: WorkspaceChange, requests: Option<Result<Vec<WorkspaceRequestEntry>, String>> },
    Failed(String),
}

/// What a monitor of the workspace tells, by its contents.
pub enum MonitorView {
    Update {
        change: ChangeView,
        requests: Option<Result<Seq<RequestEntryView>, Seq<char>>>,
    },
    Failed(Seq<char>),
}

impl View for WorkspaceMonitorMessage {
    type V = MonitorView;

    open spec fn view(&self) -> MonitorView {
        match self {
            WorkspaceMonitorMessage::Update { change, requests } => MonitorView::Update {
                change: change@,
                requests: match requests {
                    Some(r) => Some(listed(*r)),
                    None => None,
                },
            },
            WorkspaceMonitorMessage::Failed(e) => MonitorView::Failed(e@),
        }
    }
}

/// A notice to the user.
#[derive(Clone, Debug, PartialEq, Eq)]
pub enum Notice {
    Info(String),
    Success(String),
    Failure(String),
}

/// A notice to the user, by its contents.
pub enum NoticeView {
    Info(Seq<char>),
    Success(Seq<char>),
    Failure(Seq<char>),
}

impl View for Notice {
    type V = NoticeView;

    open spec fn view(&self) -> NoticeView {
        match self {
            Notice::Info(t) => NoticeView::Info(t@),
            Notice::Success(t) => NoticeView::Success(t@),
            Notice::Failure(t) => NoticeView::Failure(t@),
        }
    }
}

/// The main window.
#[derive(Debug)]
pub struct ApexShell {
    pub browser: WorkspaceBrowser,
    pub collections: CollectionsPanel,
    pub request_panel: RequestPanel,
    pub selected_environment: Option<String>,
    pub environment_label: String,
    pub variable_context: VariableContext,
    pub variable_error: Option<String>,
    pub watch: WatchState,
}

/// The main window, by its contents.
#[verifier::ext_equal]
pub struct ShellView {
    pub browser: BrowserView,
    pub collections: CollectionsView,
    pub panel: PanelView,
    pub environment: Option<Seq<char>>,
    pub label: Seq<char>,
    pub context: ContextView,
    pub variable_error: Option<Seq<char>>,
    pub watch: Seq<char>,
}

impl View for ApexShell {
    type V = ShellView;

    open spec fn view(&self) -> ShellView {
        ShellView {
            browser: self.browser@,
            collections: self.collections@,
            panel: self.request_panel@,
            environment: optional_text(self.selected_environment),
            label: self.environment_label@,
            context: self.variable_context@,
            variable_error: optional_text(self.variable_error),
            watch: watch_text(self.watch),
        }
    }
}

/// The document that is edited first: the first request of the workspace, or else the draft.
pub open spec fn first_document(
    browser: BrowserView,
    nodes: Nodes,
    draft: Result<(StoreView, Option<(RequestView, u64)>), Seq<char>>,
) -> InitialView {
    match first_request(browser, nodes) {
        Some((store, request, fingerprint)) => InitialView::Workspace { store, request, fingerprint },
        None => InitialView::Draft(draft),
    }
}

/// The main window as it opens.
pub open spec fn shell_opened(
    root: Option<Seq<char>>,
    nodes: Nodes,
    asked: Option<Seq<char>>,
    book: BookView,
    panel: PanelView,
    monitor: Option<Seq<char>>,
) -> ShellView {
    let browser = browser_opened(root, nodes);
    let environment = match asked {
        Some(id) => Some(id),
        None => browser.default_environment,
    };
    let variables = variables_for(browser, nodes, environment, book);
    ShellView {
        browser,
        collections: CollectionsView {
            items: shown_items(browser.requests),
            request_paths: paths_of(browser.requests),
            error: browser.error,
        },
        panel,
        environment,
        label: environment_shown(browser.environments, environment),
        context: match variables {
            Ok(c) => c,
            Err(_) => ContextView::empty(),
        },
        variable_error: match variables {
            Ok(_) => None,
            Err(e) => Some(e),
        },
        watch: match browser.root {
            None => "not active"@,
            Some(_) => match monitor {
                None => "watching"@,
                Some(e) => "watch error: "@ + e,
            },
        },
    }
}

/// The window once a monitor has told something, and the check that is to follow.
pub open spec fn monitor_heard(v: ShellView, message: MonitorView) -> (Option<CheckView>, ShellView) {
    match message {
        MonitorView::Failed(e) => (None, ShellView { watch: "watch error: "@ + e, ..v }),
        MonitorView::Update { change, requests } => {
            let collections = match requests {
                Some(r) => index_applied(v.collections, r),
                None => v.collections,
            };
            let (check, panel) = match v.browser.root {
                Some(root) => change_seen(v.panel, root, change),
                None => (None, v.panel),
            };
            (check, ShellView { watch: "watching"@, collections, panel, ..v })
        },
    }
}

/// The window once the next environment has been asked for, and what the user is told. Where
/// its variables cannot be read, the environment stays as it was.
pub open spec fn environment_cycled(v: ShellView, nodes: Nodes, book: BookView) -> (
    NoticeView,
    ShellView,
) {
    match environment_after(v.browser.environments, v.environment) {
        None => (NoticeView::Info("No environments are defined"@), v),
        Some(i) => {
            let id = v.browser.environments[i].id;
            let label = environment_shown(v.browser.environments, Some(id));
            match variables_for(v.browser, nodes, Some(id), book) {
                Ok(context) => (
                    NoticeView::Success("Environment: "@ + label),
                    ShellView { environment: Some(id), label, context, variable_error: None, ..v },
                ),
                Err(e) => (NoticeView::Failure("Environment switch failed: "@ + e), v),
            }
        },
    }
}

/// The window once an entry of the tree has been opened, and what the user is told. An entry
/// that stands for no request opens nothing.
pub open spec fn item_opened(v: ShellView, nodes: Nodes, id: Seq<char>) -> (
    Option<NoticeView>,
    ShellView,
) {
    match v.browser.root {
        None => (None, v),
        Some(root) => if !v.collections.request_paths.dom().contains(id) {
            (None, v)
        } else {
            let path = v.collections.request_paths[id];
            let store = StoreView { root, path };
            let (done, panel) = document_opened(v.panel, store, store_loaded(nodes, store));
            (
                Some(
                    match done {
                        Ok(_) => NoticeView::Success("Opened "@ + path),
                        Err(e) => NoticeView::Failure("Request open failed: "@ + e),
                    },
                ),
                ShellView { panel, ..v },
            )
        },
    }
}

/// The window once a command on the workspace has been given, with what the command reports.
pub open spec fn command_given(
    v: ShellView,
    files: FilesView,
    command: Seq<char>,
    ancestry: Seq<AncestryView>,
    nonce: u128,
    ids: IdSource,
    leaks: Seq<Seq<Seq<char>>>,
) -> (Result<ReportView, Seq<char>>, FilesView, ShellView) {
    match v.browser.root {
        None => (Err("No workspace is open"@), files, v),
        Some(root) => {
            let (done, after) = command_done(files, root, command, ancestry, nonce, ids, leaks);
            match done {
                Err(e) => (Err("Workspace operation failed: "@ + e), after, v),
                Ok(ReportView::Left(change)) => (Ok(ReportView::Left(change)), after, v),
                Ok(report) => (Ok(report), after, requests_listed(v, after.nodes, root)),
            }
        },
    }
}

/// The window once the requests of its workspace have been listed anew.
pub open spec fn requests_listed(v: ShellView, nodes: Nodes, root: Seq<char>) -> ShellView {
    let requests = match all_entries(nodes, root) {
        Ok(list) => Ok(list),
        Err(e) => Err(error_message(e)),
    };
    ShellView { collections: index_applied(v.collections, requests), ..v }
}

/// The window once a change that a command left to do was tried, with what is told of it.
pub open spec fn change_tried(
    v: ShellView,
    nodes: Nodes,
    change: RequestChangeView,
    done: Result<(), WorkspaceErrorView>,
) -> (Result<Seq<char>, Seq<char>>, ShellView) {
    match v.browser.root {
        None => (Err("No workspace is open"@), v),
        Some(root) => match change_told(change, done) {
            Err(e) => (Err("Workspace operation failed: "@ + e), v),
            Ok(message) => (Ok(message), requests_listed(v, nodes, root)),
        },
    }
}

impl ApexShell {
    /// Whether the window is in order.
    pub open spec fn wf(&self) -> bool {
        self.collections.wf() && self.request_panel.wf() && self.variable_context.wf()
    }

    /// Opens the window on no workspace.
    pub fn new(
        draft: Result<(DocumentStore, Option<(HttpRequest, FileFingerprint)>), String>,
        tabs: &[RequestTabState],
        active: Option<ResourceIdentity>,
        loads: &[Option<OpenRequestDocument>],
    ) -> (r: ApexShell)
        requires
            tabs@.len() == loads@.len(),
            tabs@.len() < usize::MAX,
        ensures
            r.wf(),
            r@.browser == nothing_shown("Local Draft Workspace"@, None, None),
            r@.environment is None,
            r@.label == "No environment"@,
            r@.context == ContextView::empty(),
            r@.variable_error is None,
            r@.watch == "not active"@,
            r@.collections.items == shown_items(seq![]),
            r@.panel == panel_started(
                InitialView::Draft(opened_outcome(draft)),
                tab_views(tabs@),
                match active {
                    Some(i) => Some(i@),
                    None => None,
                },
                load_views(loads@),
            ),
    {
        let files = FileTree::new();
        let book = SourceBook { secrets: Vec::new(), process: Vec::new() };
        ApexShell::new_with_workspace(None, &files, &book, draft, tabs, active, loads, None)
    }

    /// Opens the window on a workspace, or on none, with its default environment.
    pub fn new_with_workspace(
        root: Option<&str>,
        files: &FileTree,
        book: &SourceBook,
        draft: Result<(DocumentStore, Option<(HttpRequest, FileFingerprint)>), String>,
        tabs: &[RequestTabState],
        active: Option<ResourceIdentity>,
        loads: &[Option<OpenRequestDocument>],
        monitor: Option<String>,
    ) -> (r: ApexShell)
        requires
            files.wf(),
            tabs@.len() == loads@.len(),
            tabs@.len() < usize::MAX,
        ensures
            r.wf(),
            r@ == shell_opened(
                optional_slug(root),
                files@.nodes,
                None,
                book@,
                panel_started(
                    first_document(
                        browser_opened(optional_slug(root), files@.nodes),
                        files@.nodes,
                        opened_outcome(draft),
                    ),
                    tab_views(tabs@),
                    match active {
                        Some(i) => Some(i@),
                        None => None,
                    },
                    load_views(loads@),
                ),
                optional_text(monitor),
            ),
    {
        ApexShell::new_with_workspace_and_environment(
            root,
            files,
            None,
            book,
            draft,
            tabs,
            active,
            loads,
            monitor,
        )
    }

    /// Opens the window on a workspace, or on none. `draft` is the draft that is edited where
    /// the workspace has no request, `tabs` and `loads` are the tabs of the last session with
    /// what they hold, and `monitor` tells why the workspace is not watched.
    pub fn new_with_workspace_and_environment(
        root: Option<&str>,
        files: &FileTree,
        asked: Option<String>,
        book: &SourceBook,
        draft: Result<(DocumentStore, Option<(HttpRequest, FileFingerprint)>), String>,
        tabs: &[RequestTabState],
        active: Option<ResourceIdentity>,
        loads: &[Option<OpenRequestDocument>],
        monitor: Option<String>,
    ) -> (r: ApexShell)
        requires
            files.wf(),
            tabs@.len() == loads@.len(),
            tabs@.len() < usize::MAX,
        ensures
            r.wf(),
            r@ == shell_opened(
                optional_slug(root),
                files@.nodes,
                optional_text(asked),
                book@,
                panel_started(
                    first_document(
                        browser_opened(optional_slug(root), files@.nodes),
                        files@.nodes,
                        opened_outcome(draft),
                    ),
                    tab_views(tabs@),
                    match active {
                        Some(i) => Some(i@),
                        None => None,
                    },
                    load_views(loads@),
                ),
                optional_text(monitor),
            ),
    {
        let browser = WorkspaceBrowser::open(root, files);
        let initial = match browser.initial_document(files) {
            Some((store, request, fingerprint)) => InitialDocument::Workspace {
                store,
                request,
                fingerprint,
            },
            None => InitialDocument::Draft(draft),
        };
        let selected = browser.initial_environment(asked);
        let chosen: Option<&str> = match &selected {
            Some(id) => Some(id.as_str()),
            None => None,
        };
        let label = browser.environment_name(chosen);
        let (context, error) = match browser.variable_context(files, chosen, book) {
            Ok(c) => (c, None),
            Err(e) => (VariableContext::new(), Some(e)),
        };
        let watch = match &browser.repository {
            None => WatchState::Inactive,
            Some(_) => match monitor {
                None => WatchState::Watching,
                Some(e) => WatchState::Failed(e),
            },
        };
        let request_panel = RequestPanel::new(initial, tabs, active, loads);
        ApexShell {
            collections: CollectionsPanel::new(&browser),
            browser,
            request_panel,
            selected_environment: selected,
            environment_label: label,
            variable_context: context,
            variable_error: error,
            watch,
        }
    }

    /// Takes in what a monitor of the workspace tells. The check that comes back is to be made
    /// on disk.
    pub fn apply_workspace_monitor_message(&mut self, message: WorkspaceMonitorMessage) -> (r: Option<
        FileCheck,
    >)
        requires
            old(self).wf(),
        ensures
            final(self).wf(),
            (match r {
                Some(c) => Some(c@),
                None => None,
            }, final(self)@) == monitor_heard(old(self)@, message@),
    {
        match message {
            WorkspaceMonitorMessage::Failed(e) => {
                self.watch = WatchState::Failed(e);
                None
            },
            WorkspaceMonitorMessage::Update { change, requests } => {
                self.watch = WatchState::Watching;
                if let Some(list) = requests {
                    self.collections.apply_request_index(list);
                }
                match &self.browser.repository {
                    Some(repository) => self.request_panel.observe_workspace_change(
                        repository,
                        &change,
                    ),
                    None => None,
                }
            },
        }
    }

    /// Goes on to the next environment.
    pub fn cycle_environment(&mut self, files: &FileTree, book: &SourceBook) -> (r: Notice)
        requires
            old(self).wf(),
            files.wf(),
        ensures
            final(self).wf(),
            (r@, final(self)@) == environment_cycled(old(self)@, files@.nodes, book@),
    {
        let selected: Option<&str> = match &self.selected_environment {
            Some(id) => Some(id.as_str()),
            None => None,
        };
        let next = match next_environment(self.browser.environments.as_slice(), selected) {
            Some(i) => i,
            None => {
                return Notice::Info("No environments are defined".to_owned());
            },
        };
        assert(self@.browser.environments[next as int] == self.browser.environments@[next as int]@);
        let id = self.browser.environments[next].id.as_str().to_owned();
        match self.browser.variable_context(files, Some(id.as_str()), book) {
            Ok(context) => {
                let label = self.browser.environment_name(Some(id.as_str()));
                let notice = concat2("Environment: ", label.as_str());
                self.selected_environment = Some(id);
                self.environment_label = label;
                self.variable_context = context;
                self.variable_error = None;
                Notice::Success(notice)
            },
            Err(e) => Notice::Failure(concat2("Environment switch failed: ", e.as_str())),
        }
    }

    /// Opens an entry of the tree.
    pub fn open_item(&mut self, files: &FileTree, id: &str) -> (r: Option<Notice>)
        requires
            old(self).wf(),
            files.wf(),
            old(self)@.panel.session.tabs.len() < usize::MAX,
        ensures
            final(self).wf(),
            (match r {
                Some(n) => Some(n@),
                None => None,
            }, final(self)@) == item_opened(old(self)@, files@.nodes, id@),
    {
        let repository = match &self.browser.repository {
            Some(r) => r.copy(),
            None => {
                return None;
            },
        };
        let path = match self.collections.request_paths.get(id) {
            Some(p) => p.copy(),
            None => {
                return None;
            },
        };
        let opened = concat2("Opened ", path.as_text());
        let store = DocumentStore::new(repository, path);
        Some(
            match self.request_panel.open_document(store, files) {
                Ok(_) => Notice::Success(opened),
                Err(e) => Notice::Failure(concat2("Request open failed: ", e.as_str())),
            },
        )
    }

    /// Takes in what came of a change that a command left to do, and lists the requests of the
    /// workspace anew.
    pub fn finish_mutation(
        &mut self,
        files: &FileTree,
        change: &RequestChange,
        done: Result<(), WorkspaceError>,
    ) -> (r: Result<String, String>)
        requires
            old(self).wf(),
            files.wf(),
        ensures
            final(self).wf(),
            (outcome(r), final(self)@) == change_tried(
                old(self)@,
                files@.nodes,
                change@,
                crate::repository_collections::plain_outcome(done),
            ),
    {
        let repository = match &self.browser.repository {
            Some(r) => r,
            None => {
                return Err("No workspace is open".to_owned());
            },
        };
        match tell_request_change(change, done) {
            Err(e) => Err(concat2("Workspace operation failed: ", e.as_str())),
            Ok(message) => {
                let requests = match repository.list_requests(files) {
                    Ok(list) => Ok(list),
                    Err(e) => Err(e.message()),
                };
                self.collections.apply_request_index(requests);
                Ok(message)
            },
        }
    }

    /// Performs a command on the workspace and lists its requests anew, unless a change is left
    /// to do.
    pub fn apply_mutation(
        &mut self,
        files: &mut FileTree,
        command: &str,
        ancestry: &[Ancestry],
        inputs: &OperationInputs,
    ) -> (r: Result<OperationReport, String>)
        requires
            old(self).wf(),
            old(files).wf(),
        ensures
            final(self).wf(),
            final(files).wf(),
            (outcome(r), final(files)@, final(self)@) == command_given(
                old(self)@,
                old(files)@,
                command@,
                ancestry_views(ancestry@),
                inputs.nonce,
                inputs.ids,
                leak_views(inputs.leaks@),
            ),
    {
        let repository = match &self.browser.repository {
            Some(r) => r,
            None => {
                return Err("No workspace is open".to_owned());
            },
        };
        match apply_workspace_operation(repository, files, command, ancestry, inputs) {
            Err(e) => Err(concat2("Workspace operation failed: ", e.as_str())),
            Ok(OperationReport::Left(change)) => Ok(OperationReport::Left(change)),
            Ok(report) => {
                let requests = match repository.list_requests(files) {
                    Ok(list) => Ok(list),
                    Err(e) => Err(e.message()),
                };
                self.collections.apply_request_index(requests);
                Ok(report)
            },
        }
    }
}

/// A change on disk leaves the environment and its variables as they are, and a command on the
/// workspace leaves the request that is edited as it is.
pub proof fn law_the_window_keeps_its_parts_apart(
    v: ShellView,
    message: MonitorView,
    files: FilesView,
    command: Seq<char>,
    ancestry: Seq<AncestryView>,
    nonce: u128,
    ids: IdSource,
    leaks: Seq<Seq<Seq<char>>>,
)
    ensures
        ({
            let (_, heard) = monitor_heard(v, message);
            let (_, _, given) = command_given(v, files, command, ancestry, nonce, ids, leaks);
            &&& heard.environment == v.environment && heard.context == v.context
            &&& heard.browser == v.browser
            &&& given.panel == v.panel && given.context == v.context
        }),
{
}

/// An environment whose variables cannot be read is not taken: the window stays as it was.
pub proof fn law_a_failed_switch_changes_nothing(v: ShellView, nodes: Nodes, book: BookView)
    ensures
        environment_cycled(v, nodes, book).0 is Failure ==> environment_cycled(v, nodes, book).1
            == v,
{
}

} // verus!
