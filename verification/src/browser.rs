//! What is shown of a workspace: its requests, its environments and how it stands.
use crate::document_store::{DocumentStore, StoreView};
use crate::domain::{HttpRequest, RequestView};
use crate::error::{error_message, outcome, WorkspaceErrorView};
use crate::files::{FileTree, Nodes};
use crate::fingerprint::FileFingerprint;
use crate::message::concat2;
use crate::repository::WorkspaceRepository;
use crate::repository_documents::{optional_slug, request_loaded};
use crate::repository_environments::{
    environments_listed, manifest_loaded, EnvironmentSummary, SummaryView,
};
use crate::repository_listing::{all_entries, entry_views, RequestEntryView, WorkspaceRequestEntry};
use crate::scope::{ContextView, VariableContext};
use crate::sorting::views;
use crate::text::{copy_optional_text, optional_text, same_text, texts};
use crate::workspace_variables::{
    load_workspace_variables, variables_message, workspace_variables, BookView, SourceBook,
    WorkspaceVariableSelection,
};
use vstd::prelude::*;

verus! {

/// What is shown of a workspace.
#[derive(Debug)]
pub struct WorkspaceBrowser {
    pub label: String,
    pub repository: Option<WorkspaceRepository>,
    pub requests: Vec<WorkspaceRequestEntry>,
    pub environments: Vec<EnvironmentSummary>,
    pub default_environment: Option<String>,
    pub error: Option<String>,
}

/// What is shown of a workspace, by its contents.
#[verifier::ext_equal]
pub struct BrowserView {
    pub label: Seq<char>,
    pub root: Option<Seq<char>>,
    pub requests: Seq<RequestEntryView>,
    pub environments: Seq<SummaryView>,
    pub default_environment: Option<Seq<char>>,
    pub error: Option<Seq<char>>,
}

impl View for WorkspaceBrowser {
    type V = BrowserView;

    open spec fn view(&self) -> BrowserView {
        BrowserView {
            label: self.label@,
            root: match self.repository {
                Some(r) => Some(r@),
                None => None,
            },
            requests: entry_views(self.requests@),
            environments: views(self.environments@),
            default_environment: optional_text(self.default_environment),
            error: optional_text(self.error),
        }
    }
}

/// A workspace of which nothing could be read.
pub open spec fn nothing_shown(
    label: Seq<char>,
    root: Option<Seq<char>>,
    error: Option<Seq<char>>,
) -> BrowserView {
    BrowserView {
        label,
        root,
        requests: seq![],
        environments: seq![],
        default_environment: None,
        error,
    }
}

/// What is shown of the workspace at a root, or of none.
pub open spec fn browser_opened(root: Option<Seq<char>>, nodes: Nodes) -> BrowserView {
    match root {
        None => nothing_shown("Local Draft Workspace"@, None, None),
        Some(r) => if r.len() == 0 {
            nothing_shown(
                r,
                None,
                Some(error_message(WorkspaceErrorView::InvalidPath("workspace path is empty"@))),
            )
        } else {
            match manifest_loaded(nodes, r) {
                Err(e) => nothing_shown(r, Some(r), Some(error_message(e))),
                Ok(manifest) => {
                    let requests = all_entries(nodes, r);
                    let environments = environments_listed(nodes, r);
                    BrowserView {
                        label: manifest.value.name,
                        root: Some(r),
                        requests: match requests {
                            Ok(list) => list,
                            Err(_) => seq![],
                        },
                        environments: match environments {
                            Ok(list) => list,
                            Err(_) => seq![],
                        },
                        default_environment: manifest.value.default_environment,
                        error: match requests {
                            Err(e) => Some(error_message(e)),
                            Ok(_) => match environments {
                                Err(e) => Some(error_message(e)),
                                Ok(_) => None,
                            },
                        },
                    }
                },
            }
        },
    }
}

/// The request that is edited first: the first one that can be read, where there is any.
pub open spec fn first_request(v: BrowserView, nodes: Nodes) -> Option<
    (StoreView, RequestView, u64),
> {
    match v.root {
        None => None,
        Some(root) => if v.requests.len() == 0 {
            None
        } else {
            let path = v.requests[0].path;
            match request_loaded(nodes, root, path) {
                Err(_) => None,
                Ok(d) => Some((StoreView { root, path }, d.value.request, d.fingerprint)),
            }
        },
    }
}

/// The variables that requests are resolved with in an environment, or why there are none.
pub open spec fn variables_for(
    v: BrowserView,
    nodes: Nodes,
    environment: Option<Seq<char>>,
    book: BookView,
) -> Result<ContextView, Seq<char>> {
    match v.root {
        None => Ok(ContextView::empty()),
        Some(root) => match workspace_variables(nodes, root, environment, true, book) {
            Ok(loaded) => Ok(loaded.context),
            Err(e) => Err(variables_message(e)),
        },
    }
}

/// The environment of an identifier, counted from the first.
pub open spec fn environment_at(list: Seq<SummaryView>, id: Seq<char>) -> Option<int>
    decreases list.len(),
{
    if list.len() == 0 {
        None
    } else {
        match environment_at(list.drop_last(), id) {
            Some(i) => Some(i),
            None => if list.last().id == id {
                Some(list.len() - 1)
            } else {
                None
            },
        }
    }
}

/// How an environment is called, or that there is none.
pub open spec fn environment_shown(list: Seq<SummaryView>, id: Option<Seq<char>>) -> Seq<char> {
    match id {
        None => "No environment"@,
        Some(id) => match environment_at(list, id) {
            Some(i) => list[i].name,
            None => id,
        },
    }
}

/// The environment that comes after another, going round: the first where there is no other.
pub open spec fn environment_after(list: Seq<SummaryView>, selected: Option<Seq<char>>) -> Option<int> {
    if list.len() == 0 {
        None
    } else {
        match selected {
            None => Some(0),
            Some(id) => match environment_at(list, id) {
                None => Some(0),
                Some(i) => Some(
                    if i + 1 == list.len() {
                        0
                    } else {
                        i + 1
                    },
                ),
            },
        }
    }
}

proof fn lemma_environment_at(list: Seq<SummaryView>, id: Seq<char>)
    ensures
        match environment_at(list, id) {
            Some(i) => 0 <= i < list.len() && list[i].id == id,
            None => true,
        },
    decreases list.len(),
{
    if list.len() > 0 {
        lemma_environment_at(list.drop_last(), id);
    }
}

proof fn lemma_environment_found(list: Seq<SummaryView>, id: Seq<char>, k: int)
    requires
        0 <= k <= list.len(),
        environment_at(list.take(k), id) is Some,
    ensures
        environment_at(list, id) == environment_at(list.take(k), id),
    decreases list.len() - k,
{
    if k < list.len() {
        assert(list.take(k + 1).drop_last() =~= list.take(k));
        lemma_environment_found(list, id, k + 1);
    } else {
        assert(list.take(k) =~= list);
    }
}

fn find_environment(list: &[EnvironmentSummary], id: &str) -> (r: Option<usize>)
    ensures
        environment_at(views(list@), id@) == match r {
            Some(i) => Some(i as int),
            None => None,
        },
        r matches Some(i) ==> i < list@.len(),
{
    let ghost all = views(list@);
    assert(all.take(0) =~= seq![]);
    for i in 0..list.len()
        invariant
            all == views(list@),
            environment_at(all.take(i as int), id@) is None,
    {
        proof {
            assert(all[i as int] == list@[i as int]@);
            assert(all.take(i + 1).drop_last() =~= all.take(i as int));
            assert(all.take(i + 1).last() == all[i as int]);
        }
        if same_text(list[i].id.as_str(), id) {
            proof {
                lemma_environment_found(all, id@, i + 1);
            }
            return Some(i);
        }
    }
    assert(all.take(list@.len() as int) =~= all);
    None
}

/// Finds the environment that comes after another, going round.
pub fn next_environment(list: &[EnvironmentSummary], selected: Option<&str>) -> (r: Option<usize>)
    ensures
        environment_after(views(list@), optional_slug(selected)) == match r {
            Some(i) => Some(i as int),
            None => None,
        },
        r matches Some(i) ==> i < list@.len(),
{
    assert(views(list@).len() == list@.len());
    if list.len() == 0 {
        return None;
    }
    match selected {
        None => Some(0),
        Some(id) => match find_environment(list, id) {
            None => Some(0),
            Some(i) => Some(
                if i + 1 == list.len() {
                    0
                } else {
                    i + 1
                },
            ),
        },
    }
}

impl WorkspaceBrowser {
    fn unread(label: String, repository: Option<WorkspaceRepository>, error: Option<String>) -> (r:
        WorkspaceBrowser)
        ensures
            r@ == nothing_shown(
                label@,
                match repository {
                    Some(w) => Some(w@),
                    None => None,
                },
                optional_text(error),
            ),
    {
        let r = WorkspaceBrowser {
            label,
            repository,
            requests: Vec::new(),
            environments: Vec::new(),
            default_environment: None,
            error,
        };
        proof {
            assert(r@.requests =~= seq![]);
            assert(r@.environments =~= seq![]);
        }
        r
    }

    /// Reads what is shown of the workspace at a root, given its files.
    pub fn open(root: Option<&str>, files: &FileTree) -> (r: WorkspaceBrowser)
        requires
            files.wf(),
        ensures
            r@ == browser_opened(optional_slug(root), files@.nodes),
    {
        let root = match root {
            Some(r) => r,
            None => {
                return WorkspaceBrowser::unread("Local Draft Workspace".to_owned(), None, None);
            },
        };
        let repository = match WorkspaceRepository::new(root) {
            Ok(w) => w,
            Err(e) => {
                return WorkspaceBrowser::unread(root.to_owned(), None, Some(e.message()));
            },
        };
        let manifest = match repository.load_manifest(files) {
            Ok(m) => m,
            Err(e) => {
                return WorkspaceBrowser::unread(
                    root.to_owned(),
                    Some(repository),
                    Some(e.message()),
                );
            },
        };
        let mut error: Option<String> = None;
        let requests: Vec<WorkspaceRequestEntry> = match repository.list_requests(files) {
            Ok(list) => list,
            Err(e) => {
                error = Some(e.message());
                Vec::new()
            },
        };
        let environments: Vec<EnvironmentSummary> = match repository.list_environments(files) {
            Ok(list) => list,
            Err(e) => {
                if error.is_none() {
                    error = Some(e.message());
                }
                Vec::new()
            },
        };
        let r = WorkspaceBrowser {
            label: manifest.value.name,
            repository: Some(repository),
            requests,
            environments,
            default_environment: manifest.value.default_environment,
            error,
        };
        assert(r@ =~= browser_opened(Some(root@), files@.nodes));
        r
    }

    /// Reads the request that is edited first, given the files of the workspace.
    pub fn initial_document(&self, files: &FileTree) -> (r: Option<
        (DocumentStore, HttpRequest, FileFingerprint),
    >)
        requires
            files.wf(),
        ensures
            match r {
                Some((store, request, fingerprint)) => first_request(self@, files@.nodes) == Some(
                    (store@, request@, fingerprint.number()),
                ),
                None => first_request(self@, files@.nodes) is None,
            },
    {
        let repository = match &self.repository {
            Some(w) => w,
            None => {
                return None;
            },
        };
        assert(self@.requests.len() == self.requests@.len());
        if self.requests.len() == 0 {
            return None;
        }
        assert(self@.requests[0] == self.requests@[0]@);
        let path = &self.requests[0].path;
        match repository.load_request(files, path) {
            Err(_) => None,
            Ok(d) => Some(
                (
                    DocumentStore::new(repository.copy(), path.copy()),
                    d.value.request,
                    d.fingerprint,
                ),
            ),
        }
    }

    /// How an environment is called, or that there is none.
    pub fn environment_name(&self, id: Option<&str>) -> (r: String)
        ensures
            r@ == environment_shown(self@.environments, optional_slug(id)),
    {
        match id {
            None => "No environment".to_owned(),
            Some(id) => match find_environment(self.environments.as_slice(), id) {
                None => id.to_owned(),
                Some(i) => {
                    assert(self@.environments[i as int] == self.environments@[i as int]@);
                    self.environments[i].name.clone()
                },
            },
        }
    }

    /// Reads the variables that requests are resolved with in an environment: none without a
    /// workspace.
    pub fn variable_context(&self, files: &FileTree, environment: Option<&str>, book: &SourceBook) -> (r:
        Result<VariableContext, String>)
        requires
            files.wf(),
        ensures
            r matches Ok(c) ==> c.wf(),
            outcome(r) == variables_for(self@, files@.nodes, optional_slug(environment), book@),
    {
        let repository = match &self.repository {
            Some(r) => r,
            None => {
                return Ok(VariableContext::new());
            },
        };
        let selection = WorkspaceVariableSelection {
            environment: match environment {
                Some(e) => Some(e.to_owned()),
                None => None,
            },
            include_local_override: true,
        };
        match load_workspace_variables(repository, files, &selection, book) {
            Ok(loaded) => Ok(loaded.context),
            Err(e) => Err(e.message()),
        }
    }

    /// The environment that is used first: the one asked for, or the default one.
    pub fn initial_environment(&self, asked: Option<String>) -> (r: Option<String>)
        ensures
            optional_text(r) == match optional_text(asked) {
                Some(id) => Some(id),
                None => self@.default_environment,
            },
    {
        match asked {
            Some(id) => Some(id),
            None => copy_optional_text(&self.default_environment),
        }
    }
}

/// Going through the environments from any of them comes to every one: after the one of an
/// identifier that occurs once comes the next, and after the last the first.
pub proof fn law_environments_go_round(list: Seq<SummaryView>, i: int)
    requires
        0 <= i < list.len(),
        forall|a: int, b: int| 0 <= a < b < list.len() ==> (#[trigger] list[a]).id != (
        #[trigger] list[b]).id,
    ensures
        environment_after(list, Some(list[i].id)) == Some((i + 1) % (list.len() as int)),
{
    lemma_environment_at(list, list[i].id);
    lemma_environment_there(list, i);
    let k = environment_at(list, list[i].id)->Some_0;
    if k != i {
        if k < i {
            assert(list[k].id != list[i].id);
        } else {
            assert(list[i].id != list[k].id);
        }
    }
    if i + 1 < list.len() {
        vstd::arithmetic::div_mod::lemma_small_mod((i + 1) as nat, list.len());
    } else {
        vstd::arithmetic::div_mod::lemma_mod_self_0(list.len() as int);
    }
}

proof fn lemma_environment_there(list: Seq<SummaryView>, i: int)
    requires
        0 <= i < list.len(),
    ensures
        environment_at(list, list[i].id) is Some,
    decreases list.len(),
{
    if i < list.len() - 1 {
        assert(list.drop_last()[i] == list[i]);
        lemma_environment_there(list.drop_last(), i);
    }
}

/// How the request that is edited stands, in a few words.
pub open spec fn request_status(running: bool, attention: bool, dirty: bool) -> Seq<char> {
    if running {
        "Request running"@
    } else if attention {
        "External workspace change"@
    } else if dirty {
        "Unsaved draft"@
    } else {
        "Saved"@
    }
}

/// Says how the request that is edited stands.
pub fn show_request_status(running: bool, attention: bool, dirty: bool) -> (r: &'static str)
    ensures
        r@ == request_status(running, attention, dirty),
{
    if running {
        "Request running"
    } else if attention {
        "External workspace change"
    } else if dirty {
        "Unsaved draft"
    } else {
        "Saved"
    }
}

/// Whether the workspace is watched for changes.
#[derive(Clone, Debug, PartialEq, Eq)]
pub enum WatchState {
    Inactive,
    Watching,
    Failed(String),
}

/// What is said of whether the workspace is watched.
pub open spec fn watch_text(state: WatchState) -> Seq<char> {
    match state {
        WatchState::Inactive => "not active"@,
        WatchState::Watching => "watching"@,
        WatchState::Failed(e) => "watch error: "@ + e@,
    }
}

impl WatchState {
    /// What is said of whether the workspace is watched.
    pub fn status(&self) -> (r: String)
        ensures
            r@ == watch_text(*self),
    {
        match self {
            WatchState::Inactive => "not active".to_owned(),
            WatchState::Watching => "watching".to_owned(),
            WatchState::Failed(e) => concat2("watch error: ", e.as_str()),
        }
    }
}

/// The line at the bottom: the workspace, the environment, whether a request is carried out, and
/// whether the workspace is watched.
pub open spec fn status_line(
    label: Seq<char>,
    environment: Seq<char>,
    running: bool,
    watch: WatchState,
) -> Seq<Seq<char>> {
    seq![
        "workspace: "@ + label,
        "environment: "@ + environment,
        if running {
            "HTTP: running"@
        } else {
            "HTTP: idle"@
        },
        "watch: "@ + watch_text(watch),
        "proxy: direct"@,
        "TLS: rustls"@,
        "UTF-8"@,
    ]
}

/// Writes the line at the bottom.
pub fn show_status_line(label: &str, environment: &str, running: bool, watch: &WatchState) -> (r:
    Vec<String>)
    ensures
        texts(r@) == status_line(label@, environment@, running, *watch),
{
    let mut r: Vec<String> = Vec::new();
    r.push(concat2("workspace: ", label));
    r.push(concat2("environment: ", environment));
    r.push(
        if running {
            "HTTP: running".to_owned()
        } else {
            "HTTP: idle".to_owned()
        },
    );
    r.push(concat2("watch: ", watch.status().as_str()));
    r.push("proxy: direct".to_owned());
    r.push("TLS: rustls".to_owned());
    r.push("UTF-8".to_owned());
    assert(texts(r@) =~= status_line(label@, environment@, running, *watch));
    r
}

} // verus!
