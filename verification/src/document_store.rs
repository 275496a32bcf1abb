//! Where an open request is kept: a workspace and a path in it.
use crate::domain::{HttpRequest, RequestView, StableId};
use crate::error::{error_message, outcome, WorkspaceErrorView};
use crate::files::{is_there, FileTree, FilesView, Nodes};
use crate::fingerprint::FileFingerprint;
use crate::flat::Fields;
use crate::message::concat2;
use crate::paths::{
    below_root, components, components_below, joined, relative_path, relative_text, ResourcePath,
};
use crate::reconcile::optional_path;
use crate::repository::{expected_number, WorkspaceRepository};
use crate::repository_documents::{request_loaded, request_saved};
use crate::request::{RequestDocument, RequestDocumentView};
use crate::text::texts;
use crate::workspace_operation::path_or_reason;
use vstd::prelude::*;

verus! {

/// Where an open request is kept.
#[derive(Clone, Debug, PartialEq, Eq)]
pub struct DocumentStore {
    repository: WorkspaceRepository,
    path: ResourcePath,
}

/// Where an open request is kept, by its contents.
pub struct StoreView {
    pub root: Seq<char>,
    pub path: Seq<char>,
}

impl View for DocumentStore {
    type V = StoreView;

    closed spec fn view(&self) -> StoreView {
        StoreView { root: self.repository@, path: self.path@ }
    }
}

/// The contents of an optional store.
pub open spec fn optional_store(store: Option<DocumentStore>) -> Option<StoreView> {
    match store {
        Some(s) => Some(s@),
        None => None,
    }
}

/// The path of the workspace of requests that were never saved to another.
pub open spec fn draft_root(state: Seq<char>) -> Seq<char> {
    joined(joined(state, "apex-api"@), "draft-workspace"@)
}

/// The name of the file of a request that was never saved to a workspace.
pub open spec fn draft_file(id: Seq<char>) -> Seq<char> {
    id + ".request.toml"@
}

/// Where a request that was never saved to a workspace is kept.
pub open spec fn draft_store(state: Seq<char>, id: Seq<char>) -> StoreView {
    let root = draft_root(state);
    StoreView {
        root,
        path: joined(joined(joined(root, "collections"@), "local-drafts"@), draft_file(id)),
    }
}

/// The place of a request that was never saved to a workspace.
pub open spec fn draft_place(id: Seq<char>) -> Seq<char> {
    "collections/local-drafts/"@ + draft_file(id)
}

/// What reading a request from where it is kept gives.
pub open spec fn store_loaded(nodes: Nodes, store: StoreView) -> Result<
    (RequestView, u64),
    Seq<char>,
> {
    match request_loaded(nodes, store.root, store.path) {
        Err(e) => Err(error_message(e)),
        Ok(d) => Ok((d.value.request, d.fingerprint)),
    }
}

/// What opening a request that was never saved to a workspace gives: where it is kept, and what
/// is there, if anything.
pub open spec fn draft_opened(nodes: Nodes, state: Seq<char>, id: Seq<char>) -> Result<
    (StoreView, Option<(RequestView, u64)>),
    Seq<char>,
> {
    let store = draft_store(state, id);
    if store.root.len() == 0 {
        Err(error_message(WorkspaceErrorView::InvalidPath("workspace path is empty"@)))
    } else if !is_there(nodes, draft_place(id)) {
        Ok((store, None))
    } else {
        match store_loaded(nodes, store) {
            Err(e) => Err(e),
            Ok(loaded) => Ok((store, Some(loaded))),
        }
    }
}

/// The contents of a request that was read, or of what is said in its place.
pub open spec fn loaded_outcome(r: Result<(HttpRequest, FileFingerprint), String>) -> Result<
    (RequestView, u64),
    Seq<char>,
> {
    match r {
        Ok((request, fingerprint)) => Ok((request@, fingerprint.number())),
        Err(e) => Err(e@),
    }
}

/// The contents of a request that was opened, or of what is said in its place.
pub open spec fn opened_outcome(
    r: Result<(DocumentStore, Option<(HttpRequest, FileFingerprint)>), String>,
) -> Result<(StoreView, Option<(RequestView, u64)>), Seq<char>> {
    match r {
        Ok((store, Some((request, fingerprint)))) => Ok(
            (store@, Some((request@, fingerprint.number()))),
        ),
        Ok((store, None)) => Ok((store@, None)),
        Err(e) => Err(e@),
    }
}

/// The document of a request, with nothing to preserve.
pub open spec fn plain_document(request: RequestView) -> RequestDocumentView {
    RequestDocumentView {
        schema_version: crate::document::CURRENT_SCHEMA_VERSION,
        request,
        unknown_fields: Fields::empty(),
    }
}

/// The outcome of saving a request where it is kept.
pub open spec fn store_saved(
    files: FilesView,
    store: StoreView,
    request: RequestView,
    expected: Option<u64>,
    leaks: Seq<Seq<char>>,
) -> (Result<u64, Seq<char>>, FilesView) {
    let (r, after) = request_saved(
        files,
        store.root,
        store.path,
        plain_document(request),
        expected,
        leaks,
    );
    (
        match r {
            Ok(n) => Ok(n),
            Err(e) => Err(error_message(e)),
        },
        after,
    )
}

/// The contents of the outcome of saving a request.
pub open spec fn saved_outcome(r: Result<FileFingerprint, String>) -> Result<u64, Seq<char>> {
    match r {
        Ok(f) => Ok(f.number()),
        Err(e) => Err(e@),
    }
}

/// The path of a request under the root of a workspace, if it is kept in that workspace.
pub open spec fn path_in_workspace(store: StoreView, root: Seq<char>) -> Option<Seq<char>> {
    if components(store.root) != components(root) {
        None
    } else {
        match components_below(root, store.path) {
            Some(list) => Some(relative_text(list)),
            None => None,
        }
    }
}

impl DocumentStore {
    /// A path in a workspace.
    pub fn new(repository: WorkspaceRepository, path: ResourcePath) -> (r: DocumentStore)
        ensures
            r@ == (StoreView { root: repository@, path: path@ }),
    {
        DocumentStore { repository, path }
    }

    /// The same store.
    pub fn copy(&self) -> (r: DocumentStore)
        ensures
            r@ == self@,
    {
        DocumentStore { repository: self.repository.copy(), path: self.path.copy() }
    }

    /// Opens the request of an identifier that was never saved to a workspace, given the files of
    /// the workspace of such requests.
    pub fn open_draft_for(state: &ResourcePath, files: &FileTree, id: &StableId) -> (r: Result<
        (DocumentStore, Option<(HttpRequest, FileFingerprint)>),
        String,
    >)
        requires
            files.wf(),
        ensures
            opened_outcome(r) == draft_opened(files@.nodes, state@, id@),
    {
        let root = state.join("apex-api").join("draft-workspace");
        let repository = match WorkspaceRepository::new(root.as_text()) {
            Ok(w) => w,
            Err(e) => {
                return Err(e.message());
            },
        };
        let name = concat2(id.as_str(), ".request.toml");
        let path = root.join("collections").join("local-drafts").join(name.as_str());
        let place = concat2("collections/local-drafts/", name.as_str());
        let store = DocumentStore { repository, path };
        if !files.is_there(place.as_str()) {
            return Ok((store, None));
        }
        match store.load(files) {
            Err(e) => Err(e),
            Ok(loaded) => Ok((store, Some(loaded))),
        }
    }

    /// Opens the request that a new draft is kept as.
    pub fn open_draft(state: &ResourcePath, files: &FileTree) -> (r: Result<
        (DocumentStore, Option<(HttpRequest, FileFingerprint)>),
        String,
    >)
        requires
            files.wf(),
        ensures
            opened_outcome(r) == draft_opened(files@.nodes, state@, "gui-draft"@),
    {
        let request = crate::editor::default_request();
        DocumentStore::open_draft_for(state, files, &request.id)
    }

    /// Reads the request.
    pub fn load(&self, files: &FileTree) -> (r: Result<(HttpRequest, FileFingerprint), String>)
        requires
            files.wf(),
        ensures
            loaded_outcome(r) == store_loaded(files@.nodes, self@),
    {
        match self.repository.load_request(files, &self.path) {
            Err(e) => Err(e.message()),
            Ok(d) => Ok((d.value.request, d.fingerprint)),
        }
    }

    /// Saves the request, given what was found to look secret in it.
    pub fn save(
        &self,
        files: &mut FileTree,
        request: &HttpRequest,
        expected: Option<FileFingerprint>,
        leaks: &[String],
    ) -> (r: Result<FileFingerprint, String>)
        requires
            old(files).wf(),
        ensures
            final(files).wf(),
            (saved_outcome(r), final(files)@) == store_saved(
                old(files)@,
                self@,
                request@,
                expected_number(expected),
                texts(leaks@),
            ),
    {
        let document = RequestDocument::new(request.copy());
        match self.repository.save_request(files, &self.path, &document, expected, leaks) {
            Err(e) => Err(e.message()),
            Ok(f) => Ok(f),
        }
    }

    /// The path of the request.
    pub fn path(&self) -> (r: &ResourcePath)
        ensures
            r@ == self@.path,
    {
        &self.path
    }

    /// The directory that the files a request names are looked for in.
    pub fn resource_root(&self) -> (r: ResourcePath)
        ensures
            r@ == self@.root,
    {
        self.repository.root().copy()
    }

    /// The path of the request under the root of a workspace, if it is kept in that workspace.
    pub fn relative_path_in(&self, repository: &WorkspaceRepository) -> (r: Option<ResourcePath>)
        ensures
            optional_path(r) == path_in_workspace(self@, repository@),
    {
        if !self.repository.root().same_path(repository.root()) {
            return None;
        }
        match below_root(repository.root(), &self.path) {
            Some(list) => Some(relative_path(list.as_slice())),
            None => None,
        }
    }

    /// The request at a path under the root of a workspace.
    pub fn from_relative(repository: WorkspaceRepository, path: &ResourcePath) -> (r: DocumentStore)
        ensures
            r@ == (StoreView { root: repository@, path: joined(repository@, path@) }),
    {
        let path = repository.root().join(path.as_text());
        DocumentStore { repository, path }
    }
}

/// Where the state of the program is kept, by the two variables that may say it.
pub open spec fn state_root(state: Option<Seq<char>>, home: Option<Seq<char>>) -> Result<
    Seq<char>,
    Seq<char>,
> {
    match state {
        Some(path) => Ok(path),
        None => match home {
            Some(path) => Ok(joined(joined(path, ".local"@), "state"@)),
            None => Err("neither XDG_STATE_HOME nor HOME is set"@),
        },
    }
}

/// Finds where the state of the program is kept.
pub fn draft_state_root(state_home: Option<&str>, home: Option<&str>) -> (r: Result<
    ResourcePath,
    String,
>)
    ensures
        path_or_reason(r) == state_root(
            crate::repository_documents::optional_slug(state_home),
            crate::repository_documents::optional_slug(home),
        ),
{
    match state_home {
        Some(path) => Ok(ResourcePath::new(path)),
        None => match home {
            Some(path) => Ok(ResourcePath::new(path).join(".local").join("state")),
            None => Err("neither XDG_STATE_HOME nor HOME is set".to_owned()),
        },
    }
}

/// The file that the open tabs are kept in.
pub fn tab_session_state_path(state: &ResourcePath) -> (r: ResourcePath)
    ensures
        r@ == joined(joined(state@, "apex-api"@), "ui-session.json"@),
{
    state.join("apex-api").join("ui-session.json")
}

/// What is known of the workspace of a request, given the nearest directory above it that holds
/// a manifest.
pub open spec fn store_of_request(path: Seq<char>, root: Option<Seq<char>>) -> Result<
    StoreView,
    Seq<char>,
> {
    match root {
        None => Err("could not find apex.toml for "@ + path),
        Some(r) => if r.len() == 0 {
            Err(error_message(WorkspaceErrorView::InvalidPath("workspace path is empty"@)))
        } else {
            Ok(StoreView { root: r, path })
        },
    }
}

/// Finds the workspace of a request, given the nearest directory above it that holds a
/// manifest.
pub fn workspace_store_for_request(path: &ResourcePath, root: Option<&ResourcePath>) -> (r: Result<
    DocumentStore,
    String,
>)
    ensures
        outcome(r) == store_of_request(
            path@,
            match root {
                Some(p) => Some(p@),
                None => None,
            },
        ),
{
    match root {
        None => Err(concat2("could not find apex.toml for ", path.as_text())),
        Some(p) => match WorkspaceRepository::new(p.as_text()) {
            Err(e) => Err(e.message()),
            Ok(repository) => Ok(DocumentStore::new(repository, path.copy())),
        },
    }
}

} // verus!
