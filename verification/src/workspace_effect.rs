//! Carrying out the changes to a workspace that commands ask for.
use crate::collection::{
    collection_text, collection_value, folder_text, folder_value, new_named, CollectionDocument,
    FolderDocument, NamedView, OrderDocument, OrderView, COLLECTION_FILE, FOLDER_FILE,
};
use crate::document::{bool_text, show_bool, CURRENT_SCHEMA_VERSION};
use crate::domain::{is_slug, RequestView, StableId};
use crate::editor::{default_request, draft_request};
use crate::error::{error_message, outcome, WorkspaceError, WorkspaceErrorView};
use crate::files::{entry_path, parent_place, FileTree, FilesView, Nodes};
use crate::fingerprint::{directory_digest, FileFingerprint};
use crate::flat::Fields;
use crate::lines::{join, join_texts};
use crate::message::{concat2, concat3, concat4, concat5};
use crate::naming::IdSource;
use crate::paths::ResourcePath;
use crate::repository::{bad_slug, collection_place, folder_place, WorkspaceRepository};
use crate::repository_collections::{
    collection_created, copy_requests, deleted, duplicated, folder_created, relocation, renamed,
};
use crate::repository_documents::{
    leak_views, loaded_at, order_loaded, order_saved, request_loaded, scanned_request_saved,
};
use crate::repository_listing::{archived_set, file_place};
use crate::request::{format_request, request_text, RequestDocument, RequestDocumentView};
use crate::text::texts;
use crate::workspace_operation::{
    ancestry_views, operation_asked, parse_workspace_operation, Ancestry, AncestryView,
    OperationView, WorkspaceOperation,
};
use vstd::prelude::*;

verus! {

/// A change to a request that is left to the caller.
#[derive(Clone, Debug, PartialEq, Eq)]
pub enum RequestChange {
    /// The request gets another path.
    Move { source: ResourcePath, target: ResourcePath, expected: FileFingerprint },
    /// The request is copied.
    Duplicate { source: ResourcePath, target: ResourcePath, expected: FileFingerprint },
    /// The request is deleted.
    Delete { path: ResourcePath, expected: FileFingerprint },
}

/// A change to a request that is left to the caller, by its contents.
pub enum RequestChangeView {
    Move { source: Seq<char>, target: Seq<char>, expected: u64 },
    Duplicate { source: Seq<char>, target: Seq<char>, expected: u64 },
    Delete { path: Seq<char>, expected: u64 },
}

impl View for RequestChange {
    type V = RequestChangeView;

    open spec fn view(&self) -> RequestChangeView {
        match self {
            RequestChange::Move { source, target, expected } => RequestChangeView::Move {
                source: source@,
                target: target@,
                expected: expected.number(),
            },
            RequestChange::Duplicate { source, target, expected } => RequestChangeView::Duplicate {
                source: source@,
                target: target@,
                expected: expected.number(),
            },
            RequestChange::Delete { path, expected } => RequestChangeView::Delete {
                path: path@,
                expected: expected.number(),
            },
        }
    }
}

/// What came of a command: it is completed, with what is told of it, or a change is left to do.
#[derive(Clone, Debug, PartialEq, Eq)]
pub enum OperationReport {
    Completed(String),
    Left(RequestChange),
}

/// What came of a command, by its contents.
pub enum ReportView {
    Completed(Seq<char>),
    Left(RequestChangeView),
}

impl View for OperationReport {
    type V = ReportView;

    open spec fn view(&self) -> ReportView {
        match self {
            OperationReport::Completed(message) => ReportView::Completed(message@),
            OperationReport::Left(change) => ReportView::Left(change@),
        }
    }
}

/// What is told of a change to a request once it was tried.
pub open spec fn change_told(
    change: RequestChangeView,
    done: Result<(), WorkspaceErrorView>,
) -> Result<Seq<char>, Seq<char>> {
    match done {
        Err(e) => Err(error_message(e)),
        Ok(_) => Ok(
            match change {
                RequestChangeView::Move { .. } => "move_request completed"@,
                RequestChangeView::Duplicate { .. } => "duplicate_request completed"@,
                RequestChangeView::Delete { path, .. } => "Deleted request "@ + path,
            },
        ),
    }
}

/// Tells of a change to a request once it was tried.
pub fn tell_request_change(change: &RequestChange, done: Result<(), WorkspaceError>) -> (r: Result<
    String,
    String,
>)
    ensures
        outcome(r) == change_told(
            change@,
            crate::repository_collections::plain_outcome(done),
        ),
{
    match done {
        Err(e) => Err(e.message()),
        Ok(_) => Ok(
            match change {
                RequestChange::Move { .. } => "move_request completed".to_owned(),
                RequestChange::Duplicate { .. } => "duplicate_request completed".to_owned(),
                RequestChange::Delete { path, .. } => concat2("Deleted request ", path.as_text()),
            },
        ),
    }
}

/// What came of a command, with the files after it.
pub type OperationOutcome = (Result<ReportView, Seq<char>>, FilesView);

/// What a change takes from outside: a mark for temporary names, identifiers for copies, and
/// what was found to look secret in each request that is written.
pub struct OperationInputs {
    pub nonce: u128,
    pub ids: IdSource,
    pub leaks: Vec<Vec<String>>,
}

/// What is told of a change.
pub open spec fn told<T>(
    done: (Result<T, WorkspaceErrorView>, FilesView),
    message: Seq<char>,
) -> OperationOutcome {
    (
        match done.0 {
            Ok(_) => Ok(ReportView::Completed(message)),
            Err(e) => Err(error_message(e)),
        },
        done.1,
    )
}

/// The fingerprint of a collection.
pub open spec fn collection_digest(nodes: Nodes, root: Seq<char>, slug: Seq<char>) -> Result<
    u64,
    WorkspaceErrorView,
> {
    match collection_place(slug) {
        Ok(place) => directory_digest(nodes, root, place),
        Err(e) => Err(e),
    }
}

/// The fingerprint of a folder.
pub open spec fn folder_digest(
    nodes: Nodes,
    root: Seq<char>,
    collection: Seq<char>,
    folders: Seq<Seq<char>>,
) -> Result<u64, WorkspaceErrorView> {
    match folder_place(collection, folders) {
        Ok(place) => directory_digest(nodes, root, place),
        Err(e) => Err(e),
    }
}

/// The outcome of giving a collection, as it is, another name.
pub open spec fn collection_renamed(
    files: FilesView,
    root: Seq<char>,
    source: Seq<char>,
    target: Seq<char>,
) -> (Result<u64, WorkspaceErrorView>, FilesView) {
    match collection_digest(files.nodes, root, source) {
        Err(e) => (Err(e), files),
        Ok(expected) => match (collection_place(source), collection_place(target)) {
            (Err(e), _) => (Err(e), files),
            (_, Err(e)) => (Err(e), files),
            (Ok(from), Ok(to)) => renamed(files, root, from, to, expected),
        },
    }
}

/// The outcome of copying a collection as it is.
pub open spec fn collection_duplicated(
    files: FilesView,
    root: Seq<char>,
    source: Seq<char>,
    target: Seq<char>,
    ids: IdSource,
    leaks: Seq<Seq<Seq<char>>>,
    nonce: u128,
) -> (Result<u64, WorkspaceErrorView>, FilesView) {
    match collection_digest(files.nodes, root, source) {
        Err(e) => (Err(e), files),
        Ok(expected) => match (collection_place(source), collection_place(target)) {
            (Err(e), _) => (Err(e), files),
            (_, Err(e)) => (Err(e), files),
            (Ok(from), Ok(to)) => duplicated(
                files,
                root,
                from,
                to,
                expected,
                Some(target),
                ids,
                leaks,
                nonce,
            ),
        },
    }
}

/// The outcome of deleting a collection as it is.
pub open spec fn collection_deleted(
    files: FilesView,
    root: Seq<char>,
    slug: Seq<char>,
    nonce: u128,
) -> (Result<(), WorkspaceErrorView>, FilesView) {
    match collection_digest(files.nodes, root, slug) {
        Err(e) => (Err(e), files),
        Ok(expected) => match collection_place(slug) {
            Err(e) => (Err(e), files),
            Ok(place) => deleted(files, root, place, expected, nonce),
        },
    }
}

/// The outcome of archiving a collection as it is.
pub open spec fn collection_archived(
    files: FilesView,
    root: Seq<char>,
    slug: Seq<char>,
    archived: bool,
) -> (Result<u64, WorkspaceErrorView>, FilesView) {
    let current = loaded_at(
        files.nodes,
        root,
        collection_place(slug),
        COLLECTION_FILE@,
        |text: Seq<char>| collection_value(text),
    );
    match current {
        Err(e) => (Err(e), files),
        Ok(d) => archived_set(
            files,
            root,
            current,
            file_place(collection_place(slug), COLLECTION_FILE@),
            archived,
            d.fingerprint,
            |d: NamedView| collection_text(d),
        ),
    }
}

/// The outcome of giving a folder, as it is, another name.
pub open spec fn folder_renamed(
    files: FilesView,
    root: Seq<char>,
    collection: Seq<char>,
    folders: Seq<Seq<char>>,
    target: Seq<char>,
) -> (Result<u64, WorkspaceErrorView>, FilesView) {
    match folder_digest(files.nodes, root, collection, folders) {
        Err(e) => (Err(e), files),
        Ok(expected) => if !is_slug(target) {
            (Err(bad_slug(target)), files)
        } else {
            match folder_place(collection, folders) {
                Err(e) => (Err(e), files),
                Ok(source) => renamed(
                    files,
                    root,
                    source,
                    entry_path(parent_place(source), target),
                    expected,
                ),
            }
        },
    }
}

/// The outcome of giving a folder, as it is, another parent.
pub open spec fn folder_moved(
    files: FilesView,
    root: Seq<char>,
    collection: Seq<char>,
    folders: Seq<Seq<char>>,
    parents: Seq<Seq<char>>,
    target: Seq<char>,
) -> (Result<u64, WorkspaceErrorView>, FilesView) {
    match folder_digest(files.nodes, root, collection, folders) {
        Err(e) => (Err(e), files),
        Ok(expected) => match relocation(
            files.nodes,
            root,
            collection,
            folders,
            parents,
            target,
            "cannot move a folder into itself"@,
        ) {
            Err(e) => (Err(e), files),
            Ok((from, to)) => renamed(files, root, from, to, expected),
        },
    }
}

/// The outcome of copying a folder as it is.
pub open spec fn folder_duplicated(
    files: FilesView,
    root: Seq<char>,
    collection: Seq<char>,
    folders: Seq<Seq<char>>,
    parents: Seq<Seq<char>>,
    target: Seq<char>,
    ids: IdSource,
    leaks: Seq<Seq<Seq<char>>>,
    nonce: u128,
) -> (Result<u64, WorkspaceErrorView>, FilesView) {
    match folder_digest(files.nodes, root, collection, folders) {
        Err(e) => (Err(e), files),
        Ok(expected) => match relocation(
            files.nodes,
            root,
            collection,
            folders,
            parents,
            target,
            "cannot duplicate a folder into itself"@,
        ) {
            Err(e) => (Err(e), files),
            Ok((from, to)) => duplicated(
                files,
                root,
                from,
                to,
                expected,
                None,
                ids,
                leaks,
                nonce,
            ),
        },
    }
}

/// The outcome of deleting a folder as it is.
pub open spec fn folder_deleted(
    files: FilesView,
    root: Seq<char>,
    collection: Seq<char>,
    folders: Seq<Seq<char>>,
    nonce: u128,
) -> (Result<(), WorkspaceErrorView>, FilesView) {
    match folder_digest(files.nodes, root, collection, folders) {
        Err(e) => (Err(e), files),
        Ok(expected) => match folder_place(collection, folders) {
            Err(e) => (Err(e), files),
            Ok(place) => deleted(files, root, place, expected, nonce),
        },
    }
}

/// The outcome of archiving a folder as it is.
pub open spec fn folder_archived(
    files: FilesView,
    root: Seq<char>,
    collection: Seq<char>,
    folders: Seq<Seq<char>>,
    archived: bool,
) -> (Result<u64, WorkspaceErrorView>, FilesView) {
    let current = loaded_at(
        files.nodes,
        root,
        folder_place(collection, folders),
        FOLDER_FILE@,
        |text: Seq<char>| folder_value(text),
    );
    match current {
        Err(e) => (Err(e), files),
        Ok(d) => archived_set(
            files,
            root,
            current,
            file_place(folder_place(collection, folders), FOLDER_FILE@),
            archived,
            d.fingerprint,
            |d: NamedView| folder_text(d),
        ),
    }
}

/// The document of a request that was just made.
pub open spec fn new_request(id: Seq<char>, name: Seq<char>, url: Seq<char>) -> RequestDocumentView {
    RequestDocumentView {
        schema_version: CURRENT_SCHEMA_VERSION,
        request: RequestView { id, name, url, ..draft_request() },
        unknown_fields: Fields::empty(),
    }
}

/// The outcome of giving an order in place of the one that is there.
pub open spec fn order_replaced(
    files: FilesView,
    root: Seq<char>,
    collection: Seq<char>,
    folders: Seq<Seq<char>>,
    items: Seq<Seq<char>>,
) -> (Result<u64, WorkspaceErrorView>, FilesView) {
    match order_loaded(files.nodes, root, Some(collection), folders) {
        Err(e) => (Err(e), files),
        Ok(current) => order_saved(
            files,
            root,
            Some(collection),
            folders,
            OrderView {
                schema_version: CURRENT_SCHEMA_VERSION,
                items,
                unknown_fields: Fields::empty(),
            },
            match current {
                Some(d) => Some(d.fingerprint),
                None => None,
            },
        ),
    }
}

/// What came of a change, given what it takes from outside.
pub open spec fn operation_done(
    files: FilesView,
    root: Seq<char>,
    operation: OperationView,
    nonce: u128,
    ids: IdSource,
    leaks: Seq<Seq<Seq<char>>>,
) -> OperationOutcome {
    match operation {
        OperationView::CreateCollection { slug, id, name } => told(
            collection_created(files, root, slug, new_named(id, name), nonce),
            "Created collection '"@ + slug + "'"@,
        ),
        OperationView::RenameCollection { source, target } => told(
            collection_renamed(files, root, source, target),
            "Renamed collection '"@ + source + "' to '"@ + target + "'"@,
        ),
        OperationView::DuplicateCollection { source, target } => told(
            collection_duplicated(files, root, source, target, ids, leaks, nonce),
            "Duplicated collection '"@ + source + "' as '"@ + target + "'"@,
        ),
        OperationView::DeleteCollection { slug } => told(
            collection_deleted(files, root, slug, nonce),
            "Deleted collection '"@ + slug + "'"@,
        ),
        OperationView::ArchiveCollection { slug, archived } => told(
            collection_archived(files, root, slug, archived),
            "Set collection '"@ + slug + "' archived="@ + bool_text(archived),
        ),
        OperationView::CreateFolder { collection, folders, id, name } => told(
            folder_created(files, root, collection, folders, new_named(id, name), nonce),
            "Created folder '"@ + collection + "'/"@ + join(folders, "/"@),
        ),
        OperationView::RenameFolder { collection, folders, target } => told(
            folder_renamed(files, root, collection, folders, target),
            "Renamed folder to '"@ + target + "'"@,
        ),
        OperationView::MoveFolder { collection, folders, parents, target } => told(
            folder_moved(files, root, collection, folders, parents, target),
            "move_folder completed"@,
        ),
        OperationView::DuplicateFolder { collection, folders, parents, target } => told(
            folder_duplicated(
                files,
                root,
                collection,
                folders,
                parents,
                target,
                ids,
                leaks,
                nonce,
            ),
            "duplicate_folder completed"@,
        ),
        OperationView::DeleteFolder { collection, folders } => told(
            folder_deleted(files, root, collection, folders, nonce),
            "Deleted folder '"@ + collection + "'/"@ + join(folders, "/"@),
        ),
        OperationView::ArchiveFolder { collection, folders, archived } => told(
            folder_archived(files, root, collection, folders, archived),
            "Set folder archived="@ + bool_text(archived),
        ),
        OperationView::CreateRequest { path, id, name, url } => told(
            scanned_request_saved(files, root, path, new_request(id, name, url), leaks, 0),
            "Created request "@ + path,
        ),
        OperationView::MoveRequest { source, target } => (
            match request_loaded(files.nodes, root, source) {
                Err(e) => Err(error_message(e)),
                Ok(d) => Ok(
                    ReportView::Left(
                        RequestChangeView::Move { source, target, expected: d.fingerprint },
                    ),
                ),
            },
            files,
        ),
        OperationView::DuplicateRequest { source, target } => (
            match request_loaded(files.nodes, root, source) {
                Err(e) => Err(error_message(e)),
                Ok(d) => Ok(
                    ReportView::Left(
                        RequestChangeView::Duplicate { source, target, expected: d.fingerprint },
                    ),
                ),
            },
            files,
        ),
        OperationView::DeleteRequest { path } => (
            match request_loaded(files.nodes, root, path) {
                Err(e) => Err(error_message(e)),
                Ok(d) => Ok(
                    ReportView::Left(RequestChangeView::Delete { path, expected: d.fingerprint }),
                ),
            },
            files,
        ),
        OperationView::SetOrder { collection, folders, items } => told(
            order_replaced(files, root, collection, folders, items),
            "Updated collection ordering"@,
        ),
    }
}

/// What came of a command, given what it takes from outside.
pub open spec fn command_done(
    files: FilesView,
    root: Seq<char>,
    command: Seq<char>,
    ancestry: Seq<AncestryView>,
    nonce: u128,
    ids: IdSource,
    leaks: Seq<Seq<Seq<char>>>,
) -> OperationOutcome {
    match operation_asked(root, command, ancestry) {
        Err(e) => (Err(e), files),
        Ok(operation) => operation_done(files, root, operation, nonce, ids, leaks),
    }
}

fn tell<T>(r: Result<T, WorkspaceError>, message: String) -> (o: Result<OperationReport, String>)
    ensures
        outcome(o) == (match r {
            Ok(_) => Ok::<ReportView, Seq<char>>(ReportView::Completed(message@)),
            Err(e) => Err(error_message(e@)),
        }),
{
    match r {
        Ok(_) => Ok(OperationReport::Completed(message)),
        Err(e) => Err(e.message()),
    }
}

fn rename_collection(
    repository: &WorkspaceRepository,
    files: &mut FileTree,
    source: &str,
    target: &str,
) -> (o: Result<OperationReport, String>)
    requires
        old(files).wf(),
    ensures
        final(files).wf(),
        (outcome(o), final(files)@) == told(
            collection_renamed(old(files)@, repository@, source@, target@),
            "Renamed collection '"@ + source@ + "' to '"@ + target@ + "'"@,
        ),
{
    match repository.collection_fingerprint(files, source) {
        Err(e) => Err(e.message()),
        Ok(f) => tell(
            repository.rename_collection(files, source, target, f),
            concat5("Renamed collection '", source, "' to '", target, "'"),
        ),
    }
}

fn duplicate_collection(
    repository: &WorkspaceRepository,
    files: &mut FileTree,
    source: &str,
    target: &str,
    inputs: &OperationInputs,
) -> (o: Result<OperationReport, String>)
    requires
        old(files).wf(),
    ensures
        final(files).wf(),
        (outcome(o), final(files)@) == told(
            collection_duplicated(
                old(files)@,
                repository@,
                source@,
                target@,
                inputs.ids,
                leak_views(inputs.leaks@),
                inputs.nonce,
            ),
            "Duplicated collection '"@ + source@ + "' as '"@ + target@ + "'"@,
        ),
{
    match repository.collection_fingerprint(files, source) {
        Err(e) => Err(e.message()),
        Ok(f) => tell(
            repository.duplicate_collection(
                files,
                source,
                target,
                f,
                inputs.ids,
                inputs.leaks.as_slice(),
                inputs.nonce,
            ),
            concat5("Duplicated collection '", source, "' as '", target, "'"),
        ),
    }
}

fn delete_collection(
    repository: &WorkspaceRepository,
    files: &mut FileTree,
    slug: &str,
    nonce: u128,
) -> (o: Result<OperationReport, String>)
    requires
        old(files).wf(),
    ensures
        final(files).wf(),
        (outcome(o), final(files)@) == told(
            collection_deleted(old(files)@, repository@, slug@, nonce),
            "Deleted collection '"@ + slug@ + "'"@,
        ),
{
    match repository.collection_fingerprint(files, slug) {
        Err(e) => Err(e.message()),
        Ok(f) => tell(
            repository.delete_collection(files, slug, f, nonce),
            concat3("Deleted collection '", slug, "'"),
        ),
    }
}

fn archive_collection(
    repository: &WorkspaceRepository,
    files: &mut FileTree,
    slug: &str,
    archived: bool,
) -> (o: Result<OperationReport, String>)
    requires
        old(files).wf(),
    ensures
        final(files).wf(),
        (outcome(o), final(files)@) == told(
            collection_archived(old(files)@, repository@, slug@, archived),
            "Set collection '"@ + slug@ + "' archived="@ + bool_text(archived),
        ),
{
    match repository.load_collection(files, slug) {
        Err(e) => Err(e.message()),
        Ok(d) => tell(
            repository.set_collection_archived(files, slug, archived, d.fingerprint),
            concat4("Set collection '", slug, "' archived=", show_bool(archived)),
        ),
    }
}

fn rename_folder(
    repository: &WorkspaceRepository,
    files: &mut FileTree,
    collection: &str,
    folders: &[String],
    target: &str,
) -> (o: Result<OperationReport, String>)
    requires
        old(files).wf(),
    ensures
        final(files).wf(),
        (outcome(o), final(files)@) == told(
            folder_renamed(old(files)@, repository@, collection@, texts(folders@), target@),
            "Renamed folder to '"@ + target@ + "'"@,
        ),
{
    match repository.folder_fingerprint(files, collection, folders) {
        Err(e) => Err(e.message()),
        Ok(f) => tell(
            repository.rename_folder(files, collection, folders, target, f),
            concat3("Renamed folder to '", target, "'"),
        ),
    }
}

fn move_folder(
    repository: &WorkspaceRepository,
    files: &mut FileTree,
    collection: &str,
    folders: &[String],
    parents: &[String],
    target: &str,
) -> (o: Result<OperationReport, String>)
    requires
        old(files).wf(),
    ensures
        final(files).wf(),
        (outcome(o), final(files)@) == told(
            folder_moved(
                old(files)@,
                repository@,
                collection@,
                texts(folders@),
                texts(parents@),
                target@,
            ),
            "move_folder completed"@,
        ),
{
    match repository.folder_fingerprint(files, collection, folders) {
        Err(e) => Err(e.message()),
        Ok(f) => tell(
            repository.move_folder(files, collection, folders, parents, target, f),
            "move_folder completed".to_owned(),
        ),
    }
}

fn duplicate_folder(
    repository: &WorkspaceRepository,
    files: &mut FileTree,
    collection: &str,
    folders: &[String],
    parents: &[String],
    target: &str,
    inputs: &OperationInputs,
) -> (o: Result<OperationReport, String>)
    requires
        old(files).wf(),
    ensures
        final(files).wf(),
        (outcome(o), final(files)@) == told(
            folder_duplicated(
                old(files)@,
                repository@,
                collection@,
                texts(folders@),
                texts(parents@),
                target@,
                inputs.ids,
                leak_views(inputs.leaks@),
                inputs.nonce,
            ),
            "duplicate_folder completed"@,
        ),
{
    match repository.folder_fingerprint(files, collection, folders) {
        Err(e) => Err(e.message()),
        Ok(f) => tell(
            repository.duplicate_folder(
                files,
                collection,
                folders,
                parents,
                target,
                f,
                inputs.ids,
                inputs.leaks.as_slice(),
                inputs.nonce,
            ),
            "duplicate_folder completed".to_owned(),
        ),
    }
}

fn delete_folder(
    repository: &WorkspaceRepository,
    files: &mut FileTree,
    collection: &str,
    folders: &[String],
    nonce: u128,
) -> (o: Result<OperationReport, String>)
    requires
        old(files).wf(),
    ensures
        final(files).wf(),
        (outcome(o), final(files)@) == told(
            folder_deleted(old(files)@, repository@, collection@, texts(folders@), nonce),
            "Deleted folder '"@ + collection@ + "'/"@ + join(texts(folders@), "/"@),
        ),
{
    match repository.folder_fingerprint(files, collection, folders) {
        Err(e) => Err(e.message()),
        Ok(f) => tell(
            repository.delete_folder(files, collection, folders, f, nonce),
            concat4("Deleted folder '", collection, "'/", join_texts(folders, "/").as_str()),
        ),
    }
}

fn archive_folder(
    repository: &WorkspaceRepository,
    files: &mut FileTree,
    collection: &str,
    folders: &[String],
    archived: bool,
) -> (o: Result<OperationReport, String>)
    requires
        old(files).wf(),
    ensures
        final(files).wf(),
        (outcome(o), final(files)@) == told(
            folder_archived(old(files)@, repository@, collection@, texts(folders@), archived),
            "Set folder archived="@ + bool_text(archived),
        ),
{
    match repository.load_folder(files, collection, folders) {
        Err(e) => Err(e.message()),
        Ok(d) => tell(
            repository.set_folder_archived(files, collection, folders, archived, d.fingerprint),
            concat2("Set folder archived=", show_bool(archived)),
        ),
    }
}

fn new_request_document(id: StableId, name: &str, url: &str) -> (r: RequestDocument)
    ensures
        r.wf(),
        r@ == new_request(id@, name@, url@),
{
    let mut request = default_request();
    request.id = id;
    request.name = name.to_owned();
    request.url = url.to_owned();
    let document = RequestDocument::new(request);
    assert(document@ == new_request(id@, name@, url@));
    document
}

fn create_request(
    repository: &WorkspaceRepository,
    files: &mut FileTree,
    path: &ResourcePath,
    id: StableId,
    name: &str,
    url: &str,
    leaks: &[Vec<String>],
) -> (o: Result<OperationReport, String>)
    requires
        old(files).wf(),
    ensures
        final(files).wf(),
        (outcome(o), final(files)@) == told(
            scanned_request_saved(
                old(files)@,
                repository@,
                path@,
                new_request(id@, name@, url@),
                leak_views(leaks@),
                0,
            ),
            "Created request "@ + path@,
        ),
{
    let document = new_request_document(id, name, url);
    let message = concat2("Created request ", path.as_text());
    tell(repository.save_scanned_request(files, path, &document, leaks, 0), message)
}

fn leave_move(
    repository: &WorkspaceRepository,
    files: &FileTree,
    source: ResourcePath,
    target: ResourcePath,
) -> (o: Result<OperationReport, String>)
    requires
        files.wf(),
    ensures
        outcome(o) == (match request_loaded(files@.nodes, repository@, source@) {
            Err(e) => Err::<ReportView, Seq<char>>(error_message(e)),
            Ok(d) => Ok(ReportView::Left(
                RequestChangeView::Move {
                    source: source@,
                    target: target@,
                    expected: d.fingerprint,
                },
            )),
        }),
{
    match repository.load_request(files, &source) {
        Err(e) => Err(e.message()),
        Ok(d) => Ok(OperationReport::Left(RequestChange::Move { source, target, expected: d.fingerprint })),
    }
}

fn leave_copy(
    repository: &WorkspaceRepository,
    files: &FileTree,
    source: ResourcePath,
    target: ResourcePath,
) -> (o: Result<OperationReport, String>)
    requires
        files.wf(),
    ensures
        outcome(o) == (match request_loaded(files@.nodes, repository@, source@) {
            Err(e) => Err::<ReportView, Seq<char>>(error_message(e)),
            Ok(d) => Ok(ReportView::Left(
                RequestChangeView::Duplicate {
                    source: source@,
                    target: target@,
                    expected: d.fingerprint,
                },
            )),
        }),
{
    match repository.load_request(files, &source) {
        Err(e) => Err(e.message()),
        Ok(d) => Ok(OperationReport::Left(
            RequestChange::Duplicate { source, target, expected: d.fingerprint },
        )),
    }
}

fn leave_deletion(
    repository: &WorkspaceRepository,
    files: &FileTree,
    path: ResourcePath,
) -> (o: Result<OperationReport, String>)
    requires
        files.wf(),
    ensures
        outcome(o) == (match request_loaded(files@.nodes, repository@, path@) {
            Err(e) => Err::<ReportView, Seq<char>>(error_message(e)),
            Ok(d) => Ok(ReportView::Left(
                RequestChangeView::Delete { path: path@, expected: d.fingerprint },
            )),
        }),
{
    match repository.load_request(files, &path) {
        Err(e) => Err(e.message()),
        Ok(d) => Ok(OperationReport::Left(RequestChange::Delete { path, expected: d.fingerprint })),
    }
}

fn set_order(
    repository: &WorkspaceRepository,
    files: &mut FileTree,
    collection: &str,
    folders: &[String],
    items: Vec<String>,
) -> (o: Result<OperationReport, String>)
    requires
        old(files).wf(),
    ensures
        final(files).wf(),
        (outcome(o), final(files)@) == told(
            order_replaced(
                old(files)@,
                repository@,
                collection@,
                texts(folders@),
                texts(items@),
            ),
            "Updated collection ordering"@,
        ),
{
    let expected: Option<FileFingerprint> = match repository.load_order(
        files,
        Some(collection),
        folders,
    ) {
        Err(e) => {
            return Err(e.message());
        },
        Ok(Some(d)) => Some(d.fingerprint),
        Ok(None) => None,
    };
    let document = OrderDocument::new(items);
    tell(
        repository.save_order(files, Some(collection), folders, &document, expected),
        "Updated collection ordering".to_owned(),
    )
}

/// Carries out a change.
pub fn perform_operation(
    repository: &WorkspaceRepository,
    files: &mut FileTree,
    operation: WorkspaceOperation,
    inputs: &OperationInputs,
) -> (o: Result<OperationReport, String>)
    requires
        old(files).wf(),
    ensures
        final(files).wf(),
        (outcome(o), final(files)@) == operation_done(
            old(files)@,
            repository@,
            operation@,
            inputs.nonce,
            inputs.ids,
            leak_views(inputs.leaks@),
        ),
{
    match operation {
        WorkspaceOperation::CreateCollection { slug, id, name } => {
            let document = CollectionDocument::new(id, name);
            tell(
                repository.create_collection(files, slug.as_str(), &document, inputs.nonce),
                concat3("Created collection '", slug.as_str(), "'"),
            )
        },
        WorkspaceOperation::RenameCollection { source, target } => rename_collection(
            repository,
            files,
            source.as_str(),
            target.as_str(),
        ),
        WorkspaceOperation::DuplicateCollection { source, target } => duplicate_collection(
            repository,
            files,
            source.as_str(),
            target.as_str(),
            inputs,
        ),
        WorkspaceOperation::DeleteCollection { slug } => delete_collection(
            repository,
            files,
            slug.as_str(),
            inputs.nonce,
        ),
        WorkspaceOperation::ArchiveCollection { slug, archived } => archive_collection(
            repository,
            files,
            slug.as_str(),
            archived,
        ),
        WorkspaceOperation::CreateFolder { collection, folders, id, name } => {
            let document = FolderDocument::new(id, name);
            tell(
                repository.create_folder(
                    files,
                    collection.as_str(),
                    folders.as_slice(),
                    &document,
                    inputs.nonce,
                ),
                concat4(
                    "Created folder '",
                    collection.as_str(),
                    "'/",
                    join_texts(folders.as_slice(), "/").as_str(),
                ),
            )
        },
        WorkspaceOperation::RenameFolder { collection, folders, target } => rename_folder(
            repository,
            files,
            collection.as_str(),
            folders.as_slice(),
            target.as_str(),
        ),
        WorkspaceOperation::MoveFolder { collection, folders, parents, target } => move_folder(
            repository,
            files,
            collection.as_str(),
            folders.as_slice(),
            parents.as_slice(),
            target.as_str(),
        ),
        WorkspaceOperation::DuplicateFolder { collection, folders, parents, target } =>
        duplicate_folder(
            repository,
            files,
            collection.as_str(),
            folders.as_slice(),
            parents.as_slice(),
            target.as_str(),
            inputs,
        ),
        WorkspaceOperation::DeleteFolder { collection, folders } => delete_folder(
            repository,
            files,
            collection.as_str(),
            folders.as_slice(),
            inputs.nonce,
        ),
        WorkspaceOperation::ArchiveFolder { collection, folders, archived } => archive_folder(
            repository,
            files,
            collection.as_str(),
            folders.as_slice(),
            archived,
        ),
        WorkspaceOperation::CreateRequest { path, id, name, url } => create_request(
            repository,
            files,
            &path,
            id,
            name.as_str(),
            url.as_str(),
            inputs.leaks.as_slice(),
        ),
        WorkspaceOperation::MoveRequest { source, target } => leave_move(
            repository,
            files,
            source,
            target,
        ),
        WorkspaceOperation::DuplicateRequest { source, target } => leave_copy(
            repository,
            files,
            source,
            target,
        ),
        WorkspaceOperation::DeleteRequest { path } => leave_deletion(repository, files, path),
        WorkspaceOperation::SetOrder { collection, folders, items } => set_order(
            repository,
            files,
            collection.as_str(),
            folders.as_slice(),
            items,
        ),
    }
}

/// Carries out a command, given what the disk says of the paths it names. That a request is
/// moved, copied or deleted is left to the caller, and [`tell_request_change`] tells of it.
pub fn apply_workspace_operation(
    repository: &WorkspaceRepository,
    files: &mut FileTree,
    command: &str,
    ancestry: &[Ancestry],
    inputs: &OperationInputs,
) -> (o: Result<OperationReport, String>)
    requires
        old(files).wf(),
    ensures
        final(files).wf(),
        (outcome(o), final(files)@) == command_done(
            old(files)@,
            repository@,
            command@,
            ancestry_views(ancestry@),
            inputs.nonce,
            inputs.ids,
            leak_views(inputs.leaks@),
        ),
{
    match parse_workspace_operation(repository, command, ancestry) {
        Err(e) => Err(e),
        Ok(operation) => perform_operation(repository, files, operation, inputs),
    }
}

/// The texts of requests that a change writes, in turn.
pub open spec fn operation_texts(
    files: FilesView,
    root: Seq<char>,
    operation: OperationView,
    nonce: u128,
    ids: IdSource,
) -> Seq<Seq<char>> {
    match operation {
        OperationView::CreateRequest { id, name, url, .. } => seq![
            request_text(new_request(id, name, url)),
        ],
        OperationView::DuplicateCollection { source, target } => match (
            collection_place(source),
            collection_place(target),
        ) {
            (Ok(from), Ok(to)) => copy_requests(files, root, from, to, Some(target), ids, nonce),
            _ => seq![],
        },
        OperationView::DuplicateFolder { collection, folders, parents, target } =>
        match relocation(
            files.nodes,
            root,
            collection,
            folders,
            parents,
            target,
            "cannot duplicate a folder into itself"@,
        ) {
            Ok((from, to)) => copy_requests(files, root, from, to, None, ids, nonce),
            Err(_) => seq![],
        },
        _ => seq![],
    }
}

/// The texts of requests that a command writes, in turn, for a detector of leaks to look at:
/// what it finds in each is handed to [`apply_workspace_operation`] with the same `nonce` and
/// `ids`.
pub fn texts_to_scan(
    repository: &WorkspaceRepository,
    files: FileTree,
    command: &str,
    ancestry: &[Ancestry],
    nonce: u128,
    ids: IdSource,
) -> (r: Vec<String>)
    requires
        files.wf(),
    ensures
        texts(r@) == (match operation_asked(repository@, command@, ancestry_views(ancestry@)) {
            Ok(operation) => operation_texts(files@, repository@, operation, nonce, ids),
            Err(_) => seq![],
        }),
{
    let mut found: Vec<String> = Vec::new();
    assert(texts(found@) =~= seq![]);
    match parse_workspace_operation(repository, command, ancestry) {
        Ok(WorkspaceOperation::CreateRequest { path: _, id, name, url }) => {
            let document = new_request_document(id, name.as_str(), url.as_str());
            found.push(format_request(&document));
            assert(texts(found@) =~= seq![request_text(document@)]);
            found
        },
        Ok(
            WorkspaceOperation::DuplicateCollection { source, target },
        ) => repository.collection_copy_texts(
            files,
            source.as_str(),
            target.as_str(),
            ids,
            nonce,
        ),
        Ok(
            WorkspaceOperation::DuplicateFolder { collection, folders, parents, target },
        ) => repository.folder_copy_texts(
            files,
            collection.as_str(),
            folders.as_slice(),
            parents.as_slice(),
            target.as_str(),
            ids,
            nonce,
        ),
        Ok(_) => found,
        Err(_) => found,
    }
}

/// A command that is not understood changes nothing.
pub proof fn law_unread_command_changes_nothing(
    files: FilesView,
    root: Seq<char>,
    command: Seq<char>,
    ancestry: Seq<AncestryView>,
    nonce: u128,
    ids: IdSource,
    leaks: Seq<Seq<Seq<char>>>,
)
    requires
        operation_asked(root, command, ancestry) is Err,
    ensures
        command_done(files, root, command, ancestry, nonce, ids, leaks).0 is Err,
        command_done(files, root, command, ancestry, nonce, ids, leaks).1 == files,
{
}

} // verus!
