//! Reading and writing the documents of a workspace.
use crate::collection::{
    collection_value, folder_value, format_order, order_check, order_text, order_value,
    parse_collection, parse_folder, parse_order, validate_order_items, CollectionDocument,
    FolderDocument, OrderDocument, OrderView, COLLECTION_FILE, FOLDER_FILE, ORDER_FILE,
};
use crate::document::{require_supported_version, version_check};
use crate::domain::StableId;
use crate::environment::{
    format_variable_set, parse_variable_set, set_text, set_value, VariableSetDocument,
    VariableSetView,
};
use crate::error::{outcome, WorkspaceError, WorkspaceErrorView};
use crate::files::{
    blocked, can_be_entered, entry_path, is_there, path_in, performed, ActionView, FileAction,
    FileTree, FilesView, Nodes,
};
use crate::fingerprint::FileFingerprint;
use crate::manifest::{
    format_manifest, manifest_text, manifest_value, parse_manifest, ManifestView,
    WorkspaceManifest,
};
use crate::message::concat2;
use crate::paths::{joined, ResourcePath};
use crate::repository::{
    collection_place, expected_number, folder_place, loaded, no_directory, number_outcome, place_in,
    place_of_collection, place_of_folder, traversal, written, LoadedDocument, LoadedView,
    MAXIMUM_METADATA_BYTES, MAXIMUM_REQUEST_BYTES, WorkspaceRepository,
};
use crate::request::{format_request, request_text, RequestDocument, RequestDocumentView};
use crate::request_reader::{parse_request, request_value};
use crate::text::{copy_texts, texts};
use vstd::prelude::*;

verus! {

/// The names of the first directories of a workspace.
pub open spec fn first_directories() -> Seq<Seq<char>> {
    seq![
        "environments"@,
        "collections"@,
        "schemas"@,
        "grpc"@,
        "mocks"@,
        "profiles"@,
    ]
}

/// The outcome of making directories in turn, up to the first that cannot be made.
pub open spec fn directories_made(
    files: FilesView,
    root: Seq<char>,
    names: Seq<Seq<char>>,
) -> (Result<(), WorkspaceErrorView>, FilesView)
    decreases names.len(),
{
    if names.len() == 0 {
        (Ok(()), files)
    } else {
        let (r, made) = directories_made(files, root, names.drop_last());
        match r {
            Err(e) => (Err(e), made),
            Ok(_) => if blocked(made.nodes, names.last()) {
                (Err(no_directory(joined(root, names.last()))), made)
            } else {
                (Ok(()), performed(made, seq![ActionView::MakeDirectories(names.last())]))
            },
        }
    }
}

/// The outcome of keeping local state out of version control.
pub open spec fn ignore_file_made(files: FilesView, root: Seq<char>) -> (
    Result<(), WorkspaceErrorView>,
    FilesView,
) {
    if is_there(files.nodes, ".gitignore"@) {
        (Ok(()), files)
    } else {
        match written(files, root, ".gitignore"@, ".apex/\n"@, None) {
            (Ok(_), after) => (Ok(()), after),
            (Err(e), after) => (Err(e), after),
        }
    }
}

/// The outcome of setting a workspace up.
pub open spec fn initialized(files: FilesView, root: Seq<char>, manifest: ManifestView) -> (
    Result<u64, WorkspaceErrorView>,
    FilesView,
) {
    match directories_made(files, root, first_directories()) {
        (Err(e), made) => (Err(e), made),
        (Ok(_), made) => match ignore_file_made(made, root) {
            (Err(e), ready) => (Err(e), ready),
            (Ok(_), ready) => written(ready, root, "apex.toml"@, manifest_text(manifest), None),
        },
    }
}

/// The contents of a list of findings.
pub open spec fn leak_views(leaks: Seq<Vec<String>>) -> Seq<Seq<Seq<char>>> {
    leaks.map_values(|l: Vec<String>| texts(l@))
}

/// The error about a text that no detector of leaks has seen.
pub open spec fn unscanned() -> WorkspaceErrorView {
    WorkspaceErrorView::InvalidFormat("request text was not scanned for secrets"@)
}

/// Whether a text may be written, given what a detector of leaks found in each of some texts:
/// not where it found anything, and not where it has not seen the text.
pub open spec fn scan_check(leaks: Seq<Seq<Seq<char>>>, index: nat) -> Result<
    (),
    WorkspaceErrorView,
> {
    if index >= leaks.len() {
        Err(unscanned())
    } else if leaks[index as int].len() > 0 {
        Err(WorkspaceErrorView::SecretLeak(leaks[index as int]))
    } else {
        Ok(())
    }
}

/// Tests whether a text may be written, given what a detector of leaks found in each of some
/// texts.
pub fn ensure_scanned(leaks: &[Vec<String>], index: usize) -> (r: Result<(), WorkspaceError>)
    ensures
        crate::repository_collections::plain_outcome(r) == scan_check(
            leak_views(leaks@),
            index as nat,
        ),
{
    if index >= leaks.len() {
        return Err(
            WorkspaceError::InvalidFormat("request text was not scanned for secrets".to_owned()),
        );
    }
    assert(leak_views(leaks@)[index as int] == texts(leaks@[index as int]@));
    if leaks[index].len() > 0 {
        return Err(WorkspaceError::SecretLeak(copy_texts(leaks[index].as_slice())));
    }
    Ok(())
}

/// The outcome of a request to save one of several requests, given what a detector of leaks
/// found in the text of each.
pub open spec fn scanned_request_saved(
    files: FilesView,
    root: Seq<char>,
    path: Seq<char>,
    document: RequestDocumentView,
    leaks: Seq<Seq<Seq<char>>>,
    index: nat,
) -> (Result<u64, WorkspaceErrorView>, FilesView) {
    match scan_check(leaks, index) {
        Err(e) => (Err(e), files),
        Ok(_) => request_saved(files, root, path, document, None, seq![]),
    }
}

/// The outcome of a request to save a request, given what a detector of leaks found in it.
pub open spec fn request_saved(
    files: FilesView,
    root: Seq<char>,
    path: Seq<char>,
    document: RequestDocumentView,
    expected: Option<u64>,
    leaks: Seq<Seq<char>>,
) -> (Result<u64, WorkspaceErrorView>, FilesView) {
    match place_in(root, path) {
        None => (Err(traversal(path)), files),
        Some(place) => if leaks.len() > 0 {
            (Err(WorkspaceErrorView::SecretLeak(leaks)), files)
        } else {
            written(files, root, place, request_text(document), expected)
        },
    }
}

/// What reading a request gives.
pub open spec fn request_loaded(nodes: Nodes, root: Seq<char>, path: Seq<char>) -> Result<
    LoadedView<RequestDocumentView>,
    WorkspaceErrorView,
> {
    match place_in(root, path) {
        None => Err(traversal(path)),
        Some(place) => match loaded(
            nodes,
            root,
            place,
            MAXIMUM_REQUEST_BYTES,
            |text: Seq<char>| request_value(text),
        ) {
            Err(e) => Err(e),
            Ok(d) => Ok(LoadedView { path, ..d }),
        },
    }
}

/// What reading metadata at a place gives, where there is a place.
pub open spec fn loaded_at<T>(
    nodes: Nodes,
    root: Seq<char>,
    directory: Result<Seq<char>, WorkspaceErrorView>,
    name: Seq<char>,
    meaning: spec_fn(Seq<char>) -> Result<T, WorkspaceErrorView>,
) -> Result<LoadedView<T>, WorkspaceErrorView> {
    match directory {
        Err(e) => Err(e),
        Ok(place) => loaded(nodes, root, entry_path(place, name), MAXIMUM_METADATA_BYTES, meaning),
    }
}

/// The directory that an order belongs to: that of a folder, or of all collections.
pub open spec fn order_directory(collection: Option<Seq<char>>, folders: Seq<Seq<char>>) -> Result<
    Seq<char>,
    WorkspaceErrorView,
> {
    match collection {
        Some(slug) => folder_place(slug, folders),
        None => if folders.len() == 0 {
            Ok("collections"@)
        } else {
            Err(
                WorkspaceErrorView::InvalidPath(
                    "workspace collection order cannot include folder segments"@,
                ),
            )
        },
    }
}

/// The text of an optional slug.
pub open spec fn optional_slug(slug: Option<&str>) -> Option<Seq<char>> {
    match slug {
        Some(s) => Some(s@),
        None => None,
    }
}

/// What reading an order gives: nothing where there is none.
pub open spec fn order_loaded(
    nodes: Nodes,
    root: Seq<char>,
    collection: Option<Seq<char>>,
    folders: Seq<Seq<char>>,
) -> Result<Option<LoadedView<OrderView>>, WorkspaceErrorView> {
    match order_directory(collection, folders) {
        Err(e) => Err(e),
        Ok(directory) => {
            let place = entry_path(directory, ORDER_FILE@);
            if !is_there(nodes, place) {
                Ok(None)
            } else {
                match loaded(
                    nodes,
                    root,
                    place,
                    MAXIMUM_METADATA_BYTES,
                    |text: Seq<char>| order_value(text),
                ) {
                    Ok(d) => Ok(Some(d)),
                    Err(e) => Err(e),
                }
            }
        },
    }
}

/// The first item of an order that is not there.
pub open spec fn missing_item(nodes: Nodes, directory: Seq<char>, items: Seq<Seq<char>>) -> Option<
    Seq<char>,
>
    decreases items.len(),
{
    if items.len() == 0 {
        None
    } else {
        match missing_item(nodes, directory, items.drop_last()) {
            Some(item) => Some(item),
            None => if is_there(nodes, entry_path(directory, items.last())) {
                None
            } else {
                Some(items.last())
            },
        }
    }
}

proof fn lemma_missing_item(nodes: Nodes, directory: Seq<char>, items: Seq<Seq<char>>, k: int)
    requires
        0 <= k <= items.len(),
        missing_item(nodes, directory, items.take(k)) is Some,
    ensures
        missing_item(nodes, directory, items) == missing_item(nodes, directory, items.take(k)),
    decreases items.len() - k,
{
    if k < items.len() {
        assert(items.take(k + 1).drop_last() =~= items.take(k));
        lemma_missing_item(nodes, directory, items, k + 1);
    } else {
        assert(items.take(k) =~= items);
    }
}

/// The outcome of a request to save an order.
pub open spec fn order_saved(
    files: FilesView,
    root: Seq<char>,
    collection: Option<Seq<char>>,
    folders: Seq<Seq<char>>,
    document: OrderView,
    expected: Option<u64>,
) -> (Result<u64, WorkspaceErrorView>, FilesView) {
    match version_check(document.schema_version) {
        Err(e) => (Err(e), files),
        Ok(_) => match order_check(document.items) {
            Err(e) => (Err(e), files),
            Ok(_) => match order_directory(collection, folders) {
                Err(e) => (Err(e), files),
                Ok(directory) => if !can_be_entered(files.nodes, directory) {
                    (
                        Err(
                            WorkspaceErrorView::InvalidPath(
                                "order directory does not exist: "@ + joined(root, directory),
                            ),
                        ),
                        files,
                    )
                } else {
                    match missing_item(files.nodes, directory, document.items) {
                        Some(item) => (
                            Err(
                                WorkspaceErrorView::InvalidPath(
                                    "ordered item does not exist: "@ + item,
                                ),
                            ),
                            files,
                        ),
                        None => written(
                            files,
                            root,
                            entry_path(directory, ORDER_FILE@),
                            order_text(document),
                            expected,
                        ),
                    }
                },
            },
        },
    }
}

/// Where an environment stands.
pub open spec fn environment_place(id: Seq<char>) -> Seq<char> {
    entry_path("environments"@, id + ".toml"@)
}

/// Where the local values of an environment stand.
pub open spec fn override_place(id: Seq<char>) -> Seq<char> {
    entry_path(".apex/environments"@, id + ".local.toml"@)
}

/// What reading a file of variables gives.
pub open spec fn set_loaded(nodes: Nodes, root: Seq<char>, place: Seq<char>) -> Result<
    LoadedView<VariableSetView>,
    WorkspaceErrorView,
> {
    loaded(nodes, root, place, MAXIMUM_METADATA_BYTES, |text: Seq<char>| set_value(text))
}

/// What reading a file of variables that may be missing gives.
pub open spec fn optional_set_loaded(nodes: Nodes, root: Seq<char>, place: Seq<char>) -> Result<
    Option<LoadedView<VariableSetView>>,
    WorkspaceErrorView,
> {
    if !is_there(nodes, place) {
        Ok(None)
    } else {
        match set_loaded(nodes, root, place) {
            Ok(d) => Ok(Some(d)),
            Err(e) => Err(e),
        }
    }
}

/// The outcome of reading what may be missing.
pub open spec fn optional_outcome<T: View>(r: Result<Option<T>, WorkspaceError>) -> Result<
    Option<T::V>,
    WorkspaceErrorView,
> {
    match r {
        Ok(Some(v)) => Ok(Some(v@)),
        Ok(None) => Ok(None),
        Err(e) => Err(e@),
    }
}

/// The outcome of a request to save a file of variables.
pub open spec fn set_saved(
    files: FilesView,
    root: Seq<char>,
    place: Seq<char>,
    document: VariableSetView,
    expected: Option<u64>,
) -> (Result<u64, WorkspaceErrorView>, FilesView) {
    match set_text(document) {
        Err(e) => (Err(e), files),
        Ok(text) => written(files, root, place, text, expected),
    }
}

proof fn lemma_directories_stop(
    files: FilesView,
    root: Seq<char>,
    names: Seq<Seq<char>>,
    made: int,
)
    requires
        0 <= made <= names.len(),
        directories_made(files, root, names.take(made)).0 is Err,
    ensures
        directories_made(files, root, names) == directories_made(files, root, names.take(made)),
    decreases names.len() - made,
{
    if made < names.len() {
        assert(names.take(made + 1).drop_last() =~= names.take(made));
        lemma_directories_stop(files, root, names, made + 1);
    } else {
        assert(names.take(made) =~= names);
    }
}

impl WorkspaceRepository {
    /// Sets the workspace up: its directories, the file that keeps local state out of
    /// version control, and its manifest, which may not be there yet.
    pub fn initialize(&self, files: &mut FileTree, manifest: &WorkspaceManifest) -> (r: Result<
        FileFingerprint,
        WorkspaceError,
    >)
        requires
            old(files).wf(),
            manifest.wf(),
        ensures
            final(files).wf(),
            (number_outcome(r), final(files)@) == initialized(old(files)@, self@, manifest@),
    {
        let ghost start = files@;
        let names = ["environments", "collections", "schemas", "grpc", "mocks", "profiles"];
        let ghost all = first_directories();
        for i in 0..6usize
            invariant
                files.wf(),
                names@.len() == 6,
                all == first_directories(),
                forall|k: int| 0 <= k < 6 ==> #[trigger] all[k] == names@[k]@,
                start == old(files)@,
                directories_made(start, self@, all.take(i as int)) == (
                    Ok::<(), WorkspaceErrorView>(()),
                    files@,
                ),
        {
            let ghost before = files@;
            assert(all.take(i + 1).drop_last() =~= all.take(i as int));
            assert(all.take(i + 1).last() == names@[i as int]@);
            if files.is_blocked(names[i]) {
                proof {
                    lemma_directories_stop(start, self@, all, i + 1);
                }
                return Err(self.blocked_error(names[i]));
            }
            files.perform(FileAction::MakeDirectories(names[i].to_owned()));
        }
        assert(all.take(6) =~= all);
        if !files.is_there(".gitignore") {
            match self.write_checked(files, ".gitignore", ".apex/\n", None) {
                Ok(_) => {},
                Err(e) => {
                    return Err(e);
                },
            }
        }
        self.write_checked(files, "apex.toml", format_manifest(manifest).as_str(), None)
    }

    /// Reads the manifest.
    pub fn load_manifest(&self, files: &FileTree) -> (r: Result<
        LoadedDocument<WorkspaceManifest>,
        WorkspaceError,
    >)
        requires
            files.wf(),
        ensures
            outcome(r) == loaded(
                files@.nodes,
                self@,
                "apex.toml"@,
                MAXIMUM_METADATA_BYTES,
                |text: Seq<char>| manifest_value(text),
            ),
            r matches Ok(d) ==> d.value.wf(),
    {
        let (text, path, fingerprint) = match self.read_settled(
            files,
            "apex.toml",
            MAXIMUM_METADATA_BYTES,
        ) {
            Ok(t) => t,
            Err(e) => {
                return Err(e);
            },
        };
        match parse_manifest(text.as_str()) {
            Ok(value) => Ok(LoadedDocument { value, path, fingerprint }),
            Err(e) => Err(e),
        }
    }

    /// Writes the manifest, so long as it is as expected.
    pub fn save_manifest(
        &self,
        files: &mut FileTree,
        manifest: &WorkspaceManifest,
        expected: Option<FileFingerprint>,
    ) -> (r: Result<FileFingerprint, WorkspaceError>)
        requires
            old(files).wf(),
            manifest.wf(),
        ensures
            final(files).wf(),
            (number_outcome(r), final(files)@) == written(
                old(files)@,
                self@,
                "apex.toml"@,
                manifest_text(manifest@),
                expected_number(expected),
            ),
    {
        self.write_checked(files, "apex.toml", format_manifest(manifest).as_str(), expected)
    }

    /// Reads the request at a path of the workspace.
    pub fn load_request(&self, files: &FileTree, path: &ResourcePath) -> (r: Result<
        LoadedDocument<RequestDocument>,
        WorkspaceError,
    >)
        requires
            files.wf(),
        ensures
            outcome(r) == request_loaded(files@.nodes, self@, path@),
            r matches Ok(d) ==> d.value.wf(),
    {
        let place = match self.place(path) {
            Ok(place) => place,
            Err(e) => {
                return Err(e);
            },
        };
        let (text, _, fingerprint) = match self.read_settled(
            files,
            place.as_str(),
            MAXIMUM_REQUEST_BYTES,
        ) {
            Ok(t) => t,
            Err(e) => {
                return Err(e);
            },
        };
        match parse_request(text.as_str()) {
            Ok(value) => Ok(LoadedDocument { value, path: path.copy(), fingerprint }),
            Err(e) => Err(e),
        }
    }

    /// Writes one of several new requests, given what a detector of leaks found in the text of
    /// each.
    pub fn save_scanned_request(
        &self,
        files: &mut FileTree,
        path: &ResourcePath,
        document: &RequestDocument,
        leaks: &[Vec<String>],
        index: usize,
    ) -> (r: Result<FileFingerprint, WorkspaceError>)
        requires
            old(files).wf(),
            document.wf(),
        ensures
            final(files).wf(),
            (number_outcome(r), final(files)@) == scanned_request_saved(
                old(files)@,
                self@,
                path@,
                document@,
                leak_views(leaks@),
                index as nat,
            ),
    {
        match ensure_scanned(leaks, index) {
            Ok(_) => {},
            Err(e) => {
                return Err(e);
            },
        }
        let nothing: Vec<String> = Vec::new();
        assert(texts(nothing@) =~= seq![]);
        self.save_request(files, path, document, None, nothing.as_slice())
    }

    /// Writes a request at a path of the workspace, so long as the file is as expected.
    /// `leaks` is what a detector of leaks found in the text of the request; a request
    /// that leaks anything is refused.
    pub fn save_request(
        &self,
        files: &mut FileTree,
        path: &ResourcePath,
        document: &RequestDocument,
        expected: Option<FileFingerprint>,
        leaks: &[String],
    ) -> (r: Result<FileFingerprint, WorkspaceError>)
        requires
            old(files).wf(),
            document.wf(),
        ensures
            final(files).wf(),
            (number_outcome(r), final(files)@) == request_saved(
                old(files)@,
                self@,
                path@,
                document@,
                expected_number(expected),
                texts(leaks@),
            ),
    {
        let place = match self.place(path) {
            Ok(place) => place,
            Err(e) => {
                return Err(e);
            },
        };
        if leaks.len() > 0 {
            return Err(WorkspaceError::SecretLeak(copy_texts(leaks)));
        }
        self.write_checked(files, place.as_str(), format_request(document).as_str(), expected)
    }

    /// Reads what a collection says of itself.
    pub fn load_collection(&self, files: &FileTree, slug: &str) -> (r: Result<
        LoadedDocument<CollectionDocument>,
        WorkspaceError,
    >)
        requires
            files.wf(),
        ensures
            outcome(r) == loaded_at(
                files@.nodes,
                self@,
                collection_place(slug@),
                COLLECTION_FILE@,
                |text: Seq<char>| collection_value(text),
            ),
            r matches Ok(d) ==> d.value.wf(),
    {
        let place = match place_of_collection(slug) {
            Ok(place) => path_in(place.as_str(), COLLECTION_FILE),
            Err(e) => {
                return Err(e);
            },
        };
        self.load_collection_at(files, place.as_str())
    }

    /// Reads what the collection with the given file says of itself.
    pub fn load_collection_at(&self, files: &FileTree, place: &str) -> (r: Result<
        LoadedDocument<CollectionDocument>,
        WorkspaceError,
    >)
        requires
            files.wf(),
        ensures
            outcome(r) == loaded(
                files@.nodes,
                self@,
                place@,
                MAXIMUM_METADATA_BYTES,
                |text: Seq<char>| collection_value(text),
            ),
            r matches Ok(d) ==> d.value.wf(),
    {
        let (text, path, fingerprint) = match self.read_settled(
            files,
            place,
            MAXIMUM_METADATA_BYTES,
        ) {
            Ok(t) => t,
            Err(e) => {
                return Err(e);
            },
        };
        match parse_collection(text.as_str()) {
            Ok(value) => Ok(LoadedDocument { value, path, fingerprint }),
            Err(e) => Err(e),
        }
    }

    /// Reads what a folder says of itself.
    pub fn load_folder(&self, files: &FileTree, collection_slug: &str, folders: &[String]) -> (r:
        Result<LoadedDocument<FolderDocument>, WorkspaceError>)
        requires
            files.wf(),
        ensures
            outcome(r) == loaded_at(
                files@.nodes,
                self@,
                folder_place(collection_slug@, texts(folders@)),
                FOLDER_FILE@,
                |text: Seq<char>| folder_value(text),
            ),
            r matches Ok(d) ==> d.value.wf(),
    {
        let place = match place_of_folder(collection_slug, folders) {
            Ok(place) => path_in(place.as_str(), FOLDER_FILE),
            Err(e) => {
                return Err(e);
            },
        };
        self.load_folder_at(files, place.as_str())
    }

    /// Reads what the folder with the given file says of itself.
    pub fn load_folder_at(&self, files: &FileTree, place: &str) -> (r: Result<
        LoadedDocument<FolderDocument>,
        WorkspaceError,
    >)
        requires
            files.wf(),
        ensures
            outcome(r) == loaded(
                files@.nodes,
                self@,
                place@,
                MAXIMUM_METADATA_BYTES,
                |text: Seq<char>| folder_value(text),
            ),
            r matches Ok(d) ==> d.value.wf(),
    {
        let (text, path, fingerprint) = match self.read_settled(
            files,
            place,
            MAXIMUM_METADATA_BYTES,
        ) {
            Ok(t) => t,
            Err(e) => {
                return Err(e);
            },
        };
        match parse_folder(text.as_str()) {
            Ok(value) => Ok(LoadedDocument { value, path, fingerprint }),
            Err(e) => Err(e),
        }
    }

    fn order_place(&self, collection_slug: Option<&str>, folders: &[String]) -> (r: Result<
        String,
        WorkspaceError,
    >)
        ensures
            outcome(r) == order_directory(optional_slug(collection_slug), texts(folders@)),
    {
        match collection_slug {
            Some(slug) => place_of_folder(slug, folders),
            None => if folders.len() == 0 {
                Ok("collections".to_owned())
            } else {
                Err(
                    WorkspaceError::InvalidPath(
                        "workspace collection order cannot include folder segments".to_owned(),
                    ),
                )
            },
        }
    }

    /// Reads the order of a folder or of all collections, where there is one.
    pub fn load_order(
        &self,
        files: &FileTree,
        collection_slug: Option<&str>,
        folders: &[String],
    ) -> (r: Result<Option<LoadedDocument<OrderDocument>>, WorkspaceError>)
        requires
            files.wf(),
        ensures
            optional_outcome(r) == order_loaded(
                files@.nodes,
                self@,
                optional_slug(collection_slug),
                texts(folders@),
            ),
            r matches Ok(Some(d)) ==> d.value.wf(),
    {
        let directory = match self.order_place(collection_slug, folders) {
            Ok(place) => place,
            Err(e) => {
                return Err(e);
            },
        };
        let place = path_in(directory.as_str(), ORDER_FILE);
        if !files.is_there(place.as_str()) {
            return Ok(None);
        }
        let (text, path, fingerprint) = match self.read_settled(
            files,
            place.as_str(),
            MAXIMUM_METADATA_BYTES,
        ) {
            Ok(t) => t,
            Err(e) => {
                return Err(e);
            },
        };
        match parse_order(text.as_str()) {
            Ok(value) => Ok(Some(LoadedDocument { value, path, fingerprint })),
            Err(e) => Err(e),
        }
    }

    fn find_missing_item(&self, files: &FileTree, directory: &str, items: &[String]) -> (r: Option<
        usize,
    >)
        requires
            files.wf(),
        ensures
            match r {
                Some(i) => i < items@.len() && missing_item(
                    files@.nodes,
                    directory@,
                    texts(items@),
                ) == Some(items@[i as int]@),
                None => missing_item(files@.nodes, directory@, texts(items@)) is None,
            },
    {
        let ghost all = texts(items@);
        assert(all.take(0) =~= seq![]);
        for i in 0..items.len()
            invariant
                files.wf(),
                all == texts(items@),
                missing_item(files@.nodes, directory@, all.take(i as int)) is None,
        {
            let place = path_in(directory, items[i].as_str());
            proof {
                assert(all.take(i + 1).drop_last() =~= all.take(i as int));
                assert(all.take(i + 1).last() == items@[i as int]@);
            }
            if !files.is_there(place.as_str()) {
                proof {
                    lemma_missing_item(files@.nodes, directory@, all, i + 1);
                }
                return Some(i);
            }
        }
        assert(all.take(all.len() as int) =~= all);
        None
    }

    /// Writes the order of a folder or of all collections: what it lists has to be there.
    pub fn save_order(
        &self,
        files: &mut FileTree,
        collection_slug: Option<&str>,
        folders: &[String],
        document: &OrderDocument,
        expected: Option<FileFingerprint>,
    ) -> (r: Result<FileFingerprint, WorkspaceError>)
        requires
            old(files).wf(),
            document.wf(),
        ensures
            final(files).wf(),
            (number_outcome(r), final(files)@) == order_saved(
                old(files)@,
                self@,
                optional_slug(collection_slug),
                texts(folders@),
                document@,
                expected_number(expected),
            ),
    {
        match require_supported_version(document.schema_version) {
            Ok(_) => {},
            Err(e) => {
                return Err(e);
            },
        }
        match validate_order_items(document.items.as_slice()) {
            Ok(_) => {},
            Err(e) => {
                return Err(e);
            },
        }
        let directory = match self.order_place(collection_slug, folders) {
            Ok(place) => place,
            Err(e) => {
                return Err(e);
            },
        };
        if !files.can_be_entered(directory.as_str()) {
            return Err(
                WorkspaceError::InvalidPath(
                    concat2(
                        "order directory does not exist: ",
                        self.path_of(directory.as_str()).as_text(),
                    ),
                ),
            );
        }
        match self.find_missing_item(files, directory.as_str(), document.items.as_slice()) {
            Some(i) => {
                return Err(
                    WorkspaceError::InvalidPath(
                        concat2("ordered item does not exist: ", document.items[i].as_str()),
                    ),
                );
            },
            None => {},
        }
        let place = path_in(directory.as_str(), ORDER_FILE);
        self.write_checked(files, place.as_str(), format_order(document).as_str(), expected)
    }

    /// The path of an environment.
    pub fn environment_path(&self, id: &StableId) -> (r: ResourcePath)
        ensures
            r@ == joined(self@, environment_place(id@)),
    {
        self.path_of(place_of_environment(id).as_str())
    }

    /// The path of the local values of an environment.
    pub fn local_environment_override_path(&self, id: &StableId) -> (r: ResourcePath)
        ensures
            r@ == joined(self@, override_place(id@)),
    {
        self.path_of(place_of_override(id).as_str())
    }

    /// Reads the file of variables at a place.
    pub fn load_variable_set(&self, files: &FileTree, place: &str) -> (r: Result<
        LoadedDocument<VariableSetDocument>,
        WorkspaceError,
    >)
        requires
            files.wf(),
        ensures
            outcome(r) == set_loaded(files@.nodes, self@, place@),
            r matches Ok(d) ==> d.value.wf(),
    {
        let (text, path, fingerprint) = match self.read_settled(
            files,
            place,
            MAXIMUM_METADATA_BYTES,
        ) {
            Ok(t) => t,
            Err(e) => {
                return Err(e);
            },
        };
        match parse_variable_set(text.as_str()) {
            Ok(value) => Ok(LoadedDocument { value, path, fingerprint }),
            Err(e) => Err(e),
        }
    }

    fn load_optional_set(&self, files: &FileTree, place: &str) -> (r: Result<
        Option<LoadedDocument<VariableSetDocument>>,
        WorkspaceError,
    >)
        requires
            files.wf(),
        ensures
            optional_outcome(r) == optional_set_loaded(files@.nodes, self@, place@),
            r matches Ok(Some(d)) ==> d.value.wf(),
    {
        if !files.is_there(place) {
            return Ok(None);
        }
        match self.load_variable_set(files, place) {
            Ok(d) => Ok(Some(d)),
            Err(e) => Err(e),
        }
    }

    /// Reads the variables of the workspace, where there are any.
    pub fn load_workspace_variables(&self, files: &FileTree) -> (r: Result<
        Option<LoadedDocument<VariableSetDocument>>,
        WorkspaceError,
    >)
        requires
            files.wf(),
        ensures
            optional_outcome(r) == optional_set_loaded(files@.nodes, self@, "variables.toml"@),
            r matches Ok(Some(d)) ==> d.value.wf(),
    {
        self.load_optional_set(files, "variables.toml")
    }

    /// Reads an environment.
    pub fn load_environment(&self, files: &FileTree, id: &StableId) -> (r: Result<
        LoadedDocument<VariableSetDocument>,
        WorkspaceError,
    >)
        requires
            files.wf(),
        ensures
            outcome(r) == set_loaded(files@.nodes, self@, environment_place(id@)),
            r matches Ok(d) ==> d.value.wf(),
    {
        self.load_variable_set(files, place_of_environment(id).as_str())
    }

    /// Reads the local values of an environment, where there are any.
    pub fn load_local_environment_override(&self, files: &FileTree, id: &StableId) -> (r: Result<
        Option<LoadedDocument<VariableSetDocument>>,
        WorkspaceError,
    >)
        requires
            files.wf(),
        ensures
            optional_outcome(r) == optional_set_loaded(files@.nodes, self@, override_place(id@)),
            r matches Ok(Some(d)) ==> d.value.wf(),
    {
        self.load_optional_set(files, place_of_override(id).as_str())
    }

    /// Writes a file of variables at a place, so long as the file is as expected.
    pub fn save_variable_set(
        &self,
        files: &mut FileTree,
        place: &str,
        document: &VariableSetDocument,
        expected: Option<FileFingerprint>,
    ) -> (r: Result<FileFingerprint, WorkspaceError>)
        requires
            old(files).wf(),
            document.wf(),
        ensures
            final(files).wf(),
            (number_outcome(r), final(files)@) == set_saved(
                old(files)@,
                self@,
                place@,
                document@,
                expected_number(expected),
            ),
    {
        match format_variable_set(document) {
            Err(e) => Err(e),
            Ok(text) => self.write_checked(files, place, text.as_str(), expected),
        }
    }
}

/// Finds where an environment stands.
pub fn place_of_environment(id: &StableId) -> (r: String)
    ensures
        r@ == environment_place(id@),
{
    path_in("environments", concat2(id.as_str(), ".toml").as_str())
}

/// Finds where the local values of an environment stand.
pub fn place_of_override(id: &StableId) -> (r: String)
    ensures
        r@ == override_place(id@),
{
    path_in(".apex/environments", concat2(id.as_str(), ".local.toml").as_str())
}

} // verus!
