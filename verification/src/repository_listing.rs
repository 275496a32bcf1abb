//! What a workspace holds: its requests in their order, and its merge conflicts.
use crate::collection::{
    collection_text, collection_value, folder_text, folder_value, format_collection, format_folder,
    internal_name, is_internal_name, order_value, parse_order, NamedView, COLLECTION_FILE,
    FOLDER_FILE, ORDER_FILE,
};
use crate::conflict::{conflicts, detect_conflict_markers, ConflictMarker};
use crate::domain::{HttpMethod, MethodView, StableId};
use crate::error::{outcome, WorkspaceError, WorkspaceErrorView};
use crate::files::{
    below, can_be_entered, entry_names, entry_path, is_there, lemma_below_shrinks,
    lemma_entry_below, lossy_text, path_in, root_order, text_lossy, FileNode, FileTree, FilesView,
    NodeView, Nodes,
};
use crate::fingerprint::FileFingerprint;
use crate::lines::{ends_with, has_suffix};
use crate::naming::{name_of_place, place_name};
use crate::order::sorted_texts;
use crate::paths::{extension_of, joined, name_extension, ResourcePath};
use crate::repository::{
    collection_place, folder_place, limited_bytes, limited_text, loaded, number_outcome,
    place_of_collection, place_of_folder, unreadable, written, LoadedView, MAXIMUM_METADATA_BYTES,
    MAXIMUM_REQUEST_BYTES, WorkspaceRepository,
};
use crate::repository_documents::loaded_at;
use crate::request_reader::{parse_request, request_value};
use crate::text::{chars_of, same_text, slices, split_all, split_every, string_of, texts};
use vstd::prelude::*;
use vstd::utf8::{decode_utf8, valid_utf8};

verus! {

/// The outcome of marking metadata as archived or not.
pub open spec fn archived_set(
    files: FilesView,
    root: Seq<char>,
    current: Result<LoadedView<NamedView>, WorkspaceErrorView>,
    place: Seq<char>,
    archived: bool,
    expected: u64,
    text: spec_fn(NamedView) -> Seq<char>,
) -> (Result<u64, WorkspaceErrorView>, FilesView) {
    match current {
        Err(e) => (Err(e), files),
        Ok(d) => if d.fingerprint != expected {
            (Err(WorkspaceErrorView::ExternalChange(d.path)), files)
        } else {
            written(files, root, place, text(NamedView { archived, ..d.value }), Some(expected))
        },
    }
}

/// Where a file of a directory stands, if the directory has a place.
pub open spec fn file_place(directory: Result<Seq<char>, WorkspaceErrorView>, name: Seq<char>) -> Seq<
    char,
> {
    match directory {
        Ok(place) => entry_path(place, name),
        Err(_) => seq![],
    }
}

/// The items of the order of a directory: none where it has no order.
pub open spec fn order_items(nodes: Nodes, root: Seq<char>, directory: Seq<char>) -> Result<
    Seq<Seq<char>>,
    WorkspaceErrorView,
> {
    let place = entry_path(directory, ORDER_FILE@);
    if !is_there(nodes, place) {
        Ok(seq![])
    } else {
        match limited_text(nodes, root, place, MAXIMUM_METADATA_BYTES) {
            Err(e) => Err(e),
            Ok(text) => match order_value(text) {
                Err(e) => Err(e),
                Ok(order) => Ok(order.items),
            },
        }
    }
}

/// Those of some names that are among others, or that are not, in the order of the first.
pub open spec fn chosen(names: Seq<Seq<char>>, others: Seq<Seq<char>>, among: bool) -> Seq<Seq<char>>
    decreases names.len(),
{
    if names.len() == 0 {
        seq![]
    } else {
        let front = chosen(names.drop_last(), others, among);
        if others.contains(names.last()) == among {
            front.push(names.last())
        } else {
            front
        }
    }
}

/// Names in the order of a list: first those that the list names, as it names them, and then
/// the others.
pub open spec fn arranged(names: Seq<Seq<char>>, items: Seq<Seq<char>>) -> Seq<Seq<char>> {
    chosen(items, names, true) + chosen(names, items, false)
}

/// The names of the entries of a directory, in its order.
pub open spec fn ordered_names(nodes: Nodes, root: Seq<char>, directory: Seq<char>) -> Result<
    Seq<Seq<char>>,
    WorkspaceErrorView,
> {
    if !can_be_entered(nodes, directory) {
        Err(unreadable(joined(root, directory)))
    } else {
        match order_items(nodes, root, directory) {
            Err(e) => Err(e),
            Ok(items) => Ok(arranged(sorted_texts(entry_names(nodes, directory)), items)),
        }
    }
}

/// Whether the metadata at a place says that it is archived; what has none is not.
pub open spec fn is_archived(
    nodes: Nodes,
    root: Seq<char>,
    place: Seq<char>,
    meaning: spec_fn(Seq<char>) -> Result<NamedView, WorkspaceErrorView>,
) -> Result<bool, WorkspaceErrorView> {
    if !is_there(nodes, place) {
        Ok(false)
    } else {
        match loaded(nodes, root, place, MAXIMUM_METADATA_BYTES, meaning) {
            Err(e) => Err(e),
            Ok(d) => Ok(d.value.archived),
        }
    }
}

/// The places of the requests of a directory, in its order: those of an archived folder are
/// left out.
pub open spec fn request_places(
    nodes: Nodes,
    root: Seq<char>,
    directory: Seq<char>,
    collection: bool,
) -> Result<Seq<Seq<char>>, WorkspaceErrorView>
    decreases below(nodes, directory).len(), 1int, 0nat,
{
    let archived = if collection {
        Ok(false)
    } else {
        is_archived(
            nodes,
            root,
            entry_path(directory, FOLDER_FILE@),
            |text: Seq<char>| folder_value(text),
        )
    };
    match archived {
        Err(e) => Err(e),
        Ok(true) => Ok(seq![]),
        Ok(false) => match ordered_names(nodes, root, directory) {
            Err(e) => Err(e),
            Ok(names) => request_places_of(nodes, root, directory, names),
        },
    }
}

/// The places of the requests of the given entries of a directory.
pub open spec fn request_places_of(
    nodes: Nodes,
    root: Seq<char>,
    directory: Seq<char>,
    names: Seq<Seq<char>>,
) -> Result<Seq<Seq<char>>, WorkspaceErrorView>
    decreases below(nodes, directory).len(), 0int, names.len(),
{
    if names.len() == 0 {
        Ok(seq![])
    } else {
        match request_places_of(nodes, root, directory, names.drop_last()) {
            Err(e) => Err(e),
            Ok(front) => {
                let name = names.last();
                let path = entry_path(directory, name);
                if !nodes.dom().contains(path) {
                    Ok(front)
                } else {
                    match nodes[path] {
                        NodeView::Link(_) => Err(
                            WorkspaceErrorView::SymbolicLink(joined(root, path)),
                        ),
                        NodeView::File(_) => if !internal_name(name) && ends_with(
                            name,
                            ".request.toml"@,
                        ) {
                            Ok(front.push(path))
                        } else {
                            Ok(front)
                        },
                        NodeView::Directory => if internal_name(name) || !nodes.dom().finite()
                            || !below(nodes, directory).contains(path) {
                            Ok(front)
                        } else {
                            proof {
                                lemma_below_shrinks(nodes, directory, path);
                            }
                            match request_places(nodes, root, path, false) {
                                Err(e) => Err(e),
                                Ok(inside) => Ok(front + inside),
                            }
                        },
                    }
                }
            },
        }
    }
}

/// The places of the requests of the given collections, in order: those of an archived
/// collection are left out.
pub open spec fn collection_request_places(nodes: Nodes, root: Seq<char>, names: Seq<Seq<char>>) -> Result<
    Seq<Seq<char>>,
    WorkspaceErrorView,
>
    decreases names.len(),
{
    if names.len() == 0 {
        Ok(seq![])
    } else {
        match collection_request_places(nodes, root, names.drop_last()) {
            Err(e) => Err(e),
            Ok(front) => {
                let name = names.last();
                let path = entry_path("collections"@, name);
                if !nodes.dom().contains(path) {
                    Ok(front)
                } else if nodes[path] is Link {
                    Err(WorkspaceErrorView::SymbolicLink(joined(root, path)))
                } else if !(nodes[path] is Directory) || internal_name(name) {
                    Ok(front)
                } else {
                    match is_archived(
                        nodes,
                        root,
                        entry_path(path, COLLECTION_FILE@),
                        |text: Seq<char>| collection_value(text),
                    ) {
                        Err(e) => Err(e),
                        Ok(true) => Ok(front),
                        Ok(false) => match request_places(nodes, root, path, true) {
                            Err(e) => Err(e),
                            Ok(inside) => Ok(front + inside),
                        },
                    }
                }
            },
        }
    }
}

/// The places of all requests of a workspace, in order.
pub open spec fn all_request_places(nodes: Nodes, root: Seq<char>) -> Result<
    Seq<Seq<char>>,
    WorkspaceErrorView,
> {
    if !is_there(nodes, "collections"@) {
        Ok(seq![])
    } else {
        match ordered_names(nodes, root, "collections"@) {
            Err(e) => Err(e),
            Ok(names) => collection_request_places(nodes, root, names),
        }
    }
}

proof fn lemma_places_error(
    nodes: Nodes,
    root: Seq<char>,
    directory: Seq<char>,
    names: Seq<Seq<char>>,
    k: int,
)
    requires
        0 <= k <= names.len(),
        request_places_of(nodes, root, directory, names.take(k)) is Err,
    ensures
        request_places_of(nodes, root, directory, names) == request_places_of(
            nodes,
            root,
            directory,
            names.take(k),
        ),
    decreases names.len() - k,
{
    if k < names.len() {
        assert(names.take(k + 1).drop_last() =~= names.take(k));
        lemma_places_error(nodes, root, directory, names, k + 1);
    } else {
        assert(names.take(k) =~= names);
    }
}

proof fn lemma_collection_places_error(nodes: Nodes, root: Seq<char>, names: Seq<Seq<char>>, k: int)
    requires
        0 <= k <= names.len(),
        collection_request_places(nodes, root, names.take(k)) is Err,
    ensures
        collection_request_places(nodes, root, names) == collection_request_places(
            nodes,
            root,
            names.take(k),
        ),
    decreases names.len() - k,
{
    if k < names.len() {
        assert(names.take(k + 1).drop_last() =~= names.take(k));
        lemma_collection_places_error(nodes, root, names, k + 1);
    } else {
        assert(names.take(k) =~= names);
    }
}

fn choose_names(names: &[String], others: &[String], among: bool) -> (r: Vec<String>)
    ensures
        texts(r@) == chosen(texts(names@), texts(others@), among),
{
    let ghost all = texts(names@);
    let mut r: Vec<String> = Vec::new();
    assert(all.take(0) =~= seq![]);
    assert(texts(r@) =~= seq![]);
    for i in 0..names.len()
        invariant
            all == texts(names@),
            texts(r@) == chosen(all.take(i as int), texts(others@), among),
    {
        proof {
            assert(all.take(i + 1).drop_last() =~= all.take(i as int));
            assert(all.take(i + 1).last() == names@[i as int]@);
        }
        let chars = chars_of(names[i].as_str());
        if crate::resolver::holds_text(others, chars.as_slice()) == among {
            let ghost before = r@;
            r.push(names[i].clone());
            assert(texts(r@) =~= texts(before).push(names@[i as int]@));
        }
    }
    assert(all.take(all.len() as int) =~= all);
    r
}

/// A request in the list of a workspace's requests.
#[derive(Clone, Debug, PartialEq, Eq)]
pub struct WorkspaceRequestEntry {
    pub path: ResourcePath,
    pub relative_path: ResourcePath,
    pub collection: String,
    pub folders: Vec<String>,
    pub slug: String,
    pub id: StableId,
    pub name: String,
    pub method: HttpMethod,
    pub url: String,
}

/// A request in the list of a workspace's requests, by its contents.
#[verifier::ext_equal]
pub struct RequestEntryView {
    pub path: Seq<char>,
    pub relative_path: Seq<char>,
    pub collection: Seq<char>,
    pub folders: Seq<Seq<char>>,
    pub slug: Seq<char>,
    pub id: Seq<char>,
    pub name: Seq<char>,
    pub method: MethodView,
    pub url: Seq<char>,
}

impl View for WorkspaceRequestEntry {
    type V = RequestEntryView;

    open spec fn view(&self) -> RequestEntryView {
        RequestEntryView {
            path: self.path@,
            relative_path: self.relative_path@,
            collection: self.collection@,
            folders: texts(self.folders@),
            slug: self.slug@,
            id: self.id@,
            name: self.name@,
            method: self.method@,
            url: self.url@,
        }
    }
}

/// The contents of a list of entries.
pub open spec fn entry_views(list: Seq<WorkspaceRequestEntry>) -> Seq<RequestEntryView> {
    list.map_values(|e: WorkspaceRequestEntry| e@)
}

/// The entry of the request at a place: a place below the collections, in one of them.
pub open spec fn entry_at(nodes: Nodes, root: Seq<char>, place: Seq<char>) -> Result<
    RequestEntryView,
    WorkspaceErrorView,
> {
    let pieces = split_all(place, '/');
    let name = pieces.last();
    if pieces.len() < 3 {
        Err(WorkspaceErrorView::InvalidPath(joined(root, place)))
    } else {
        match loaded(
            nodes,
            root,
            place,
            MAXIMUM_REQUEST_BYTES,
            |text: Seq<char>| request_value(text),
        ) {
            Err(e) => Err(e),
            Ok(d) => Ok(
                RequestEntryView {
                    path: joined(root, place),
                    relative_path: place,
                    collection: pieces[1],
                    folders: pieces.subrange(2, pieces.len() - 1),
                    slug: name.take(name.len() - ".request.toml"@.len()),
                    id: d.value.request.id,
                    name: d.value.request.name,
                    method: d.value.request.method,
                    url: d.value.request.url,
                },
            ),
        }
    }
}

/// The entries of the requests at some places, of which those that do not name a request
/// are left out.
pub open spec fn entries_at(nodes: Nodes, root: Seq<char>, places: Seq<Seq<char>>) -> Result<
    Seq<RequestEntryView>,
    WorkspaceErrorView,
>
    decreases places.len(),
{
    if places.len() == 0 {
        Ok(seq![])
    } else {
        match entries_at(nodes, root, places.drop_last()) {
            Err(e) => Err(e),
            Ok(front) => if !ends_with(split_all(places.last(), '/').last(), ".request.toml"@) {
                Ok(front)
            } else {
                match entry_at(nodes, root, places.last()) {
                    Err(e) => Err(e),
                    Ok(entry) => Ok(front.push(entry)),
                }
            },
        }
    }
}

proof fn lemma_entries_error(nodes: Nodes, root: Seq<char>, places: Seq<Seq<char>>, k: int)
    requires
        0 <= k <= places.len(),
        entries_at(nodes, root, places.take(k)) is Err,
    ensures
        entries_at(nodes, root, places) == entries_at(nodes, root, places.take(k)),
    decreases places.len() - k,
{
    if k < places.len() {
        assert(places.take(k + 1).drop_last() =~= places.take(k));
        lemma_entries_error(nodes, root, places, k + 1);
    } else {
        assert(places.take(k) =~= places);
    }
}

/// The entries of all requests of a workspace, in order.
pub open spec fn all_entries(nodes: Nodes, root: Seq<char>) -> Result<
    Seq<RequestEntryView>,
    WorkspaceErrorView,
> {
    match all_request_places(nodes, root) {
        Err(e) => Err(e),
        Ok(places) => entries_at(nodes, root, places),
    }
}

impl WorkspaceRepository {
    /// Marks a collection as archived or not, so long as it is as expected.
    pub fn set_collection_archived(
        &self,
        files: &mut FileTree,
        slug: &str,
        archived: bool,
        expected: FileFingerprint,
    ) -> (r: Result<FileFingerprint, WorkspaceError>)
        requires
            old(files).wf(),
        ensures
            final(files).wf(),
            (number_outcome(r), final(files)@) == archived_set(
                old(files)@,
                self@,
                loaded_at(
                    old(files)@.nodes,
                    self@,
                    collection_place(slug@),
                    COLLECTION_FILE@,
                    |text: Seq<char>| collection_value(text),
                ),
                file_place(collection_place(slug@), COLLECTION_FILE@),
                archived,
                expected.number(),
                |d: NamedView| collection_text(d),
            ),
    {
        let loaded = match self.load_collection(files, slug) {
            Ok(d) => d,
            Err(e) => {
                return Err(e);
            },
        };
        proof {
            FileFingerprint::lemma_same(loaded.fingerprint, expected);
        }
        if loaded.fingerprint != expected {
            return Err(WorkspaceError::ExternalChange(loaded.path));
        }
        let place = match place_of_collection(slug) {
            Ok(place) => path_in(place.as_str(), COLLECTION_FILE),
            Err(e) => {
                return Err(e);
            },
        };
        let ghost before = loaded.value@;
        let mut document = loaded.value;
        document.archived = archived;
        assert(document@ =~= (NamedView { archived, ..before }));
        self.write_checked(
            files,
            place.as_str(),
            format_collection(&document).as_str(),
            Some(expected),
        )
    }

    /// Marks a folder as archived or not, so long as it is as expected.
    pub fn set_folder_archived(
        &self,
        files: &mut FileTree,
        collection_slug: &str,
        folders: &[String],
        archived: bool,
        expected: FileFingerprint,
    ) -> (r: Result<FileFingerprint, WorkspaceError>)
        requires
            old(files).wf(),
        ensures
            final(files).wf(),
            (number_outcome(r), final(files)@) == archived_set(
                old(files)@,
                self@,
                loaded_at(
                    old(files)@.nodes,
                    self@,
                    folder_place(collection_slug@, texts(folders@)),
                    FOLDER_FILE@,
                    |text: Seq<char>| folder_value(text),
                ),
                file_place(folder_place(collection_slug@, texts(folders@)), FOLDER_FILE@),
                archived,
                expected.number(),
                |d: NamedView| folder_text(d),
            ),
    {
        let loaded = match self.load_folder(files, collection_slug, folders) {
            Ok(d) => d,
            Err(e) => {
                return Err(e);
            },
        };
        proof {
            FileFingerprint::lemma_same(loaded.fingerprint, expected);
        }
        if loaded.fingerprint != expected {
            return Err(WorkspaceError::ExternalChange(loaded.path));
        }
        let place = match place_of_folder(collection_slug, folders) {
            Ok(place) => path_in(place.as_str(), FOLDER_FILE),
            Err(e) => {
                return Err(e);
            },
        };
        let ghost before = loaded.value@;
        let mut document = loaded.value;
        document.archived = archived;
        assert(document@ =~= (NamedView { archived, ..before }));
        self.write_checked(
            files,
            place.as_str(),
            format_folder(&document).as_str(),
            Some(expected),
        )
    }

    fn read_order_items(&self, files: &FileTree, directory: &str) -> (r: Result<
        Vec<String>,
        WorkspaceError,
    >)
        requires
            files.wf(),
        ensures
            match r {
                Ok(items) => order_items(files@.nodes, self@, directory@) == Ok::<
                    Seq<Seq<char>>,
                    WorkspaceErrorView,
                >(texts(items@)),
                Err(e) => order_items(files@.nodes, self@, directory@) == Err::<
                    Seq<Seq<char>>,
                    WorkspaceErrorView,
                >(e@),
            },
    {
        let place = path_in(directory, ORDER_FILE);
        if !files.is_there(place.as_str()) {
            let none: Vec<String> = Vec::new();
            assert(texts(none@) =~= seq![]);
            return Ok(none);
        }
        let text = match self.read_text(files, place.as_str(), MAXIMUM_METADATA_BYTES) {
            Ok(text) => text,
            Err(e) => {
                return Err(e);
            },
        };
        match parse_order(text.as_str()) {
            Ok(order) => Ok(order.items),
            Err(e) => Err(e),
        }
    }

    fn ordered_entries(&self, files: &FileTree, directory: &str) -> (r: Result<
        Vec<String>,
        WorkspaceError,
    >)
        requires
            files.wf(),
        ensures
            match r {
                Ok(names) => ordered_names(files@.nodes, self@, directory@) == Ok::<
                    Seq<Seq<char>>,
                    WorkspaceErrorView,
                >(texts(names@)),
                Err(e) => ordered_names(files@.nodes, self@, directory@) == Err::<
                    Seq<Seq<char>>,
                    WorkspaceErrorView,
                >(e@),
            },
    {
        if !files.can_be_entered(directory) {
            return Err(
                WorkspaceError::Io(
                    crate::message::concat2("cannot read ", self.path_of(directory).as_text()),
                ),
            );
        }
        let items = match self.read_order_items(files, directory) {
            Ok(items) => items,
            Err(e) => {
                return Err(e);
            },
        };
        let names = files.names_in(directory);
        let mut first = choose_names(items.as_slice(), names.as_slice(), true);
        let mut rest = choose_names(names.as_slice(), items.as_slice(), false);
        let ghost a = first@;
        let ghost b = rest@;
        first.append(&mut rest);
        assert(texts(first@) =~= texts(a) + texts(b));
        Ok(first)
    }

    fn collect_request_files(&self, files: &FileTree, directory: &str, collection: bool) -> (r:
        Result<Vec<String>, WorkspaceError>)
        requires
            files.wf(),
            directory@.len() > 0,
        ensures
            match r {
                Ok(list) => request_places(files@.nodes, self@, directory@, collection) == Ok::<
                    Seq<Seq<char>>,
                    WorkspaceErrorView,
                >(texts(list@)),
                Err(e) => request_places(files@.nodes, self@, directory@, collection) == Err::<
                    Seq<Seq<char>>,
                    WorkspaceErrorView,
                >(e@),
            },
        decreases below(files@.nodes, directory@).len(),
    {
        let mut list: Vec<String> = Vec::new();
        assert(texts(list@) =~= seq![]);
        if !collection {
            let place = path_in(directory, FOLDER_FILE);
            if files.is_there(place.as_str()) {
                match self.load_folder_at(files, place.as_str()) {
                    Ok(d) => {
                        if d.value.archived {
                            return Ok(list);
                        }
                    },
                    Err(e) => {
                        return Err(e);
                    },
                }
            }
        }
        let names = match self.ordered_entries(files, directory) {
            Ok(names) => names,
            Err(e) => {
                return Err(e);
            },
        };
        let ghost nodes = files@.nodes;
        let ghost all = texts(names@);
        proof {
            files.lemma_nodes_finite();
            assert(all.take(0) =~= seq![]);
        }
        let ending = chars_of(".request.toml");
        for i in 0..names.len()
            invariant
                files.wf(),
                directory@.len() > 0,
                nodes == files@.nodes,
                nodes.dom().finite(),
                all == texts(names@),
                ending@ == ".request.toml"@,
                request_places(nodes, self@, directory@, collection) == request_places_of(
                    nodes,
                    self@,
                    directory@,
                    all,
                ),
                request_places_of(nodes, self@, directory@, all.take(i as int)) == Ok::<
                    Seq<Seq<char>>,
                    WorkspaceErrorView,
                >(texts(list@)),
        {
            let name = names[i].as_str();
            let path = path_in(directory, name);
            proof {
                assert(all.take(i + 1).drop_last() =~= all.take(i as int));
                assert(all.take(i + 1).last() == name@);
            }
            let ghost before = list@;
            match files.node(path.as_str()) {
                None => {},
                Some(FileNode::Link(_)) => {
                    proof {
                        lemma_places_error(nodes, self@, directory@, all, i + 1);
                    }
                    return Err(WorkspaceError::SymbolicLink(self.path_of(path.as_str())));
                },
                Some(FileNode::File(_)) => {
                    let chars = chars_of(name);
                    if !is_internal_name(name) && has_suffix(chars.as_slice(), ending.as_slice()) {
                        list.push(path.clone());
                        assert(texts(list@) =~= texts(before).push(path@));
                    }
                },
                Some(FileNode::Directory) => {
                    if !is_internal_name(name) {
                        proof {
                            lemma_entry_below(nodes, directory@, name@);
                            lemma_below_shrinks(nodes, directory@, path@);
                        }
                        match self.collect_request_files(files, path.as_str(), false) {
                            Ok(inside) => {
                                let mut more = inside;
                                let ghost added = more@;
                                list.append(&mut more);
                                assert(texts(list@) =~= texts(before) + texts(added));
                            },
                            Err(e) => {
                                proof {
                                    lemma_places_error(nodes, self@, directory@, all, i + 1);
                                }
                                return Err(e);
                            },
                        }
                    }
                },
            }
        }
        assert(all.take(all.len() as int) =~= all);
        Ok(list)
    }

    /// Finds the requests of the workspace, in order.
    pub fn list_request_files_ordered(&self, files: &FileTree) -> (r: Result<
        Vec<String>,
        WorkspaceError,
    >)
        requires
            files.wf(),
        ensures
            match r {
                Ok(list) => all_request_places(files@.nodes, self@) == Ok::<
                    Seq<Seq<char>>,
                    WorkspaceErrorView,
                >(texts(list@)),
                Err(e) => all_request_places(files@.nodes, self@) == Err::<
                    Seq<Seq<char>>,
                    WorkspaceErrorView,
                >(e@),
            },
    {
        let mut list: Vec<String> = Vec::new();
        assert(texts(list@) =~= seq![]);
        if !files.is_there("collections") {
            return Ok(list);
        }
        let names = match self.ordered_entries(files, "collections") {
            Ok(names) => names,
            Err(e) => {
                return Err(e);
            },
        };
        let ghost nodes = files@.nodes;
        let ghost all = texts(names@);
        assert(all.take(0) =~= seq![]);
        for i in 0..names.len()
            invariant
                files.wf(),
                nodes == files@.nodes,
                all == texts(names@),
                all_request_places(nodes, self@) == collection_request_places(nodes, self@, all),
                collection_request_places(nodes, self@, all.take(i as int)) == Ok::<
                    Seq<Seq<char>>,
                    WorkspaceErrorView,
                >(texts(list@)),
        {
            let name = names[i].as_str();
            let path = path_in("collections", name);
            proof {
                reveal_strlit("collections");
                assert(all.take(i + 1).drop_last() =~= all.take(i as int));
                assert(all.take(i + 1).last() == name@);
            }
            let ghost before = list@;
            match files.node(path.as_str()) {
                None => {},
                Some(FileNode::Link(_)) => {
                    proof {
                        lemma_collection_places_error(nodes, self@, all, i + 1);
                    }
                    return Err(WorkspaceError::SymbolicLink(self.path_of(path.as_str())));
                },
                Some(FileNode::File(_)) => {},
                Some(FileNode::Directory) => {
                    if !is_internal_name(name) {
                        let place = path_in(path.as_str(), COLLECTION_FILE);
                        let mut archived = false;
                        if files.is_there(place.as_str()) {
                            match self.load_collection_at(files, place.as_str()) {
                                Ok(d) => {
                                    archived = d.value.archived;
                                },
                                Err(e) => {
                                    proof {
                                        lemma_collection_places_error(nodes, self@, all, i + 1);
                                    }
                                    return Err(e);
                                },
                            }
                        }
                        if !archived {
                            match self.collect_request_files(files, path.as_str(), true) {
                                Ok(inside) => {
                                    let mut more = inside;
                                    let ghost added = more@;
                                    list.append(&mut more);
                                    assert(texts(list@) =~= texts(before) + texts(added));
                                },
                                Err(e) => {
                                    proof {
                                        lemma_collection_places_error(nodes, self@, all, i + 1);
                                    }
                                    return Err(e);
                                },
                            }
                        }
                    }
                },
            }
        }
        assert(all.take(all.len() as int) =~= all);
        Ok(list)
    }

    fn request_entry(&self, files: &FileTree, place: &str) -> (r: Result<
        WorkspaceRequestEntry,
        WorkspaceError,
    >)
        requires
            files.wf(),
            ends_with(split_all(place@, '/').last(), ".request.toml"@),
        ensures
            outcome(r) == entry_at(files@.nodes, self@, place@),
    {
        let chars = chars_of(place);
        let pieces = split_every(chars.as_slice(), '/');
        let ghost all = slices(pieces@);
        if pieces.len() < 3 {
            return Err(WorkspaceError::InvalidPath(self.path_of(place).text));
        }
        let (text, path, _) = match self.read_settled(files, place, MAXIMUM_REQUEST_BYTES) {
            Ok(t) => t,
            Err(e) => {
                return Err(e);
            },
        };
        let document = match parse_request(text.as_str()) {
            Ok(d) => d,
            Err(e) => {
                return Err(e);
            },
        };
        let mut folders: Vec<String> = Vec::new();
        let last: usize = pieces.len() - 1;
        for i in 2..last
            invariant
                all == slices(pieces@),
                last == pieces@.len() - 1,
                folders@.len() == i - 2,
                forall|k: int| 0 <= k < folders@.len() ==> (#[trigger] folders@[k])@ == all[k + 2],
        {
            assert(all[i as int] == pieces@[i as int]@);
            folders.push(string_of(pieces[i]));
        }
        assert(texts(folders@) =~= all.subrange(2, all.len() - 1));
        let name = pieces[last];
        assert(all.last() == name@);
        assert(all[1] == pieces@[1]@);
        let ending = chars_of(".request.toml");
        let kept: usize = name.len() - ending.len();
        let slug = vstd::slice::slice_subrange(name, 0, kept);
        assert(slug@ =~= name@.take(name@.len() - ".request.toml"@.len()));
        Ok(
            WorkspaceRequestEntry {
                path,
                relative_path: ResourcePath::new(place),
                collection: string_of(pieces[1]),
                folders,
                slug: string_of(slug),
                id: document.request.id,
                name: document.request.name,
                method: document.request.method,
                url: document.request.url,
            },
        )
    }

    /// Lists the requests of the workspace, in order.
    pub fn list_requests(&self, files: &FileTree) -> (r: Result<
        Vec<WorkspaceRequestEntry>,
        WorkspaceError,
    >)
        requires
            files.wf(),
        ensures
            match r {
                Ok(list) => all_entries(files@.nodes, self@) == Ok::<
                    Seq<RequestEntryView>,
                    WorkspaceErrorView,
                >(entry_views(list@)),
                Err(e) => all_entries(files@.nodes, self@) == Err::<
                    Seq<RequestEntryView>,
                    WorkspaceErrorView,
                >(e@),
            },
    {
        let places = match self.list_request_files_ordered(files) {
            Ok(places) => places,
            Err(e) => {
                return Err(e);
            },
        };
        let ghost nodes = files@.nodes;
        let ghost all = texts(places@);
        let mut list: Vec<WorkspaceRequestEntry> = Vec::new();
        assert(all.take(0) =~= seq![]);
        assert(entry_views(list@) =~= seq![]);
        let ending = chars_of(".request.toml");
        for i in 0..places.len()
            invariant
                files.wf(),
                nodes == files@.nodes,
                all == texts(places@),
                ending@ == ".request.toml"@,
                all_entries(nodes, self@) == entries_at(nodes, self@, all),
                entries_at(nodes, self@, all.take(i as int)) == Ok::<
                    Seq<RequestEntryView>,
                    WorkspaceErrorView,
                >(entry_views(list@)),
        {
            let place = places[i].as_str();
            proof {
                assert(all.take(i + 1).drop_last() =~= all.take(i as int));
                assert(all.take(i + 1).last() == place@);
            }
            let chars = chars_of(place);
            let pieces = split_every(chars.as_slice(), '/');
            let name = pieces[pieces.len() - 1];
            assert(slices(pieces@).last() == name@);
            if has_suffix(name, ending.as_slice()) {
                match self.request_entry(files, place) {
                    Ok(entry) => {
                        let ghost before = list@;
                        let ghost v = entry@;
                        list.push(entry);
                        assert(entry_views(list@) =~= entry_views(before).push(v));
                    },
                    Err(e) => {
                        proof {
                            lemma_entries_error(nodes, self@, all, i + 1);
                        }
                        return Err(e);
                    },
                }
            }
        }
        assert(all.take(all.len() as int) =~= all);
        Ok(list)
    }
}

/// The merge conflicts in a file, by the path of the file.
pub open spec fn file_conflicts(nodes: Nodes, root: Seq<char>, place: Seq<char>) -> Result<
    Option<(Seq<char>, Seq<ConflictMarker>)>,
    WorkspaceErrorView,
> {
    let is_file = nodes.dom().contains(place) && nodes[place] is File;
    if !is_file || extension_of(place_name(place)) != Some("toml"@) {
        Ok(None)
    } else {
        match limited_bytes(nodes, root, place, MAXIMUM_REQUEST_BYTES) {
            Err(e) => Err(e),
            Ok(bytes) => {
                let markers = conflicts(shown_text(bytes));
                if markers.len() > 0 {
                    Ok(Some((joined(root, place), markers)))
                } else {
                    Ok(None)
                }
            },
        }
    }
}

/// The text of bytes as it is searched for conflicts.
pub open spec fn shown_text(bytes: Seq<u8>) -> Seq<char> {
    if valid_utf8(bytes) {
        decode_utf8(bytes)
    } else {
        lossy_text(bytes)
    }
}

/// The merge conflicts in some files.
pub open spec fn all_conflicts(nodes: Nodes, root: Seq<char>, places: Seq<Seq<char>>) -> Result<
    Seq<(Seq<char>, Seq<ConflictMarker>)>,
    WorkspaceErrorView,
>
    decreases places.len(),
{
    if places.len() == 0 {
        Ok(seq![])
    } else {
        match all_conflicts(nodes, root, places.drop_last()) {
            Err(e) => Err(e),
            Ok(front) => match file_conflicts(nodes, root, places.last()) {
                Err(e) => Err(e),
                Ok(None) => Ok(front),
                Ok(Some(found)) => Ok(front.push(found)),
            },
        }
    }
}

proof fn lemma_conflicts_error(nodes: Nodes, root: Seq<char>, places: Seq<Seq<char>>, k: int)
    requires
        0 <= k <= places.len(),
        all_conflicts(nodes, root, places.take(k)) is Err,
    ensures
        all_conflicts(nodes, root, places) == all_conflicts(nodes, root, places.take(k)),
    decreases places.len() - k,
{
    if k < places.len() {
        assert(places.take(k + 1).drop_last() =~= places.take(k));
        lemma_conflicts_error(nodes, root, places, k + 1);
    } else {
        assert(places.take(k) =~= places);
    }
}

/// The contents of a list of conflicts.
pub open spec fn conflict_views(list: Seq<(ResourcePath, Vec<ConflictMarker>)>) -> Seq<
    (Seq<char>, Seq<ConflictMarker>),
> {
    list.map_values(|c: (ResourcePath, Vec<ConflictMarker>)| (c.0@, c.1@))
}

impl WorkspaceRepository {
    fn conflicts_in(&self, files: &FileTree, place: &str) -> (r: Result<
        Option<(ResourcePath, Vec<ConflictMarker>)>,
        WorkspaceError,
    >)
        requires
            files.wf(),
        ensures
            match r {
                Ok(Some(found)) => file_conflicts(files@.nodes, self@, place@) == Ok::<
                    Option<(Seq<char>, Seq<ConflictMarker>)>,
                    WorkspaceErrorView,
                >(Some((found.0@, found.1@))),
                Ok(None) => file_conflicts(files@.nodes, self@, place@) == Ok::<
                    Option<(Seq<char>, Seq<ConflictMarker>)>,
                    WorkspaceErrorView,
                >(None),
                Err(e) => file_conflicts(files@.nodes, self@, place@) == Err::<
                    Option<(Seq<char>, Seq<ConflictMarker>)>,
                    WorkspaceErrorView,
                >(e@),
            },
    {
        match files.node(place) {
            Some(FileNode::File(_)) => {},
            _ => {
                return Ok(None);
            },
        }
        let name = name_of_place(place);
        match name_extension(name.as_str()) {
            Some(extension) => {
                if !same_text(extension.as_str(), "toml") {
                    return Ok(None);
                }
            },
            None => {
                return Ok(None);
            },
        }
        let bytes = match self.read_limited(files, place, MAXIMUM_REQUEST_BYTES) {
            Ok(bytes) => bytes,
            Err(e) => {
                return Err(e);
            },
        };
        let text = text_lossy(bytes);
        assert(text@ == shown_text(bytes@));
        let markers = detect_conflict_markers(text.as_str());
        if markers.len() > 0 {
            Ok(Some((self.path_of(place), markers)))
        } else {
            Ok(None)
        }
    }

    /// Finds the merge conflicts in the documents of the workspace.
    pub fn scan_conflicts(&self, files: &FileTree) -> (r: Result<
        Vec<(ResourcePath, Vec<ConflictMarker>)>,
        WorkspaceError,
    >)
        requires
            files.wf(),
        ensures
            match r {
                Ok(list) => all_conflicts(files@.nodes, self@, root_order(files@.nodes)) == Ok::<
                    Seq<(Seq<char>, Seq<ConflictMarker>)>,
                    WorkspaceErrorView,
                >(conflict_views(list@)),
                Err(e) => all_conflicts(files@.nodes, self@, root_order(files@.nodes)) == Err::<
                    Seq<(Seq<char>, Seq<ConflictMarker>)>,
                    WorkspaceErrorView,
                >(e@),
            },
    {
        let places = files.all_paths();
        let ghost nodes = files@.nodes;
        let ghost all = texts(places@);
        let mut list: Vec<(ResourcePath, Vec<ConflictMarker>)> = Vec::new();
        assert(all.take(0) =~= seq![]);
        assert(conflict_views(list@) =~= seq![]);
        for i in 0..places.len()
            invariant
                files.wf(),
                nodes == files@.nodes,
                all == texts(places@),
                all == root_order(nodes),
                all_conflicts(nodes, self@, all.take(i as int)) == Ok::<
                    Seq<(Seq<char>, Seq<ConflictMarker>)>,
                    WorkspaceErrorView,
                >(conflict_views(list@)),
        {
            proof {
                assert(all.take(i + 1).drop_last() =~= all.take(i as int));
                assert(all.take(i + 1).last() == places@[i as int]@);
            }
            match self.conflicts_in(files, places[i].as_str()) {
                Ok(None) => {},
                Ok(Some(found)) => {
                    let ghost before = list@;
                    let ghost v = (found.0@, found.1@);
                    list.push(found);
                    assert(conflict_views(list@) =~= conflict_views(before).push(v));
                },
                Err(e) => {
                    proof {
                        lemma_conflicts_error(nodes, self@, all, i + 1);
                    }
                    return Err(e);
                },
            }
        }
        assert(all.take(all.len() as int) =~= all);
        Ok(list)
    }
}

} // verus!
