//! A workspace: where its files stand, and how its documents are read and written.
use crate::conflict::{conflicts, detect_conflict_error};
use crate::domain::{is_slug, valid_slug};
use crate::error::{outcome, WorkspaceError, WorkspaceErrorView};
use crate::files::{
    blocked, copy_bytes, entry_path, file_bytes, is_there, lemma_performed, parent_of, parent_place,
    path_in, performed, utf8_text, ActionView, FileAction, FileTree, FilesView, Nodes,
};
use crate::fingerprint::{file_digest, FileFingerprint};
use crate::message::concat2;
use crate::paths::{
    below_root, component_views, components_below, joined, ComponentView, PathComponent,
    ResourcePath,
};
use crate::text::{chars_of, texts};
use vstd::prelude::*;
use vstd::string::*;
use vstd::utf8::{decode_utf8, encode_utf8, valid_utf8};

verus! {

/// The most bytes of a manifest, of metadata or of a file of variables.
pub const MAXIMUM_METADATA_BYTES: u64 = 4_194_304;

/// The most bytes of a request.
pub const MAXIMUM_REQUEST_BYTES: u64 = 33_554_432;

/// A document with the path that it was read from and the fingerprint of its bytes.
#[derive(Clone, Debug, PartialEq, Eq)]
pub struct LoadedDocument<T> {
    pub value: T,
    pub path: ResourcePath,
    pub fingerprint: FileFingerprint,
}

/// A document that was read, by its contents.
#[verifier::ext_equal]
#[verifier::reject_recursive_types(T)]
pub struct LoadedView<T> {
    pub value: T,
    pub path: Seq<char>,
    pub fingerprint: u64,
}

impl<T: View> View for LoadedDocument<T> {
    type V = LoadedView<T::V>;

    open spec fn view(&self) -> LoadedView<T::V> {
        LoadedView {
            value: self.value@,
            path: self.path@,
            fingerprint: self.fingerprint.number(),
        }
    }
}

/// A workspace, by the path of its root.
#[derive(Clone, Debug, PartialEq, Eq)]
pub struct WorkspaceRepository {
    root: ResourcePath,
}

impl View for WorkspaceRepository {
    type V = Seq<char>;

    closed spec fn view(&self) -> Seq<char> {
        self.root@
    }
}

/// The refusal of a slug.
pub open spec fn bad_slug(slug: Seq<char>) -> WorkspaceErrorView {
    WorkspaceErrorView::InvalidPath("invalid workspace slug: "@ + slug)
}

/// Refuses what cannot name a file of a workspace.
pub fn validate_slug(slug: &str) -> (r: Result<(), WorkspaceError>)
    ensures
        match r {
            Ok(_) => is_slug(slug@),
            Err(e) => !is_slug(slug@) && e@ == bad_slug(slug@),
        },
{
    if valid_slug(slug) {
        Ok(())
    } else {
        Err(WorkspaceError::InvalidPath(concat2("invalid workspace slug: ", slug)))
    }
}

/// Where a collection stands.
pub open spec fn collection_place(slug: Seq<char>) -> Result<Seq<char>, WorkspaceErrorView> {
    if is_slug(slug) {
        Ok(entry_path("collections"@, slug))
    } else {
        Err(bad_slug(slug))
    }
}

/// Where a folder of a collection stands.
pub open spec fn folder_place(collection: Seq<char>, folders: Seq<Seq<char>>) -> Result<
    Seq<char>,
    WorkspaceErrorView,
>
    decreases folders.len(),
{
    if folders.len() == 0 {
        collection_place(collection)
    } else {
        match folder_place(collection, folders.drop_last()) {
            Err(e) => Err(e),
            Ok(parent) => if is_slug(folders.last()) {
                Ok(entry_path(parent, folders.last()))
            } else {
                Err(bad_slug(folders.last()))
            },
        }
    }
}

proof fn lemma_folder_place_error(collection: Seq<char>, folders: Seq<Seq<char>>, k: int)
    requires
        0 <= k <= folders.len(),
        folder_place(collection, folders.take(k)) is Err,
    ensures
        folder_place(collection, folders) == folder_place(collection, folders.take(k)),
    decreases folders.len() - k,
{
    if k < folders.len() {
        assert(folders.take(k + 1).drop_last() =~= folders.take(k));
        lemma_folder_place_error(collection, folders, k + 1);
    } else {
        assert(folders.take(k) =~= folders);
    }
}

/// A folder stands below the place of the collections.
pub proof fn lemma_folder_place(collection: Seq<char>, folders: Seq<Seq<char>>)
    ensures
        folder_place(collection, folders) matches Ok(place) ==> place.len() > 0,
    decreases folders.len(),
{
    if folders.len() > 0 {
        lemma_folder_place(collection, folders.drop_last());
    } else {
        reveal_strlit("collections");
    }
}

/// Finds where a collection stands.
pub fn place_of_collection(slug: &str) -> (r: Result<String, WorkspaceError>)
    ensures
        outcome(r) == collection_place(slug@),
{
    match validate_slug(slug) {
        Ok(_) => Ok(path_in("collections", slug)),
        Err(e) => Err(e),
    }
}

/// Finds where a folder of a collection stands.
pub fn place_of_folder(collection: &str, folders: &[String]) -> (r: Result<String, WorkspaceError>)
    ensures
        outcome(r) == folder_place(collection@, texts(folders@)),
        r matches Ok(place) ==> place@.len() > 0,
{
    proof {
        lemma_folder_place(collection@, texts(folders@));
    }
    let mut place = match place_of_collection(collection) {
        Ok(p) => p,
        Err(e) => {
            proof {
                assert(texts(folders@).take(0) =~= seq![]);
                lemma_folder_place_error(collection@, texts(folders@), 0);
            }
            return Err(e);
        },
    };
    let ghost all = texts(folders@);
    assert(all.take(0) =~= seq![]);
    for i in 0..folders.len()
        invariant
            all == texts(folders@),
            folder_place(collection@, all.take(i as int)) == Ok::<Seq<char>, WorkspaceErrorView>(
                place@,
            ),
    {
        proof {
            assert(all.take(i + 1).drop_last() =~= all.take(i as int));
            assert(all.take(i + 1).last() == folders@[i as int]@);
        }
        match validate_slug(folders[i].as_str()) {
            Ok(_) => {},
            Err(e) => {
                proof {
                    lemma_folder_place_error(collection@, all, i + 1);
                }
                return Err(e);
            },
        }
        place = path_in(place.as_str(), folders[i].as_str());
    }
    assert(all.take(all.len() as int) =~= all);
    Ok(place)
}

/// The path of a place below a root, or the error.
pub open spec fn path_result(
    root: Seq<char>,
    place: Result<Seq<char>, WorkspaceErrorView>,
) -> Result<Seq<char>, WorkspaceErrorView> {
    match place {
        Ok(p) => Ok(joined(root, p)),
        Err(e) => Err(e),
    }
}

/// Where a request of a collection stands.
pub open spec fn request_place(collection: Seq<char>, request: Seq<char>) -> Result<
    Seq<char>,
    WorkspaceErrorView,
> {
    match collection_place(collection) {
        Err(e) => Err(e),
        Ok(place) => if is_slug(request) {
            Ok(entry_path(place, request + ".request.toml"@))
        } else {
            Err(bad_slug(request))
        },
    }
}

/// The names of a path, where all its components are names.
pub open spec fn plain_names(list: Seq<ComponentView>) -> Option<Seq<Seq<char>>>
    decreases list.len(),
{
    if list.len() == 0 {
        Some(seq![])
    } else {
        match plain_names(list.drop_last()) {
            None => None,
            Some(front) => match list.last() {
                ComponentView::Normal(name) => Some(front.push(name)),
                _ => None,
            },
        }
    }
}

/// The place of names one below the other.
pub open spec fn place_of_names(names: Seq<Seq<char>>) -> Seq<char>
    decreases names.len(),
{
    if names.len() == 0 {
        seq![]
    } else {
        entry_path(place_of_names(names.drop_last()), names.last())
    }
}

/// Where a path stands in a workspace; a path that leaves the workspace stands nowhere.
pub open spec fn place_in(root: Seq<char>, path: Seq<char>) -> Option<Seq<char>> {
    match components_below(root, path) {
        None => None,
        Some(rest) => match plain_names(rest) {
            None => None,
            Some(names) => Some(place_of_names(names)),
        },
    }
}

proof fn lemma_plain_names_fail(list: Seq<ComponentView>, k: int)
    requires
        0 <= k <= list.len(),
        plain_names(list.take(k)) is None,
    ensures
        plain_names(list) is None,
    decreases list.len() - k,
{
    if k < list.len() {
        assert(list.take(k + 1).drop_last() =~= list.take(k));
        lemma_plain_names_fail(list, k + 1);
    } else {
        assert(list.take(k) =~= list);
    }
}

/// The refusal of a path that leaves the workspace.
pub open spec fn traversal(path: Seq<char>) -> WorkspaceErrorView {
    WorkspaceErrorView::PathTraversal(path)
}

/// The error about a file that cannot be read.
pub open spec fn unreadable(path: Seq<char>) -> WorkspaceErrorView {
    WorkspaceErrorView::Io("cannot read "@ + path)
}

/// The error about a directory that cannot be made.
pub open spec fn no_directory(path: Seq<char>) -> WorkspaceErrorView {
    WorkspaceErrorView::Io("cannot make the directory "@ + path)
}

/// The error about something that cannot be moved.
pub open spec fn no_move(path: Seq<char>) -> WorkspaceErrorView {
    WorkspaceErrorView::Io("cannot move to "@ + path)
}

/// The bytes at a place, within a limit.
pub open spec fn limited_bytes(nodes: Nodes, root: Seq<char>, place: Seq<char>, limit: u64) -> Result<
    Seq<u8>,
    WorkspaceErrorView,
> {
    match file_bytes(nodes, place) {
        None => Err(unreadable(joined(root, place))),
        Some(bytes) => if bytes.len() > limit {
            Err(
                WorkspaceErrorView::FileTooLarge {
                    path: joined(root, place),
                    maximum_bytes: limit,
                    observed_bytes: bytes.len() as u64,
                },
            )
        } else {
            Ok(bytes)
        },
    }
}

/// The text at a place, within a limit.
pub open spec fn limited_text(nodes: Nodes, root: Seq<char>, place: Seq<char>, limit: u64) -> Result<
    Seq<char>,
    WorkspaceErrorView,
> {
    match limited_bytes(nodes, root, place, limit) {
        Err(e) => Err(e),
        Ok(bytes) => if valid_utf8(bytes) {
            Ok(decode_utf8(bytes))
        } else {
            Err(WorkspaceErrorView::InvalidUtf8(joined(root, place)))
        },
    }
}

/// The text at a place, within a limit and without merge conflicts.
pub open spec fn settled_text(nodes: Nodes, root: Seq<char>, place: Seq<char>, limit: u64) -> Result<
    Seq<char>,
    WorkspaceErrorView,
> {
    match limited_text(nodes, root, place, limit) {
        Err(e) => Err(e),
        Ok(text) => if conflicts(text).len() > 0 {
            Err(
                WorkspaceErrorView::MergeConflict {
                    path: joined(root, place),
                    markers: conflicts(text),
                },
            )
        } else {
            Ok(text)
        },
    }
}

/// The fingerprint of the file at a place.
pub open spec fn digest_at(nodes: Nodes, place: Seq<char>) -> u64 {
    match file_bytes(nodes, place) {
        Some(bytes) => file_digest(bytes),
        None => 0,
    }
}

/// What reading a document gives, where its text means a value or an error.
pub open spec fn loaded<T>(
    nodes: Nodes,
    root: Seq<char>,
    place: Seq<char>,
    limit: u64,
    meaning: spec_fn(Seq<char>) -> Result<T, WorkspaceErrorView>,
) -> Result<LoadedView<T>, WorkspaceErrorView> {
    match settled_text(nodes, root, place, limit) {
        Err(e) => Err(e),
        Ok(text) => match meaning(text) {
            Err(e) => Err(e),
            Ok(value) => Ok(
                LoadedView {
                    value,
                    path: joined(root, place),
                    fingerprint: digest_at(nodes, place),
                },
            ),
        },
    }
}

/// Whether a file may be written, given the fingerprint that it is expected to have: none
/// where it is expected not to be there.
pub open spec fn write_check(
    nodes: Nodes,
    root: Seq<char>,
    place: Seq<char>,
    expected: Option<u64>,
) -> Result<(), WorkspaceErrorView> {
    match expected {
        None => if is_there(nodes, place) {
            Err(WorkspaceErrorView::AlreadyExists(joined(root, place)))
        } else {
            Ok(())
        },
        Some(number) => match file_bytes(nodes, place) {
            Some(bytes) => if file_digest(bytes) == number {
                Ok(())
            } else {
                Err(WorkspaceErrorView::ExternalChange(joined(root, place)))
            },
            None => if is_there(nodes, place) {
                Err(unreadable(joined(root, place)))
            } else {
                Err(WorkspaceErrorView::ExternalChange(joined(root, place)))
            },
        },
    }
}

/// What writing a file does.
pub open spec fn write_actions(place: Seq<char>, bytes: Seq<u8>) -> Seq<ActionView> {
    seq![
        ActionView::MakeDirectories(parent_place(place)),
        ActionView::Write { path: place, bytes },
    ]
}

/// The number of an expected fingerprint.
pub open spec fn expected_number(expected: Option<FileFingerprint>) -> Option<u64> {
    match expected {
        Some(f) => Some(f.number()),
        None => None,
    }
}

/// The outcome of writing a file.
pub open spec fn written(
    files: FilesView,
    root: Seq<char>,
    place: Seq<char>,
    text: Seq<char>,
    expected: Option<u64>,
) -> (Result<u64, WorkspaceErrorView>, FilesView) {
    match write_check(files.nodes, root, place, expected) {
        Err(e) => (Err(e), files),
        Ok(_) => if blocked(files.nodes, parent_place(place)) {
            (Err(no_directory(joined(root, parent_place(place)))), files)
        } else {
            (
                Ok(file_digest(encode_utf8(text))),
                performed(files, write_actions(place, encode_utf8(text))),
            )
        },
    }
}

/// The outcome of an operation that gives a fingerprint.
pub open spec fn number_outcome(r: Result<FileFingerprint, WorkspaceError>) -> Result<
    u64,
    WorkspaceErrorView,
> {
    match r {
        Ok(f) => Ok(f.number()),
        Err(e) => Err(e@),
    }
}

impl WorkspaceRepository {
    /// The workspace at a path, which may not be empty.
    pub fn new(root: &str) -> (r: Result<WorkspaceRepository, WorkspaceError>)
        ensures
            match r {
                Ok(w) => root@.len() > 0 && w@ == root@,
                Err(e) => root@.len() == 0 && e@ == WorkspaceErrorView::InvalidPath(
                    "workspace path is empty"@,
                ),
            },
    {
        let chars = chars_of(root);
        if chars.len() == 0 {
            Err(WorkspaceError::InvalidPath("workspace path is empty".to_owned()))
        } else {
            Ok(WorkspaceRepository { root: ResourcePath::new(root) })
        }
    }

    /// The same workspace.
    pub fn copy(&self) -> (r: WorkspaceRepository)
        ensures
            r@ == self@,
    {
        WorkspaceRepository { root: self.root.copy() }
    }

    /// The path of the root.
    pub fn root(&self) -> (r: &ResourcePath)
        ensures
            r@ == self@,
    {
        &self.root
    }

    /// The path of a place of the workspace.
    pub fn path_of(&self, place: &str) -> (r: ResourcePath)
        ensures
            r@ == joined(self@, place@),
    {
        self.root.join(place)
    }

    /// The path of the manifest.
    pub fn manifest_path(&self) -> (r: ResourcePath)
        ensures
            r@ == joined(self@, "apex.toml"@),
    {
        self.root.join("apex.toml")
    }

    /// The path of the variables of the workspace.
    pub fn workspace_variables_path(&self) -> (r: ResourcePath)
        ensures
            r@ == joined(self@, "variables.toml"@),
    {
        self.root.join("variables.toml")
    }

    /// The path of a collection.
    pub fn collection_path(&self, slug: &str) -> (r: Result<ResourcePath, WorkspaceError>)
        ensures
            outcome(r) == path_result(self@, collection_place(slug@)),
    {
        match place_of_collection(slug) {
            Ok(place) => Ok(self.path_of(place.as_str())),
            Err(e) => Err(e),
        }
    }

    /// The path of a folder of a collection.
    pub fn folder_path(&self, collection_slug: &str, folders: &[String]) -> (r: Result<
        ResourcePath,
        WorkspaceError,
    >)
        ensures
            outcome(r) == path_result(self@, folder_place(collection_slug@, texts(folders@))),
    {
        match place_of_folder(collection_slug, folders) {
            Ok(place) => Ok(self.path_of(place.as_str())),
            Err(e) => Err(e),
        }
    }

    /// The path of a request of a collection.
    pub fn request_path(&self, collection_slug: &str, request_slug: &str) -> (r: Result<
        ResourcePath,
        WorkspaceError,
    >)
        ensures
            outcome(r) == path_result(self@, request_place(collection_slug@, request_slug@)),
    {
        let place = match place_of_collection(collection_slug) {
            Ok(place) => place,
            Err(e) => {
                return Err(e);
            },
        };
        match validate_slug(request_slug) {
            Ok(_) => {},
            Err(e) => {
                return Err(e);
            },
        }
        let name = concat2(request_slug, ".request.toml");
        Ok(self.path_of(path_in(place.as_str(), name.as_str()).as_str()))
    }

    /// Where a path stands in the workspace; one that leaves it is refused.
    pub fn place(&self, path: &ResourcePath) -> (r: Result<String, WorkspaceError>)
        ensures
            match r {
                Ok(place) => place_in(self@, path@) == Some(place@),
                Err(e) => place_in(self@, path@) is None && e@ == traversal(path@),
            },
    {
        let rest = match below_root(&self.root, path) {
            Some(rest) => rest,
            None => {
                return Err(WorkspaceError::PathTraversal(path.text.clone()));
            },
        };
        let ghost all = component_views(rest@);
        let mut place = String::new();
        let ghost mut names: Seq<Seq<char>> = seq![];
        assert(all.take(0) =~= seq![]);
        assert(place@ =~= seq![]);
        for i in 0..rest.len()
            invariant
                all == component_views(rest@),
                components_below(self@, path@) == Some(all),
                plain_names(all.take(i as int)) == Some(names),
                place@ == place_of_names(names),
        {
            proof {
                assert(all.take(i + 1).drop_last() =~= all.take(i as int));
                assert(all.take(i + 1).last() == rest@[i as int]@);
            }
            match &rest[i] {
                PathComponent::Normal(name) => {
                    place = path_in(place.as_str(), name.as_str());
                    proof {
                        let next = names.push(name@);
                        assert(next.drop_last() =~= names);
                        names = next;
                    }
                },
                _ => {
                    proof {
                        lemma_plain_names_fail(all, i + 1);
                    }
                    return Err(WorkspaceError::PathTraversal(path.text.clone()));
                },
            }
        }
        assert(all.take(all.len() as int) =~= all);
        Ok(place)
    }

    /// Reads the bytes at a place, within a limit.
    pub fn read_limited<'a>(&self, files: &'a FileTree, place: &str, limit: u64) -> (r: Result<
        &'a [u8],
        WorkspaceError,
    >)
        requires
            files.wf(),
        ensures
            match r {
                Ok(bytes) => limited_bytes(files@.nodes, self@, place@, limit) == Ok::<
                    Seq<u8>,
                    WorkspaceErrorView,
                >(bytes@) && file_bytes(files@.nodes, place@) == Some(bytes@),
                Err(e) => limited_bytes(files@.nodes, self@, place@, limit) == Err::<
                    Seq<u8>,
                    WorkspaceErrorView,
                >(e@),
            },
    {
        match files.file(place) {
            None => Err(
                WorkspaceError::Io(concat2("cannot read ", self.path_of(place).as_text())),
            ),
            Some(bytes) => {
                let length: u64 = bytes.len() as u64;
                if length > limit {
                    Err(
                        WorkspaceError::FileTooLarge {
                            path: self.path_of(place),
                            maximum_bytes: limit,
                            observed_bytes: length,
                        },
                    )
                } else {
                    Ok(bytes)
                }
            },
        }
    }

    /// Reads the text at a place, within a limit.
    pub fn read_text(&self, files: &FileTree, place: &str, limit: u64) -> (r: Result<
        String,
        WorkspaceError,
    >)
        requires
            files.wf(),
        ensures
            outcome(r) == limited_text(files@.nodes, self@, place@, limit),
    {
        let bytes = match self.read_limited(files, place, limit) {
            Ok(bytes) => bytes,
            Err(e) => {
                return Err(e);
            },
        };
        match utf8_text(bytes) {
            Some(text) => Ok(text),
            None => Err(WorkspaceError::InvalidUtf8(self.path_of(place))),
        }
    }

    /// Reads the text at a place, within a limit and without merge conflicts.
    pub fn read_settled(&self, files: &FileTree, place: &str, limit: u64) -> (r: Result<
        (String, ResourcePath, FileFingerprint),
        WorkspaceError,
    >)
        requires
            files.wf(),
        ensures
            match r {
                Ok(t) => settled_text(files@.nodes, self@, place@, limit) == Ok::<
                    Seq<char>,
                    WorkspaceErrorView,
                >(t.0@) && t.1@ == joined(self@, place@) && t.2.number() == digest_at(
                    files@.nodes,
                    place@,
                ),
                Err(e) => settled_text(files@.nodes, self@, place@, limit) == Err::<
                    Seq<char>,
                    WorkspaceErrorView,
                >(e@),
            },
    {
        let bytes = match self.read_limited(files, place, limit) {
            Ok(bytes) => bytes,
            Err(e) => {
                return Err(e);
            },
        };
        let path = self.path_of(place);
        let text = match utf8_text(bytes) {
            Some(text) => text,
            None => {
                return Err(WorkspaceError::InvalidUtf8(path));
            },
        };
        match detect_conflict_error(&path, text.as_str()) {
            Ok(_) => {},
            Err(e) => {
                return Err(e);
            },
        }
        let fingerprint = FileFingerprint::from_bytes(bytes);
        Ok((text, path, fingerprint))
    }

    /// The error about a directory that cannot be made.
    pub(crate) fn blocked_error(&self, directory: &str) -> (r: WorkspaceError)
        ensures
            r@ == no_directory(joined(self@, directory@)),
    {
        WorkspaceError::Io(
            concat2("cannot make the directory ", self.path_of(directory).as_text()),
        )
    }

    /// The error about something that cannot be moved.
    pub(crate) fn move_error(&self, place: &str) -> (r: WorkspaceError)
        ensures
            r@ == no_move(joined(self@, place@)),
    {
        WorkspaceError::Io(concat2("cannot move to ", self.path_of(place).as_text()))
    }

    /// Writes a text as a file, so long as the file is as expected.
    pub fn write_checked(
        &self,
        files: &mut FileTree,
        place: &str,
        text: &str,
        expected: Option<FileFingerprint>,
    ) -> (r: Result<FileFingerprint, WorkspaceError>)
        requires
            old(files).wf(),
        ensures
            final(files).wf(),
            (number_outcome(r), final(files)@) == written(
                old(files)@,
                self@,
                place@,
                text@,
                expected_number(expected),
            ),
    {
        match expected {
            Some(number) => match files.file(place) {
                Some(bytes) => {
                    let current = FileFingerprint::from_bytes(bytes);
                    proof {
                        FileFingerprint::lemma_same(current, number);
                    }
                    if current != number {
                        return Err(WorkspaceError::ExternalChange(self.path_of(place)));
                    }
                },
                None => {
                    if files.is_there(place) {
                        return Err(
                            WorkspaceError::Io(
                                concat2("cannot read ", self.path_of(place).as_text()),
                            ),
                        );
                    }
                    return Err(WorkspaceError::ExternalChange(self.path_of(place)));
                },
            },
            None => {
                if files.is_there(place) {
                    return Err(WorkspaceError::AlreadyExists(self.path_of(place)));
                }
            },
        }
        let parent = parent_of(place);
        if files.is_blocked(parent.as_str()) {
            return Err(self.blocked_error(parent.as_str()));
        }
        let ghost before = files@;
        let bytes = text.as_bytes();
        files.perform(FileAction::MakeDirectories(parent));
        files.perform(FileAction::Write { path: place.to_owned(), bytes: copy_bytes(bytes) });
        proof {
            let a = seq![ActionView::MakeDirectories(parent_place(place@))];
            let b = seq![ActionView::Write { path: place@, bytes: encode_utf8(text@) }];
            lemma_performed(before, a, b);
            assert(a + b =~= write_actions(place@, encode_utf8(text@)));
        }
        Ok(FileFingerprint::from_bytes(bytes))
    }
}

} // verus!
