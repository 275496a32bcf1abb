//! Making, renaming, moving, copying and deleting the collections and folders of a workspace.
use crate::collection::{
    collection_text, collection_value, document_name_check, folder_text, folder_value,
    format_collection, format_folder, new_named, validate_document_name, CollectionDocument,
    FolderDocument, NamedView, COLLECTION_FILE, FOLDER_FILE,
};
use crate::document::{require_supported_version, version_check};
use crate::domain::is_slug;
use crate::error::{invalid_format, outcome, WorkspaceError, WorkspaceErrorView};
use crate::files::{
    blocked, can_be_entered, can_move, cleared, entry_path, has_room, is_there, lemma_performed,
    parent_of, parent_place, path_in, performed, tree_order, under, ActionView, FileAction,
    FileNode, FileTree, FilesView, NodeView, Nodes,
};
use crate::fingerprint::{
    digest_outcome, directory_digest, directory_fingerprint, too_many_files, DirectoryFingerprint,
    FileFingerprint, MAX_MUTATION_FILES,
};
use crate::lines::{ends_with, has_suffix};
use crate::message::concat2;
use crate::naming::{
    generated_text, humanize_slug, humanized, name_of_place, next_source, place_name,
    temporary_place, temporary_sibling, IdSource,
};
use crate::paths::joined;
use crate::repository::{
    bad_slug, collection_place, expected_number, folder_place, loaded, no_directory, no_move,
    place_of_collection, place_of_folder, validate_slug, written, MAXIMUM_METADATA_BYTES,
    MAXIMUM_REQUEST_BYTES, WorkspaceRepository,
};
use crate::repository_documents::{ensure_scanned, leak_views, scan_check};
use crate::request::{format_request, request_text, RequestDocumentView};
use crate::request_reader::{parse_request, request_value};
use crate::text::{chars_of, same_text, texts};
use vstd::prelude::*;
use vstd::utf8::encode_utf8;

verus! {

/// The outcome of an operation on a directory: the fingerprint of what it leaves, and the
/// files.
pub type TreeOutcome = (Result<u64, WorkspaceErrorView>, FilesView);

/// The fingerprint of a directory, with the files as they are.
pub open spec fn with_digest(files: FilesView, root: Seq<char>, place: Seq<char>) -> TreeOutcome {
    (directory_digest(files.nodes, root, place), files)
}

/// What making a directory with metadata does: it is made beside its place and then moved.
pub open spec fn creation_actions(
    place: Seq<char>,
    name: Seq<char>,
    text: Seq<char>,
    nonce: u128,
) -> Seq<ActionView> {
    let temporary = temporary_place(place, "create"@, nonce);
    seq![
        ActionView::MakeDirectories(parent_place(place)),
        ActionView::MakeDirectories(temporary),
        ActionView::Write { path: entry_path(temporary, name), bytes: encode_utf8(text) },
        ActionView::Rename { from: temporary, to: place },
    ]
}

/// The outcome of making a directory with metadata.
pub open spec fn created(
    files: FilesView,
    root: Seq<char>,
    place: Seq<char>,
    name: Seq<char>,
    text: Seq<char>,
    nonce: u128,
) -> TreeOutcome {
    if is_there(files.nodes, place) {
        (Err(WorkspaceErrorView::AlreadyExists(joined(root, place))), files)
    } else if blocked(files.nodes, parent_place(place)) {
        (Err(no_directory(joined(root, parent_place(place)))), files)
    } else if files.nodes.dom().contains(place) {
        (Err(no_directory(joined(root, place))), files)
    } else {
        let temporary = temporary_place(place, "create"@, nonce);
        if files.nodes.dom().contains(temporary) {
            (
                Err(no_directory(joined(root, temporary))),
                cleared(
                    performed(files, seq![ActionView::MakeDirectories(parent_place(place))]),
                    temporary,
                ),
            )
        } else {
            with_digest(performed(files, creation_actions(place, name, text, nonce)), root, place)
        }
    }
}

/// The outcome of making a collection.
pub open spec fn collection_created(
    files: FilesView,
    root: Seq<char>,
    slug: Seq<char>,
    document: NamedView,
    nonce: u128,
) -> TreeOutcome {
    match document_name_check(document.name) {
        Err(e) => (Err(e), files),
        Ok(_) => match version_check(document.schema_version) {
            Err(e) => (Err(e), files),
            Ok(_) => match collection_place(slug) {
                Err(e) => (Err(e), files),
                Ok(place) => created(
                    files,
                    root,
                    place,
                    COLLECTION_FILE@,
                    collection_text(document),
                    nonce,
                ),
            },
        },
    }
}

/// The outcome of making a folder.
pub open spec fn folder_created(
    files: FilesView,
    root: Seq<char>,
    collection: Seq<char>,
    folders: Seq<Seq<char>>,
    document: NamedView,
    nonce: u128,
) -> TreeOutcome {
    if folders.len() == 0 {
        (
            Err(
                WorkspaceErrorView::InvalidPath(
                    "folder path must contain at least one segment"@,
                ),
            ),
            files,
        )
    } else {
        match document_name_check(document.name) {
            Err(e) => (Err(e), files),
            Ok(_) => match version_check(document.schema_version) {
                Err(e) => (Err(e), files),
                Ok(_) => match folder_place(collection, folders) {
                    Err(e) => (Err(e), files),
                    Ok(place) => if !can_be_entered(files.nodes, parent_place(place)) {
                        (
                            Err(
                                WorkspaceErrorView::InvalidPath(
                                    "folder parent does not exist: "@ + joined(
                                        root,
                                        parent_place(place),
                                    ),
                                ),
                            ),
                            files,
                        )
                    } else {
                        created(files, root, place, FOLDER_FILE@, folder_text(document), nonce)
                    },
                },
            },
        }
    }
}

/// Whether a directory is as it is expected to be.
pub open spec fn snapshot_check(
    nodes: Nodes,
    root: Seq<char>,
    place: Seq<char>,
    expected: u64,
) -> Result<(), WorkspaceErrorView> {
    match directory_digest(nodes, root, place) {
        Err(e) => Err(e),
        Ok(number) => if number == expected {
            Ok(())
        } else {
            Err(WorkspaceErrorView::ExternalChange(joined(root, place)))
        },
    }
}

/// The outcome of giving a directory another place.
pub open spec fn renamed(
    files: FilesView,
    root: Seq<char>,
    source: Seq<char>,
    target: Seq<char>,
    expected: u64,
) -> TreeOutcome {
    match snapshot_check(files.nodes, root, source, expected) {
        Err(e) => (Err(e), files),
        Ok(_) => if is_there(files.nodes, target) {
            (Err(WorkspaceErrorView::AlreadyExists(joined(root, target))), files)
        } else if !can_be_entered(files.nodes, parent_place(target)) {
            (
                Err(
                    WorkspaceErrorView::InvalidPath(
                        "target parent does not exist: "@ + joined(root, parent_place(target)),
                    ),
                ),
                files,
            )
        } else if !can_move(files.nodes, source, target) {
            (Err(no_move(joined(root, target))), files)
        } else {
            with_digest(
                performed(files, seq![ActionView::Rename { from: source, to: target }]),
                root,
                target,
            )
        },
    }
}

/// What deleting a directory does: it is moved aside and then removed.
pub open spec fn deletion_actions(place: Seq<char>, nonce: u128) -> Seq<ActionView> {
    let tombstone = temporary_place(place, "delete"@, nonce);
    seq![
        ActionView::Rename { from: place, to: tombstone },
        ActionView::RemoveTree(tombstone),
    ]
}

/// The outcome of deleting a directory.
pub open spec fn deleted(
    files: FilesView,
    root: Seq<char>,
    place: Seq<char>,
    expected: u64,
    nonce: u128,
) -> (Result<(), WorkspaceErrorView>, FilesView) {
    match snapshot_check(files.nodes, root, place, expected) {
        Err(e) => (Err(e), files),
        Ok(_) => {
            let tombstone = temporary_place(place, "delete"@, nonce);
            if can_move(files.nodes, place, tombstone) {
                (Ok(()), performed(files, deletion_actions(place, nonce)))
            } else {
                (Err(no_move(joined(root, tombstone))), files)
            }
        },
    }
}

/// The outcome of an operation that gives nothing back.
pub open spec fn plain_outcome(r: Result<(), WorkspaceError>) -> Result<(), WorkspaceErrorView> {
    match r {
        Ok(_) => Ok(()),
        Err(e) => Err(e@),
    }
}

impl WorkspaceRepository {
    fn create_metadata_directory(
        &self,
        files: &mut FileTree,
        place: &str,
        name: &str,
        text: &str,
        nonce: u128,
    ) -> (r: Result<DirectoryFingerprint, WorkspaceError>)
        requires
            old(files).wf(),
            place@.len() > 0,
        ensures
            final(files).wf(),
            (digest_outcome(r), final(files)@) == created(
                old(files)@,
                self@,
                place@,
                name@,
                text@,
                nonce,
            ),
    {
        if files.is_there(place) {
            return Err(WorkspaceError::AlreadyExists(self.path_of(place)));
        }
        let parent = parent_of(place);
        if files.is_blocked(parent.as_str()) {
            return Err(self.blocked_error(parent.as_str()));
        }
        if files.has(place) {
            return Err(self.blocked_error(place));
        }
        let ghost start = files@;
        let temporary = temporary_sibling(place, "create", nonce);
        let file = path_in(temporary.as_str(), name);
        let bytes = crate::files::copy_bytes(text.as_bytes());
        let taken = files.has(temporary.as_str());
        files.perform(FileAction::MakeDirectories(parent));
        if taken {
            files.clear(temporary.as_str());
            return Err(self.blocked_error(temporary.as_str()));
        }
        files.perform(FileAction::MakeDirectories(temporary.clone()));
        files.perform(FileAction::Write { path: file, bytes });
        files.perform(FileAction::Rename { from: temporary, to: place.to_owned() });
        proof {
            let all = creation_actions(place@, name@, text@, nonce);
            let a = seq![all[0]];
            let b = seq![all[1]];
            let c = seq![all[2]];
            let d = seq![all[3]];
            lemma_performed(start, a, b);
            lemma_performed(start, a + b, c);
            lemma_performed(start, a + b + c, d);
            assert(a + b + c + d =~= all);
        }
        directory_fingerprint(files, self.root(), place)
    }

    /// Makes a collection.
    pub fn create_collection(
        &self,
        files: &mut FileTree,
        slug: &str,
        document: &CollectionDocument,
        nonce: u128,
    ) -> (r: Result<DirectoryFingerprint, WorkspaceError>)
        requires
            old(files).wf(),
            document.wf(),
        ensures
            final(files).wf(),
            (digest_outcome(r), final(files)@) == collection_created(
                old(files)@,
                self@,
                slug@,
                document@,
                nonce,
            ),
    {
        match validate_document_name(document.name.as_str()) {
            Ok(_) => {},
            Err(e) => {
                return Err(e);
            },
        }
        match require_supported_version(document.schema_version) {
            Ok(_) => {},
            Err(e) => {
                return Err(e);
            },
        }
        let place = match place_of_collection(slug) {
            Ok(place) => place,
            Err(e) => {
                return Err(e);
            },
        };
        proof {
            crate::repository::lemma_folder_place(slug@, seq![]);
        }
        self.create_metadata_directory(
            files,
            place.as_str(),
            COLLECTION_FILE,
            format_collection(document).as_str(),
            nonce,
        )
    }

    /// Makes a folder, whose parent has to be there.
    pub fn create_folder(
        &self,
        files: &mut FileTree,
        collection_slug: &str,
        folders: &[String],
        document: &FolderDocument,
        nonce: u128,
    ) -> (r: Result<DirectoryFingerprint, WorkspaceError>)
        requires
            old(files).wf(),
            document.wf(),
        ensures
            final(files).wf(),
            (digest_outcome(r), final(files)@) == folder_created(
                old(files)@,
                self@,
                collection_slug@,
                texts(folders@),
                document@,
                nonce,
            ),
    {
        if folders.len() == 0 {
            return Err(
                WorkspaceError::InvalidPath(
                    "folder path must contain at least one segment".to_owned(),
                ),
            );
        }
        match validate_document_name(document.name.as_str()) {
            Ok(_) => {},
            Err(e) => {
                return Err(e);
            },
        }
        match require_supported_version(document.schema_version) {
            Ok(_) => {},
            Err(e) => {
                return Err(e);
            },
        }
        let place = match place_of_folder(collection_slug, folders) {
            Ok(place) => place,
            Err(e) => {
                return Err(e);
            },
        };
        let parent = parent_of(place.as_str());
        if !files.can_be_entered(parent.as_str()) {
            return Err(
                WorkspaceError::InvalidPath(
                    concat2(
                        "folder parent does not exist: ",
                        self.path_of(parent.as_str()).as_text(),
                    ),
                ),
            );
        }
        self.create_metadata_directory(
            files,
            place.as_str(),
            FOLDER_FILE,
            format_folder(document).as_str(),
            nonce,
        )
    }

    /// Takes the fingerprint of a collection.
    pub fn collection_fingerprint(&self, files: &FileTree, slug: &str) -> (r: Result<
        DirectoryFingerprint,
        WorkspaceError,
    >)
        requires
            files.wf(),
        ensures
            digest_outcome(r) == (match collection_place(slug@) {
                Ok(place) => directory_digest(files@.nodes, self@, place),
                Err(e) => Err(e),
            }),
    {
        proof {
            crate::repository::lemma_folder_place(slug@, seq![]);
        }
        match place_of_collection(slug) {
            Ok(place) => directory_fingerprint(files, self.root(), place.as_str()),
            Err(e) => Err(e),
        }
    }

    /// Takes the fingerprint of a folder.
    pub fn folder_fingerprint(
        &self,
        files: &FileTree,
        collection_slug: &str,
        folders: &[String],
    ) -> (r: Result<DirectoryFingerprint, WorkspaceError>)
        requires
            files.wf(),
        ensures
            digest_outcome(r) == (match folder_place(collection_slug@, texts(folders@)) {
                Ok(place) => directory_digest(files@.nodes, self@, place),
                Err(e) => Err(e),
            }),
    {
        match place_of_folder(collection_slug, folders) {
            Ok(place) => directory_fingerprint(files, self.root(), place.as_str()),
            Err(e) => Err(e),
        }
    }

    fn ensure_directory_snapshot(
        &self,
        files: &FileTree,
        place: &str,
        expected: DirectoryFingerprint,
    ) -> (r: Result<(), WorkspaceError>)
        requires
            files.wf(),
            place@.len() > 0,
        ensures
            plain_outcome(r) == snapshot_check(files@.nodes, self@, place@, expected.number()),
    {
        match directory_fingerprint(files, self.root(), place) {
            Err(e) => Err(e),
            Ok(current) => {
                proof {
                    DirectoryFingerprint::lemma_same(current, expected);
                }
                if current == expected {
                    Ok(())
                } else {
                    Err(WorkspaceError::ExternalChange(self.path_of(place)))
                }
            },
        }
    }

    fn rename_directory_checked(
        &self,
        files: &mut FileTree,
        source: &str,
        target: &str,
        expected: DirectoryFingerprint,
    ) -> (r: Result<DirectoryFingerprint, WorkspaceError>)
        requires
            old(files).wf(),
            source@.len() > 0,
            target@.len() > 0,
        ensures
            final(files).wf(),
            (digest_outcome(r), final(files)@) == renamed(
                old(files)@,
                self@,
                source@,
                target@,
                expected.number(),
            ),
    {
        match self.ensure_directory_snapshot(files, source, expected) {
            Ok(_) => {},
            Err(e) => {
                return Err(e);
            },
        }
        if files.is_there(target) {
            return Err(WorkspaceError::AlreadyExists(self.path_of(target)));
        }
        let parent = parent_of(target);
        if !files.can_be_entered(parent.as_str()) {
            return Err(
                WorkspaceError::InvalidPath(
                    concat2(
                        "target parent does not exist: ",
                        self.path_of(parent.as_str()).as_text(),
                    ),
                ),
            );
        }
        if !files.can_move(source, target) {
            return Err(self.move_error(target));
        }
        files.perform(FileAction::Rename { from: source.to_owned(), to: target.to_owned() });
        directory_fingerprint(files, self.root(), target)
    }

    fn delete_directory_checked(
        &self,
        files: &mut FileTree,
        place: &str,
        expected: DirectoryFingerprint,
        nonce: u128,
    ) -> (r: Result<(), WorkspaceError>)
        requires
            old(files).wf(),
            place@.len() > 0,
        ensures
            final(files).wf(),
            (plain_outcome(r), final(files)@) == deleted(
                old(files)@,
                self@,
                place@,
                expected.number(),
                nonce,
            ),
    {
        match self.ensure_directory_snapshot(files, place, expected) {
            Ok(_) => {},
            Err(e) => {
                return Err(e);
            },
        }
        let ghost start = files@;
        let tombstone = temporary_sibling(place, "delete", nonce);
        if !files.can_move(place, tombstone.as_str()) {
            return Err(self.move_error(tombstone.as_str()));
        }
        files.perform(FileAction::Rename { from: place.to_owned(), to: tombstone.clone() });
        files.perform(FileAction::RemoveTree(tombstone));
        proof {
            let all = deletion_actions(place@, nonce);
            let a = seq![all[0]];
            let b = seq![all[1]];
            lemma_performed(start, a, b);
            assert(a + b =~= all);
        }
        Ok(())
    }

    /// Renames a collection, so long as it is as expected.
    pub fn rename_collection(
        &self,
        files: &mut FileTree,
        source_slug: &str,
        target_slug: &str,
        expected: DirectoryFingerprint,
    ) -> (r: Result<DirectoryFingerprint, WorkspaceError>)
        requires
            old(files).wf(),
        ensures
            final(files).wf(),
            (digest_outcome(r), final(files)@) == (match (
                collection_place(source_slug@),
                collection_place(target_slug@),
            ) {
                (Err(e), _) => (Err(e), old(files)@),
                (_, Err(e)) => (Err(e), old(files)@),
                (Ok(source), Ok(target)) => renamed(
                    old(files)@,
                    self@,
                    source,
                    target,
                    expected.number(),
                ),
            }),
    {
        proof {
            crate::repository::lemma_folder_place(source_slug@, seq![]);
            crate::repository::lemma_folder_place(target_slug@, seq![]);
        }
        let source = match place_of_collection(source_slug) {
            Ok(place) => place,
            Err(e) => {
                return Err(e);
            },
        };
        let target = match place_of_collection(target_slug) {
            Ok(place) => place,
            Err(e) => {
                return Err(e);
            },
        };
        self.rename_directory_checked(files, source.as_str(), target.as_str(), expected)
    }

    /// Deletes a collection with all it holds, so long as it is as expected.
    pub fn delete_collection(
        &self,
        files: &mut FileTree,
        slug: &str,
        expected: DirectoryFingerprint,
        nonce: u128,
    ) -> (r: Result<(), WorkspaceError>)
        requires
            old(files).wf(),
        ensures
            final(files).wf(),
            (plain_outcome(r), final(files)@) == (match collection_place(slug@) {
                Err(e) => (Err(e), old(files)@),
                Ok(place) => deleted(old(files)@, self@, place, expected.number(), nonce),
            }),
    {
        proof {
            crate::repository::lemma_folder_place(slug@, seq![]);
        }
        match place_of_collection(slug) {
            Ok(place) => self.delete_directory_checked(files, place.as_str(), expected, nonce),
            Err(e) => Err(e),
        }
    }

    /// Renames a folder, so long as it is as expected.
    pub fn rename_folder(
        &self,
        files: &mut FileTree,
        collection_slug: &str,
        folders: &[String],
        target_slug: &str,
        expected: DirectoryFingerprint,
    ) -> (r: Result<DirectoryFingerprint, WorkspaceError>)
        requires
            old(files).wf(),
        ensures
            final(files).wf(),
            (digest_outcome(r), final(files)@) == (if !is_slug(target_slug@) {
                (Err(bad_slug(target_slug@)), old(files)@)
            } else {
                match folder_place(collection_slug@, texts(folders@)) {
                    Err(e) => (Err(e), old(files)@),
                    Ok(source) => renamed(
                        old(files)@,
                        self@,
                        source,
                        entry_path(parent_place(source), target_slug@),
                        expected.number(),
                    ),
                }
            }),
    {
        match validate_slug(target_slug) {
            Ok(_) => {},
            Err(e) => {
                return Err(e);
            },
        }
        let source = match place_of_folder(collection_slug, folders) {
            Ok(place) => place,
            Err(e) => {
                return Err(e);
            },
        };
        let target = path_in(parent_of(source.as_str()).as_str(), target_slug);
        self.rename_directory_checked(files, source.as_str(), target.as_str(), expected)
    }

    /// Deletes a folder with all it holds, so long as it is as expected.
    pub fn delete_folder(
        &self,
        files: &mut FileTree,
        collection_slug: &str,
        folders: &[String],
        expected: DirectoryFingerprint,
        nonce: u128,
    ) -> (r: Result<(), WorkspaceError>)
        requires
            old(files).wf(),
        ensures
            final(files).wf(),
            (plain_outcome(r), final(files)@) == (match folder_place(
                collection_slug@,
                texts(folders@),
            ) {
                Err(e) => (Err(e), old(files)@),
                Ok(place) => deleted(old(files)@, self@, place, expected.number(), nonce),
            }),
    {
        match place_of_folder(collection_slug, folders) {
            Ok(place) => self.delete_directory_checked(files, place.as_str(), expected, nonce),
            Err(e) => Err(e),
        }
    }
}

/// Where a folder goes from and to, when it is given another parent.
pub open spec fn relocation(
    nodes: Nodes,
    root: Seq<char>,
    collection: Seq<char>,
    folders: Seq<Seq<char>>,
    parents: Seq<Seq<char>>,
    slug: Seq<char>,
    refusal: Seq<char>,
) -> Result<(Seq<char>, Seq<char>), WorkspaceErrorView> {
    if !is_slug(slug) {
        Err(bad_slug(slug))
    } else {
        match folder_place(collection, folders) {
            Err(e) => Err(e),
            Ok(source) => match folder_place(collection, parents) {
                Err(e) => Err(e),
                Ok(parent) => if !can_be_entered(nodes, parent) {
                    Err(
                        WorkspaceErrorView::InvalidPath(
                            "target folder does not exist: "@ + joined(root, parent),
                        ),
                    )
                } else if under(source, parent) {
                    Err(WorkspaceErrorView::InvalidPath(refusal))
                } else {
                    Ok((source, entry_path(parent, slug)))
                },
            },
        }
    }
}

/// Metadata with another identifier.
pub open spec fn rekeyed_metadata(document: NamedView, source: IdSource, prefix: Seq<char>) -> NamedView {
    NamedView { id: generated_text(prefix, source), ..document }
}

/// The metadata of a copied collection: it gets an identifier of its own, and the name of
/// its slug.
pub open spec fn copied_collection(document: NamedView, source: IdSource, slug: Option<Seq<char>>) -> NamedView {
    let rekeyed = rekeyed_metadata(document, source, "collection"@);
    match slug {
        Some(s) => NamedView { name: humanized(s), ..rekeyed },
        None => rekeyed,
    }
}

/// The files, and where identifiers come from, as far as a copy was given identifiers.
#[verifier::ext_equal]
pub struct Rekeying {
    pub files: FilesView,
    pub source: IdSource,
    pub requests: nat,
}

/// The collection of a copy gets an identifier of its own.
pub open spec fn rekeyed_collection(
    state: Rekeying,
    root: Seq<char>,
    place: Seq<char>,
    slug: Option<Seq<char>>,
) -> (Result<(), WorkspaceErrorView>, Rekeying) {
    let file = entry_path(place, COLLECTION_FILE@);
    let next = Rekeying { source: next_source(state.source), ..state };
    if is_there(state.files.nodes, file) {
        match loaded(
            state.files.nodes,
            root,
            file,
            MAXIMUM_METADATA_BYTES,
            |text: Seq<char>| collection_value(text),
        ) {
            Err(e) => (Err(e), state),
            Ok(d) => rewritten(
                next,
                root,
                file,
                collection_text(copied_collection(d.value, state.source, slug)),
                Some(d.fingerprint),
            ),
        }
    } else {
        match slug {
            None => (Ok(()), state),
            Some(s) => rewritten(
                next,
                root,
                file,
                collection_text(
                    new_named(generated_text("collection"@, state.source), humanized(s)),
                ),
                None,
            ),
        }
    }
}

/// A file of a copy is written.
pub open spec fn rewritten(
    state: Rekeying,
    root: Seq<char>,
    place: Seq<char>,
    text: Seq<char>,
    expected: Option<u64>,
) -> (Result<(), WorkspaceErrorView>, Rekeying) {
    let (r, files) = written(state.files, root, place, text, expected);
    (
        match r {
            Ok(_) => Ok(()),
            Err(e) => Err(e),
        },
        Rekeying { files, ..state },
    )
}

/// A request with another identifier.
pub open spec fn rekeyed_request(document: RequestDocumentView, source: IdSource) -> RequestDocumentView {
    RequestDocumentView {
        request: crate::domain::RequestView {
            id: generated_text("request"@, source),
            ..document.request
        },
        ..document
    }
}

/// A folder or a request of a copy gets an identifier of its own.
pub open spec fn rekeyed_file(
    state: Rekeying,
    root: Seq<char>,
    place: Seq<char>,
    leaks: Seq<Seq<Seq<char>>>,
) -> (Result<(), WorkspaceErrorView>, Rekeying) {
    let name = place_name(place);
    let next = Rekeying { source: next_source(state.source), ..state };
    if name == FOLDER_FILE@ {
        match loaded(
            state.files.nodes,
            root,
            place,
            MAXIMUM_METADATA_BYTES,
            |text: Seq<char>| folder_value(text),
        ) {
            Err(e) => (Err(e), state),
            Ok(d) => rewritten(
                next,
                root,
                place,
                folder_text(rekeyed_metadata(d.value, state.source, "folder"@)),
                Some(d.fingerprint),
            ),
        }
    } else if ends_with(name, ".request.toml"@) {
        match loaded(
            state.files.nodes,
            root,
            place,
            MAXIMUM_REQUEST_BYTES,
            |text: Seq<char>| request_value(text),
        ) {
            Err(e) => (Err(e), state),
            Ok(d) => match scan_check(leaks, state.requests) {
                Err(e) => (Err(e), next),
                Ok(_) => rewritten(
                    Rekeying { requests: state.requests + 1, ..next },
                    root,
                    place,
                    request_text(rekeyed_request(d.value, state.source)),
                    Some(d.fingerprint),
                ),
            },
        }
    } else {
        (Ok(()), state)
    }
}

/// Folders and requests of a copy get identifiers of their own.
pub open spec fn rekeyed_files(
    state: Rekeying,
    root: Seq<char>,
    list: Seq<Seq<char>>,
    leaks: Seq<Seq<Seq<char>>>,
) -> (Result<(), WorkspaceErrorView>, Rekeying)
    decreases list.len(),
{
    if list.len() == 0 {
        (Ok(()), state)
    } else {
        let (r, before) = rekeyed_files(state, root, list.drop_last(), leaks);
        match r {
            Err(e) => (Err(e), before),
            Ok(_) => rekeyed_file(before, root, list.last(), leaks),
        }
    }
}

/// The files below a directory, in the order of the directory; a link among them is refused,
/// and so are too many files.
pub open spec fn tree_files(nodes: Nodes, root: Seq<char>, list: Seq<Seq<char>>) -> Result<
    Seq<Seq<char>>,
    WorkspaceErrorView,
>
    decreases list.len(),
{
    if list.len() == 0 {
        Ok(seq![])
    } else {
        match tree_files(nodes, root, list.drop_last()) {
            Err(e) => Err(e),
            Ok(front) => match nodes[list.last()] {
                NodeView::Link(_) => Err(
                    WorkspaceErrorView::SymbolicLink(joined(root, list.last())),
                ),
                NodeView::Directory => Ok(front),
                NodeView::File(_) => if front.len() + 1 > MAX_MUTATION_FILES {
                    Err(too_many_files())
                } else {
                    Ok(front.push(list.last()))
                },
            },
        }
    }
}

/// Everything in a copy gets an identifier of its own.
pub open spec fn rekeyed(
    state: Rekeying,
    root: Seq<char>,
    place: Seq<char>,
    slug: Option<Seq<char>>,
    leaks: Seq<Seq<Seq<char>>>,
) -> (Result<(), WorkspaceErrorView>, Rekeying) {
    let (r, first) = rekeyed_collection(state, root, place, slug);
    match r {
        Err(e) => (Err(e), first),
        Ok(_) => match tree_files(
            first.files.nodes,
            root,
            tree_order(first.files.nodes, place),
        ) {
            Err(e) => (Err(e), first),
            Ok(list) => rekeyed_files(first, root, list, leaks),
        },
    }
}

/// The outcome of copying a directory: the copy is made beside its place, gets identifiers
/// of its own, and only then takes its place; where that fails, it is removed.
pub open spec fn duplicated(
    files: FilesView,
    root: Seq<char>,
    source: Seq<char>,
    target: Seq<char>,
    expected: u64,
    slug: Option<Seq<char>>,
    ids: IdSource,
    leaks: Seq<Seq<Seq<char>>>,
    nonce: u128,
) -> TreeOutcome {
    match snapshot_check(files.nodes, root, source, expected) {
        Err(e) => (Err(e), files),
        Ok(_) => if is_there(files.nodes, target) {
            (Err(WorkspaceErrorView::AlreadyExists(joined(root, target))), files)
        } else {
            let temporary = temporary_place(target, "copy"@, nonce);
            let remove = seq![ActionView::RemoveTree(temporary)];
            if files.nodes.dom().contains(temporary) || !has_room(files.nodes, temporary) {
                (Err(no_directory(joined(root, temporary))), cleared(files, temporary))
            } else {
                let copied = performed(
                    files,
                    seq![ActionView::CopyTree { from: source, to: temporary }],
                );
                match snapshot_check(copied.nodes, root, source, expected) {
                    Err(e) => (Err(e), performed(copied, remove)),
                    Ok(_) => {
                        let (r, state) = rekeyed(
                            Rekeying { files: copied, source: ids, requests: 0 },
                            root,
                            temporary,
                            slug,
                            leaks,
                        );
                        match r {
                            Err(e) => (Err(e), performed(state.files, remove)),
                            Ok(_) => if !can_move(state.files.nodes, temporary, target) {
                                (
                                    Err(no_move(joined(root, target))),
                                    performed(state.files, remove),
                                )
                            } else {
                                with_digest(
                                    performed(
                                        state.files,
                                        seq![ActionView::Rename { from: temporary, to: target }],
                                    ),
                                    root,
                                    target,
                                )
                            },
                        }
                    },
                }
            }
        },
    }
}

/// So many texts in which nothing was found.
pub open spec fn clean_scans(n: nat) -> Seq<Seq<Seq<char>>> {
    Seq::new(n, |i: int| seq![])
}

/// The text of the request that a file of a copy becomes; none where it is no request that can
/// be read.
pub open spec fn copied_request(state: Rekeying, root: Seq<char>, place: Seq<char>) -> Option<
    Seq<char>,
> {
    if place_name(place) != FOLDER_FILE@ && ends_with(place_name(place), ".request.toml"@) {
        match loaded(
            state.files.nodes,
            root,
            place,
            MAXIMUM_REQUEST_BYTES,
            |text: Seq<char>| request_value(text),
        ) {
            Ok(d) => Some(request_text(rekeyed_request(d.value, state.source))),
            Err(_) => None,
        }
    } else {
        None
    }
}

/// A list with one thing more, where there is one.
pub open spec fn with_text(list: Seq<Seq<char>>, text: Option<Seq<char>>) -> Seq<Seq<char>> {
    match text {
        Some(t) => list.push(t),
        None => list,
    }
}

/// The texts of the requests among files of a copy, in turn, up to the first file that cannot
/// be given an identifier.
pub open spec fn copied_requests(state: Rekeying, root: Seq<char>, list: Seq<Seq<char>>) -> Seq<
    Seq<char>,
>
    decreases list.len(),
{
    if list.len() == 0 {
        seq![]
    } else {
        let front = list.drop_last();
        let (r, before) = rekeyed_files(state, root, front, clean_scans(list.len()));
        let found = copied_requests(state, root, front);
        if r is Ok {
            with_text(found, copied_request(before, root, list.last()))
        } else {
            found
        }
    }
}

/// The texts of the requests that a copy of a directory writes, in turn.
pub open spec fn copy_requests(
    files: FilesView,
    root: Seq<char>,
    source: Seq<char>,
    target: Seq<char>,
    slug: Option<Seq<char>>,
    ids: IdSource,
    nonce: u128,
) -> Seq<Seq<char>> {
    let temporary = temporary_place(target, "copy"@, nonce);
    let copied = performed(files, seq![ActionView::CopyTree { from: source, to: temporary }]);
    let (r, first) = rekeyed_collection(
        Rekeying { files: copied, source: ids, requests: 0 },
        root,
        temporary,
        slug,
    );
    if r is Ok {
        match tree_files(first.files.nodes, root, tree_order(first.files.nodes, temporary)) {
            Ok(list) => copied_requests(first, root, list),
            Err(_) => seq![],
        }
    } else {
        seq![]
    }
}

proof fn lemma_copied_step(
    first: Rekeying,
    root: Seq<char>,
    all: Seq<Seq<char>>,
    i: int,
    now: Rekeying,
)
    requires
        0 <= i < all.len(),
        first.requests == 0,
        rekeyed_files(first, root, all.take(i), clean_scans(all.len())) == (
            Ok::<(), WorkspaceErrorView>(()),
            now,
        ),
    ensures
        copied_requests(first, root, all.take(i + 1)) == with_text(
            copied_requests(first, root, all.take(i)),
            copied_request(Rekeying { requests: 0, ..now }, root, all[i]),
        ),
        rekeyed_files(first, root, all.take(i + 1), clean_scans(all.len())) == rekeyed_file(
            now,
            root,
            all[i],
            clean_scans(all.len()),
        ),
{
    assert(all.take(i + 1).drop_last() =~= all.take(i));
    assert(all.take(i + 1).last() == all[i]);
    lemma_clean_scans(first, root, all.take(i), (i + 1) as nat, all.len());
}

proof fn lemma_copied_requests_stop(
    state: Rekeying,
    root: Seq<char>,
    list: Seq<Seq<char>>,
    k: int,
)
    requires
        0 <= k <= list.len(),
        state.requests == 0,
        rekeyed_files(state, root, list.take(k), clean_scans(list.len())).0 is Err,
    ensures
        copied_requests(state, root, list) == copied_requests(state, root, list.take(k)),
    decreases list.len() - k,
{
    if k < list.len() {
        assert(list.take(k + 1).drop_last() =~= list.take(k));
        lemma_clean_scans(state, root, list.take(k), (k + 1) as nat, list.len());
        lemma_copied_requests_stop(state, root, list, k + 1);
    } else {
        assert(list.take(k) =~= list);
    }
}

/// As long as nothing is found in any text, it makes no difference how many texts there are
/// beyond those that are written.
pub proof fn lemma_clean_scans(
    state: Rekeying,
    root: Seq<char>,
    list: Seq<Seq<char>>,
    a: nat,
    b: nat,
)
    requires
        state.requests == 0,
        list.len() <= a,
        list.len() <= b,
    ensures
        rekeyed_files(state, root, list, clean_scans(a)) == rekeyed_files(
            state,
            root,
            list,
            clean_scans(b),
        ),
        rekeyed_files(state, root, list, clean_scans(a)).1.requests <= list.len(),
    decreases list.len(),
{
    if list.len() > 0 {
        lemma_clean_scans(state, root, list.drop_last(), a, b);
    }
}

proof fn lemma_rekeyed_error(
    state: Rekeying,
    root: Seq<char>,
    list: Seq<Seq<char>>,
    leaks: Seq<Seq<Seq<char>>>,
    k: int,
)
    requires
        0 <= k <= list.len(),
        rekeyed_files(state, root, list.take(k), leaks).0 is Err,
    ensures
        rekeyed_files(state, root, list, leaks) == rekeyed_files(state, root, list.take(k), leaks),
    decreases list.len() - k,
{
    if k < list.len() {
        assert(list.take(k + 1).drop_last() =~= list.take(k));
        lemma_rekeyed_error(state, root, list, leaks, k + 1);
    } else {
        assert(list.take(k) =~= list);
    }
}

proof fn lemma_tree_files_error(nodes: Nodes, root: Seq<char>, list: Seq<Seq<char>>, k: int)
    requires
        0 <= k <= list.len(),
        tree_files(nodes, root, list.take(k)) is Err,
    ensures
        tree_files(nodes, root, list) == tree_files(nodes, root, list.take(k)),
    decreases list.len() - k,
{
    if k < list.len() {
        assert(list.take(k + 1).drop_last() =~= list.take(k));
        lemma_tree_files_error(nodes, root, list, k + 1);
    } else {
        assert(list.take(k) =~= list);
    }
}

impl WorkspaceRepository {
    fn relocate(
        &self,
        files: &FileTree,
        collection_slug: &str,
        source_folders: &[String],
        target_parent_folders: &[String],
        target_slug: &str,
        refusal: &str,
    ) -> (r: Result<(String, String), WorkspaceError>)
        requires
            files.wf(),
        ensures
            match r {
                Ok(t) => relocation(
                    files@.nodes,
                    self@,
                    collection_slug@,
                    texts(source_folders@),
                    texts(target_parent_folders@),
                    target_slug@,
                    refusal@,
                ) == Ok::<(Seq<char>, Seq<char>), WorkspaceErrorView>((t.0@, t.1@)) && t.0@.len()
                    > 0 && t.1@.len() > 0,
                Err(e) => relocation(
                    files@.nodes,
                    self@,
                    collection_slug@,
                    texts(source_folders@),
                    texts(target_parent_folders@),
                    target_slug@,
                    refusal@,
                ) == Err::<(Seq<char>, Seq<char>), WorkspaceErrorView>(e@),
            },
    {
        match validate_slug(target_slug) {
            Ok(_) => {},
            Err(e) => {
                return Err(e);
            },
        }
        let source = match place_of_folder(collection_slug, source_folders) {
            Ok(place) => place,
            Err(e) => {
                return Err(e);
            },
        };
        let parent = match place_of_folder(collection_slug, target_parent_folders) {
            Ok(place) => place,
            Err(e) => {
                return Err(e);
            },
        };
        if !files.can_be_entered(parent.as_str()) {
            return Err(
                WorkspaceError::InvalidPath(
                    concat2(
                        "target folder does not exist: ",
                        self.path_of(parent.as_str()).as_text(),
                    ),
                ),
            );
        }
        let from = chars_of(source.as_str());
        let into = chars_of(parent.as_str());
        if crate::files::lies_under(from.as_slice(), into.as_slice()) {
            return Err(WorkspaceError::InvalidPath(refusal.to_owned()));
        }
        let target = path_in(parent.as_str(), target_slug);
        Ok((source, target))
    }

    /// Moves a folder into another, so long as it is as expected.
    pub fn move_folder(
        &self,
        files: &mut FileTree,
        collection_slug: &str,
        source_folders: &[String],
        target_parent_folders: &[String],
        target_slug: &str,
        expected: DirectoryFingerprint,
    ) -> (r: Result<DirectoryFingerprint, WorkspaceError>)
        requires
            old(files).wf(),
        ensures
            final(files).wf(),
            (digest_outcome(r), final(files)@) == (match relocation(
                old(files)@.nodes,
                self@,
                collection_slug@,
                texts(source_folders@),
                texts(target_parent_folders@),
                target_slug@,
                "cannot move a folder into itself"@,
            ) {
                Err(e) => (Err(e), old(files)@),
                Ok((source, target)) => renamed(
                    old(files)@,
                    self@,
                    source,
                    target,
                    expected.number(),
                ),
            }),
    {
        match self.relocate(
            files,
            collection_slug,
            source_folders,
            target_parent_folders,
            target_slug,
            "cannot move a folder into itself",
        ) {
            Err(e) => Err(e),
            Ok((source, target)) => self.rename_directory_checked(
                files,
                source.as_str(),
                target.as_str(),
                expected,
            ),
        }
    }

    fn rewrite(
        &self,
        files: &mut FileTree,
        place: &str,
        text: &str,
        expected: Option<FileFingerprint>,
        Ghost(state): Ghost<Rekeying>,
    ) -> (r: Result<(), WorkspaceError>)
        requires
            old(files).wf(),
            state.files == old(files)@,
        ensures
            final(files).wf(),
            rewritten(state, self@, place@, text@, expected_number(expected)) == (
                plain_outcome(r),
                Rekeying { files: final(files)@, ..state },
            ),
    {
        match self.write_checked(files, place, text, expected) {
            Ok(_) => Ok(()),
            Err(e) => Err(e),
        }
    }

    fn rekey_collection(
        &self,
        files: &mut FileTree,
        place: &str,
        slug: Option<&str>,
        ids: &mut IdSource,
        Ghost(requests): Ghost<nat>,
    ) -> (r: Result<(), WorkspaceError>)
        requires
            old(files).wf(),
            slug matches Some(s) ==> is_slug(s@),
        ensures
            final(files).wf(),
            rekeyed_collection(
                Rekeying { files: old(files)@, source: *old(ids), requests },
                self@,
                place@,
                crate::repository_documents::optional_slug(slug),
            ) == (
                plain_outcome(r),
                Rekeying { files: final(files)@, source: *final(ids), requests },
            ),
    {
        let ghost state = Rekeying { files: files@, source: *ids, requests };
        let ghost next = Rekeying { source: next_source(*ids), ..state };
        let file = path_in(place, COLLECTION_FILE);
        proof {
            lemma_prefixes();
        }
        if files.is_there(file.as_str()) {
            let loaded = match self.load_collection_at(files, file.as_str()) {
                Ok(d) => d,
                Err(e) => {
                    return Err(e);
                },
            };
            let mut document = loaded.value;
            let ghost before = document@;
            document.id = ids.generated_id("collection");
            if let Some(s) = slug {
                document.name = humanize_slug(s);
            }
            assert(document@ =~= copied_collection(
                before,
                state.source,
                crate::repository_documents::optional_slug(slug),
            ));
            return self.rewrite(
                files,
                file.as_str(),
                format_collection(&document).as_str(),
                Some(loaded.fingerprint),
                Ghost(next),
            );
        }
        match slug {
            None => Ok(()),
            Some(s) => {
                let id = ids.generated_id("collection");
                let document = CollectionDocument::new(id, humanize_slug(s));
                self.rewrite(
                    files,
                    file.as_str(),
                    format_collection(&document).as_str(),
                    None,
                    Ghost(next),
                )
            },
        }
    }

    fn rekey_file(
        &self,
        files: &mut FileTree,
        place: &str,
        ids: &mut IdSource,
        requests: &mut usize,
        leaks: &[Vec<String>],
    ) -> (r: Result<(), WorkspaceError>)
        requires
            old(files).wf(),
            *old(requests) < MAX_MUTATION_FILES,
        ensures
            final(files).wf(),
            *final(requests) <= *old(requests) + 1,
            rekeyed_file(
                Rekeying {
                    files: old(files)@,
                    source: *old(ids),
                    requests: *old(requests) as nat,
                },
                self@,
                place@,
                leak_views(leaks@),
            ) == (
                plain_outcome(r),
                Rekeying {
                    files: final(files)@,
                    source: *final(ids),
                    requests: *final(requests) as nat,
                },
            ),
    {
        let ghost state = Rekeying {
            files: files@,
            source: *ids,
            requests: *requests as nat,
        };
        let ghost next = Rekeying { source: next_source(*ids), ..state };
        proof {
            lemma_prefixes();
        }
        let name = name_of_place(place);
        if same_text(name.as_str(), FOLDER_FILE) {
            let loaded = match self.load_folder_at(files, place) {
                Ok(d) => d,
                Err(e) => {
                    return Err(e);
                },
            };
            let mut document = loaded.value;
            let ghost before = document@;
            document.id = ids.generated_id("folder");
            assert(document@ =~= rekeyed_metadata(before, state.source, "folder"@));
            return self.rewrite(
                files,
                place,
                format_folder(&document).as_str(),
                Some(loaded.fingerprint),
                Ghost(next),
            );
        }
        let chars = chars_of(name.as_str());
        let ending = chars_of(".request.toml");
        if has_suffix(chars.as_slice(), ending.as_slice()) {
            let (text, _, fingerprint) = match self.read_settled(
                files,
                place,
                MAXIMUM_REQUEST_BYTES,
            ) {
                Ok(t) => t,
                Err(e) => {
                    return Err(e);
                },
            };
            let mut document = match parse_request(text.as_str()) {
                Ok(d) => d,
                Err(e) => {
                    return Err(e);
                },
            };
            let ghost before = document@;
            document.request.id = ids.generated_id("request");
            assert(document@ =~= rekeyed_request(before, state.source));
            match ensure_scanned(leaks, *requests) {
                Ok(_) => {},
                Err(e) => {
                    return Err(e);
                },
            }
            *requests = *requests + 1;
            return self.rewrite(
                files,
                place,
                format_request(&document).as_str(),
                Some(fingerprint),
                Ghost(Rekeying { requests: state.requests + 1, ..next }),
            );
        }
        Ok(())
    }

    fn walk_tree_files(&self, files: &FileTree, place: &str) -> (r: Result<
        Vec<String>,
        WorkspaceError,
    >)
        requires
            files.wf(),
            place@.len() > 0,
        ensures
            match r {
                Ok(list) => list@.len() <= MAX_MUTATION_FILES && tree_files(
                    files@.nodes,
                    self@,
                    tree_order(files@.nodes, place@),
                ) == Ok::<Seq<Seq<char>>, WorkspaceErrorView>(texts(list@)),
                Err(e) => tree_files(files@.nodes, self@, tree_order(files@.nodes, place@)) == Err::<
                    Seq<Seq<char>>,
                    WorkspaceErrorView,
                >(e@),
            },
    {
        let all = files.tree_below(place);
        let ghost nodes = files@.nodes;
        let ghost order = texts(all@);
        let mut list: Vec<String> = Vec::new();
        proof {
            files.lemma_nodes_finite();
            crate::fingerprint::lemma_tree_order_is_there(nodes, place@);
            assert(order.take(0) =~= seq![]);
            assert(texts(list@) =~= seq![]);
        }
        for i in 0..all.len()
            invariant
                files.wf(),
                nodes == files@.nodes,
                order == texts(all@),
                order == tree_order(nodes, place@),
                forall|k: int| 0 <= k < order.len() ==> nodes.dom().contains(#[trigger] order[k]),
                list@.len() <= MAX_MUTATION_FILES,
                tree_files(nodes, self@, order.take(i as int)) == Ok::<
                    Seq<Seq<char>>,
                    WorkspaceErrorView,
                >(texts(list@)),
        {
            let path = all[i].as_str();
            proof {
                assert(order.take(i + 1).drop_last() =~= order.take(i as int));
                assert(order.take(i + 1).last() == path@);
                assert(order[i as int] == path@);
            }
            match files.node(path) {
                Some(FileNode::Link(_)) => {
                    proof {
                        lemma_tree_files_error(nodes, self@, order, i + 1);
                    }
                    return Err(WorkspaceError::SymbolicLink(self.path_of(path)));
                },
                Some(FileNode::File(_)) => {
                    if list.len() + 1 > MAX_MUTATION_FILES {
                        proof {
                            lemma_tree_files_error(nodes, self@, order, i + 1);
                        }
                        return Err(invalid_format("workspace mutation exceeds 100000 files"));
                    }
                    let ghost before = list@;
                    list.push(path.to_owned());
                    assert(texts(list@) =~= texts(before).push(path@));
                },
                _ => {},
            }
        }
        assert(order.take(order.len() as int) =~= order);
        Ok(list)
    }

    fn rekey_duplicate_tree(
        &self,
        files: &mut FileTree,
        place: &str,
        slug: Option<&str>,
        ids: &mut IdSource,
        leaks: &[Vec<String>],
    ) -> (r: Result<(), WorkspaceError>)
        requires
            old(files).wf(),
            place@.len() > 0,
            slug matches Some(s) ==> is_slug(s@),
        ensures
            final(files).wf(),
            rekeyed(
                Rekeying { files: old(files)@, source: *old(ids), requests: 0 },
                self@,
                place@,
                crate::repository_documents::optional_slug(slug),
                leak_views(leaks@),
            ).0 == plain_outcome(r),
            rekeyed(
                Rekeying { files: old(files)@, source: *old(ids), requests: 0 },
                self@,
                place@,
                crate::repository_documents::optional_slug(slug),
                leak_views(leaks@),
            ).1.files == final(files)@,
    {
        match self.rekey_collection(files, place, slug, ids, Ghost(0)) {
            Ok(_) => {},
            Err(e) => {
                return Err(e);
            },
        }
        let ghost first = Rekeying { files: files@, source: *ids, requests: 0 };
        let list = match self.walk_tree_files(files, place) {
            Ok(list) => list,
            Err(e) => {
                return Err(e);
            },
        };
        let ghost all = texts(list@);
        let mut requests: usize = 0;
        assert(all.take(0) =~= seq![]);
        for i in 0..list.len()
            invariant
                files.wf(),
                all == texts(list@),
                list@.len() <= MAX_MUTATION_FILES,
                requests <= i,
                rekeyed(
                    Rekeying { files: old(files)@, source: *old(ids), requests: 0 },
                    self@,
                    place@,
                    crate::repository_documents::optional_slug(slug),
                    leak_views(leaks@),
                ) == rekeyed_files(first, self@, all, leak_views(leaks@)),
                rekeyed_files(first, self@, all.take(i as int), leak_views(leaks@)) == (
                    Ok::<(), WorkspaceErrorView>(()),
                    Rekeying { files: files@, source: *ids, requests: requests as nat },
                ),
        {
            proof {
                assert(all.take(i + 1).drop_last() =~= all.take(i as int));
                assert(all.take(i + 1).last() == list@[i as int]@);
            }
            match self.rekey_file(files, list[i].as_str(), ids, &mut requests, leaks) {
                Ok(_) => {},
                Err(e) => {
                    proof {
                        lemma_rekeyed_error(first, self@, all, leak_views(leaks@), i + 1);
                    }
                    return Err(e);
                },
            }
        }
        assert(all.take(all.len() as int) =~= all);
        Ok(())
    }

    fn copy_directory_checked(
        &self,
        files: &mut FileTree,
        source: &str,
        target: &str,
        expected: DirectoryFingerprint,
        slug: Option<&str>,
        ids: IdSource,
        leaks: &[Vec<String>],
        nonce: u128,
    ) -> (r: Result<DirectoryFingerprint, WorkspaceError>)
        requires
            old(files).wf(),
            source@.len() > 0,
            target@.len() > 0,
            slug matches Some(s) ==> is_slug(s@),
        ensures
            final(files).wf(),
            (digest_outcome(r), final(files)@) == duplicated(
                old(files)@,
                self@,
                source@,
                target@,
                expected.number(),
                crate::repository_documents::optional_slug(slug),
                ids,
                leak_views(leaks@),
                nonce,
            ),
    {
        match self.ensure_directory_snapshot(files, source, expected) {
            Ok(_) => {},
            Err(e) => {
                return Err(e);
            },
        }
        if files.is_there(target) {
            return Err(WorkspaceError::AlreadyExists(self.path_of(target)));
        }
        let temporary = temporary_sibling(target, "copy", nonce);
        proof {
            lemma_temporary_not_empty(target@, "copy"@, nonce);
        }
        if files.has(temporary.as_str()) || !files.has_room(temporary.as_str()) {
            files.clear(temporary.as_str());
            return Err(self.blocked_error(temporary.as_str()));
        }
        files.perform(
            FileAction::CopyTree { from: source.to_owned(), to: temporary.clone() },
        );
        match self.ensure_directory_snapshot(files, source, expected) {
            Ok(_) => {},
            Err(e) => {
                files.perform(FileAction::RemoveTree(temporary));
                return Err(e);
            },
        }
        let mut ids = ids;
        match self.rekey_duplicate_tree(files, temporary.as_str(), slug, &mut ids, leaks) {
            Ok(_) => {},
            Err(e) => {
                files.perform(FileAction::RemoveTree(temporary));
                return Err(e);
            },
        }
        if !files.can_move(temporary.as_str(), target) {
            files.perform(FileAction::RemoveTree(temporary));
            return Err(self.move_error(target));
        }
        files.perform(FileAction::Rename { from: temporary, to: target.to_owned() });
        directory_fingerprint(files, self.root(), target)
    }

    fn read_copied_request(&self, files: &FileTree, place: &str, ids: &IdSource) -> (r: Option<
        String,
    >)
        requires
            files.wf(),
        ensures
            (match r {
                Some(text) => Some(text@),
                None => None,
            }) == copied_request(
                Rekeying { files: files@, source: *ids, requests: 0 },
                self@,
                place@,
            ),
    {
        let name = name_of_place(place);
        if same_text(name.as_str(), FOLDER_FILE) {
            return None;
        }
        let chars = chars_of(name.as_str());
        let ending = chars_of(".request.toml");
        if !has_suffix(chars.as_slice(), ending.as_slice()) {
            return None;
        }
        let (text, _, _) = match self.read_settled(files, place, MAXIMUM_REQUEST_BYTES) {
            Ok(t) => t,
            Err(_) => {
                return None;
            },
        };
        let mut document = match parse_request(text.as_str()) {
            Ok(d) => d,
            Err(_) => {
                return None;
            },
        };
        let ghost before = document@;
        let mut source = *ids;
        proof {
            lemma_prefixes();
        }
        document.request.id = source.generated_id("request");
        assert(document@ =~= rekeyed_request(before, *ids));
        Some(format_request(&document))
    }

    fn copy_one_file(
        &self,
        files: &mut FileTree,
        place: &str,
        ids: &mut IdSource,
        requests: &mut usize,
        clean: &[Vec<String>],
        found: &mut Vec<String>,
    ) -> (done: bool)
        requires
            old(files).wf(),
            *old(requests) < MAX_MUTATION_FILES,
        ensures
            final(files).wf(),
            *final(requests) <= *old(requests) + 1,
            texts(final(found)@) == with_text(
                texts(old(found)@),
                copied_request(
                    Rekeying { files: old(files)@, source: *old(ids), requests: 0 },
                    self@,
                    place@,
                ),
            ),
            ({
                let (r, after) = rekeyed_file(
                    Rekeying {
                        files: old(files)@,
                        source: *old(ids),
                        requests: *old(requests) as nat,
                    },
                    self@,
                    place@,
                    leak_views(clean@),
                );
                &&& done == (r is Ok)
                &&& after == (Rekeying {
                    files: final(files)@,
                    source: *final(ids),
                    requests: *final(requests) as nat,
                })
            }),
    {
        let ghost before = found@;
        match self.read_copied_request(files, place, ids) {
            Some(text) => {
                found.push(text);
                assert(texts(found@) =~= texts(before).push(text@));
            },
            None => {},
        }
        match self.rekey_file(files, place, ids, requests, clean) {
            Ok(_) => true,
            Err(_) => false,
        }
    }

    fn copied_texts(
        &self,
        files: FileTree,
        source: &str,
        target: &str,
        slug: Option<&str>,
        ids: IdSource,
        nonce: u128,
    ) -> (r: Vec<String>)
        requires
            files.wf(),
            source@.len() > 0,
            target@.len() > 0,
            slug matches Some(s) ==> is_slug(s@),
        ensures
            texts(r@) == copy_requests(
                files@,
                self@,
                source@,
                target@,
                crate::repository_documents::optional_slug(slug),
                ids,
                nonce,
            ),
    {
        let mut files = files;
        let mut found: Vec<String> = Vec::new();
        assert(texts(found@) =~= seq![]);
        let temporary = temporary_sibling(target, "copy", nonce);
        proof {
            lemma_temporary_not_empty(target@, "copy"@, nonce);
        }
        files.perform(
            FileAction::CopyTree { from: source.to_owned(), to: temporary.clone() },
        );
        let mut ids = ids;
        match self.rekey_collection(&mut files, temporary.as_str(), slug, &mut ids, Ghost(0)) {
            Ok(_) => {},
            Err(_) => {
                return found;
            },
        }
        let ghost first = Rekeying { files: files@, source: ids, requests: 0 };
        let list = match self.walk_tree_files(&files, temporary.as_str()) {
            Ok(list) => list,
            Err(_) => {
                return found;
            },
        };
        let ghost all = texts(list@);
        let mut clean: Vec<Vec<String>> = Vec::new();
        for i in 0..list.len()
            invariant
                clean@.len() == i,
                leak_views(clean@) =~= clean_scans(i as nat),
        {
            let nothing: Vec<String> = Vec::new();
            assert(texts(nothing@) =~= seq![]);
            let ghost before = clean@;
            clean.push(nothing);
            assert(leak_views(clean@) =~= leak_views(before).push(seq![]));
        }
        let mut requests: usize = 0;
        let mut done = true;
        let mut i: usize = 0;
        assert(all.take(0) =~= seq![]);
        while done && i < list.len()
            invariant
                files.wf(),
                i <= list@.len(),
                all == texts(list@),
                list@.len() <= MAX_MUTATION_FILES,
                requests <= i,
                first.requests == 0,
                leak_views(clean@) == clean_scans(list@.len()),
                !done ==> texts(found@) == copied_requests(first, self@, all),
                done ==> texts(found@) == copied_requests(first, self@, all.take(i as int)),
                done ==> rekeyed_files(
                    first,
                    self@,
                    all.take(i as int),
                    clean_scans(list@.len()),
                ) == (
                    Ok::<(), WorkspaceErrorView>(()),
                    Rekeying { files: files@, source: ids, requests: requests as nat },
                ),
            decreases list@.len() - i,
        {
            let ghost now = Rekeying { files: files@, source: ids, requests: requests as nat };
            done = self.copy_one_file(
                &mut files,
                list[i].as_str(),
                &mut ids,
                &mut requests,
                clean.as_slice(),
                &mut found,
            );
            proof {
                lemma_copied_step(first, self@, all, i as int, now);
                assert(all[i as int] == list@[i as int]@);
                if !done {
                    lemma_copied_requests_stop(first, self@, all, i + 1);
                }
            }
            i = i + 1;
        }
        assert(all.take(all.len() as int) =~= all);
        found
    }

    /// The texts of the requests that a copy of a collection writes, in turn, for a detector of
    /// leaks to look at.
    pub fn collection_copy_texts(
        &self,
        files: FileTree,
        source_slug: &str,
        target_slug: &str,
        ids: IdSource,
        nonce: u128,
    ) -> (r: Vec<String>)
        requires
            files.wf(),
        ensures
            texts(r@) == (match (collection_place(source_slug@), collection_place(target_slug@)) {
                (Ok(source), Ok(target)) => copy_requests(
                    files@,
                    self@,
                    source,
                    target,
                    Some(target_slug@),
                    ids,
                    nonce,
                ),
                _ => seq![],
            }),
    {
        proof {
            crate::repository::lemma_folder_place(source_slug@, seq![]);
            crate::repository::lemma_folder_place(target_slug@, seq![]);
        }
        match (place_of_collection(source_slug), place_of_collection(target_slug)) {
            (Ok(source), Ok(target)) => self.copied_texts(
                files,
                source.as_str(),
                target.as_str(),
                Some(target_slug),
                ids,
                nonce,
            ),
            _ => {
                let none: Vec<String> = Vec::new();
                assert(texts(none@) =~= seq![]);
                none
            },
        }
    }

    /// The texts of the requests that a copy of a folder writes, in turn, for a detector of
    /// leaks to look at.
    pub fn folder_copy_texts(
        &self,
        files: FileTree,
        collection_slug: &str,
        source_folders: &[String],
        target_parent_folders: &[String],
        target_slug: &str,
        ids: IdSource,
        nonce: u128,
    ) -> (r: Vec<String>)
        requires
            files.wf(),
        ensures
            texts(r@) == (match relocation(
                files@.nodes,
                self@,
                collection_slug@,
                texts(source_folders@),
                texts(target_parent_folders@),
                target_slug@,
                "cannot duplicate a folder into itself"@,
            ) {
                Ok((source, target)) => copy_requests(
                    files@,
                    self@,
                    source,
                    target,
                    None,
                    ids,
                    nonce,
                ),
                Err(_) => seq![],
            }),
    {
        match self.relocate(
            &files,
            collection_slug,
            source_folders,
            target_parent_folders,
            target_slug,
            "cannot duplicate a folder into itself",
        ) {
            Ok((source, target)) => self.copied_texts(
                files,
                source.as_str(),
                target.as_str(),
                None,
                ids,
                nonce,
            ),
            Err(_) => {
                let none: Vec<String> = Vec::new();
                assert(texts(none@) =~= seq![]);
                none
            },
        }
    }

    /// Copies a collection, so long as it is as expected. The copy and all it holds get
    /// identifiers of their own. `leaks` is what a detector of leaks found in each text
    /// that [`collection_copy_texts`] hands out, in turn; a text without findings of its own
    /// is refused.
    pub fn duplicate_collection(
        &self,
        files: &mut FileTree,
        source_slug: &str,
        target_slug: &str,
        expected: DirectoryFingerprint,
        ids: IdSource,
        leaks: &[Vec<String>],
        nonce: u128,
    ) -> (r: Result<DirectoryFingerprint, WorkspaceError>)
        requires
            old(files).wf(),
        ensures
            final(files).wf(),
            (digest_outcome(r), final(files)@) == (match (
                collection_place(source_slug@),
                collection_place(target_slug@),
            ) {
                (Err(e), _) => (Err(e), old(files)@),
                (_, Err(e)) => (Err(e), old(files)@),
                (Ok(source), Ok(target)) => duplicated(
                    old(files)@,
                    self@,
                    source,
                    target,
                    expected.number(),
                    Some(target_slug@),
                    ids,
                    leak_views(leaks@),
                    nonce,
                ),
            }),
    {
        proof {
            crate::repository::lemma_folder_place(source_slug@, seq![]);
            crate::repository::lemma_folder_place(target_slug@, seq![]);
        }
        let source = match place_of_collection(source_slug) {
            Ok(place) => place,
            Err(e) => {
                return Err(e);
            },
        };
        let target = match place_of_collection(target_slug) {
            Ok(place) => place,
            Err(e) => {
                return Err(e);
            },
        };
        self.copy_directory_checked(
            files,
            source.as_str(),
            target.as_str(),
            expected,
            Some(target_slug),
            ids,
            leaks,
            nonce,
        )
    }

    /// Copies a folder into another, so long as it is as expected. What the copy holds gets
    /// identifiers of its own. `leaks` is what a detector of leaks found in each
    /// text that [`folder_copy_texts`] hands out, in turn; a text without findings of its own is
    /// refused.
    pub fn duplicate_folder(
        &self,
        files: &mut FileTree,
        collection_slug: &str,
        source_folders: &[String],
        target_parent_folders: &[String],
        target_slug: &str,
        expected: DirectoryFingerprint,
        ids: IdSource,
        leaks: &[Vec<String>],
        nonce: u128,
    ) -> (r: Result<DirectoryFingerprint, WorkspaceError>)
        requires
            old(files).wf(),
        ensures
            final(files).wf(),
            (digest_outcome(r), final(files)@) == (match relocation(
                old(files)@.nodes,
                self@,
                collection_slug@,
                texts(source_folders@),
                texts(target_parent_folders@),
                target_slug@,
                "cannot duplicate a folder into itself"@,
            ) {
                Err(e) => (Err(e), old(files)@),
                Ok((source, target)) => duplicated(
                    old(files)@,
                    self@,
                    source,
                    target,
                    expected.number(),
                    None,
                    ids,
                    leak_views(leaks@),
                    nonce,
                ),
            }),
    {
        match self.relocate(
            files,
            collection_slug,
            source_folders,
            target_parent_folders,
            target_slug,
            "cannot duplicate a folder into itself",
        ) {
            Err(e) => Err(e),
            Ok((source, target)) => self.copy_directory_checked(
                files,
                source.as_str(),
                target.as_str(),
                expected,
                None,
                ids,
                leaks,
                nonce,
            ),
        }
    }
}

proof fn lemma_prefixes()
    ensures
        is_slug("collection"@),
        is_slug("folder"@),
        is_slug("request"@),
{
    reveal_strlit("collection");
    reveal_strlit("folder");
    reveal_strlit("request");
}

pub proof fn lemma_temporary_not_empty(place: Seq<char>, operation: Seq<char>, nonce: u128)
    ensures
        temporary_place(place, operation, nonce).len() > 0,
{
    reveal_strlit(".");
}

} // verus!
