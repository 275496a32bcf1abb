//! Making, renaming, listing and deleting the environments of a workspace.
use crate::domain::StableId;
use crate::environment::{
    bad_set_name, is_set_name, validate_variable_set_name, VariableSetDocument, VariableSetView,
};
use crate::error::{outcome, WorkspaceError, WorkspaceErrorView};
use crate::files::{
    blocked, can_be_entered, can_move, entry_names, entry_path, is_there, lemma_performed, path_in,
    performed, ActionView, FileAction, FileNode, FileTree, FilesView, Nodes,
};
use crate::fingerprint::FileFingerprint;
use crate::manifest::{manifest_text, manifest_value, ManifestView};
use crate::message::{concat2, concat3, concat5};
use crate::naming::{temporary_place, temporary_sibling};
use crate::number::{decimal, wide_decimal_text};
use crate::order::{
    lemma_text_lt_irreflexive, lemma_text_lt_total, lemma_text_lt_transitive, less_chars,
    less_text, sorted_texts, text_lt,
};
use crate::paths::{extension_of, joined, name_extension, ResourcePath};
use crate::repository::{
    expected_number, loaded, no_directory, no_move, number_outcome, unreadable, written, LoadedView,
    MAXIMUM_METADATA_BYTES, WorkspaceRepository,
};
use crate::repository_collections::plain_outcome;
use crate::repository_documents::{
    environment_place, optional_set_loaded, override_place, place_of_environment,
    place_of_override, set_loaded, set_saved,
};
use crate::sorting::{sort_stable, sorted, views, Ranked};
use crate::text::{ascii_lowercase, chars_of, same_text, texts, to_ascii_lower};
use vstd::prelude::*;

verus! {

/// What a list of environments says of one.
#[derive(Clone, Debug, PartialEq, Eq)]
pub struct EnvironmentSummary {
    pub id: StableId,
    pub name: String,
    pub path: ResourcePath,
    pub variable_count: usize,
    pub has_local_override: bool,
}

/// What a list of environments says of one, by its contents.
#[verifier::ext_equal]
pub struct SummaryView {
    pub id: Seq<char>,
    pub name: Seq<char>,
    pub path: Seq<char>,
    pub variable_count: nat,
    pub has_local_override: bool,
}

impl View for EnvironmentSummary {
    type V = SummaryView;

    open spec fn view(&self) -> SummaryView {
        SummaryView {
            id: self.id@,
            name: self.name@,
            path: self.path@,
            variable_count: self.variable_count as nat,
            has_local_override: self.has_local_override,
        }
    }
}

/// Whether a pair of texts comes before another: by the first text, and then by the second.
pub open spec fn pair_before(a: (Seq<char>, Seq<char>), b: (Seq<char>, Seq<char>)) -> bool {
    text_lt(a.0, b.0) || a.0 == b.0 && text_lt(a.1, b.1)
}

/// Pairs of texts stand in a row.
pub proof fn lemma_pair_rank(
    a: (Seq<char>, Seq<char>),
    b: (Seq<char>, Seq<char>),
    c: (Seq<char>, Seq<char>),
)
    ensures
        pair_before(a, b) ==> !pair_before(b, a),
        !pair_before(b, a) && !pair_before(c, b) ==> !pair_before(c, a),
{
    lemma_text_lt_irreflexive(a.0);
    lemma_text_lt_irreflexive(a.1);
    lemma_text_lt_irreflexive(b.0);
    lemma_text_lt_irreflexive(b.1);
    if pair_before(a, b) && pair_before(b, a) {
        if text_lt(a.0, b.0) && text_lt(b.0, a.0) {
            lemma_text_lt_transitive(a.0, b.0, a.0);
        }
        if text_lt(a.1, b.1) && text_lt(b.1, a.1) {
            lemma_text_lt_transitive(a.1, b.1, a.1);
        }
    }
    if !pair_before(b, a) && !pair_before(c, b) && pair_before(c, a) {
        lemma_text_lt_total(a.0, b.0);
        lemma_text_lt_total(b.0, c.0);
        lemma_text_lt_total(a.1, b.1);
        lemma_text_lt_total(b.1, c.1);
        if a.0 == b.0 && b.0 == c.0 {
            if text_lt(a.1, b.1) && text_lt(b.1, c.1) {
                lemma_text_lt_transitive(a.1, b.1, c.1);
            }
            if text_lt(a.1, c.1) && text_lt(c.1, a.1) {
                lemma_text_lt_transitive(a.1, c.1, a.1);
            }
        } else {
            if text_lt(a.0, b.0) && text_lt(b.0, c.0) {
                lemma_text_lt_transitive(a.0, b.0, c.0);
            }
            if text_lt(a.0, c.0) && text_lt(c.0, a.0) {
                lemma_text_lt_transitive(a.0, c.0, a.0);
            }
        }
    }
}

/// What environments are listed by: the name without regard to case, and the identifier.
pub open spec fn summary_key(s: SummaryView) -> (Seq<char>, Seq<char>) {
    (ascii_lowercase(s.name), s.id)
}

impl Ranked for EnvironmentSummary {
    open spec fn before(a: SummaryView, b: SummaryView) -> bool {
        pair_before(summary_key(a), summary_key(b))
    }

    proof fn lemma_rank(a: SummaryView, b: SummaryView, c: SummaryView) {
        lemma_pair_rank(summary_key(a), summary_key(b), summary_key(c));
    }

    fn comes_before(&self, other: &EnvironmentSummary) -> (r: bool)
        ensures
            r == pair_before(summary_key(self@), summary_key(other@)),
    {
        let a = to_ascii_lower(chars_of(self.name.as_str()).as_slice());
        let b = to_ascii_lower(chars_of(other.name.as_str()).as_slice());
        if less_chars(a.as_slice(), b.as_slice()) {
            return true;
        }
        crate::text::same_chars(a.as_slice(), b.as_slice()) && less_text(
            self.id.as_str(),
            other.id.as_str(),
        )
    }
}

/// What is left of an environment that was deleted.
#[derive(Clone, Debug, PartialEq, Eq)]
pub struct EnvironmentDeletionReceipt {
    pub id: StableId,
    pub cleanup_pending: Option<ResourcePath>,
}

fn place_of_trash(id: &StableId, nonce: u128) -> (r: String)
    ensures
        r@ == trash_place(id@, nonce),
{
    let name = concat3(id.as_str(), "-", wide_decimal_text(nonce).as_str());
    path_in(".apex/trash/environments", name.as_str())
}

/// The receipt of the deletion of an environment on disk, from what the work of it came to:
/// where the environment could not be removed from where it was moved aside, that is named.
pub fn deletion_receipt(id: &StableId, outcome: Result<Option<String>, WorkspaceError>) -> (r:
    Result<EnvironmentDeletionReceipt, WorkspaceError>)
    ensures
        match (outcome, r) {
            (Ok(left), Ok(receipt)) => receipt.id@ == id@ && match (
                left,
                receipt.cleanup_pending,
            ) {
                (Some(path), Some(pending)) => pending@ == path@,
                (None, None) => true,
                _ => false,
            },
            (Err(a), Err(b)) => a == b,
            _ => false,
        },
{
    match outcome {
        Ok(left) => Ok(
            EnvironmentDeletionReceipt {
                id: id.copy(),
                cleanup_pending: match left {
                    Some(path) => Some(ResourcePath::new(path.as_str())),
                    None => None,
                },
            },
        ),
        Err(e) => Err(e),
    }
}

/// Whether a file is as it is expected to be.
pub open spec fn file_snapshot_check(
    nodes: Nodes,
    root: Seq<char>,
    place: Seq<char>,
    expected: u64,
) -> Result<(), WorkspaceErrorView> {
    crate::repository::write_check(nodes, root, place, Some(expected))
}

/// The outcome of making an environment or writing it again.
pub open spec fn environment_saved(
    files: FilesView,
    root: Seq<char>,
    document: VariableSetView,
    expected: Option<u64>,
) -> (Result<u64, WorkspaceErrorView>, FilesView) {
    if !is_set_name(document.name) {
        (Err(bad_set_name()), files)
    } else {
        set_saved(files, root, environment_place(document.id), document, expected)
    }
}

/// The outcome of renaming an environment.
pub open spec fn environment_renamed(
    files: FilesView,
    root: Seq<char>,
    id: Seq<char>,
    name: Seq<char>,
    expected: u64,
) -> (Result<u64, WorkspaceErrorView>, FilesView) {
    let place = environment_place(id);
    match file_snapshot_check(files.nodes, root, place, expected) {
        Err(e) => (Err(e), files),
        Ok(_) => match set_loaded(files.nodes, root, place) {
            Err(e) => (Err(e), files),
            Ok(d) => if !is_set_name(name) {
                (Err(bad_set_name()), files)
            } else {
                set_saved(
                    files,
                    root,
                    place,
                    VariableSetView { name, ..d.value },
                    Some(expected),
                )
            },
        },
    }
}

/// The outcome of saving the local values of an environment, which has to be there.
pub open spec fn override_saved(
    files: FilesView,
    root: Seq<char>,
    id: Seq<char>,
    document: VariableSetView,
    expected: Option<u64>,
) -> (Result<u64, WorkspaceErrorView>, FilesView) {
    if document.id != id {
        (
            Err(
                WorkspaceErrorView::InvalidFormat(
                    "local override id '"@ + document.id + "' must match environment id '"@ + id
                        + "'"@,
                ),
            ),
            files,
        )
    } else {
        match set_loaded(files.nodes, root, environment_place(id)) {
            Err(e) => (Err(e), files),
            Ok(_) => if !is_set_name(document.name) {
                (Err(bad_set_name()), files)
            } else {
                set_saved(files, root, override_place(id), document, expected)
            },
        }
    }
}

/// What deleting a file does: it is moved aside and then removed.
pub open spec fn file_deletion(place: Seq<char>, nonce: u128) -> Seq<ActionView> {
    crate::repository_collections::deletion_actions(place, nonce)
}

/// The outcome of deleting the local values of an environment.
pub open spec fn override_deleted(
    files: FilesView,
    root: Seq<char>,
    id: Seq<char>,
    expected: u64,
    nonce: u128,
) -> (Result<(), WorkspaceErrorView>, FilesView) {
    let place = override_place(id);
    match file_snapshot_check(files.nodes, root, place, expected) {
        Err(e) => (Err(e), files),
        Ok(_) => {
            let tombstone = temporary_place(place, "delete"@, nonce);
            if can_move(files.nodes, place, tombstone) {
                (Ok(()), performed(files, file_deletion(place, nonce)))
            } else {
                (Err(no_move(joined(root, tombstone))), files)
            }
        },
    }
}

/// The manifest as it is read.
pub open spec fn manifest_loaded(nodes: Nodes, root: Seq<char>) -> Result<
    LoadedView<ManifestView>,
    WorkspaceErrorView,
> {
    loaded(
        nodes,
        root,
        "apex.toml"@,
        MAXIMUM_METADATA_BYTES,
        |text: Seq<char>| manifest_value(text),
    )
}

/// The outcome of choosing the environment that is used by default, or none.
pub open spec fn default_set(
    files: FilesView,
    root: Seq<char>,
    id: Option<Seq<char>>,
    expected: u64,
) -> (Result<u64, WorkspaceErrorView>, FilesView) {
    let there: Result<(), WorkspaceErrorView> = match id {
        None => Ok(()),
        Some(i) => match set_loaded(files.nodes, root, environment_place(i)) {
            Ok(_) => Ok(()),
            Err(e) => Err(e),
        },
    };
    match there {
        Err(e) => (Err(e), files),
        Ok(_) => match manifest_loaded(files.nodes, root) {
            Err(e) => (Err(e), files),
            Ok(d) => if d.fingerprint != expected {
                (Err(WorkspaceErrorView::ExternalChange(d.path)), files)
            } else {
                written(
                    files,
                    root,
                    "apex.toml"@,
                    manifest_text(ManifestView { default_environment: id, ..d.value }),
                    Some(expected),
                )
            },
        },
    }
}

/// Where a deleted environment is kept until it is removed.
pub open spec fn trash_place(id: Seq<char>, nonce: u128) -> Seq<char> {
    entry_path(".apex/trash/environments"@, id + "-"@ + decimal(nonce as nat))
}

/// What deleting an environment does: it is moved aside, with its local values, and then
/// removed.
pub open spec fn environment_deletion(id: Seq<char>, with_override: bool, nonce: u128) -> Seq<
    ActionView,
> {
    let trash = trash_place(id, nonce);
    let first = seq![
        ActionView::MakeDirectories(trash),
        ActionView::Rename {
            from: environment_place(id),
            to: entry_path(trash, "environment.toml"@),
        },
    ];
    let second = if with_override {
        seq![
            ActionView::Rename { from: override_place(id), to: entry_path(trash, "local.toml"@) },
        ]
    } else {
        seq![]
    };
    first + second + seq![ActionView::RemoveTree(trash)]
}

/// The outcome of moving an environment aside, with its local values, and removing it. Where
/// the local values cannot be moved, the environment is moved back.
pub open spec fn environment_removed(
    files: FilesView,
    root: Seq<char>,
    id: Seq<char>,
    with_override: bool,
    nonce: u128,
) -> (Result<(), WorkspaceErrorView>, FilesView) {
    let trash = trash_place(id, nonce);
    let place = environment_place(id);
    let kept = entry_path(trash, "environment.toml"@);
    let local_kept = entry_path(trash, "local.toml"@);
    let made = performed(files, seq![ActionView::MakeDirectories(trash)]);
    let gone = performed(made, seq![ActionView::Rename { from: place, to: kept }]);
    if !can_move(made.nodes, place, kept) {
        (Err(no_move(joined(root, kept))), made)
    } else if with_override && !can_move(gone.nodes, override_place(id), local_kept) {
        (
            Err(no_move(joined(root, local_kept))),
            performed(
                performed(gone, seq![ActionView::Rename { from: kept, to: place }]),
                seq![ActionView::RemoveTree(trash)],
            ),
        )
    } else {
        (Ok(()), performed(files, environment_deletion(id, with_override, nonce)))
    }
}

/// The outcome of deleting an environment, which may not be the one used by default.
pub open spec fn environment_deleted(
    files: FilesView,
    root: Seq<char>,
    id: Seq<char>,
    expected: u64,
    nonce: u128,
) -> (Result<(), WorkspaceErrorView>, FilesView) {
    match manifest_loaded(files.nodes, root) {
        Err(e) => (Err(e), files),
        Ok(m) => if m.value.default_environment == Some(id) {
            (
                Err(
                    WorkspaceErrorView::InvalidFormat(
                        "environment '"@ + id
                            + "' is the workspace default; select another default before deletion"@,
                    ),
                ),
                files,
            )
        } else {
            match file_snapshot_check(files.nodes, root, environment_place(id), expected) {
                Err(e) => (Err(e), files),
                Ok(_) => match set_loaded(files.nodes, root, environment_place(id)) {
                    Err(e) => (Err(e), files),
                    Ok(_) => match optional_set_loaded(files.nodes, root, override_place(id)) {
                        Err(e) => (Err(e), files),
                        Ok(local) => if blocked(files.nodes, trash_place(id, nonce)) {
                            (Err(no_directory(joined(root, trash_place(id, nonce)))), files)
                        } else {
                            environment_removed(files, root, id, local is Some, nonce)
                        },
                    },
                },
            }
        },
    }
}

/// What the list of environments says of the file of a name: nothing where it is none.
pub open spec fn summary_of(nodes: Nodes, root: Seq<char>, name: Seq<char>) -> Result<
    Option<SummaryView>,
    WorkspaceErrorView,
> {
    let place = entry_path("environments"@, name);
    let is_file = nodes.dom().contains(place) && nodes[place] is File;
    if !is_file || extension_of(name) != Some("toml"@) {
        Ok(None)
    } else {
        match set_loaded(nodes, root, place) {
            Err(e) => Err(e),
            Ok(d) => Ok(
                Some(
                    SummaryView {
                        id: d.value.id,
                        name: d.value.name,
                        path: joined(root, place),
                        variable_count: d.value.variables.len(),
                        has_local_override: is_there(nodes, override_place(d.value.id)),
                    },
                ),
            ),
        }
    }
}

/// What the list of environments says of the files of some names.
pub open spec fn summaries_of(nodes: Nodes, root: Seq<char>, names: Seq<Seq<char>>) -> Result<
    Seq<SummaryView>,
    WorkspaceErrorView,
>
    decreases names.len(),
{
    if names.len() == 0 {
        Ok(seq![])
    } else {
        match summaries_of(nodes, root, names.drop_last()) {
            Err(e) => Err(e),
            Ok(front) => match summary_of(nodes, root, names.last()) {
                Err(e) => Err(e),
                Ok(None) => Ok(front),
                Ok(Some(s)) => Ok(front.push(s)),
            },
        }
    }
}

/// The list of environments: by name without regard to case, and then by identifier.
pub open spec fn environments_listed(nodes: Nodes, root: Seq<char>) -> Result<
    Seq<SummaryView>,
    WorkspaceErrorView,
> {
    if !is_there(nodes, "environments"@) {
        Ok(seq![])
    } else if !can_be_entered(nodes, "environments"@) {
        Err(unreadable(joined(root, "environments"@)))
    } else {
        match summaries_of(nodes, root, sorted_texts(entry_names(nodes, "environments"@))) {
            Err(e) => Err(e),
            Ok(list) => Ok(sorted::<EnvironmentSummary>(list)),
        }
    }
}

proof fn lemma_summaries_error(nodes: Nodes, root: Seq<char>, names: Seq<Seq<char>>, k: int)
    requires
        0 <= k <= names.len(),
        summaries_of(nodes, root, names.take(k)) is Err,
    ensures
        summaries_of(nodes, root, names) == summaries_of(nodes, root, names.take(k)),
    decreases names.len() - k,
{
    if k < names.len() {
        assert(names.take(k + 1).drop_last() =~= names.take(k));
        lemma_summaries_error(nodes, root, names, k + 1);
    } else {
        assert(names.take(k) =~= names);
    }
}

/// The text of an optional identifier.
pub open spec fn optional_id(id: Option<&StableId>) -> Option<Seq<char>> {
    match id {
        Some(i) => Some(i@),
        None => None,
    }
}

impl WorkspaceRepository {
    /// Makes an environment, which may not be there yet.
    pub fn create_environment(&self, files: &mut FileTree, document: &VariableSetDocument) -> (r:
        Result<FileFingerprint, WorkspaceError>)
        requires
            old(files).wf(),
            document.wf(),
        ensures
            final(files).wf(),
            (number_outcome(r), final(files)@) == environment_saved(
                old(files)@,
                self@,
                document@,
                None,
            ),
    {
        match validate_variable_set_name(document.name.as_str()) {
            Err(e) => Err(e),
            Ok(_) => self.save_variable_set(
                files,
                place_of_environment(&document.id).as_str(),
                document,
                None,
            ),
        }
    }

    /// Writes an environment again, so long as it is as expected.
    pub fn update_environment(
        &self,
        files: &mut FileTree,
        document: &VariableSetDocument,
        expected: FileFingerprint,
    ) -> (r: Result<FileFingerprint, WorkspaceError>)
        requires
            old(files).wf(),
            document.wf(),
        ensures
            final(files).wf(),
            (number_outcome(r), final(files)@) == environment_saved(
                old(files)@,
                self@,
                document@,
                Some(expected.number()),
            ),
    {
        match validate_variable_set_name(document.name.as_str()) {
            Err(e) => Err(e),
            Ok(_) => self.save_variable_set(
                files,
                place_of_environment(&document.id).as_str(),
                document,
                Some(expected),
            ),
        }
    }

    fn ensure_file_snapshot(
        &self,
        files: &FileTree,
        place: &str,
        expected: FileFingerprint,
    ) -> (r: Result<(), WorkspaceError>)
        requires
            files.wf(),
        ensures
            plain_outcome(r) == file_snapshot_check(
                files@.nodes,
                self@,
                place@,
                expected.number(),
            ),
    {
        match files.file(place) {
            Some(bytes) => {
                let current = FileFingerprint::from_bytes(bytes);
                proof {
                    FileFingerprint::lemma_same(current, expected);
                }
                if current == expected {
                    Ok(())
                } else {
                    Err(WorkspaceError::ExternalChange(self.path_of(place)))
                }
            },
            None => if files.is_there(place) {
                Err(WorkspaceError::Io(concat2("cannot read ", self.path_of(place).as_text())))
            } else {
                Err(WorkspaceError::ExternalChange(self.path_of(place)))
            },
        }
    }

    /// Renames an environment, so long as it is as expected.
    pub fn rename_environment(
        &self,
        files: &mut FileTree,
        id: &StableId,
        name: String,
        expected: FileFingerprint,
    ) -> (r: Result<FileFingerprint, WorkspaceError>)
        requires
            old(files).wf(),
        ensures
            final(files).wf(),
            (number_outcome(r), final(files)@) == environment_renamed(
                old(files)@,
                self@,
                id@,
                name@,
                expected.number(),
            ),
    {
        let place = place_of_environment(id);
        match self.ensure_file_snapshot(files, place.as_str(), expected) {
            Ok(_) => {},
            Err(e) => {
                return Err(e);
            },
        }
        let loaded = match self.load_variable_set(files, place.as_str()) {
            Ok(d) => d,
            Err(e) => {
                return Err(e);
            },
        };
        let mut document = loaded.value;
        let ghost before = document@;
        document.name = name;
        assert(document@ =~= (VariableSetView { name: document.name@, ..before }));
        match validate_variable_set_name(document.name.as_str()) {
            Ok(_) => {},
            Err(e) => {
                return Err(e);
            },
        }
        self.save_variable_set(files, place.as_str(), &document, Some(expected))
    }

    /// Saves the local values of an environment, which has to be there.
    pub fn save_local_environment_override(
        &self,
        files: &mut FileTree,
        environment_id: &StableId,
        document: &VariableSetDocument,
        expected: Option<FileFingerprint>,
    ) -> (r: Result<FileFingerprint, WorkspaceError>)
        requires
            old(files).wf(),
            document.wf(),
        ensures
            final(files).wf(),
            (number_outcome(r), final(files)@) == override_saved(
                old(files)@,
                self@,
                environment_id@,
                document@,
                expected_number(expected),
            ),
    {
        if !same_text(document.id.as_str(), environment_id.as_str()) {
            return Err(
                WorkspaceError::InvalidFormat(
                    concat5(
                        "local override id '",
                        document.id.as_str(),
                        "' must match environment id '",
                        environment_id.as_str(),
                        "'",
                    ),
                ),
            );
        }
        match self.load_environment(files, environment_id) {
            Ok(_) => {},
            Err(e) => {
                return Err(e);
            },
        }
        match validate_variable_set_name(document.name.as_str()) {
            Ok(_) => {},
            Err(e) => {
                return Err(e);
            },
        }
        self.save_variable_set(
            files,
            place_of_override(environment_id).as_str(),
            document,
            expected,
        )
    }

    /// Deletes the local values of an environment, so long as they are as expected.
    pub fn delete_local_environment_override(
        &self,
        files: &mut FileTree,
        environment_id: &StableId,
        expected: FileFingerprint,
        nonce: u128,
    ) -> (r: Result<(), WorkspaceError>)
        requires
            old(files).wf(),
        ensures
            final(files).wf(),
            (plain_outcome(r), final(files)@) == override_deleted(
                old(files)@,
                self@,
                environment_id@,
                expected.number(),
                nonce,
            ),
    {
        let place = place_of_override(environment_id);
        match self.ensure_file_snapshot(files, place.as_str(), expected) {
            Ok(_) => {},
            Err(e) => {
                return Err(e);
            },
        }
        let ghost start = files@;
        let tombstone = temporary_sibling(place.as_str(), "delete", nonce);
        if !files.can_move(place.as_str(), tombstone.as_str()) {
            return Err(self.move_error(tombstone.as_str()));
        }
        let ghost all = file_deletion(place@, nonce);
        files.perform(FileAction::Rename { from: place, to: tombstone.clone() });
        files.perform(FileAction::RemoveTree(tombstone));
        proof {
            let a = seq![all[0]];
            let b = seq![all[1]];
            lemma_performed(start, a, b);
            assert(a + b =~= all);
        }
        Ok(())
    }

    /// Chooses the environment that is used by default, or none.
    pub fn set_default_environment(
        &self,
        files: &mut FileTree,
        environment_id: Option<&StableId>,
        expected_manifest: FileFingerprint,
    ) -> (r: Result<FileFingerprint, WorkspaceError>)
        requires
            old(files).wf(),
        ensures
            final(files).wf(),
            (number_outcome(r), final(files)@) == default_set(
                old(files)@,
                self@,
                optional_id(environment_id),
                expected_manifest.number(),
            ),
    {
        if let Some(id) = environment_id {
            match self.load_environment(files, id) {
                Ok(_) => {},
                Err(e) => {
                    return Err(e);
                },
            }
        }
        let loaded = match self.load_manifest(files) {
            Ok(d) => d,
            Err(e) => {
                return Err(e);
            },
        };
        proof {
            FileFingerprint::lemma_same(loaded.fingerprint, expected_manifest);
        }
        if loaded.fingerprint != expected_manifest {
            return Err(WorkspaceError::ExternalChange(loaded.path));
        }
        let mut manifest = loaded.value;
        let ghost before = manifest@;
        manifest.default_environment = match environment_id {
            Some(id) => Some(id.as_str().to_owned()),
            None => None,
        };
        assert(manifest@ =~= (ManifestView {
            default_environment: optional_id(environment_id),
            ..before
        }));
        self.save_manifest(files, &manifest, Some(expected_manifest))
    }

    fn remove_environment(
        &self,
        files: &mut FileTree,
        id: &StableId,
        with_override: bool,
        trash: String,
        nonce: u128,
    ) -> (r: Result<(), WorkspaceError>)
        requires
            old(files).wf(),
            trash@ == trash_place(id@, nonce),
        ensures
            final(files).wf(),
            (plain_outcome(r), final(files)@) == environment_removed(
                old(files)@,
                self@,
                id@,
                with_override,
                nonce,
            ),
    {
        let ghost start = files@;
        let ghost all = environment_deletion(id@, with_override, nonce);
        let place = place_of_environment(id);
        let kept = path_in(trash.as_str(), "environment.toml");
        files.perform(FileAction::MakeDirectories(trash.clone()));
        if !files.can_move(place.as_str(), kept.as_str()) {
            return Err(self.move_error(kept.as_str()));
        }
        files.perform(FileAction::Rename { from: place.clone(), to: kept.clone() });
        proof {
            let a = seq![all[0]];
            let b = seq![all[1]];
            lemma_performed(start, a, b);
            assert(all.take(2) =~= a + b);
        }
        if with_override {
            let local = place_of_override(id);
            let local_kept = path_in(trash.as_str(), "local.toml");
            if !files.can_move(local.as_str(), local_kept.as_str()) {
                files.perform(FileAction::Rename { from: kept, to: place });
                files.perform(FileAction::RemoveTree(trash));
                return Err(self.move_error(local_kept.as_str()));
            }
            files.perform(FileAction::Rename { from: local, to: local_kept });
            proof {
                lemma_performed(start, all.take(2), seq![all[2]]);
                assert(all.take(2) + seq![all[2]] =~= all.take(3));
            }
        }
        files.perform(FileAction::RemoveTree(trash));
        proof {
            let n = all.len() - 1;
            assert(files@ == performed(performed(start, all.take(n)), seq![all[n]]));
            lemma_performed(start, all.take(n), seq![all[n]]);
            assert(all.take(n) + seq![all[n]] =~= all);
        }
        Ok(())
    }

    /// Deletes an environment with its local values, so long as it is as expected and not
    /// the one used by default. Of these files nothing is left; where they stand on disk,
    /// [`deletion_receipt`] says what is.
    pub fn delete_environment(
        &self,
        files: &mut FileTree,
        id: &StableId,
        expected: FileFingerprint,
        nonce: u128,
    ) -> (r: Result<EnvironmentDeletionReceipt, WorkspaceError>)
        requires
            old(files).wf(),
        ensures
            final(files).wf(),
            match r {
                Ok(receipt) => (Ok::<(), WorkspaceErrorView>(()), final(files)@)
                    == environment_deleted(
                    old(files)@,
                    self@,
                    id@,
                    expected.number(),
                    nonce,
                ) && receipt.id@ == id@ && receipt.cleanup_pending is None,
                Err(e) => (Err::<(), WorkspaceErrorView>(e@), final(files)@)
                    == environment_deleted(
                    old(files)@,
                    self@,
                    id@,
                    expected.number(),
                    nonce,
                ),
            },
    {
        let manifest = match self.load_manifest(files) {
            Ok(d) => d,
            Err(e) => {
                return Err(e);
            },
        };
        let is_default = match &manifest.value.default_environment {
            Some(default) => same_text(default.as_str(), id.as_str()),
            None => false,
        };
        if is_default {
            return Err(
                WorkspaceError::InvalidFormat(
                    concat3(
                        "environment '",
                        id.as_str(),
                        "' is the workspace default; select another default before deletion",
                    ),
                ),
            );
        }
        let place = place_of_environment(id);
        match self.ensure_file_snapshot(files, place.as_str(), expected) {
            Ok(_) => {},
            Err(e) => {
                return Err(e);
            },
        }
        match self.load_environment(files, id) {
            Ok(_) => {},
            Err(e) => {
                return Err(e);
            },
        }
        let local = match self.load_local_environment_override(files, id) {
            Ok(d) => d,
            Err(e) => {
                return Err(e);
            },
        };
        let trash = place_of_trash(id, nonce);
        if files.is_blocked(trash.as_str()) {
            return Err(self.blocked_error(trash.as_str()));
        }
        match self.remove_environment(files, id, local.is_some(), trash, nonce) {
            Ok(_) => {},
            Err(e) => {
                return Err(e);
            },
        }
        Ok(EnvironmentDeletionReceipt { id: id.copy(), cleanup_pending: None })
    }

    fn environment_summary(&self, files: &FileTree, name: &str) -> (r: Result<
        Option<EnvironmentSummary>,
        WorkspaceError,
    >)
        requires
            files.wf(),
        ensures
            match r {
                Ok(Some(s)) => summary_of(files@.nodes, self@, name@) == Ok::<
                    Option<SummaryView>,
                    WorkspaceErrorView,
                >(Some(s@)),
                Ok(None) => summary_of(files@.nodes, self@, name@) == Ok::<
                    Option<SummaryView>,
                    WorkspaceErrorView,
                >(None),
                Err(e) => summary_of(files@.nodes, self@, name@) == Err::<
                    Option<SummaryView>,
                    WorkspaceErrorView,
                >(e@),
            },
    {
        let place = path_in("environments", name);
        match files.node(place.as_str()) {
            Some(FileNode::File(_)) => {},
            _ => {
                return Ok(None);
            },
        }
        match name_extension(name) {
            Some(extension) => {
                if !same_text(extension.as_str(), "toml") {
                    return Ok(None);
                }
            },
            None => {
                return Ok(None);
            },
        }
        let loaded = match self.load_variable_set(files, place.as_str()) {
            Ok(d) => d,
            Err(e) => {
                return Err(e);
            },
        };
        let has_local_override = files.is_there(place_of_override(&loaded.value.id).as_str());
        Ok(
            Some(
                EnvironmentSummary {
                    id: loaded.value.id,
                    name: loaded.value.name,
                    path: loaded.path,
                    variable_count: loaded.value.variables.len(),
                    has_local_override,
                },
            ),
        )
    }

    /// Lists the environments: by name without regard to case, and then by identifier.
    pub fn list_environments(&self, files: &FileTree) -> (r: Result<
        Vec<EnvironmentSummary>,
        WorkspaceError,
    >)
        requires
            files.wf(),
        ensures
            match r {
                Ok(list) => environments_listed(files@.nodes, self@) == Ok::<
                    Seq<SummaryView>,
                    WorkspaceErrorView,
                >(views(list@)),
                Err(e) => environments_listed(files@.nodes, self@) == Err::<
                    Seq<SummaryView>,
                    WorkspaceErrorView,
                >(e@),
            },
    {
        let mut list: Vec<EnvironmentSummary> = Vec::new();
        assert(views(list@) =~= seq![]);
        if !files.is_there("environments") {
            return Ok(list);
        }
        if !files.can_be_entered("environments") {
            return Err(
                WorkspaceError::Io(
                    concat2("cannot read ", self.path_of("environments").as_text()),
                ),
            );
        }
        let names = files.names_in("environments");
        let ghost nodes = files@.nodes;
        let ghost all = texts(names@);
        assert(all.take(0) =~= seq![]);
        for i in 0..names.len()
            invariant
                files.wf(),
                nodes == files@.nodes,
                all == texts(names@),
                all == sorted_texts(entry_names(nodes, "environments"@)),
                can_be_entered(nodes, "environments"@),
                summaries_of(nodes, self@, all.take(i as int)) == Ok::<
                    Seq<SummaryView>,
                    WorkspaceErrorView,
                >(views(list@)),
        {
            proof {
                assert(all.take(i + 1).drop_last() =~= all.take(i as int));
                assert(all.take(i + 1).last() == names@[i as int]@);
            }
            match self.environment_summary(files, names[i].as_str()) {
                Ok(None) => {},
                Ok(Some(s)) => {
                    let ghost before = list@;
                    let ghost v = s@;
                    list.push(s);
                    assert(views(list@) =~= views(before).push(v));
                },
                Err(e) => {
                    proof {
                        lemma_summaries_error(nodes, self@, all, i + 1);
                    }
                    return Err(e);
                },
            }
        }
        assert(all.take(all.len() as int) =~= all);
        Ok(sort_stable(list))
    }
}

} // verus!
