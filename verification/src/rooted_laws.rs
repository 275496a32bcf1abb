//! All that is there lies in directories that are there, whatever is done.
use crate::collection::{
    collection_text, folder_text, new_named, COLLECTION_FILE, FOLDER_FILE,
};
use crate::domain::is_slug;
use crate::environment_operation::environment_done;
use crate::files::{
    blocked, can_be_entered, can_move, cleared, effect, entry_path, has_room, holds_entries,
    is_entry_name, is_there, lemma_parent_is_shorter, lemma_performed, lemma_under_transitive,
    moved_path, nothing_below, parent_place, performed, possible, rooted, tree_order, under,
    with_directories, ActionView, FilesView, Nodes,
};
use crate::fingerprint::directory_digest;
use crate::lines::starts_with;
use crate::manifest::{manifest_text, ManifestView};
use crate::naming::{temporary_place, IdSource};
use crate::number::{decimal, lemma_decimal};
use crate::repository::{
    collection_place, folder_place, lemma_folder_place, write_actions, written,
};
use crate::repository_collections::{
    created, creation_actions, deleted, deletion_actions, duplicated, lemma_temporary_not_empty,
    rekeyed, rekeyed_collection, rekeyed_file, rekeyed_files, relocation, renamed, snapshot_check,
    tree_files, Rekeying,
};
use crate::repository_documents::{
    directories_made, environment_place, first_directories, ignore_file_made, initialized,
    override_place,
};
use crate::repository_environments::{
    environment_deleted, environment_deletion, environment_removed, override_deleted, trash_place,
};
use crate::tree_laws::{
    lemma_entry_parts, lemma_moved_there_and_back, lemma_one_change, lemma_parent_of_entry,
    lemma_parent_under, lemma_slug_is_entry_name, lemma_temporary_apart,
};
use crate::workspace_effect::{command_done, folder_digest, operation_done};
use crate::workspace_operation::{operation_asked, AncestryView, OperationView};
use vstd::prelude::*;
use vstd::utf8::encode_utf8;

verus! {

/// What is there has directories above it all the way up.
pub proof fn law_directories_above_are_there(nodes: Nodes, directory: Seq<char>, path: Seq<char>)
    requires
        rooted(nodes),
        nodes.dom().contains(path),
        under(directory, path),
        directory != path,
        directory.len() > 0,
    ensures
        can_be_entered(nodes, directory),
    decreases path.len(),
{
    lemma_parent_under(directory, path);
    lemma_parent_is_shorter(path);
    let parent = parent_place(path);
    assert(parent.len() >= directory.len()) by {
        if parent != directory {
            let front = directory + seq!['/'];
            assert(starts_with(parent, front));
        }
    }
    assert(has_room(nodes, path));
    if parent != directory {
        law_directories_above_are_there(nodes, directory, parent);
    }
}

/// Nothing lies below what is not there, or what cannot be entered.
pub proof fn law_nothing_lies_below_what_is_not_there(nodes: Nodes, place: Seq<char>)
    requires
        rooted(nodes),
        place.len() > 0,
        !can_be_entered(nodes, place),
    ensures
        nothing_below(nodes, place),
        !nodes.dom().contains(place) ==> forall|k: Seq<char>| #[trigger]
            under(place, k) ==> !nodes.dom().contains(k),
{
    assert forall|k: Seq<char>| #[trigger] nodes.dom().contains(k) implies k == place || !under(
        place,
        k,
    ) by {
        if under(place, k) && k != place {
            law_directories_above_are_there(nodes, place, k);
        }
    }
    if !nodes.dom().contains(place) {
        assert forall|k: Seq<char>| #[trigger] under(place, k) implies !nodes.dom().contains(k) by {
            if nodes.dom().contains(k) {
                assert(k == place || !under(place, k));
            }
        }
    }
}

/// A directory lies above what is in it.
proof fn lemma_under_parent(path: Seq<char>)
    requires
        parent_place(path).len() > 0,
    ensures
        under(parent_place(path), path),
        parent_place(path) != path,
{
    lemma_parent_is_shorter(path);
    let parent = parent_place(path);
    let n = parent.len() as int;
    if path.len() > 0 {
        assert(path.take(n + 1) =~= parent + seq!['/']) by {
            assert(path.take(n) == parent);
            assert(path[n] == '/');
            assert forall|i: int| 0 <= i < n implies path[i] == parent[i] by {
                assert(path.take(n)[i] == path[i]);
            }
        }
    }
}

/// Directories that can be made are not in the way of each other.
proof fn lemma_open_above(nodes: Nodes, directory: Seq<char>, path: Seq<char>)
    requires
        !blocked(nodes, path),
        under(directory, path),
        directory.len() > 0,
        nodes.dom().contains(directory),
    ensures
        holds_entries(nodes[directory]),
    decreases path.len(),
{
    if directory != path {
        lemma_parent_under(directory, path);
        lemma_parent_is_shorter(path);
        lemma_open_above(nodes, directory, parent_place(path));
    }
}

/// Making directories keeps all in directories.
pub proof fn lemma_making_keeps_rooted(nodes: Nodes, path: Seq<char>)
    requires
        rooted(nodes),
        !blocked(nodes, path),
    ensures
        rooted(with_directories(nodes, path)),
        path.len() > 0 ==> can_be_entered(with_directories(nodes, path), path),
{
    let after = with_directories(nodes, path);
    assert forall|k: Seq<char>| #[trigger] after.dom().contains(k) implies has_room(after, k) by {
        let parent = parent_place(k);
        if parent.len() > 0 {
            if nodes.dom().contains(k) {
                assert(has_room(nodes, k));
            } else {
                lemma_under_parent(k);
                lemma_under_transitive(parent, k, path);
                if nodes.dom().contains(parent) {
                    lemma_open_above(nodes, parent, path);
                }
            }
        }
    }
    if path.len() > 0 && nodes.dom().contains(path) {
        assert(under(path, path));
        lemma_open_above(nodes, path, path);
    }
}

proof fn lemma_writing_keeps_rooted(nodes: Nodes, path: Seq<char>, bytes: Seq<u8>)
    requires
        rooted(nodes),
        has_room(nodes, path),
        !can_be_entered(nodes, path),
    ensures
        rooted(effect(nodes, ActionView::Write { path, bytes })),
{
    let after = effect(nodes, ActionView::Write { path, bytes });
    lemma_parent_is_shorter(path);
    assert forall|k: Seq<char>| #[trigger] after.dom().contains(k) implies has_room(after, k) by {
        if k != path {
            assert(has_room(nodes, k));
        } else if parent_place(path) == path {
            assert(path.len() == 0);
        }
    }
}

proof fn lemma_moved_parent(from: Seq<char>, to: Seq<char>, path: Seq<char>)
    requires
        under(from, path),
        path != from,
    ensures
        under(from, parent_place(path)),
        parent_place(moved_path(from, to, path)) == moved_path(from, to, parent_place(path)),
    decreases path.len(),
{
    let front = from + seq!['/'];
    assert(path.take(front.len() as int)[from.len() as int] == '/');
    assert(path[from.len() as int] == '/');
    lemma_parent_under(from, path);
    let m = moved_path(from, to, path);
    let n = from.len() as int;
    assert(m.last() == path.last());
    if path.last() == '/' {
        assert(m.drop_last() =~= moved_path(from, to, path.drop_last()));
    } else {
        let shorter = path.drop_last();
        assert(shorter.len() >= front.len()) by {
            if path.len() == front.len() {
                assert(path.last() == path[n]);
            }
        }
        assert(shorter.take(front.len() as int) =~= path.take(front.len() as int));
        assert(under(from, shorter));
        assert(shorter != from);
        lemma_moved_parent(from, to, shorter);
        assert(m.drop_last() =~= moved_path(from, to, shorter));
    }
}

/// What has been moved or copied lies in directories as it did.
proof fn lemma_copies_rooted(
    nodes: Nodes,
    base: Nodes,
    after: Nodes,
    from: Seq<char>,
    to: Seq<char>,
)
    requires
        rooted(nodes),
        nodes.dom().contains(from),
        from.len() > 0,
        to.len() > 0,
        has_room(base, to),
        forall|k: Seq<char>| #[trigger]
            after.dom().contains(k) ==> {
                ||| base.dom().contains(k) && !under(to, k) && has_room(base, k)
                ||| under(to, k) && nodes.dom().contains(moved_path(to, from, k))
            },
        forall|k: Seq<char>| #[trigger]
            base.dom().contains(k) && !under(to, k) ==> after.dom().contains(k) && after[k]
                == base[k],
        forall|k: Seq<char>| #[trigger]
            under(to, k) && nodes.dom().contains(moved_path(to, from, k)) ==> after.dom().contains(k)
                && (holds_entries(nodes[moved_path(to, from, k)]) ==> holds_entries(after[k])),
    ensures
        rooted(after),
{
    lemma_parent_is_shorter(to);
    assert forall|k: Seq<char>| #[trigger] after.dom().contains(k) implies has_room(after, k) by {
        let parent = parent_place(k);
        if parent.len() > 0 {
            lemma_under_parent(k);
            if under(to, k) && nodes.dom().contains(moved_path(to, from, k)) {
                let m = moved_path(to, from, k);
                if k == to {
                    assert(!under(to, parent)) by {
                        if under(to, parent) && parent != to {
                            let front = to + seq!['/'];
                            assert(parent.len() >= front.len());
                        }
                    }
                    assert(base.dom().contains(parent) && !under(to, parent));
                    assert(can_be_entered(after, parent));
                } else {
                    lemma_moved_parent(to, from, k);
                    lemma_moved_there_and_back(to, from, k);
                    assert(m != from) by {
                        if m == from {
                            assert(moved_path(from, to, from) =~= to) by {
                                assert(from.skip(from.len() as int) =~= seq![]);
                            }
                        }
                    }
                    assert(has_room(nodes, m));
                    let mp = moved_path(to, from, parent);
                    assert(parent_place(m) == mp);
                    assert(mp.len() > 0);
                    assert(can_be_entered(nodes, mp));
                    assert(under(to, parent) && nodes.dom().contains(moved_path(to, from, parent)));
                    assert(can_be_entered(after, parent));
                }
            } else {
                assert(has_room(base, k));
                assert(!under(to, parent)) by {
                    if under(to, parent) {
                        lemma_under_transitive(to, parent, k);
                    }
                }
                assert(base.dom().contains(parent));
            }
        }
    }
}

/// A change that can be made on a disk leaves all in directories.
pub proof fn law_changes_keep_all_in_directories(nodes: Nodes, action: ActionView)
    requires
        rooted(nodes),
        possible(nodes, action),
        action matches ActionView::CopyTree { from, to } ==> from.len() > 0 && to.len() > 0,
        action matches ActionView::Rename { from, to } ==> from.len() > 0 && to.len() > 0,
    ensures
        rooted(effect(nodes, action)),
{
    let after = effect(nodes, action);
    match action {
        ActionView::MakeDirectories(path) => {
            lemma_making_keeps_rooted(nodes, path);
        },
        ActionView::Write { path, bytes } => {
            lemma_writing_keeps_rooted(nodes, path, bytes);
        },
        ActionView::RemoveTree(path) => {
            assert forall|k: Seq<char>| #[trigger] after.dom().contains(k) implies has_room(
                after,
                k,
            ) by {
                assert(has_room(nodes, k));
                let parent = parent_place(k);
                if parent.len() > 0 && under(path, parent) {
                    lemma_under_parent(k);
                    lemma_under_transitive(path, parent, k);
                }
            }
        },
        ActionView::Rename { from, to } => {
            let base = crate::files::without_tree(nodes, from);
            assert forall|k: Seq<char>| #[trigger] base.dom().contains(k) implies has_room(base, k) by {
                assert(has_room(nodes, k));
                let parent = parent_place(k);
                if parent.len() > 0 && under(from, parent) {
                    lemma_under_parent(k);
                    lemma_under_transitive(from, parent, k);
                }
            }
            if parent_place(to).len() > 0 && under(from, parent_place(to)) {
                lemma_under_parent(to);
                lemma_under_transitive(from, parent_place(to), to);
            }
            lemma_copies_rooted(nodes, base, after, from, to);
        },
        ActionView::CopyTree { from, to } => {
            law_nothing_lies_below_what_is_not_there(nodes, to);
            assert(moved_path(to, from, to) =~= from) by {
                assert(to.skip(to.len() as int) =~= seq![]);
            }
            assert forall|k: Seq<char>| #[trigger] after.dom().contains(k) implies {
                ||| nodes.dom().contains(k) && !under(to, k) && has_room(nodes, k)
                ||| under(to, k) && nodes.dom().contains(moved_path(to, from, k))
            } by {
                if nodes.dom().contains(k) {
                    assert(has_room(nodes, k));
                }
            }
            lemma_copies_rooted(nodes, nodes, after, from, to);
        },
    }
}

proof fn lemma_removed_rooted(files: FilesView, path: Seq<char>)
    requires
        rooted(files.nodes),
    ensures
        rooted(performed(files, seq![ActionView::RemoveTree(path)]).nodes),
        rooted(cleared(files, path).nodes),
{
    lemma_one_change(files, ActionView::RemoveTree(path));
    law_changes_keep_all_in_directories(files.nodes, ActionView::RemoveTree(path));
}

proof fn lemma_moved_rooted(files: FilesView, from: Seq<char>, to: Seq<char>)
    requires
        rooted(files.nodes),
        from.len() > 0,
        to.len() > 0,
        can_move(files.nodes, from, to),
    ensures
        rooted(performed(files, seq![ActionView::Rename { from, to }]).nodes),
{
    lemma_one_change(files, ActionView::Rename { from, to });
    law_changes_keep_all_in_directories(files.nodes, ActionView::Rename { from, to });
}

/// Writing a file keeps all in directories.
pub proof fn law_writing_keeps_all_in_directories(
    files: FilesView,
    root: Seq<char>,
    place: Seq<char>,
    text: Seq<char>,
    expected: Option<u64>,
)
    requires
        rooted(files.nodes),
    ensures
        rooted(written(files, root, place, text, expected).1.nodes),
{
    let (r, after) = written(files, root, place, text, expected);
    if r is Ok {
        let parent = parent_place(place);
        let made = with_directories(files.nodes, parent);
        let all = write_actions(place, encode_utf8(text));
        assert(all.drop_last() =~= seq![all[0]]);
        assert(all.last() == all[1]);
        lemma_one_change(files, all[0]);
        lemma_making_keeps_rooted(files.nodes, parent);
        lemma_parent_is_shorter(place);
        assert(!can_be_entered(made, place)) by {
            if place.len() > 0 && under(place, parent) && place != parent {
                let front = place + seq!['/'];
                assert(parent.len() >= front.len());
            }
        }
        lemma_writing_keeps_rooted(made, place, encode_utf8(text));
    }
}

/// What can be entered is not in the way of anything below it.
proof fn lemma_entered_is_open(nodes: Nodes, directory: Seq<char>)
    requires
        rooted(nodes),
        directory.len() == 0 || can_be_entered(nodes, directory),
    ensures
        !blocked(nodes, directory),
    decreases directory.len(),
{
    if directory.len() > 0 {
        lemma_parent_is_shorter(directory);
        assert(has_room(nodes, directory));
        lemma_entered_is_open(nodes, parent_place(directory));
    }
}

proof fn lemma_temporary_parent(
    parent: Seq<char>,
    slug: Seq<char>,
    operation: Seq<char>,
    nonce: u128,
)
    requires
        parent.len() > 0,
        is_slug(slug),
        !operation.contains('/'),
    ensures
        parent_place(temporary_place(entry_path(parent, slug), operation, nonce)) == parent,
        parent_place(entry_path(parent, slug)) == parent,
{
    lemma_slug_is_entry_name(slug);
    lemma_entry_parts(parent, slug);
    lemma_decimal(nonce as nat);
    reveal_strlit(".");
    reveal_strlit(".tmp");
    let digits = decimal(nonce as nat);
    let name = "."@ + slug + "."@ + operation + "."@ + digits + ".tmp"@;
    assert(!name.contains('/')) by {
        if name.contains('/') {
            let i = choose|i: int| 0 <= i < name.len() && name[i] == '/';
            let a = slug.len() as int;
            let b = operation.len() as int;
            let c = digits.len() as int;
            if 1 <= i < 1 + a {
                assert(slug[i - 1] == '/');
                assert(slug.contains(slug[i - 1]));
            } else if 2 + a <= i < 2 + a + b {
                assert(operation[i - 2 - a] == '/');
                assert(operation.contains(operation[i - 2 - a]));
            } else if 3 + a + b <= i < 3 + a + b + c {
                assert(digits[i - 3 - a - b] == '/');
            }
        }
    }
    lemma_parent_of_entry(parent, name);
}

/// Making a directory with metadata keeps all in directories.
pub proof fn law_creating_keeps_all_in_directories(
    files: FilesView,
    root: Seq<char>,
    parent: Seq<char>,
    slug: Seq<char>,
    name: Seq<char>,
    text: Seq<char>,
    nonce: u128,
)
    requires
        rooted(files.nodes),
        parent.len() > 0,
        is_slug(slug),
        is_entry_name(name),
    ensures
        rooted(created(files, root, entry_path(parent, slug), name, text, nonce).1.nodes),
{
    let place = entry_path(parent, slug);
    let temporary = temporary_place(place, "create"@, nonce);
    reveal_strlit("create");
    lemma_temporary_parent(parent, slug, "create"@, nonce);
    lemma_temporary_apart(parent, slug, "create"@, nonce);
    let all = creation_actions(place, name, text, nonce);
    if !is_there(files.nodes, place) && !blocked(files.nodes, parent)
        && !files.nodes.dom().contains(place) {
        lemma_one_change(files, all[0]);
        lemma_making_keeps_rooted(files.nodes, parent);
        let made = performed(files, seq![all[0]]);
        if files.nodes.dom().contains(temporary) {
            lemma_removed_rooted(made, temporary);
        } else {
            assert(temporary.len() > parent.len());
            assert(!made.nodes.dom().contains(temporary)) by {
                if under(temporary, parent) && temporary != parent {
                    assert(parent.len() >= (temporary + seq!['/']).len());
                }
            }
            lemma_entered_is_open(made.nodes, parent);
            lemma_one_change(made, all[1]);
            lemma_making_keeps_rooted(made.nodes, temporary);
            law_nothing_lies_below_what_is_not_there(made.nodes, temporary);
            let opened = performed(made, seq![all[1]]);
            let file = entry_path(temporary, name);
            lemma_entry_parts(temporary, name);
            assert(!opened.nodes.dom().contains(file)) by {
                assert(file.take(temporary.len() as int + 1) =~= temporary + seq!['/']);
                assert(under(temporary, file));
                if under(file, temporary) && file != temporary {
                    assert(temporary.len() >= (file + seq!['/']).len());
                }
            }
            lemma_one_change(opened, all[2]);
            law_changes_keep_all_in_directories(opened.nodes, all[2]);
            let filled = performed(opened, seq![all[2]]);
            assert(file != parent) by {
                assert(file.len() > parent.len());
            }
            assert(parent != temporary);
            assert(can_be_entered(filled.nodes, parent));
            assert(!filled.nodes.dom().contains(place)) by {
                if under(place, parent) && place != parent {
                    assert(parent.len() >= (place + seq!['/']).len());
                }
                if place == file {
                    assert(under(temporary, place));
                }
            }
            lemma_moved_rooted(filled, temporary, place);
            let a = seq![all[0]];
            let b = seq![all[1]];
            let c = seq![all[2]];
            let d = seq![all[3]];
            lemma_performed(files, a, b);
            lemma_performed(files, a + b, c);
            lemma_performed(files, a + b + c, d);
            assert(a + b + c + d =~= all);
        }
    }
}

/// Giving a directory another place keeps all in directories.
pub proof fn law_renaming_keeps_all_in_directories(
    files: FilesView,
    root: Seq<char>,
    source: Seq<char>,
    target: Seq<char>,
    expected: u64,
)
    requires
        rooted(files.nodes),
        source.len() > 0,
        target.len() > 0,
    ensures
        rooted(renamed(files, root, source, target, expected).1.nodes),
{
    if can_move(files.nodes, source, target) {
        lemma_moved_rooted(files, source, target);
    }
}

/// Deleting a directory, or a file, keeps all in directories.
pub proof fn law_deleting_keeps_all_in_directories(
    files: FilesView,
    root: Seq<char>,
    place: Seq<char>,
    id: Seq<char>,
    expected: u64,
    nonce: u128,
)
    requires
        rooted(files.nodes),
        place.len() > 0,
    ensures
        rooted(deleted(files, root, place, expected, nonce).1.nodes),
        rooted(override_deleted(files, root, id, expected, nonce).1.nodes),
{
    lemma_deletion_rooted(files, place, nonce);
    reveal_strlit(".apex/environments");
    lemma_deletion_rooted(files, override_place(id), nonce);
}

proof fn lemma_deletion_rooted(files: FilesView, place: Seq<char>, nonce: u128)
    requires
        rooted(files.nodes),
        place.len() > 0,
    ensures
        can_move(files.nodes, place, temporary_place(place, "delete"@, nonce)) ==> rooted(
            performed(files, deletion_actions(place, nonce)).nodes,
        ),
{
    let tombstone = temporary_place(place, "delete"@, nonce);
    lemma_temporary_not_empty(place, "delete"@, nonce);
    if can_move(files.nodes, place, tombstone) {
        let all = deletion_actions(place, nonce);
        assert(seq![all[0]] + seq![all[1]] =~= all);
        lemma_performed(files, seq![all[0]], seq![all[1]]);
        lemma_moved_rooted(files, place, tombstone);
        lemma_removed_rooted(performed(files, seq![all[0]]), tombstone);
    }
}

proof fn lemma_rekeying_rooted(
    state: Rekeying,
    root: Seq<char>,
    list: Seq<Seq<char>>,
    leaks: Seq<Seq<Seq<char>>>,
)
    requires
        rooted(state.files.nodes),
    ensures
        rooted(rekeyed_files(state, root, list, leaks).1.files.nodes),
    decreases list.len(),
{
    if list.len() > 0 {
        lemma_rekeying_rooted(state, root, list.drop_last(), leaks);
        let (r, before) = rekeyed_files(state, root, list.drop_last(), leaks);
        lemma_file_rekeyed_rooted(before, root, list.last(), leaks);
    }
}

proof fn lemma_file_rekeyed_rooted(
    state: Rekeying,
    root: Seq<char>,
    place: Seq<char>,
    leaks: Seq<Seq<Seq<char>>>,
)
    requires
        rooted(state.files.nodes),
    ensures
        rooted(rekeyed_file(state, root, place, leaks).1.files.nodes),
{
    assert forall|text: Seq<char>, expected: Option<u64>| rooted(
        (#[trigger] written(state.files, root, place, text, expected)).1.nodes,
    ) by {
        law_writing_keeps_all_in_directories(state.files, root, place, text, expected);
    }
}

proof fn lemma_rekeyed_rooted(
    state: Rekeying,
    root: Seq<char>,
    place: Seq<char>,
    slug: Option<Seq<char>>,
    leaks: Seq<Seq<Seq<char>>>,
)
    requires
        rooted(state.files.nodes),
    ensures
        rooted(rekeyed(state, root, place, slug, leaks).1.files.nodes),
{
    let file = entry_path(place, COLLECTION_FILE@);
    assert forall|text: Seq<char>, expected: Option<u64>| rooted(
        (#[trigger] written(state.files, root, file, text, expected)).1.nodes,
    ) by {
        law_writing_keeps_all_in_directories(state.files, root, file, text, expected);
    }
    let (r, first) = rekeyed_collection(state, root, place, slug);
    assert(rooted(first.files.nodes));
    if r is Ok {
        if let Ok(list) = tree_files(
            first.files.nodes,
            root,
            tree_order(first.files.nodes, place),
        ) {
            lemma_rekeying_rooted(first, root, list, leaks);
        }
    }
}

/// Copying a directory keeps all in directories, whether it succeeds or fails.
pub proof fn law_copying_keeps_all_in_directories(
    files: FilesView,
    root: Seq<char>,
    source: Seq<char>,
    target: Seq<char>,
    expected: u64,
    slug: Option<Seq<char>>,
    ids: IdSource,
    leaks: Seq<Seq<Seq<char>>>,
    nonce: u128,
)
    requires
        rooted(files.nodes),
        source.len() > 0,
        target.len() > 0,
    ensures
        rooted(
            duplicated(files, root, source, target, expected, slug, ids, leaks, nonce).1.nodes,
        ),
{
    let temporary = temporary_place(target, "copy"@, nonce);
    lemma_temporary_not_empty(target, "copy"@, nonce);
    let copy = ActionView::CopyTree { from: source, to: temporary };
    if snapshot_check(files.nodes, root, source, expected) is Ok && !is_there(files.nodes, target) {
        if files.nodes.dom().contains(temporary) || !has_room(files.nodes, temporary) {
            lemma_removed_rooted(files, temporary);
        } else {
            let copied = performed(files, seq![copy]);
            lemma_one_change(files, copy);
            law_changes_keep_all_in_directories(files.nodes, copy);
            lemma_removed_rooted(copied, temporary);
            let state = Rekeying { files: copied, source: ids, requests: 0 };
            lemma_rekeyed_rooted(state, root, temporary, slug, leaks);
            let done = rekeyed(state, root, temporary, slug, leaks).1.files;
            lemma_removed_rooted(done, temporary);
            if can_move(done.nodes, temporary, target) {
                lemma_moved_rooted(done, temporary, target);
            }
        }
    }
}

proof fn lemma_directories_rooted(files: FilesView, root: Seq<char>, names: Seq<Seq<char>>)
    requires
        rooted(files.nodes),
    ensures
        rooted(directories_made(files, root, names).1.nodes),
    decreases names.len(),
{
    if names.len() > 0 {
        lemma_directories_rooted(files, root, names.drop_last());
        let (r, made) = directories_made(files, root, names.drop_last());
        if r is Ok && !blocked(made.nodes, names.last()) {
            lemma_one_change(made, ActionView::MakeDirectories(names.last()));
            lemma_making_keeps_rooted(made.nodes, names.last());
        }
    }
}

/// Setting a workspace up keeps all in directories.
pub proof fn law_setting_up_keeps_all_in_directories(
    files: FilesView,
    root: Seq<char>,
    manifest: ManifestView,
)
    requires
        rooted(files.nodes),
    ensures
        rooted(initialized(files, root, manifest).1.nodes),
{
    lemma_directories_rooted(files, root, first_directories());
    let made = directories_made(files, root, first_directories()).1;
    law_writing_keeps_all_in_directories(made, root, ".gitignore"@, ".apex/\n"@, None);
    let ready = ignore_file_made(made, root).1;
    law_writing_keeps_all_in_directories(
        ready,
        root,
        "apex.toml"@,
        manifest_text(manifest),
        None,
    );
}

/// Deleting an environment keeps all in directories, whether it succeeds or fails.
pub proof fn law_deleting_an_environment_keeps_all_in_directories(
    files: FilesView,
    root: Seq<char>,
    id: Seq<char>,
    expected: u64,
    nonce: u128,
)
    requires
        rooted(files.nodes),
    ensures
        rooted(environment_deleted(files, root, id, expected, nonce).1.nodes),
{
    if !blocked(files.nodes, trash_place(id, nonce)) {
        lemma_environment_removed_rooted(files, root, id, true, nonce);
        lemma_environment_removed_rooted(files, root, id, false, nonce);
    }
}

proof fn lemma_environment_removed_rooted(
    files: FilesView,
    root: Seq<char>,
    id: Seq<char>,
    with_override: bool,
    nonce: u128,
)
    requires
        rooted(files.nodes),
        !blocked(files.nodes, trash_place(id, nonce)),
    ensures
        rooted(environment_removed(files, root, id, with_override, nonce).1.nodes),
{
    let trash = trash_place(id, nonce);
    let place = environment_place(id);
    let local = override_place(id);
    let kept = entry_path(trash, "environment.toml"@);
    let local_kept = entry_path(trash, "local.toml"@);
    let all = environment_deletion(id, with_override, nonce);
    reveal_strlit("environments");
    reveal_strlit(".apex/environments");
    reveal_strlit(".apex/trash/environments");
    reveal_strlit("environment.toml");
    lemma_one_change(files, all[0]);
    lemma_making_keeps_rooted(files.nodes, trash);
    let made = performed(files, seq![all[0]]);
    if can_move(made.nodes, place, kept) {
        lemma_moved_rooted(made, place, kept);
        lemma_one_change(made, all[1]);
        let gone = performed(made, seq![all[1]]);
        lemma_performed(files, seq![all[0]], seq![all[1]]);
        if with_override {
            if can_move(gone.nodes, local, local_kept) {
                lemma_moved_rooted(gone, local, local_kept);
                let both = performed(gone, seq![all[2]]);
                lemma_removed_rooted(both, trash);
                lemma_performed(files, seq![all[0]] + seq![all[1]], seq![all[2]]);
                lemma_performed(
                    files,
                    seq![all[0]] + seq![all[1]] + seq![all[2]],
                    seq![all[3]],
                );
                assert(seq![all[0]] + seq![all[1]] + seq![all[2]] + seq![all[3]] =~= all);
            } else {
                assert(!under(kept, place)) by {
                    assert(place[0] == 'e');
                    assert(kept[0] == '.');
                    if under(kept, place) && kept != place {
                        let front = kept + seq!['/'];
                        assert(place.take(front.len() as int)[0] == front[0]);
                    }
                }
                lemma_back_rooted(made, place, kept);
                lemma_removed_rooted(
                    performed(gone, seq![ActionView::Rename { from: kept, to: place }]),
                    trash,
                );
            }
        } else {
            lemma_removed_rooted(gone, trash);
            lemma_performed(files, seq![all[0]] + seq![all[1]], seq![all[2]]);
            assert(seq![all[0]] + seq![all[1]] + seq![all[2]] =~= all);
        }
    }
}

/// What was moved can be moved back.
proof fn lemma_back_rooted(files: FilesView, from: Seq<char>, to: Seq<char>)
    requires
        rooted(files.nodes),
        from.len() > 0,
        to.len() > 0,
        can_move(files.nodes, from, to),
        !under(to, from),
    ensures
        ({
            let moved = performed(files, seq![ActionView::Rename { from, to }]);
            rooted(performed(moved, seq![ActionView::Rename { from: to, to: from }]).nodes)
        }),
{
    let moved = performed(files, seq![ActionView::Rename { from, to }]);
    lemma_one_change(files, ActionView::Rename { from, to });
    lemma_moved_rooted(files, from, to);
    assert(has_room(files.nodes, from));
    assert(moved_path(to, from, to) =~= from) by {
        assert(to.skip(to.len() as int) =~= seq![]);
    }
    assert(under(to, to));
    assert(moved.nodes.dom().contains(to));
    assert(under(from, from));
    assert(!moved.nodes.dom().contains(from));
    let parent = parent_place(from);
    if parent.len() > 0 {
        lemma_under_parent(from);
        assert(!under(from, parent)) by {
            if under(from, parent) {
                assert(parent.len() >= (from + seq!['/']).len());
            }
        }
        assert(!under(to, parent)) by {
            if under(to, parent) {
                lemma_under_transitive(to, parent, from);
            }
        }
        assert(can_be_entered(moved.nodes, parent));
    }
    lemma_moved_rooted(moved, to, from);
}

/// A command on collections, folders and requests keeps all in directories.
pub proof fn law_commands_keep_all_in_directories(
    files: FilesView,
    root: Seq<char>,
    command: Seq<char>,
    ancestry: Seq<AncestryView>,
    nonce: u128,
    ids: IdSource,
    leaks: Seq<Seq<Seq<char>>>,
)
    requires
        rooted(files.nodes),
    ensures
        rooted(command_done(files, root, command, ancestry, nonce, ids, leaks).1.nodes),
{
    if let Ok(operation) = operation_asked(root, command, ancestry) {
        lemma_operations_rooted(files, root, operation, nonce, ids, leaks);
    }
}

proof fn lemma_operations_rooted(
    files: FilesView,
    root: Seq<char>,
    operation: OperationView,
    nonce: u128,
    ids: IdSource,
    leaks: Seq<Seq<Seq<char>>>,
)
    requires
        rooted(files.nodes),
    ensures
        rooted(operation_done(files, root, operation, nonce, ids, leaks).1.nodes),
{
    reveal_strlit("collections");
    assert forall|place: Seq<char>, text: Seq<char>, expected: Option<u64>| rooted(
        (#[trigger] written(files, root, place, text, expected)).1.nodes,
    ) by {
        law_writing_keeps_all_in_directories(files, root, place, text, expected);
    }
    assert forall|source: Seq<char>, target: Seq<char>, expected: u64|
        source.len() > 0 && target.len() > 0 implies rooted(
        (#[trigger] renamed(files, root, source, target, expected)).1.nodes,
    ) by {
        law_renaming_keeps_all_in_directories(files, root, source, target, expected);
    }
    match operation {
        OperationView::CreateCollection { slug, id, name } => {
            reveal_strlit("collection.toml");
            if is_slug(slug) {
                law_creating_keeps_all_in_directories(
                    files,
                    root,
                    "collections"@,
                    slug,
                    COLLECTION_FILE@,
                    collection_text(new_named(id, name)),
                    nonce,
                );
            }
        },
        OperationView::CreateFolder { collection, folders, id, name } => {
            reveal_strlit("folder.toml");
            if folders.len() > 0 && folder_place(collection, folders) is Ok {
                lemma_folder_place(collection, folders.drop_last());
                law_creating_keeps_all_in_directories(
                    files,
                    root,
                    folder_place(collection, folders.drop_last())->Ok_0,
                    folders.last(),
                    FOLDER_FILE@,
                    folder_text(new_named(id, name)),
                    nonce,
                );
            }
        },
        OperationView::DuplicateCollection { source, target } => {
            if let (Ok(from), Ok(to)) = (collection_place(source), collection_place(target)) {
                if let Ok(expected) = directory_digest(files.nodes, root, from) {
                    law_copying_keeps_all_in_directories(
                        files,
                        root,
                        from,
                        to,
                        expected,
                        Some(target),
                        ids,
                        leaks,
                        nonce,
                    );
                }
            }
        },
        OperationView::DeleteCollection { slug } => {
            if let Ok(place) = collection_place(slug) {
                if let Ok(expected) = directory_digest(files.nodes, root, place) {
                    law_deleting_keeps_all_in_directories(files, root, place, slug, expected, nonce);
                }
            }
        },
        OperationView::RenameFolder { collection, folders, target } => {
            lemma_folder_place(collection, folders);
        },
        OperationView::MoveFolder { collection, folders, parents, target } => {
            lemma_folder_place(collection, folders);
            lemma_folder_place(collection, parents);
        },
        OperationView::DuplicateFolder { collection, folders, parents, target } => {
            lemma_folder_place(collection, folders);
            lemma_folder_place(collection, parents);
            if let Ok(expected) = folder_digest(files.nodes, root, collection, folders) {
                if let Ok((from, to)) = relocation(
                    files.nodes,
                    root,
                    collection,
                    folders,
                    parents,
                    target,
                    "cannot duplicate a folder into itself"@,
                ) {
                    law_copying_keeps_all_in_directories(
                        files,
                        root,
                        from,
                        to,
                        expected,
                        None,
                        ids,
                        leaks,
                        nonce,
                    );
                }
            }
        },
        OperationView::DeleteFolder { collection, folders } => {
            lemma_folder_place(collection, folders);
            if let Ok(place) = folder_place(collection, folders) {
                if let Ok(expected) = directory_digest(files.nodes, root, place) {
                    law_deleting_keeps_all_in_directories(
                        files,
                        root,
                        place,
                        collection,
                        expected,
                        nonce,
                    );
                }
            }
        },
        _ => {},
    }
}

/// A command on environments keeps all in directories.
pub proof fn law_environment_commands_keep_all_in_directories(
    files: FilesView,
    root: Seq<char>,
    command: Seq<char>,
    nonce: u128,
)
    requires
        rooted(files.nodes),
    ensures
        rooted(environment_done(files, root, command, nonce).1.nodes),
{
    assert forall|place: Seq<char>, text: Seq<char>, expected: Option<u64>| rooted(
        (#[trigger] written(files, root, place, text, expected)).1.nodes,
    ) by {
        law_writing_keeps_all_in_directories(files, root, place, text, expected);
    }
    assert forall|id: Seq<char>, expected: u64| rooted(
        (#[trigger] environment_deleted(files, root, id, expected, nonce)).1.nodes,
    ) by {
        law_deleting_an_environment_keeps_all_in_directories(files, root, id, expected, nonce);
    }
}

} // verus!
