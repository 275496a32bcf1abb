//! What operations on the directories of a workspace promise.
use crate::collection::{
    collection_text, collection_value, law_collection_round_trip, named_writable, COLLECTION_FILE,
    FOLDER_FILE, NamedView,
};
use crate::domain::{is_slug, is_slug_char};
use crate::error::WorkspaceErrorView;
use crate::files::{
    below, cleared, effect, entry_names, entry_path, file_bytes, is_directory, is_entry_name,
    lemma_below_shrinks, lemma_entry_below, lemma_entry_names_finite, lemma_under_transitive,
    moved_path, parent_place, performed, rooted, tree_order, tree_order_of, under, with_copies,
    with_directories, without_tree, ActionView, FilesView, Nodes,
};
use crate::fingerprint::{directory_digest, lemma_tree_order_is_there, path_below, survey};
use crate::lines::{ends_with, starts_with};
use crate::naming::{
    generated_text, law_generated_ids_differ, next_source, place_name, temporary_place, IdSource,
};
use crate::order::{lemma_sorted_texts, sorted_texts};
use crate::repository::{collection_place, write_actions, written, MAXIMUM_METADATA_BYTES};
use crate::repository_collections::{
    collection_created, creation_actions, deleted, deletion_actions, duplicated, rekeyed,
    rekeyed_collection, rekeyed_file, rekeyed_files, renamed, tree_files, Rekeying,
};
use crate::repository_documents::loaded_at;
use crate::repository_laws::law_readable_text_has_no_conflict;
use crate::rooted_laws::law_nothing_lies_below_what_is_not_there;
use vstd::prelude::*;
use vstd::utf8::{encode_utf8, encode_utf8_decode_utf8, encode_utf8_valid_utf8};

verus! {

/// What a path takes with it when it is moved.
pub proof fn lemma_moved_there_and_back(from: Seq<char>, to: Seq<char>, k: Seq<char>)
    requires
        under(from, k),
    ensures
        under(to, moved_path(from, to, k)),
        moved_path(to, from, moved_path(from, to, k)) == k,
{
    let rest = k.skip(from.len() as int);
    let m = moved_path(from, to, k);
    assert(m.skip(to.len() as int) =~= rest);
    if k == from {
        assert(rest =~= seq![]);
        assert(m =~= to);
    } else {
        let front = from + seq!['/'];
        assert(k.take(front.len() as int)[from.len() as int] == '/');
        assert(rest[0] == '/');
        assert(m.take(to.len() as int + 1) =~= to + seq!['/']);
    }
    assert(k =~= from + rest) by {
        if k != from {
            let front = from + seq!['/'];
            assert forall|i: int| 0 <= i < from.len() implies k[i] == from[i] by {
                assert(k.take(front.len() as int)[i] == front[i]);
            }
        }
    }
}

/// One change.
pub proof fn lemma_one_change(files: FilesView, action: ActionView)
    ensures
        performed(files, seq![action]).nodes == effect(files.nodes, action),
        performed(files, seq![action]).journal == files.journal.push(action),
{
    let one = seq![action];
    assert(one.drop_last() =~= seq![]);
    assert(performed(files, one.drop_last()) == files);
}

/// A directory that is renamed takes all it holds with it, and nothing else changes.
pub proof fn law_rename_moves_the_tree(
    files: FilesView,
    root: Seq<char>,
    source: Seq<char>,
    target: Seq<char>,
    expected: u64,
    path: Seq<char>,
)
    requires
        rooted(files.nodes),
        target.len() > 0,
        renamed(files, root, source, target, expected).1 != files,
    ensures
        ({
            let after = renamed(files, root, source, target, expected).1.nodes;
            &&& under(source, path) ==> !after.dom().contains(path)
            &&& under(source, path) && files.nodes.dom().contains(path) ==> after.dom().contains(
                moved_path(source, target, path),
            ) && after[moved_path(source, target, path)] == files.nodes[path]
            &&& !under(source, path) && !under(target, path) ==> (after.dom().contains(path)
                <==> files.nodes.dom().contains(path)) && (files.nodes.dom().contains(path)
                ==> after[path] == files.nodes[path])
        }),
{
    let action = ActionView::Rename { from: source, to: target };
    lemma_one_change(files, action);
    let after = renamed(files, root, source, target, expected).1.nodes;
    law_nothing_lies_below_what_is_not_there(files.nodes, target);
    assert(!under(target, source));
    if under(source, path) {
        lemma_moved_there_and_back(source, target, path);
        if under(target, path) {
            lemma_comparable(source, target, path);
        }
    }
}

/// Of two directories above the same path, one lies under the other.
pub proof fn lemma_comparable(a: Seq<char>, b: Seq<char>, path: Seq<char>)
    requires
        under(a, path),
        under(b, path),
    ensures
        under(a, b) || under(b, a),
{
    let x = a + seq!['/'];
    let y = b + seq!['/'];
    if path != a && path != b {
        if a.len() <= b.len() {
            lemma_prefix_of(a, b, path);
        } else {
            lemma_prefix_of(b, a, path);
        }
    }
}

proof fn lemma_prefix_of(a: Seq<char>, b: Seq<char>, path: Seq<char>)
    requires
        a.len() <= b.len(),
        starts_with(path, a + seq!['/']),
        starts_with(path, b + seq!['/']),
    ensures
        under(a, b),
{
    let x = a + seq!['/'];
    let y = b + seq!['/'];
    assert forall|i: int| 0 <= i < x.len() implies path[i] == x[i] by {
        assert(path.take(x.len() as int)[i] == x[i]);
    }
    assert forall|i: int| 0 <= i < y.len() implies path[i] == y[i] by {
        assert(path.take(y.len() as int)[i] == y[i]);
    }
    if a.len() == b.len() {
        assert(a =~= b) by {
            assert forall|i: int| 0 <= i < a.len() implies a[i] == b[i] by {
                assert(path[i] == x[i] && path[i] == y[i]);
            }
        }
    } else {
        assert(b.take(x.len() as int) =~= x) by {
            assert forall|i: int| 0 <= i < x.len() implies b[i] == x[i] by {
                assert(path[i] == x[i] && path[i] == y[i]);
            }
        }
    }
}

/// A directory that is deleted is gone with all it holds, and so is what stood where it is
/// moved aside to. Nothing else changes; where nothing stood there, that is all else.
pub proof fn law_deleted_tree_is_gone(
    files: FilesView,
    root: Seq<char>,
    place: Seq<char>,
    expected: u64,
    nonce: u128,
    path: Seq<char>,
)
    requires
        rooted(files.nodes),
        deleted(files, root, place, expected, nonce).0 is Ok,
    ensures
        ({
            let after = deleted(files, root, place, expected, nonce).1.nodes;
            let tombstone = temporary_place(place, "delete"@, nonce);
            &&& under(place, path) || under(tombstone, path) ==> !after.dom().contains(path)
            &&& !under(place, path) && !under(tombstone, path) ==> (after.dom().contains(path)
                <==> files.nodes.dom().contains(path)) && (files.nodes.dom().contains(path)
                ==> after[path] == files.nodes[path])
            &&& !files.nodes.dom().contains(tombstone) && under(tombstone, path)
                ==> !files.nodes.dom().contains(path)
        }),
{
    let tombstone = temporary_place(place, "delete"@, nonce);
    let all = deletion_actions(place, nonce);
    let one = seq![all[0]];
    assert(all.drop_last() =~= one);
    assert(all.last() == ActionView::RemoveTree(tombstone));
    lemma_one_change(files, all[0]);
    lemma_temporary(place, "delete"@, nonce);
    if !files.nodes.dom().contains(tombstone) {
        law_nothing_lies_below_what_is_not_there(files.nodes, tombstone);
    }
}

/// A collection that was made is what is read of it.
pub proof fn law_created_collection_is_loaded(
    files: FilesView,
    root: Seq<char>,
    slug: Seq<char>,
    document: NamedView,
    nonce: u128,
)
    requires
        named_writable(document, "collection_id"@),
        encode_utf8(collection_text(document)).len() <= MAXIMUM_METADATA_BYTES,
        collection_created(files, root, slug, document, nonce).0 is Ok,
    ensures
        ({
            let after = collection_created(files, root, slug, document, nonce).1;
            loaded_at(
                after.nodes,
                root,
                collection_place(slug),
                COLLECTION_FILE@,
                |text: Seq<char>| collection_value(text),
            ) matches Ok(d) && d.value == document
        }),
{
    let place = collection_place(slug)->Ok_0;
    let text = collection_text(document);
    let bytes = encode_utf8(text);
    let all = creation_actions(place, COLLECTION_FILE@, text, nonce);
    let temporary = temporary_place(place, "create"@, nonce);
    let before = performed(files, all.drop_last());
    assert(all.drop_last().last() == all[2]);
    let source = entry_path(temporary, COLLECTION_FILE@);
    assert(file_bytes(before.nodes, source) == Some(bytes));
    let file = entry_path(place, COLLECTION_FILE@);
    assert(all.last() == ActionView::Rename { from: temporary, to: place });
    lemma_temporary(place, "create"@, nonce);
    reveal_strlit("collections");
    assert(place.len() > 0);
    assert(under(place, file)) by {
        assert(file.take(place.len() as int + 1) =~= place + seq!['/']);
    }
    assert(moved_path(place, temporary, file) =~= source);
    let after = performed(files, all);
    assert(file_bytes(after.nodes, file) == Some(bytes));
    law_collection_round_trip(document);
    law_readable_text_has_no_conflict(text);
    encode_utf8_valid_utf8(text);
    encode_utf8_decode_utf8(text);
}

/// A temporary place is not empty, and lies beside the place that it stands for.
proof fn lemma_temporary(place: Seq<char>, operation: Seq<char>, nonce: u128)
    ensures
        temporary_place(place, operation, nonce).len() > 0,
{
    reveal_strlit(".");
}

/// A moved entry is the entry of the moved directory.
proof fn lemma_moved_entry(from: Seq<char>, to: Seq<char>, directory: Seq<char>, name: Seq<char>)
    requires
        under(from, directory),
        from.len() > 0,
        to.len() > 0,
    ensures
        entry_path(moved_path(from, to, directory), name) == moved_path(
            from,
            to,
            entry_path(directory, name),
        ),
        under(from, entry_path(directory, name)),
{
    let k = entry_path(directory, name);
    assert(directory.len() >= from.len());
    assert(k.skip(from.len() as int) =~= directory.skip(from.len() as int) + seq!['/'] + name);
    assert(entry_path(moved_path(from, to, directory), name) =~= moved_path(from, to, k));
    assert(under(directory, k)) by {
        assert(k.take(directory.len() as int + 1) =~= directory + seq!['/']);
    }
    lemma_under_transitive(from, directory, k);
}

/// Whether some files are others with a directory moved.
spec fn moved_tree(nodes: Nodes, after: Nodes, from: Seq<char>, to: Seq<char>) -> bool {
    &&& nodes.dom().finite()
    &&& after.dom().finite()
    &&& from.len() > 0
    &&& to.len() > 0
    &&& forall|k: Seq<char>| #[trigger]
        under(from, k) ==> (after.dom().contains(moved_path(from, to, k))
            <==> nodes.dom().contains(k)) && (nodes.dom().contains(k) ==> after[moved_path(
            from,
            to,
            k,
        )] == nodes[k])
}

/// Paths that a directory takes with it.
spec fn moved_paths(from: Seq<char>, to: Seq<char>, list: Seq<Seq<char>>) -> Seq<Seq<char>> {
    list.map_values(|k: Seq<char>| moved_path(from, to, k))
}

proof fn lemma_moved_names(
    nodes: Nodes,
    after: Nodes,
    from: Seq<char>,
    to: Seq<char>,
    directory: Seq<char>,
)
    requires
        moved_tree(nodes, after, from, to),
        under(from, directory),
    ensures
        entry_names(after, moved_path(from, to, directory)) == entry_names(nodes, directory),
{
    let a = entry_names(after, moved_path(from, to, directory));
    let b = entry_names(nodes, directory);
    assert forall|n: Seq<char>| a.contains(n) <==> b.contains(n) by {
        lemma_moved_entry(from, to, directory, n);
        assert(under(from, entry_path(directory, n)));
    }
    assert(a =~= b);
}

proof fn lemma_moved_order(
    nodes: Nodes,
    after: Nodes,
    from: Seq<char>,
    to: Seq<char>,
    directory: Seq<char>,
)
    requires
        moved_tree(nodes, after, from, to),
        under(from, directory),
    ensures
        tree_order(after, moved_path(from, to, directory)) == moved_paths(
            from,
            to,
            tree_order(nodes, directory),
        ),
    decreases below(nodes, directory).len(), 1int, 0nat,
{
    lemma_moved_names(nodes, after, from, to, directory);
    let names = sorted_texts(entry_names(nodes, directory));
    lemma_entry_names_finite(nodes, directory);
    lemma_sorted_texts(entry_names(nodes, directory));
    assert forall|i: int| 0 <= i < names.len() implies entry_names(nodes, directory).contains(
        #[trigger] names[i],
    ) by {
        assert(names.contains(names[i]));
    }
    lemma_moved_order_of(nodes, after, from, to, directory, names);
    reveal_with_fuel(tree_order, 2);
}

proof fn lemma_moved_order_of(
    nodes: Nodes,
    after: Nodes,
    from: Seq<char>,
    to: Seq<char>,
    directory: Seq<char>,
    names: Seq<Seq<char>>,
)
    requires
        moved_tree(nodes, after, from, to),
        under(from, directory),
        forall|i: int|
            0 <= i < names.len() ==> entry_names(nodes, directory).contains(#[trigger] names[i]),
    ensures
        tree_order_of(after, moved_path(from, to, directory), names) == moved_paths(
            from,
            to,
            tree_order_of(nodes, directory, names),
        ),
    decreases below(nodes, directory).len(), 0int, names.len(),
{
    let there = moved_path(from, to, directory);
    lemma_moved_there_and_back(from, to, directory);
    if names.len() == 0 {
        assert(moved_paths(from, to, seq![]) =~= seq![]);
    } else {
        let shorter = names.drop_last();
        assert forall|i: int| 0 <= i < shorter.len() implies entry_names(
            nodes,
            directory,
        ).contains(#[trigger] shorter[i]) by {
            assert(shorter[i] == names[i]);
        }
        lemma_moved_order_of(nodes, after, from, to, directory, shorter);
        assert(entry_names(nodes, directory).contains(names[names.len() - 1]));
        let path = entry_path(directory, names.last());
        lemma_moved_entry(from, to, directory, names.last());
        let moved = moved_path(from, to, path);
        assert(entry_path(there, names.last()) == moved);
        assert(under(from, path));
        lemma_entry_below(nodes, directory, names.last());
        lemma_entry_below(after, there, names.last());
        let front = tree_order_of(nodes, directory, shorter);
        if is_directory(nodes, path) {
            lemma_below_shrinks(nodes, directory, path);
            lemma_moved_order(nodes, after, from, to, path);
            let inside = tree_order(nodes, path);
            assert(moved_paths(from, to, front.push(path) + inside) =~= moved_paths(
                from,
                to,
                front,
            ).push(moved) + moved_paths(from, to, inside));
        } else {
            assert(moved_paths(from, to, front.push(path) + seq![]) =~= moved_paths(
                from,
                to,
                front,
            ).push(moved) + seq![]);
        }
    }
}

proof fn lemma_moved_survey(
    nodes: Nodes,
    after: Nodes,
    root: Seq<char>,
    from: Seq<char>,
    to: Seq<char>,
    list: Seq<Seq<char>>,
)
    requires
        moved_tree(nodes, after, from, to),
        survey(nodes, root, from, list) is Ok,
        forall|i: int| 0 <= i < list.len() ==> below(nodes, from).contains(#[trigger] list[i]),
    ensures
        survey(after, root, to, moved_paths(from, to, list)) == survey(nodes, root, from, list),
    decreases list.len(),
{
    if list.len() > 0 {
        let shorter = list.drop_last();
        assert forall|i: int| 0 <= i < shorter.len() implies below(nodes, from).contains(
            #[trigger] shorter[i],
        ) by {
            assert(shorter[i] == list[i]);
        }
        lemma_moved_survey(nodes, after, root, from, to, shorter);
        assert(moved_paths(from, to, list).drop_last() =~= moved_paths(from, to, shorter));
        let k = list.last();
        assert(below(nodes, from).contains(list[list.len() - 1]));
        assert(under(from, k));
        assert(k.len() > from.len()) by {
            assert(starts_with(k, from + seq!['/']));
        }
        let m = moved_path(from, to, k);
        assert(moved_paths(from, to, list).last() == m);
        assert(path_below(to, m) =~= path_below(from, k)) by {
            assert(m.len() == to.len() + k.len() - from.len());
        }
    }
}

/// A directory that is renamed keeps its fingerprint: the fingerprint is of what the directory
/// holds, not of where it stands.
pub proof fn law_rename_keeps_the_fingerprint(
    files: FilesView,
    root: Seq<char>,
    source: Seq<char>,
    target: Seq<char>,
    expected: u64,
)
    requires
        files.nodes.dom().finite(),
        source.len() > 0,
        target.len() > 0,
        renamed(files, root, source, target, expected).1 != files,
    ensures
        renamed(files, root, source, target, expected).0 == Ok::<u64, WorkspaceErrorView>(expected),
{
    let action = ActionView::Rename { from: source, to: target };
    lemma_one_change(files, action);
    let nodes = files.nodes;
    let after = renamed(files, root, source, target, expected).1.nodes;
    let base = without_tree(without_tree(nodes, source), target);
    assert(after == with_copies(base, nodes, source, target));
    vstd::set_lib::lemma_len_subset(base.dom(), nodes.dom());
    lemma_copies_finite(base, nodes, source, target);
    assert forall|k: Seq<char>| #[trigger] under(source, k) implies (after.dom().contains(
        moved_path(source, target, k),
    ) <==> nodes.dom().contains(k)) && (nodes.dom().contains(k) ==> after[moved_path(
        source,
        target,
        k,
    )] == nodes[k]) by {
        lemma_moved_there_and_back(source, target, k);
    }
    assert(moved_tree(nodes, after, source, target));
    assert(under(source, source));
    assert(moved_path(source, target, source) =~= target) by {
        assert(source.skip(source.len() as int) =~= seq![]);
    }
    lemma_moved_order(nodes, after, source, target, source);
    lemma_tree_order_is_there(nodes, source);
    lemma_moved_survey(nodes, after, root, source, target, tree_order(nodes, source));
    assert(crate::files::can_be_entered(after, target));
}

/// The parent of an entry is the directory, and its name is the name.
pub proof fn lemma_entry_parts(directory: Seq<char>, name: Seq<char>)
    requires
        directory.len() > 0,
        is_entry_name(name),
    ensures
        parent_place(entry_path(directory, name)) == directory,
        place_name(entry_path(directory, name)) == name,
{
    lemma_parent_of_entry(directory, name);
    let place = entry_path(directory, name);
    assert(place.skip(directory.len() as int + 1) =~= name);
}

pub proof fn lemma_parent_of_entry(directory: Seq<char>, name: Seq<char>)
    requires
        directory.len() > 0,
        !name.contains('/'),
    ensures
        parent_place(entry_path(directory, name)) == directory,
    decreases name.len(),
{
    let place = entry_path(directory, name);
    if name.len() == 0 {
        assert(place.last() == '/');
        assert(place.drop_last() =~= directory);
    } else {
        let shorter = name.drop_last();
        assert(!shorter.contains('/')) by {
            if shorter.contains('/') {
                let i = choose|i: int| 0 <= i < shorter.len() && shorter[i] == '/';
                assert(name[i] == '/');
            }
        }
        assert(name.last() != '/') by {
            assert(name.contains(name[name.len() - 1]));
        }
        lemma_parent_of_entry(directory, shorter);
        assert(place.drop_last() =~= entry_path(directory, shorter));
        assert(place.last() == name.last());
    }
}

/// A slug can name an entry.
pub proof fn lemma_slug_is_entry_name(slug: Seq<char>)
    requires
        is_slug(slug),
    ensures
        is_entry_name(slug),
        slug[0] != '.',
{
    if slug.contains('/') {
        let i = choose|i: int| 0 <= i < slug.len() && slug[i] == '/';
        assert(is_slug_char(slug[i]));
    }
    assert(is_slug_char(slug[0]));
}

/// A place with the name of a slug and its temporary place do not lie under one another.
pub proof fn lemma_temporary_apart(parent: Seq<char>, slug: Seq<char>, operation: Seq<char>, nonce: u128)
    requires
        parent.len() > 0,
        is_slug(slug),
    ensures
        ({
            let target = entry_path(parent, slug);
            let temporary = temporary_place(target, operation, nonce);
            &&& !under(target, temporary)
            &&& !under(temporary, target)
            &&& temporary.len() > 0
        }),
{
    lemma_slug_is_entry_name(slug);
    lemma_entry_parts(parent, slug);
    reveal_strlit(".");
    let target = entry_path(parent, slug);
    let temporary = temporary_place(target, operation, nonce);
    let n = parent.len() as int;
    assert(target[n + 1] == slug[0]);
    assert(temporary[n + 1] == '.');
    if under(target, temporary) && temporary != target {
        let front = target + seq!['/'];
        assert(temporary.take(front.len() as int)[n + 1] == front[n + 1]);
    }
    if under(temporary, target) && temporary != target {
        let front = temporary + seq!['/'];
        assert(target.take(front.len() as int)[n + 1] == front[n + 1]);
    }
}

/// Whether nothing lies at or below a place.
pub open spec fn vacant(nodes: Nodes, place: Seq<char>) -> bool {
    forall|k: Seq<char>| #[trigger] under(place, k) ==> !nodes.dom().contains(k)
}

/// The directory that a path lies in lies under every directory that the path lies below.
pub proof fn lemma_parent_under(directory: Seq<char>, path: Seq<char>)
    requires
        starts_with(path, directory + seq!['/']),
    ensures
        under(directory, parent_place(path)),
    decreases path.len(),
{
    let front = directory + seq!['/'];
    assert(path.take(front.len() as int)[directory.len() as int] == '/');
    assert(path[directory.len() as int] == '/');
    if path.last() == '/' {
        let parent = path.drop_last();
        if parent.len() == directory.len() {
            assert(parent =~= path.take(front.len() as int).drop_last());
            assert(front.drop_last() =~= directory);
        } else {
            assert(parent.take(front.len() as int) =~= path.take(front.len() as int));
        }
    } else {
        let shorter = path.drop_last();
        assert(shorter.len() >= front.len()) by {
            if path.len() == front.len() {
                assert(path.last() == path[directory.len() as int]);
            }
        }
        assert(shorter.take(front.len() as int) =~= path.take(front.len() as int));
        lemma_parent_under(directory, shorter);
    }
}

/// Whether what lies at or below a place is the same.
pub open spec fn untouched(before: Nodes, after: Nodes, place: Seq<char>) -> bool {
    forall|k: Seq<char>| #[trigger]
        under(place, k) ==> (after.dom().contains(k) <==> before.dom().contains(k)) && (
        before.dom().contains(k) ==> after[k] == before[k])
}

proof fn lemma_writing_leaves_alone(
    start: Nodes,
    files: FilesView,
    root: Seq<char>,
    temporary: Seq<char>,
    target: Seq<char>,
    place: Seq<char>,
    text: Seq<char>,
    expected: Option<u64>,
)
    requires
        untouched(start, files.nodes, target),
        !under(target, temporary),
        !under(temporary, target),
        starts_with(place, temporary + seq!['/']),
    ensures
        untouched(start, written(files, root, place, text, expected).1.nodes, target),
{
    let (r, after) = written(files, root, place, text, expected);
    if r is Ok {
        let parent = parent_place(place);
        lemma_parent_under(temporary, place);
        let all = write_actions(place, encode_utf8(text));
        let one = seq![all[0]];
        assert(all.drop_last() =~= one);
        lemma_one_change(files, all[0]);
        assert(all.last() == all[1]);
        assert forall|k: Seq<char>| #[trigger] under(target, k) implies (
        after.nodes.dom().contains(k) <==> files.nodes.dom().contains(k)) && (
        files.nodes.dom().contains(k) ==> after.nodes[k] == files.nodes[k]) by {
            if under(k, parent) {
                lemma_under_transitive(target, k, parent);
                lemma_comparable(temporary, target, parent);
            }
            if k == place {
                assert(under(temporary, place));
                lemma_comparable(temporary, target, place);
            }
        }
    }
}

proof fn lemma_rekeying_leaves_alone(
    start: Nodes,
    state: Rekeying,
    root: Seq<char>,
    temporary: Seq<char>,
    target: Seq<char>,
    list: Seq<Seq<char>>,
    leaks: Seq<Seq<Seq<char>>>,
)
    requires
        untouched(start, state.files.nodes, target),
        !under(target, temporary),
        !under(temporary, target),
        forall|i: int|
            0 <= i < list.len() ==> starts_with(#[trigger] list[i], temporary + seq!['/']),
    ensures
        untouched(start, rekeyed_files(state, root, list, leaks).1.files.nodes, target),
    decreases list.len(),
{
    if list.len() > 0 {
        let shorter = list.drop_last();
        assert forall|i: int| 0 <= i < shorter.len() implies starts_with(
            #[trigger] shorter[i],
            temporary + seq!['/'],
        ) by {
            assert(shorter[i] == list[i]);
        }
        lemma_rekeying_leaves_alone(start, state, root, temporary, target, shorter, leaks);
        let before = rekeyed_files(state, root, shorter, leaks).1;
        let place = list.last();
        assert(starts_with(list[list.len() - 1], temporary + seq!['/']));
        assert forall|text: Seq<char>, expected: Option<u64>| untouched(
            start,
            (#[trigger] written(before.files, root, place, text, expected)).1.nodes,
            target,
        ) by {
            lemma_writing_leaves_alone(
                start,
                before.files,
                root,
                temporary,
                target,
                place,
                text,
                expected,
            );
        }
    }
}

pub proof fn lemma_tree_files_below(nodes: Nodes, root: Seq<char>, list: Seq<Seq<char>>)
    ensures
        tree_files(nodes, root, list) matches Ok(found) ==> forall|i: int|
            0 <= i < found.len() ==> list.contains(#[trigger] found[i]),
    decreases list.len(),
{
    if list.len() > 0 {
        let shorter = list.drop_last();
        lemma_tree_files_below(nodes, root, shorter);
        if let Ok(found) = tree_files(nodes, root, list) {
            assert forall|i: int| 0 <= i < found.len() implies list.contains(
                #[trigger] found[i],
            ) by {
                let front = tree_files(nodes, root, shorter)->Ok_0;
                if i < front.len() {
                    assert(shorter.contains(front[i]));
                    let j = choose|j: int| 0 <= j < shorter.len() && shorter[j] == front[i];
                    assert(list[j] == found[i]);
                } else {
                    assert(list[list.len() - 1] == found[i]);
                }
            }
        }
    }
}

/// A finite map stays finite when a file is written.
pub proof fn lemma_written_finite(
    files: FilesView,
    root: Seq<char>,
    place: Seq<char>,
    text: Seq<char>,
    expected: Option<u64>,
)
    requires
        files.nodes.dom().finite(),
    ensures
        written(files, root, place, text, expected).1.nodes.dom().finite(),
{
    let (r, after) = written(files, root, place, text, expected);
    if r is Ok {
        let parent = parent_place(place);
        let all = write_actions(place, encode_utf8(text));
        let one = seq![all[0]];
        assert(all.drop_last() =~= one);
        lemma_one_change(files, all[0]);
        assert(all.last() == all[1]);
        lemma_directories_finite(files.nodes, parent);
    }
}

/// A path lies under finitely many.
proof fn lemma_directories_finite(nodes: Nodes, path: Seq<char>)
    requires
        nodes.dom().finite(),
    ensures
        with_directories(nodes, path).dom().finite(),
{
    let lengths = vstd::set_lib::set_int_range(0, path.len() as int + 1);
    vstd::set_lib::lemma_int_range(0, path.len() as int + 1);
    let front = |n: int| path.take(n);
    lengths.lemma_map_finite(front);
    let all = nodes.dom().union(lengths.map(front));
    let after = with_directories(nodes, path);
    assert forall|k: Seq<char>| after.dom().contains(k) implies all.contains(k) by {
        if !nodes.dom().contains(k) {
            assert(under(k, path));
            let n = k.len() as int;
            assert(lengths.contains(n));
            assert(front(n) =~= k) by {
                if k == path {
                    assert(path.take(n) =~= path);
                } else {
                    let whole = k + seq!['/'];
                    assert(path.take(n) =~= path.take(whole.len() as int).take(n));
                    assert(whole.take(n) =~= k);
                }
            }
        }
    }
    vstd::set_lib::lemma_len_subset(after.dom(), all);
}

/// Copying a directory keeps the files finite.
pub proof fn lemma_copies_finite(nodes: Nodes, originals: Nodes, from: Seq<char>, to: Seq<char>)
    requires
        nodes.dom().finite(),
        originals.dom().finite(),
    ensures
        with_copies(nodes, originals, from, to).dom().finite(),
{
    let moved = |k: Seq<char>| moved_path(from, to, k);
    originals.dom().lemma_map_finite(moved);
    let all = nodes.dom().union(originals.dom().map(moved));
    let after = with_copies(nodes, originals, from, to);
    assert forall|k: Seq<char>| after.dom().contains(k) implies all.contains(k) by {
        if under(to, k) && originals.dom().contains(moved_path(to, from, k)) {
            let o = moved_path(to, from, k);
            lemma_moved_there_and_back(to, from, k);
            assert(moved(o) == k);
        }
    }
    vstd::set_lib::lemma_len_subset(after.dom(), all);
}

/// Giving a copy its identifiers touches nothing but the copy.
pub proof fn lemma_rekeyed_leaves_alone(
    start: Nodes,
    state: Rekeying,
    root: Seq<char>,
    temporary: Seq<char>,
    target: Seq<char>,
    slug: Option<Seq<char>>,
    leaks: Seq<Seq<Seq<char>>>,
)
    requires
        state.files.nodes.dom().finite(),
        untouched(start, state.files.nodes, target),
        temporary.len() > 0,
        !under(target, temporary),
        !under(temporary, target),
    ensures
        untouched(start, rekeyed(state, root, temporary, slug, leaks).1.files.nodes, target),
{
    let file = entry_path(temporary, COLLECTION_FILE@);
    assert(starts_with(file, temporary + seq!['/'])) by {
        assert(file.take(temporary.len() as int + 1) =~= temporary + seq!['/']);
    }
    assert forall|text: Seq<char>, expected: Option<u64>| ({
        let after = (#[trigger] written(state.files, root, file, text, expected)).1.nodes;
        untouched(start, after, target) && after.dom().finite()
    }) by {
        lemma_writing_leaves_alone(
            start,
            state.files,
            root,
            temporary,
            target,
            file,
            text,
            expected,
        );
        lemma_written_finite(state.files, root, file, text, expected);
    }
    let (r, first) = rekeyed_collection(state, root, temporary, slug);
    assert(untouched(start, first.files.nodes, target));
    assert(first.files.nodes.dom().finite());
    if r is Ok {
        let order = tree_order(first.files.nodes, temporary);
        lemma_tree_files_below(first.files.nodes, root, order);
        lemma_tree_order_is_there(first.files.nodes, temporary);
        if let Ok(list) = tree_files(first.files.nodes, root, order) {
            assert forall|i: int| 0 <= i < list.len() implies starts_with(
                #[trigger] list[i],
                temporary + seq!['/'],
            ) by {
                assert(order.contains(list[i]));
                let j = choose|j: int| 0 <= j < order.len() && order[j] == list[i];
                assert(below(first.files.nodes, temporary).contains(order[j]));
            }
            lemma_rekeying_leaves_alone(start, first, root, temporary, target, list, leaks);
        }
    }
}

pub proof fn lemma_removing_leaves_alone(
    start: Nodes,
    files: FilesView,
    temporary: Seq<char>,
    target: Seq<char>,
)
    requires
        untouched(start, files.nodes, target),
        !under(target, temporary),
        !under(temporary, target),
    ensures
        untouched(
            start,
            performed(files, seq![ActionView::RemoveTree(temporary)]).nodes,
            target,
        ),
        untouched(start, cleared(files, temporary).nodes, target),
{
    lemma_one_change(files, ActionView::RemoveTree(temporary));
    let after = performed(files, seq![ActionView::RemoveTree(temporary)]).nodes;
    assert forall|k: Seq<char>| #[trigger] under(target, k) implies (after.dom().contains(k)
        <==> start.dom().contains(k)) && (start.dom().contains(k) ==> after[k] == start[k]) by {
        if under(temporary, k) {
            lemma_comparable(temporary, target, k);
        }
    }
}

/// A copy that fails leaves what lies where it should have gone as it was, unless the copy is
/// complete and only its fingerprint could not be taken: what is not complete is never put in
/// its place.
pub proof fn law_failed_copy_leaves_no_trace(
    files: FilesView,
    root: Seq<char>,
    source: Seq<char>,
    parent: Seq<char>,
    slug: Seq<char>,
    expected: u64,
    name: Option<Seq<char>>,
    ids: IdSource,
    leaks: Seq<Seq<Seq<char>>>,
    nonce: u128,
)
    requires
        files.nodes.dom().finite(),
        parent.len() > 0,
        is_slug(slug),
    ensures
        ({
            let target = entry_path(parent, slug);
            let temporary = temporary_place(target, "copy"@, nonce);
            let (r, after) = duplicated(
                files,
                root,
                source,
                target,
                expected,
                name,
                ids,
                leaks,
                nonce,
            );
            let copied = performed(
                files,
                seq![ActionView::CopyTree { from: source, to: temporary }],
            );
            let copy = Rekeying { files: copied, source: ids, requests: 0 };
            r is Err ==> {
                ||| untouched(files.nodes, after.nodes, target)
                ||| (rekeyed(copy, root, temporary, name, leaks).0 is Ok
                    && directory_digest(after.nodes, root, target) is Err)
            }
        }),
{
    let target = entry_path(parent, slug);
    let temporary = temporary_place(target, "copy"@, nonce);
    lemma_temporary_apart(parent, slug, "copy"@, nonce);
    let action = ActionView::CopyTree { from: source, to: temporary };
    let copied = performed(files, seq![action]);
    lemma_one_change(files, action);
    lemma_copies_finite(files.nodes, files.nodes, source, temporary);
    assert(untouched(files.nodes, copied.nodes, target)) by {
        assert forall|k: Seq<char>| #[trigger] under(target, k) implies (
        copied.nodes.dom().contains(k) <==> files.nodes.dom().contains(k)) && (
        files.nodes.dom().contains(k) ==> copied.nodes[k] == files.nodes[k]) by {
            if under(temporary, k) {
                lemma_comparable(temporary, target, k);
            }
        }
    }
    let copy = Rekeying { files: copied, source: ids, requests: 0 };
    lemma_rekeyed_leaves_alone(files.nodes, copy, root, temporary, target, name, leaks);
    let done = rekeyed(copy, root, temporary, name, leaks).1.files;
    lemma_removing_leaves_alone(files.nodes, files, temporary, target);
    lemma_removing_leaves_alone(files.nodes, copied, temporary, target);
    lemma_removing_leaves_alone(files.nodes, done, temporary, target);
}

/// The source once so many identifiers were taken.
pub open spec fn source_after(source: IdSource, taken: nat) -> IdSource {
    IdSource {
        timestamp: source.timestamp,
        sequence: ((source.sequence + taken) % 0x1_0000_0000_0000_0000) as u64,
    }
}

/// Whether a file of a copy gets an identifier of its own.
pub open spec fn gets_identifier(place: Seq<char>) -> bool {
    place_name(place) == FOLDER_FILE@ || ends_with(place_name(place), ".request.toml"@)
}

/// What the identifier of a file of a copy begins with.
pub open spec fn identifier_prefix(place: Seq<char>) -> Seq<char> {
    if place_name(place) == FOLDER_FILE@ {
        "folder"@
    } else {
        "request"@
    }
}

/// The source of identifiers when it is the turn of a file of a copy.
pub open spec fn source_at(
    state: Rekeying,
    root: Seq<char>,
    list: Seq<Seq<char>>,
    leaks: Seq<Seq<Seq<char>>>,
    index: int,
) -> IdSource {
    rekeyed_files(state, root, list.take(index), leaks).1.source
}

proof fn lemma_next_source(source: IdSource, taken: nat)
    ensures
        next_source(source_after(source, taken)) == source_after(source, taken + 1),
        source_after(source, 0) == source,
{
}

proof fn lemma_file_takes(
    state: Rekeying,
    root: Seq<char>,
    place: Seq<char>,
    leaks: Seq<Seq<Seq<char>>>,
)
    requires
        rekeyed_file(state, root, place, leaks).0 is Ok,
    ensures
        rekeyed_file(state, root, place, leaks).1.source == (if gets_identifier(place) {
            next_source(state.source)
        } else {
            state.source
        }),
{
}

proof fn lemma_taken(
    state: Rekeying,
    root: Seq<char>,
    list: Seq<Seq<char>>,
    leaks: Seq<Seq<Seq<char>>>,
    i: int,
    j: int,
) -> (taken: nat)
    requires
        0 <= i <= j <= list.len(),
        rekeyed_files(state, root, list.take(j), leaks).0 is Ok,
    ensures
        taken <= j - i,
        i < j && gets_identifier(list[i]) ==> taken > 0,
        source_at(state, root, list, leaks, j) == source_after(
            source_at(state, root, list, leaks, i),
            taken,
        ),
        rekeyed_files(state, root, list.take(i), leaks).0 is Ok,
    decreases j - i,
{
    let start = source_at(state, root, list, leaks, i);
    if i == j {
        lemma_next_source(start, 0);
        0
    } else {
        let front = list.take(j).drop_last();
        assert(front =~= list.take(j - 1));
        let before = lemma_taken(state, root, list, leaks, i, j - 1);
        let now = rekeyed_files(state, root, list.take(j - 1), leaks).1;
        assert(list.take(j).last() == list[j - 1]);
        lemma_file_takes(now, root, list[j - 1], leaks);
        lemma_next_source(start, before);
        if gets_identifier(list[j - 1]) {
            before + 1
        } else {
            before
        }
    }
}

/// The folders and requests of a copy get identifiers that differ from each other.
pub proof fn law_identifiers_in_a_copy_differ(
    state: Rekeying,
    root: Seq<char>,
    list: Seq<Seq<char>>,
    leaks: Seq<Seq<Seq<char>>>,
    i: int,
    j: int,
)
    requires
        0 <= i < j < list.len(),
        list.len() <= u64::MAX,
        rekeyed_files(state, root, list.take(j), leaks).0 is Ok,
        gets_identifier(list[i]),
    ensures
        generated_text(identifier_prefix(list[i]), source_at(state, root, list, leaks, i))
            != generated_text(
            identifier_prefix(list[j]),
            source_at(state, root, list, leaks, j),
        ),
{
    let taken = lemma_taken(state, root, list, leaks, i, j);
    let a = source_at(state, root, list, leaks, i);
    let b = source_at(state, root, list, leaks, j);
    let p = identifier_prefix(list[i]);
    let q = identifier_prefix(list[j]);
    assert(a.sequence != b.sequence);
    if p == q {
        law_generated_ids_differ(p, a, b);
    } else {
        reveal_strlit("folder");
        reveal_strlit("request");
        assert(generated_text(p, a)[0] == p[0]);
        assert(generated_text(q, b)[0] == q[0]);
    }
}

} // verus!
