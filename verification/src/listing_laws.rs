//! What holds of the listings of a workspace.
use crate::collection::{
    collection_text, collection_value, folder_value, law_collection_round_trip,
    law_order_has_no_duplicates, named_writable, NamedView, COLLECTION_FILE, FOLDER_FILE,
};
use crate::error::WorkspaceErrorView;
use crate::files::{
    below, entry_names, entry_path, is_entry_name, lemma_below_shrinks, lemma_entry_names_finite,
    lemma_under_transitive, under, FilesView, Nodes,
};
use crate::lines::ends_with;
use crate::order::{lemma_sorted_texts, sorted_texts};
use crate::repository::{collection_place, LoadedView, MAXIMUM_METADATA_BYTES};
use crate::repository_laws::{law_readable_text_has_no_conflict, law_written_text_is_read};
use crate::repository_listing::{
    all_request_places, archived_set, arranged, chosen, collection_request_places, is_archived,
    order_items, ordered_names, request_places, request_places_of,
};
use vstd::prelude::*;
use vstd::utf8::encode_utf8;

verus! {

proof fn lemma_chosen(names: Seq<Seq<char>>, others: Seq<Seq<char>>, among: bool)
    ensures
        forall|n: Seq<char>| #[trigger]
            chosen(names, others, among).contains(n) <==> names.contains(n) && others.contains(n)
                == among,
        names.no_duplicates() ==> chosen(names, others, among).no_duplicates(),
    decreases names.len(),
{
    let all = chosen(names, others, among);
    if names.len() > 0 {
        let shorter = names.drop_last();
        let front = chosen(shorter, others, among);
        lemma_chosen(shorter, others, among);
        let last = names.last();
        assert(names =~= shorter.push(last));
        assert forall|n: Seq<char>| names.contains(n) <==> shorter.contains(n) || n == last by {
            if names.contains(n) && n != last {
                let i = choose|i: int| 0 <= i < names.len() && names[i] == n;
                assert(shorter[i] == n);
            }
            if shorter.contains(n) {
                let i = choose|i: int| 0 <= i < shorter.len() && shorter[i] == n;
                assert(names[i] == n);
            }
            assert(names[names.len() - 1] == last);
        }
        if others.contains(last) == among {
            assert(all == front.push(last));
            assert forall|n: Seq<char>| #[trigger] all.contains(n) <==> front.contains(n) || n == last by {
                if all.contains(n) && n != last {
                    let i = choose|i: int| 0 <= i < all.len() && all[i] == n;
                    assert(front[i] == n);
                }
                if front.contains(n) {
                    let i = choose|i: int| 0 <= i < front.len() && front[i] == n;
                    assert(all[i] == n);
                }
                assert(all[all.len() - 1] == last);
            }
            if names.no_duplicates() {
                assert(shorter.no_duplicates());
                assert(!shorter.contains(last)) by {
                    if shorter.contains(last) {
                        let i = choose|i: int| 0 <= i < shorter.len() && shorter[i] == last;
                        assert(names[i] == names[names.len() - 1]);
                    }
                }
                assert(!front.contains(last));
                assert forall|i: int, j: int| 0 <= i < all.len() && 0 <= j < all.len() && i != j implies all[i]
                    != all[j] by {
                    if i < front.len() {
                        assert(front.contains(front[i]));
                    }
                    if j < front.len() {
                        assert(front.contains(front[j]));
                    }
                }
            }
        } else if names.no_duplicates() {
            assert(shorter.no_duplicates());
        }
    }
}

/// Putting names in an order loses none of them and adds none, and names none twice.
pub proof fn law_arranging_keeps_every_name(names: Seq<Seq<char>>, items: Seq<Seq<char>>)
    ensures
        forall|n: Seq<char>| #[trigger] arranged(names, items).contains(n) <==> names.contains(n),
        names.no_duplicates() && items.no_duplicates() ==> arranged(names, items).no_duplicates(),
{
    lemma_chosen(items, names, true);
    lemma_chosen(names, items, false);
    let a = chosen(items, names, true);
    let b = chosen(names, items, false);
    let all = arranged(names, items);
    assert forall|n: Seq<char>| #[trigger] all.contains(n) <==> names.contains(n) by {
        if all.contains(n) {
            let i = choose|i: int| 0 <= i < all.len() && all[i] == n;
            if i < a.len() {
                assert(a[i] == n);
                assert(a.contains(n));
            } else {
                assert(b[i - a.len()] == n);
                assert(b.contains(n));
            }
        }
        if names.contains(n) {
            if items.contains(n) {
                assert(a.contains(n));
                let i = choose|i: int| 0 <= i < a.len() && a[i] == n;
                assert(all[i] == n);
            } else {
                assert(b.contains(n));
                let i = choose|i: int| 0 <= i < b.len() && b[i] == n;
                assert(all[a.len() + i] == n);
            }
        }
    }
    if names.no_duplicates() && items.no_duplicates() {
        assert forall|i: int, j: int| 0 <= i < j < all.len() implies all[i] != all[j] by {
            if i < a.len() {
                assert(a.contains(a[i]));
            }
            if j >= a.len() {
                assert(b.contains(b[j - a.len()]));
            }
        }
    }
}

/// What the order of a directory names comes first, as the order names it, and what it does
/// not name follows, as it was.
pub proof fn law_arranging_follows_the_order(
    names: Seq<Seq<char>>,
    items: Seq<Seq<char>>,
    i: int,
    j: int,
)
    requires
        0 <= i < j < arranged(names, items).len(),
        items.contains(arranged(names, items)[j]),
    ensures
        items.contains(arranged(names, items)[i]),
{
    lemma_chosen(items, names, true);
    lemma_chosen(names, items, false);
    let a = chosen(items, names, true);
    let b = chosen(names, items, false);
    if j >= a.len() {
        assert(b.contains(b[j - a.len()]));
    }
    assert(a.contains(a[i]));
}

proof fn lemma_ordered_names(nodes: Nodes, root: Seq<char>, directory: Seq<char>)
    requires
        nodes.dom().finite(),
    ensures
        ordered_names(nodes, root, directory) matches Ok(names) ==> forall|i: int|
            0 <= i < names.len() ==> entry_names(nodes, directory).contains(#[trigger] names[i]),
{
    if let Ok(names) = ordered_names(nodes, root, directory) {
        let found = entry_names(nodes, directory);
        let listed = sorted_texts(found);
        let items = order_items(nodes, root, directory)->Ok_0;
        lemma_entry_names_finite(nodes, directory);
        lemma_sorted_texts(found);
        law_arranging_keeps_every_name(listed, items);
        assert forall|i: int| 0 <= i < names.len() implies found.contains(#[trigger] names[i]) by {
            assert(arranged(listed, items).contains(names[i]));
            assert(listed.contains(names[i]));
        }
    }
}

/// Whether a path is that of a request below a directory.
pub open spec fn is_request_below(nodes: Nodes, directory: Seq<char>, path: Seq<char>) -> bool {
    &&& nodes.dom().contains(path)
    &&& nodes[path] is File
    &&& under(directory, path)
    &&& ends_with(path, ".request.toml"@)
}

proof fn lemma_entry_under(directory: Seq<char>, name: Seq<char>)
    requires
        directory.len() > 0,
    ensures
        under(directory, entry_path(directory, name)),
{
    let path = entry_path(directory, name);
    assert(path.take(directory.len() as int + 1) =~= directory + seq!['/']);
}

proof fn lemma_entry_ends(directory: Seq<char>, name: Seq<char>, end: Seq<char>)
    requires
        directory.len() > 0,
        ends_with(name, end),
    ensures
        ends_with(entry_path(directory, name), end),
{
    let path = entry_path(directory, name);
    assert(path.skip(path.len() - end.len()) =~= name.skip(name.len() - end.len()));
}

proof fn lemma_request_below(nodes: Nodes, a: Seq<char>, b: Seq<char>, list: Seq<Seq<char>>)
    requires
        under(a, b),
        forall|i: int| 0 <= i < list.len() ==> is_request_below(nodes, b, #[trigger] list[i]),
    ensures
        forall|i: int| 0 <= i < list.len() ==> is_request_below(nodes, a, #[trigger] list[i]),
{
    assert forall|i: int| 0 <= i < list.len() implies is_request_below(
        nodes,
        a,
        #[trigger] list[i],
    ) by {
        lemma_under_transitive(a, b, list[i]);
    }
}

proof fn lemma_request_places(nodes: Nodes, root: Seq<char>, directory: Seq<char>, collection: bool)
    requires
        directory.len() > 0,
    ensures
        request_places(nodes, root, directory, collection) matches Ok(list) ==> forall|i: int|
            0 <= i < list.len() ==> is_request_below(nodes, directory, #[trigger] list[i]),
    decreases below(nodes, directory).len(), 1int, 0nat,
{
    reveal_with_fuel(request_places, 2);
    if let Ok(names) = ordered_names(nodes, root, directory) {
        lemma_request_places_of(nodes, root, directory, names);
    }
}

proof fn lemma_request_places_of(
    nodes: Nodes,
    root: Seq<char>,
    directory: Seq<char>,
    names: Seq<Seq<char>>,
)
    requires
        directory.len() > 0,
    ensures
        request_places_of(nodes, root, directory, names) matches Ok(list) ==> forall|i: int|
            0 <= i < list.len() ==> is_request_below(nodes, directory, #[trigger] list[i]),
    decreases below(nodes, directory).len(), 0int, names.len(),
{
    if names.len() > 0 {
        lemma_request_places_of(nodes, root, directory, names.drop_last());
        let name = names.last();
        let path = entry_path(directory, name);
        lemma_entry_under(directory, name);
        if ends_with(name, ".request.toml"@) {
            lemma_entry_ends(directory, name, ".request.toml"@);
        }
        if nodes.dom().finite() && below(nodes, directory).contains(path) {
            lemma_below_shrinks(nodes, directory, path);
            lemma_request_places(nodes, root, path, false);
            if let Ok(inside) = request_places(nodes, root, path, false) {
                lemma_request_below(nodes, directory, path, inside);
            }
        }
    }
}

proof fn lemma_collection_places(nodes: Nodes, root: Seq<char>, names: Seq<Seq<char>>)
    ensures
        collection_request_places(nodes, root, names) matches Ok(list) ==> forall|i: int|
            0 <= i < list.len() ==> is_request_below(nodes, "collections"@, #[trigger] list[i]),
    decreases names.len(),
{
    reveal_strlit("collections");
    if names.len() > 0 {
        lemma_collection_places(nodes, root, names.drop_last());
        let path = entry_path("collections"@, names.last());
        lemma_entry_under("collections"@, names.last());
        lemma_request_places(nodes, root, path, true);
        if let Ok(inside) = request_places(nodes, root, path, true) {
            lemma_request_below(nodes, "collections"@, path, inside);
        }
    }
}

/// Every place that is listed is that of a file of a request, below the collections.
pub proof fn law_listed_places_are_requests(nodes: Nodes, root: Seq<char>)
    ensures
        all_request_places(nodes, root) matches Ok(list) ==> forall|i: int|
            0 <= i < list.len() ==> is_request_below(nodes, "collections"@, #[trigger] list[i]),
{
    if let Ok(names) = ordered_names(nodes, root, "collections"@) {
        lemma_collection_places(nodes, root, names);
    }
}

/// Two entries of a directory have nothing in common.
proof fn lemma_entries_apart(directory: Seq<char>, a: Seq<char>, b: Seq<char>, path: Seq<char>)
    requires
        directory.len() > 0,
        !a.contains('/'),
        !b.contains('/'),
        under(entry_path(directory, a), path),
        under(entry_path(directory, b), path),
    ensures
        a == b,
{
    let n = directory.len() as int + 1;
    let x = entry_path(directory, a);
    let y = entry_path(directory, b);
    lemma_prefix_chars(x, path);
    lemma_prefix_chars(y, path);
    if a.len() < b.len() {
        assert(path[n + a.len()] == '/');
        assert(path[n + a.len()] == y[n + a.len()]);
        assert(b.contains(b[a.len() as int]));
    } else if b.len() < a.len() {
        assert(path[n + b.len()] == '/');
        assert(path[n + b.len()] == x[n + b.len()]);
        assert(a.contains(a[b.len() as int]));
    } else {
        assert forall|i: int| 0 <= i < a.len() implies a[i] == b[i] by {
            assert(x[n + i] == path[n + i]);
            assert(y[n + i] == path[n + i]);
        }
        assert(a =~= b);
    }
}

/// A path that lies under another starts with it, and where it goes on it does so with a slash.
proof fn lemma_prefix_chars(directory: Seq<char>, path: Seq<char>)
    requires
        directory.len() > 0,
        under(directory, path),
    ensures
        directory.len() <= path.len(),
        forall|i: int| 0 <= i < directory.len() ==> path[i] == directory[i],
        directory.len() < path.len() ==> path[directory.len() as int] == '/',
{
    if directory != path {
        let front = directory + seq!['/'];
        assert(path.take(front.len() as int) == front);
        assert forall|i: int| 0 <= i < front.len() implies path[i] == front[i] by {
            assert(path.take(front.len() as int)[i] == path[i]);
        }
    }
}

proof fn lemma_archived_places(nodes: Nodes, root: Seq<char>, names: Seq<Seq<char>>, slug: Seq<char>)
    requires
        !slug.contains('/'),
        forall|i: int| 0 <= i < names.len() ==> is_entry_name(#[trigger] names[i]),
        is_archived(
            nodes,
            root,
            entry_path(entry_path("collections"@, slug), COLLECTION_FILE@),
            |text: Seq<char>| collection_value(text),
        ) == Ok::<bool, WorkspaceErrorView>(true),
    ensures
        collection_request_places(nodes, root, names) matches Ok(list) ==> forall|i: int|
            0 <= i < list.len() ==> !under(entry_path("collections"@, slug), #[trigger] list[i]),
    decreases names.len(),
{
    reveal_strlit("collections");
    if names.len() > 0 {
        let shorter = names.drop_last();
        assert forall|i: int| 0 <= i < shorter.len() implies is_entry_name(#[trigger] shorter[i]) by {
            assert(shorter[i] == names[i]);
        }
        lemma_archived_places(nodes, root, shorter, slug);
        assert(is_entry_name(names[names.len() - 1]));
        let path = entry_path("collections"@, names.last());
        lemma_request_places(nodes, root, path, true);
        if let Ok(inside) = request_places(nodes, root, path, true) {
            assert forall|i: int| 0 <= i < inside.len() && names.last() != slug implies !under(
                entry_path("collections"@, slug),
                #[trigger] inside[i],
            ) by {
                assert(is_request_below(nodes, path, inside[i]));
                if under(entry_path("collections"@, slug), inside[i]) {
                    lemma_entries_apart("collections"@, names.last(), slug, inside[i]);
                }
            }
        }
    }
}

/// Nothing of an archived collection is listed.
pub proof fn law_archived_collection_is_not_listed(nodes: Nodes, root: Seq<char>, slug: Seq<char>)
    requires
        nodes.dom().finite(),
        is_entry_name(slug),
        is_archived(
            nodes,
            root,
            entry_path(entry_path("collections"@, slug), COLLECTION_FILE@),
            |text: Seq<char>| collection_value(text),
        ) == Ok::<bool, WorkspaceErrorView>(true),
    ensures
        all_request_places(nodes, root) matches Ok(list) ==> forall|i: int|
            0 <= i < list.len() ==> !under(entry_path("collections"@, slug), #[trigger] list[i]),
{
    if let Ok(names) = ordered_names(nodes, root, "collections"@) {
        lemma_ordered_names(nodes, root, "collections"@);
        assert forall|i: int| 0 <= i < names.len() implies is_entry_name(#[trigger] names[i]) by {
            assert(entry_names(nodes, "collections"@).contains(names[i]));
        }
        lemma_archived_places(nodes, root, names, slug);
    }
}

/// Nothing of an archived folder is listed.
pub proof fn law_archived_folder_is_not_listed(nodes: Nodes, root: Seq<char>, directory: Seq<char>)
    requires
        is_archived(
            nodes,
            root,
            entry_path(directory, FOLDER_FILE@),
            |text: Seq<char>| folder_value(text),
        ) == Ok::<bool, WorkspaceErrorView>(true),
    ensures
        request_places(nodes, root, directory, false) == Ok::<Seq<Seq<char>>, WorkspaceErrorView>(
            seq![],
        ),
{
}

/// A collection that was marked as archived reads as archived, and one that was marked as not
/// archived does not, so long as its metadata stay within the limit.
pub proof fn law_archive_mark_is_read(
    files: FilesView,
    root: Seq<char>,
    slug: Seq<char>,
    archived: bool,
    expected: u64,
    current: LoadedView<NamedView>,
)
    requires
        collection_place(slug) is Ok,
        named_writable(current.value, "collection_id"@),
        encode_utf8(collection_text(NamedView { archived, ..current.value })).len()
            <= MAXIMUM_METADATA_BYTES,
        archived_set(
            files,
            root,
            Ok(current),
            entry_path(collection_place(slug)->Ok_0, COLLECTION_FILE@),
            archived,
            expected,
            |d: NamedView| collection_text(d),
        ).0 is Ok,
    ensures
        is_archived(
            archived_set(
                files,
                root,
                Ok(current),
                entry_path(collection_place(slug)->Ok_0, COLLECTION_FILE@),
                archived,
                expected,
                |d: NamedView| collection_text(d),
            ).1.nodes,
            root,
            entry_path(collection_place(slug)->Ok_0, COLLECTION_FILE@),
            |text: Seq<char>| collection_value(text),
        ) == Ok::<bool, WorkspaceErrorView>(archived),
{
    let place = entry_path(collection_place(slug)->Ok_0, COLLECTION_FILE@);
    let document = NamedView { archived, ..current.value };
    let text = collection_text(document);
    assert(named_writable(document, "collection_id"@));
    law_collection_round_trip(document);
    law_readable_text_has_no_conflict(text);
    law_written_text_is_read(files, root, place, text, Some(expected), MAXIMUM_METADATA_BYTES);
}

/// Whether a path lies under an entry of a directory with one of some names.
spec fn under_one_of(directory: Seq<char>, names: Seq<Seq<char>>, path: Seq<char>) -> bool {
    exists|k: int| 0 <= k < names.len() && under(entry_path(directory, #[trigger] names[k]), path)
}

/// Paths that each occur once, each under an entry of its own of a directory.
spec fn once_under(directory: Seq<char>, names: Seq<Seq<char>>, list: Seq<Seq<char>>) -> bool {
    &&& list.no_duplicates()
    &&& forall|i: int| 0 <= i < list.len() ==> under_one_of(directory, names, #[trigger] list[i])
}

/// Paths under entries of a directory stay different when those of one more entry follow.
proof fn lemma_once_more(
    directory: Seq<char>,
    names: Seq<Seq<char>>,
    front: Seq<Seq<char>>,
    inside: Seq<Seq<char>>,
)
    requires
        directory.len() > 0,
        names.len() > 0,
        names.no_duplicates(),
        forall|i: int| 0 <= i < names.len() ==> is_entry_name(#[trigger] names[i]),
        once_under(directory, names.drop_last(), front),
        inside.no_duplicates(),
        forall|i: int|
            0 <= i < inside.len() ==> under(
                entry_path(directory, names.last()),
                #[trigger] inside[i],
            ),
    ensures
        once_under(directory, names, front + inside),
{
    let shorter = names.drop_last();
    let all = front + inside;
    let n = names.len() - 1;
    assert forall|i: int| 0 <= i < all.len() implies under_one_of(
        directory,
        names,
        #[trigger] all[i],
    ) by {
        if i < front.len() {
            assert(under_one_of(directory, shorter, front[i]));
            let k = choose|k: int|
                0 <= k < shorter.len() && under(
                    entry_path(directory, #[trigger] shorter[k]),
                    front[i],
                );
            assert(under(entry_path(directory, names[k]), all[i]));
        } else {
            assert(all[i] == inside[i - front.len()]);
            assert(under(entry_path(directory, names[n]), all[i]));
        }
    }
    assert forall|i: int, j: int| 0 <= i < j < all.len() implies all[i] != all[j] by {
        if j < front.len() {
            assert(front[i] != front[j]);
        } else if i >= front.len() {
            assert(inside[i - front.len()] != inside[j - front.len()]);
        } else if all[i] == all[j] {
            assert(under_one_of(directory, shorter, front[i]));
            let k = choose|k: int|
                0 <= k < shorter.len() && under(
                    entry_path(directory, #[trigger] shorter[k]),
                    front[i],
                );
            assert(all[j] == inside[j - front.len()]);
            assert(is_entry_name(names[k]) && is_entry_name(names[n]));
            lemma_entries_apart(directory, names[k], names[n], all[i]);
        }
    }
}

proof fn lemma_ordered_once(nodes: Nodes, root: Seq<char>, directory: Seq<char>)
    requires
        nodes.dom().finite(),
    ensures
        ordered_names(nodes, root, directory) matches Ok(names) ==> names.no_duplicates()
            && forall|i: int| 0 <= i < names.len() ==> is_entry_name(#[trigger] names[i]),
{
    if let Ok(names) = ordered_names(nodes, root, directory) {
        let found = entry_names(nodes, directory);
        let listed = sorted_texts(found);
        let items = order_items(nodes, root, directory)->Ok_0;
        lemma_entry_names_finite(nodes, directory);
        crate::order::lemma_sorted_once(found);
        lemma_order_items_once(nodes, root, directory);
        law_arranging_keeps_every_name(listed, items);
        lemma_ordered_names(nodes, root, directory);
        assert forall|i: int| 0 <= i < names.len() implies is_entry_name(#[trigger] names[i]) by {
            assert(found.contains(names[i]));
        }
    }
}

proof fn lemma_order_items_once(nodes: Nodes, root: Seq<char>, directory: Seq<char>)
    ensures
        order_items(nodes, root, directory) matches Ok(items) ==> items.no_duplicates(),
{
    if let Ok(items) = order_items(nodes, root, directory) {
        if items.len() > 0 {
            law_order_has_no_duplicates(items);
        }
    }
}

proof fn lemma_places_once(nodes: Nodes, root: Seq<char>, directory: Seq<char>, collection: bool)
    requires
        nodes.dom().finite(),
        directory.len() > 0,
    ensures
        request_places(nodes, root, directory, collection) matches Ok(list)
            ==> list.no_duplicates(),
    decreases below(nodes, directory).len(), 1int, 0nat,
{
    reveal_with_fuel(request_places, 2);
    if let Ok(names) = ordered_names(nodes, root, directory) {
        lemma_ordered_once(nodes, root, directory);
        lemma_places_of_once(nodes, root, directory, names);
    }
}

proof fn lemma_places_of_once(
    nodes: Nodes,
    root: Seq<char>,
    directory: Seq<char>,
    names: Seq<Seq<char>>,
)
    requires
        nodes.dom().finite(),
        directory.len() > 0,
        names.no_duplicates(),
        forall|i: int| 0 <= i < names.len() ==> is_entry_name(#[trigger] names[i]),
    ensures
        request_places_of(nodes, root, directory, names) matches Ok(list) ==> once_under(
            directory,
            names,
            list,
        ),
    decreases below(nodes, directory).len(), 0int, names.len(),
{
    if names.len() > 0 {
        let shorter = names.drop_last();
        lemma_shorter_names(names);
        lemma_places_of_once(nodes, root, directory, shorter);
        let path = entry_path(directory, names.last());
        let nothing = Seq::<Seq<char>>::empty();
        lemma_entry_under(directory, names.last());
        if below(nodes, directory).contains(path) {
            lemma_below_shrinks(nodes, directory, path);
            lemma_places_once(nodes, root, path, false);
            lemma_request_places(nodes, root, path, false);
        }
        if let Ok(front) = request_places_of(nodes, root, directory, shorter) {
            assert(under(path, path));
            lemma_once_more(directory, names, front, nothing);
            assert(front + nothing =~= front);
            lemma_once_more(directory, names, front, seq![path]);
            assert(front + seq![path] =~= front.push(path));
            if below(nodes, directory).contains(path) {
                if let Ok(inside) = request_places(nodes, root, path, false) {
                    assert forall|i: int| 0 <= i < inside.len() implies under(
                        path,
                        #[trigger] inside[i],
                    ) by {
                        assert(is_request_below(nodes, path, inside[i]));
                    }
                    lemma_once_more(directory, names, front, inside);
                }
            }
        }
    }
}

proof fn lemma_shorter_names(names: Seq<Seq<char>>)
    requires
        names.len() > 0,
        names.no_duplicates(),
        forall|i: int| 0 <= i < names.len() ==> is_entry_name(#[trigger] names[i]),
    ensures
        names.drop_last().no_duplicates(),
        forall|i: int|
            0 <= i < names.drop_last().len() ==> is_entry_name(#[trigger] names.drop_last()[i]),
        is_entry_name(names.last()),
{
    let shorter = names.drop_last();
    assert forall|i: int| 0 <= i < shorter.len() implies is_entry_name(#[trigger] shorter[i]) by {
        assert(shorter[i] == names[i]);
    }
    assert(is_entry_name(names[names.len() - 1]));
}

proof fn lemma_collections_once(nodes: Nodes, root: Seq<char>, names: Seq<Seq<char>>)
    requires
        nodes.dom().finite(),
        names.no_duplicates(),
        forall|i: int| 0 <= i < names.len() ==> is_entry_name(#[trigger] names[i]),
    ensures
        collection_request_places(nodes, root, names) matches Ok(list) ==> once_under(
            "collections"@,
            names,
            list,
        ),
    decreases names.len(),
{
    reveal_strlit("collections");
    if names.len() > 0 {
        let base = "collections"@;
        let shorter = names.drop_last();
        lemma_shorter_names(names);
        lemma_collections_once(nodes, root, shorter);
        let path = entry_path(base, names.last());
        let nothing = Seq::<Seq<char>>::empty();
        lemma_places_once(nodes, root, path, true);
        lemma_request_places(nodes, root, path, true);
        if let Ok(front) = collection_request_places(nodes, root, shorter) {
            lemma_once_more(base, names, front, nothing);
            assert(front + nothing =~= front);
            if let Ok(inside) = request_places(nodes, root, path, true) {
                assert forall|i: int| 0 <= i < inside.len() implies under(
                    path,
                    #[trigger] inside[i],
                ) by {
                    assert(is_request_below(nodes, path, inside[i]));
                }
                lemma_once_more(base, names, front, inside);
            }
        }
    }
}

/// No request is listed twice.
pub proof fn law_requests_are_listed_once(nodes: Nodes, root: Seq<char>)
    requires
        nodes.dom().finite(),
    ensures
        all_request_places(nodes, root) matches Ok(list) ==> list.no_duplicates(),
{
    if let Ok(names) = ordered_names(nodes, root, "collections"@) {
        lemma_ordered_once(nodes, root, "collections"@);
        lemma_collections_once(nodes, root, names);
    }
}

} // verus!
