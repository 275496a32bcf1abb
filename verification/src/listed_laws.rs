//! What the list of requests promises not to leave out.
use crate::collection::{collection_value, folder_value, internal_name, COLLECTION_FILE, FOLDER_FILE};
use crate::error::WorkspaceErrorView;
use crate::files::{
    below, entry_names, entry_path, is_entry_name, lemma_below_shrinks, lemma_entry_below,
    lemma_entry_names_finite, Nodes,
};
use crate::lines::ends_with;
use crate::listing_laws::law_arranging_keeps_every_name;
use crate::order::{lemma_sorted_texts, sorted_texts};
use crate::repository_listing::{
    all_request_places, arranged, chosen, collection_request_places, is_archived, order_items,
    ordered_names, request_places, request_places_of,
};
use vstd::prelude::*;

verus! {

/// Whether a name is one that collections and requests can have: no hidden file, and not the
/// file that a collection, a folder or an order is kept in.
pub open spec fn plain_entry(name: Seq<char>) -> bool {
    &&& is_entry_name(name)
    &&& name[0] != '.'
    &&& name != COLLECTION_FILE@
    &&& name != FOLDER_FILE@
}

proof fn lemma_plain_entry(name: Seq<char>)
    requires
        plain_entry(name),
    ensures
        !internal_name(name),
{
    reveal_strlit(".apex-order.toml");
    assert(crate::collection::ORDER_FILE@[0] == '.');
}

/// The entries of a directory stand in the order that is given for it: first those that the
/// order names, as it names them, and then the others by name.
pub proof fn law_the_given_order_is_followed(names: Seq<Seq<char>>, items: Seq<Seq<char>>)
    ensures
        arranged(names, items) == items.filter(|n: Seq<char>| names.contains(n)) + names.filter(
            |n: Seq<char>| !items.contains(n),
        ),
{
    lemma_chosen_is_filter(items, names, true);
    lemma_chosen_is_filter(names, items, false);
    assert(items.filter(|n: Seq<char>| names.contains(n) == true) =~= items.filter(
        |n: Seq<char>| names.contains(n),
    )) by {
        lemma_same_filter(
            items,
            |n: Seq<char>| names.contains(n) == true,
            |n: Seq<char>| names.contains(n),
        );
    }
    lemma_same_filter(
        names,
        |n: Seq<char>| items.contains(n) == false,
        |n: Seq<char>| !items.contains(n),
    );
}

proof fn lemma_same_filter(
    list: Seq<Seq<char>>,
    f: spec_fn(Seq<char>) -> bool,
    g: spec_fn(Seq<char>) -> bool,
)
    requires
        forall|n: Seq<char>| #[trigger] f(n) == g(n),
    ensures
        list.filter(f) == list.filter(g),
    decreases list.len(),
{
    reveal(Seq::filter);
    if list.len() > 0 {
        lemma_same_filter(list.drop_last(), f, g);
    }
}

proof fn lemma_chosen_is_filter(list: Seq<Seq<char>>, others: Seq<Seq<char>>, among: bool)
    ensures
        chosen(list, others, among) == list.filter(|n: Seq<char>| others.contains(n) == among),
    decreases list.len(),
{
    reveal(Seq::filter);
    if list.len() > 0 {
        lemma_chosen_is_filter(list.drop_last(), others, among);
    }
}

proof fn lemma_every_name(nodes: Nodes, root: Seq<char>, directory: Seq<char>, name: Seq<char>)
    requires
        nodes.dom().finite(),
        ordered_names(nodes, root, directory) is Ok,
        entry_names(nodes, directory).contains(name),
    ensures
        ordered_names(nodes, root, directory)->Ok_0.contains(name),
{
    let found = entry_names(nodes, directory);
    lemma_entry_names_finite(nodes, directory);
    lemma_sorted_texts(found);
    let items = order_items(nodes, root, directory)->Ok_0;
    law_arranging_keeps_every_name(sorted_texts(found), items);
    assert(sorted_texts(found).contains(name));
    assert(arranged(sorted_texts(found), items).contains(name));
}

/// Whether all of some places are among others.
pub open spec fn all_among(some: Seq<Seq<char>>, list: Seq<Seq<char>>) -> bool {
    forall|i: int| 0 <= i < some.len() ==> list.contains(#[trigger] some[i])
}

proof fn lemma_among_more(some: Seq<Seq<char>>, list: Seq<Seq<char>>, more: Seq<Seq<char>>)
    requires
        all_among(some, list),
    ensures
        all_among(some, list + more),
        all_among(more, list + more),
{
    assert forall|i: int| 0 <= i < some.len() implies (list + more).contains(#[trigger] some[i]) by {
        let k = choose|k: int| 0 <= k < list.len() && list[k] == some[i];
        assert((list + more)[k] == some[i]);
    }
    assert forall|i: int| 0 <= i < more.len() implies (list + more).contains(#[trigger] more[i]) by {
        assert((list + more)[list.len() + i] == more[i]);
    }
}

proof fn lemma_entry_is_listed(
    nodes: Nodes,
    root: Seq<char>,
    directory: Seq<char>,
    names: Seq<Seq<char>>,
    name: Seq<char>,
)
    requires
        nodes.dom().finite(),
        directory.len() > 0,
        plain_entry(name),
        nodes.dom().contains(entry_path(directory, name)),
        names.contains(name),
        request_places_of(nodes, root, directory, names) is Ok,
    ensures
        ({
            let list = request_places_of(nodes, root, directory, names)->Ok_0;
            let path = entry_path(directory, name);
            &&& nodes[path] is File && ends_with(name, ".request.toml"@) ==> list.contains(path)
            &&& nodes[path] is Directory ==> request_places(nodes, root, path, false) is Ok
                && all_among(request_places(nodes, root, path, false)->Ok_0, list)
        }),
    decreases names.len(),
{
    let list = request_places_of(nodes, root, directory, names)->Ok_0;
    let path = entry_path(directory, name);
    lemma_plain_entry(name);
    let shorter = names.drop_last();
    let front = request_places_of(nodes, root, directory, shorter)->Ok_0;
    let k = choose|k: int| 0 <= k < names.len() && names[k] == name;
    let last = entry_path(directory, names.last());
    if nodes.dom().finite() && below(nodes, directory).contains(last) {
        lemma_below_shrinks(nodes, directory, last);
    }
    if k == names.len() - 1 {
        lemma_entry_below(nodes, directory, name);
        assert(below(nodes, directory).contains(path));
        if nodes[path] is Directory {
            let inside = request_places(nodes, root, path, false)->Ok_0;
            assert(list == front + inside);
            lemma_among_more(seq![], front, inside);
        } else if nodes[path] is File && ends_with(name, ".request.toml"@) {
            assert(list == front.push(path));
            assert(list[front.len() as int] == path);
        }
    } else {
        assert(shorter[k] == name);
        lemma_entry_is_listed(nodes, root, directory, shorter, name);
        assert(exists|more: Seq<Seq<char>>| list == front + more) by {
            if list == front {
                assert(front + seq![] =~= list);
            } else if list == front.push(last) {
                assert(front + seq![last] =~= list);
            } else {
                let inside = request_places(nodes, root, last, false)->Ok_0;
                assert(list == front + inside);
            }
        }
        let more = choose|more: Seq<Seq<char>>| list == front + more;
        if nodes[path] is Directory {
            lemma_among_more(request_places(nodes, root, path, false)->Ok_0, front, more);
        } else if nodes[path] is File && ends_with(name, ".request.toml"@) {
            let i = choose|i: int| 0 <= i < front.len() && front[i] == path;
            assert(list[i] == path);
        }
    }
}

/// Every request of a directory is listed, and so is every request of each folder in it; only
/// those of a folder that is archived are not.
pub proof fn law_no_request_is_left_out(
    nodes: Nodes,
    root: Seq<char>,
    directory: Seq<char>,
    collection: bool,
    name: Seq<char>,
)
    requires
        nodes.dom().finite(),
        directory.len() > 0,
        plain_entry(name),
        nodes.dom().contains(entry_path(directory, name)),
        request_places(nodes, root, directory, collection) is Ok,
        collection || is_archived(
            nodes,
            root,
            entry_path(directory, FOLDER_FILE@),
            |text: Seq<char>| folder_value(text),
        ) == Ok::<bool, WorkspaceErrorView>(false),
    ensures
        ({
            let list = request_places(nodes, root, directory, collection)->Ok_0;
            let path = entry_path(directory, name);
            &&& nodes[path] is File && ends_with(name, ".request.toml"@) ==> list.contains(path)
            &&& nodes[path] is Directory ==> request_places(nodes, root, path, false) is Ok
                && all_among(request_places(nodes, root, path, false)->Ok_0, list)
        }),
{
    reveal_with_fuel(request_places, 2);
    lemma_every_name(nodes, root, directory, name);
    let names = ordered_names(nodes, root, directory)->Ok_0;
    lemma_entry_is_listed(nodes, root, directory, names, name);
}

proof fn lemma_collection_is_listed(
    nodes: Nodes,
    root: Seq<char>,
    names: Seq<Seq<char>>,
    slug: Seq<char>,
)
    requires
        plain_entry(slug),
        names.contains(slug),
        nodes.dom().contains(entry_path("collections"@, slug)),
        nodes[entry_path("collections"@, slug)] is Directory,
        is_archived(
            nodes,
            root,
            entry_path(entry_path("collections"@, slug), COLLECTION_FILE@),
            |text: Seq<char>| collection_value(text),
        ) == Ok::<bool, WorkspaceErrorView>(false),
        collection_request_places(nodes, root, names) is Ok,
    ensures
        request_places(nodes, root, entry_path("collections"@, slug), true) is Ok,
        all_among(
            request_places(nodes, root, entry_path("collections"@, slug), true)->Ok_0,
            collection_request_places(nodes, root, names)->Ok_0,
        ),
    decreases names.len(),
{
    lemma_plain_entry(slug);
    let list = collection_request_places(nodes, root, names)->Ok_0;
    let path = entry_path("collections"@, slug);
    let shorter = names.drop_last();
    let front = collection_request_places(nodes, root, shorter)->Ok_0;
    let k = choose|k: int| 0 <= k < names.len() && names[k] == slug;
    if k == names.len() - 1 {
        let inside = request_places(nodes, root, path, true)->Ok_0;
        assert(list == front + inside);
        lemma_among_more(seq![], front, inside);
    } else {
        assert(shorter[k] == slug);
        lemma_collection_is_listed(nodes, root, shorter, slug);
        let inside = request_places(nodes, root, path, true)->Ok_0;
        let last = entry_path("collections"@, names.last());
        if list == front {
        } else {
            let more = request_places(nodes, root, last, true)->Ok_0;
            assert(list == front + more);
            lemma_among_more(inside, front, more);
        }
    }
}

/// Every request of a collection that is not archived is listed.
pub proof fn law_no_collection_is_left_out(nodes: Nodes, root: Seq<char>, slug: Seq<char>)
    requires
        nodes.dom().finite(),
        plain_entry(slug),
        nodes.dom().contains(entry_path("collections"@, slug)),
        nodes[entry_path("collections"@, slug)] is Directory,
        is_archived(
            nodes,
            root,
            entry_path(entry_path("collections"@, slug), COLLECTION_FILE@),
            |text: Seq<char>| collection_value(text),
        ) == Ok::<bool, WorkspaceErrorView>(false),
        crate::files::is_there(nodes, "collections"@),
        all_request_places(nodes, root) is Ok,
    ensures
        request_places(nodes, root, entry_path("collections"@, slug), true) is Ok,
        all_among(
            request_places(nodes, root, entry_path("collections"@, slug), true)->Ok_0,
            all_request_places(nodes, root)->Ok_0,
        ),
{
    lemma_every_name(nodes, root, "collections"@, slug);
    let names = ordered_names(nodes, root, "collections"@)->Ok_0;
    lemma_collection_is_listed(nodes, root, names, slug);
}

} // verus!
