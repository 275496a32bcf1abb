//! The requests of a workspace as a tree of collections and folders.
use crate::domain::method_text;
use crate::message::{concat2, concat3, concat4};
use crate::order::{lemma_sorted_texts, sorted_texts, TextSet};
use crate::repository_listing::{entry_views, RequestEntryView, WorkspaceRequestEntry};
use crate::text::{same_text, texts};
use vstd::prelude::*;

verus! {

/// An item of the tree.
#[derive(Debug, PartialEq, Eq)]
pub struct BrowserItem {
    pub id: String,
    pub label: String,
    pub expanded: bool,
    pub children: Vec<BrowserItem>,
}

/// An item of the tree, by its contents.
pub struct ItemView {
    pub id: Seq<char>,
    pub label: Seq<char>,
    pub expanded: bool,
    pub children: Seq<ItemView>,
}

/// The contents of an item.
pub open spec fn item_view(item: BrowserItem) -> ItemView
    decreases item,
{
    ItemView {
        id: item.id@,
        label: item.label@,
        expanded: item.expanded,
        children: item_views(item.children@),
    }
}

/// The contents of a list of items.
pub open spec fn item_views(list: Seq<BrowserItem>) -> Seq<ItemView>
    decreases list,
{
    if list.len() == 0 {
        seq![]
    } else {
        item_views(list.drop_last()).push(item_view(list.last()))
    }
}

proof fn lemma_items_pushed(list: Seq<BrowserItem>, item: BrowserItem)
    ensures
        item_views(list.push(item)) == item_views(list).push(item_view(item)),
{
    assert(list.push(item).drop_last() =~= list);
}

/// An item without any below it.
pub open spec fn leaf(id: Seq<char>, label: Seq<char>) -> ItemView {
    ItemView { id, label, expanded: false, children: seq![] }
}

/// An item that shows what is below it.
pub open spec fn branch(id: Seq<char>, label: Seq<char>, children: Seq<ItemView>) -> ItemView {
    ItemView { id, label, expanded: true, children }
}

/// The collections of some requests.
pub open spec fn collection_names(list: Seq<RequestEntryView>) -> Set<Seq<char>>
    decreases list.len(),
{
    if list.len() == 0 {
        Set::empty()
    } else {
        collection_names(list.drop_last()).insert(list.last().collection)
    }
}

/// The requests of a collection.
pub open spec fn in_collection(list: Seq<RequestEntryView>, name: Seq<char>) -> Seq<RequestEntryView>
    decreases list.len(),
{
    if list.len() == 0 {
        seq![]
    } else if list.last().collection == name {
        in_collection(list.drop_last(), name).push(list.last())
    } else {
        in_collection(list.drop_last(), name)
    }
}

/// The folders that some requests lie in, at a depth.
pub open spec fn folder_names(list: Seq<RequestEntryView>, depth: nat) -> Set<Seq<char>>
    decreases list.len(),
{
    if list.len() == 0 {
        Set::empty()
    } else if list.last().folders.len() > depth {
        folder_names(list.drop_last(), depth).insert(list.last().folders[depth as int])
    } else {
        folder_names(list.drop_last(), depth)
    }
}

/// The requests that lie in a folder, at a depth.
pub open spec fn in_folder(list: Seq<RequestEntryView>, depth: nat, name: Seq<char>) -> Seq<
    RequestEntryView,
>
    decreases list.len(),
{
    if list.len() == 0 {
        seq![]
    } else if list.last().folders.len() > depth && list.last().folders[depth as int] == name {
        in_folder(list.drop_last(), depth, name).push(list.last())
    } else {
        in_folder(list.drop_last(), depth, name)
    }
}

/// The item of a request.
pub open spec fn request_item(entry: RequestEntryView) -> ItemView {
    leaf(entry.relative_path, method_text(entry.method) + "  "@ + entry.name)
}

/// The items of the requests that lie in no further folder.
pub open spec fn request_items(list: Seq<RequestEntryView>, depth: nat) -> Seq<ItemView>
    decreases list.len(),
{
    if list.len() == 0 {
        seq![]
    } else if list.last().folders.len() <= depth {
        request_items(list.drop_last(), depth).push(request_item(list.last()))
    } else {
        request_items(list.drop_last(), depth)
    }
}

/// What lies below an item: the folders in order of their names, down to a number of levels, and
/// then the requests.
pub open spec fn node_items(list: Seq<RequestEntryView>, id: Seq<char>, depth: nat, levels: nat) -> Seq<
    ItemView,
>
    decreases levels, 1nat, 0nat,
{
    (if levels == 0 {
        seq![]
    } else {
        folder_items(sorted_texts(folder_names(list, depth)), list, id, depth, levels)
    }) + request_items(list, depth)
}

/// The items of some folders.
pub open spec fn folder_items(
    names: Seq<Seq<char>>,
    list: Seq<RequestEntryView>,
    id: Seq<char>,
    depth: nat,
    levels: nat,
) -> Seq<ItemView>
    decreases levels, 0nat, names.len(),
{
    if names.len() == 0 || levels == 0 {
        seq![]
    } else {
        let name = names.last();
        let own = "folder:"@ + id + "/"@ + name;
        folder_items(names.drop_last(), list, id, depth, levels).push(
            branch(
                own,
                name,
                node_items(in_folder(list, depth, name), own, depth + 1, (levels - 1) as nat),
            ),
        )
    }
}

/// How deep some requests lie.
pub open spec fn deepest(list: Seq<RequestEntryView>) -> nat
    decreases list.len(),
{
    if list.len() == 0 {
        0
    } else if list.last().folders.len() > deepest(list.drop_last()) {
        list.last().folders.len()
    } else {
        deepest(list.drop_last())
    }
}

/// The items of some collections.
pub open spec fn collection_items(names: Seq<Seq<char>>, list: Seq<RequestEntryView>) -> Seq<ItemView>
    decreases names.len(),
{
    if names.len() == 0 {
        seq![]
    } else {
        let name = names.last();
        let own = "collection:"@ + name;
        collection_items(names.drop_last(), list).push(
            branch(own, name, node_items(in_collection(list, name), own, 0, deepest(list))),
        )
    }
}

/// The tree of some requests.
pub open spec fn tree_items(list: Seq<RequestEntryView>) -> Seq<ItemView> {
    collection_items(sorted_texts(collection_names(list)), list)
}

/// The items that are shown for some requests: where there are none, that of the draft.
pub open spec fn shown_items(list: Seq<RequestEntryView>) -> Seq<ItemView> {
    if list.len() == 0 {
        seq![
            branch(
                "local-drafts"@,
                "Local Drafts"@,
                seq![leaf("gui-draft"@, "GUI Draft"@)],
            ),
        ]
    } else {
        tree_items(list)
    }
}

/// The contents of a list of entries that are held elsewhere.
pub open spec fn held_entries(list: Seq<&WorkspaceRequestEntry>) -> Seq<RequestEntryView> {
    list.map_values(|e: &WorkspaceRequestEntry| e@)
}

fn leaf_item(id: &str, label: &str) -> (r: BrowserItem)
    ensures
        item_view(r) == leaf(id@, label@),
{
    let r = BrowserItem {
        id: id.to_owned(),
        label: label.to_owned(),
        expanded: false,
        children: Vec::new(),
    };
    assert(item_views(r.children@) =~= seq![]);
    r
}

fn write_request_items<'a>(list: &[&'a WorkspaceRequestEntry], depth: usize) -> (r: Vec<BrowserItem>)
    ensures
        item_views(r@) == request_items(held_entries(list@), depth as nat),
{
    let ghost all = held_entries(list@);
    let mut r: Vec<BrowserItem> = Vec::new();
    assert(all.take(0) =~= seq![]);
    for i in 0..list.len()
        invariant
            all == held_entries(list@),
            item_views(r@) == request_items(all.take(i as int), depth as nat),
    {
        let entry = list[i];
        proof {
            assert(all[i as int] == entry@);
            assert(all.take(i + 1).drop_last() =~= all.take(i as int));
            assert(all.take(i + 1).last() == all[i as int]);
        }
        if entry.folders.len() <= depth {
            let label = concat3(entry.method.as_str(), "  ", entry.name.as_str());
            let item = leaf_item(entry.relative_path.as_text(), label.as_str());
            proof {
                lemma_items_pushed(r@, item);
            }
            r.push(item);
        }
    }
    assert(all.take(list@.len() as int) =~= all);
    r
}

fn find_folder_names<'a>(list: &[&'a WorkspaceRequestEntry], depth: usize) -> (r: Vec<String>)
    ensures
        texts(r@) == sorted_texts(folder_names(held_entries(list@), depth as nat)),
{
    let ghost all = held_entries(list@);
    let mut names = TextSet::new();
    assert(all.take(0) =~= seq![]);
    for i in 0..list.len()
        invariant
            all == held_entries(list@),
            names.wf(),
            names@ == folder_names(all.take(i as int), depth as nat),
    {
        let entry = list[i];
        proof {
            assert(all[i as int] == entry@);
            assert(all.take(i + 1).drop_last() =~= all.take(i as int));
            assert(all.take(i + 1).last() == all[i as int]);
        }
        if entry.folders.len() > depth {
            assert(entry@.folders[depth as int] == entry.folders@[depth as int]@);
            let _ = names.insert(entry.folders[depth].clone());
        }
    }
    assert(all.take(list@.len() as int) =~= all);
    names.to_texts()
}

fn find_in_folder<'a>(list: &[&'a WorkspaceRequestEntry], depth: usize, name: &str) -> (r: Vec<
    &'a WorkspaceRequestEntry,
>)
    ensures
        held_entries(r@) == in_folder(held_entries(list@), depth as nat, name@),
{
    let ghost all = held_entries(list@);
    let mut r: Vec<&'a WorkspaceRequestEntry> = Vec::new();
    proof {
        assert(all.take(0) =~= seq![]);
        assert(held_entries(r@) =~= seq![]);
    }
    for i in 0..list.len()
        invariant
            all == held_entries(list@),
            held_entries(r@) == in_folder(all.take(i as int), depth as nat, name@),
    {
        let entry = list[i];
        proof {
            assert(all[i as int] == entry@);
            assert(all.take(i + 1).drop_last() =~= all.take(i as int));
            assert(all.take(i + 1).last() == all[i as int]);
        }
        let inside = if entry.folders.len() > depth {
            assert(entry@.folders[depth as int] == entry.folders@[depth as int]@);
            same_text(entry.folders[depth].as_str(), name)
        } else {
            false
        };
        if inside {
            let ghost before = r@;
            r.push(entry);
            assert(held_entries(r@) =~= held_entries(before).push(entry@));
        }
    }
    assert(all.take(list@.len() as int) =~= all);
    r
}

fn browser_node_items<'a>(
    list: &[&'a WorkspaceRequestEntry],
    id: &str,
    depth: usize,
    levels: usize,
) -> (r: Vec<BrowserItem>)
    requires
        depth + levels <= usize::MAX,
    ensures
        item_views(r@) == node_items(held_entries(list@), id@, depth as nat, levels as nat),
    decreases levels,
{
    let ghost all = held_entries(list@);
    let mut r: Vec<BrowserItem> = Vec::new();
    assert(item_views(r@) =~= seq![]);
    if levels > 0 {
        let names = find_folder_names(list, depth);
        let ghost sorted = texts(names@);
        assert(sorted.take(0) =~= seq![]);
        for i in 0..names.len()
            invariant
                all == held_entries(list@),
                sorted == texts(names@),
                levels > 0,
                depth + levels <= usize::MAX,
                item_views(r@) == folder_items(
                    sorted.take(i as int),
                    all,
                    id@,
                    depth as nat,
                    levels as nat,
                ),
        {
            let name = names[i].as_str();
            proof {
                assert(sorted[i as int] == name@);
                assert(sorted.take(i + 1).drop_last() =~= sorted.take(i as int));
                assert(sorted.take(i + 1).last() == sorted[i as int]);
            }
            let own = concat4("folder:", id, "/", name);
            let inside = find_in_folder(list, depth, name);
            let children = browser_node_items(
                inside.as_slice(),
                own.as_str(),
                depth + 1,
                levels - 1,
            );
            let item = BrowserItem { id: own, label: name.to_owned(), expanded: true, children };
            proof {
                lemma_items_pushed(r@, item);
            }
            r.push(item);
        }
        assert(sorted.take(names@.len() as int) =~= sorted);
    }
    let ghost folders = item_views(r@);
    let mut requests = write_request_items(list, depth);
    let ghost more = requests@;
    let ghost before = r@;
    r.append(&mut requests);
    proof {
        lemma_items_joined(before, more);
        assert(r@ =~= before + more);
    }
    r
}

proof fn lemma_items_joined(a: Seq<BrowserItem>, b: Seq<BrowserItem>)
    ensures
        item_views(a + b) == item_views(a) + item_views(b),
    decreases b.len(),
{
    if b.len() == 0 {
        assert(a + b =~= a);
        assert(item_views(a) + item_views(b) =~= item_views(a));
    } else {
        assert((a + b).drop_last() =~= a + b.drop_last());
        lemma_items_joined(a, b.drop_last());
        assert((a + b).last() == b.last());
        assert(item_views(a) + item_views(b) =~= (item_views(a) + item_views(b.drop_last())).push(
            item_view(b.last()),
        ));
    }
}

fn find_deepest(list: &[WorkspaceRequestEntry]) -> (r: usize)
    ensures
        r == deepest(entry_views(list@)),
{
    let ghost all = entry_views(list@);
    let mut r: usize = 0;
    assert(all.take(0) =~= seq![]);
    for i in 0..list.len()
        invariant
            all == entry_views(list@),
            r == deepest(all.take(i as int)),
    {
        proof {
            assert(all[i as int] == list@[i as int]@);
            assert(all.take(i + 1).drop_last() =~= all.take(i as int));
            assert(all.take(i + 1).last() == all[i as int]);
            assert(all[i as int].folders.len() == list@[i as int].folders@.len());
        }
        if list[i].folders.len() > r {
            r = list[i].folders.len();
        }
    }
    assert(all.take(list@.len() as int) =~= all);
    r
}

fn find_in_collection<'a>(list: &'a [WorkspaceRequestEntry], name: &str) -> (r: Vec<
    &'a WorkspaceRequestEntry,
>)
    ensures
        held_entries(r@) == in_collection(entry_views(list@), name@),
{
    let ghost all = entry_views(list@);
    let mut r: Vec<&'a WorkspaceRequestEntry> = Vec::new();
    proof {
        assert(all.take(0) =~= seq![]);
        assert(held_entries(r@) =~= seq![]);
    }
    for i in 0..list.len()
        invariant
            all == entry_views(list@),
            held_entries(r@) == in_collection(all.take(i as int), name@),
    {
        let entry = &list[i];
        proof {
            assert(all[i as int] == entry@);
            assert(all.take(i + 1).drop_last() =~= all.take(i as int));
            assert(all.take(i + 1).last() == all[i as int]);
        }
        if same_text(entry.collection.as_str(), name) {
            let ghost before = r@;
            r.push(entry);
            assert(held_entries(r@) =~= held_entries(before).push(entry@));
        }
    }
    assert(all.take(list@.len() as int) =~= all);
    r
}

/// Makes the tree of some requests: the collections in order of their names, each with what lies
/// below it.
pub fn workspace_tree(entries: &[WorkspaceRequestEntry]) -> (r: Vec<BrowserItem>)
    ensures
        item_views(r@) == tree_items(entry_views(entries@)),
{
    let ghost all = entry_views(entries@);
    let mut collections = TextSet::new();
    assert(all.take(0) =~= seq![]);
    for i in 0..entries.len()
        invariant
            all == entry_views(entries@),
            collections.wf(),
            collections@ == collection_names(all.take(i as int)),
    {
        proof {
            assert(all[i as int] == entries@[i as int]@);
            assert(all.take(i + 1).drop_last() =~= all.take(i as int));
            assert(all.take(i + 1).last() == all[i as int]);
        }
        let _ = collections.insert(entries[i].collection.clone());
    }
    assert(all.take(entries@.len() as int) =~= all);
    let names = collections.to_texts();
    let levels = find_deepest(entries);
    let ghost sorted = texts(names@);
    let mut r: Vec<BrowserItem> = Vec::new();
    proof {
        assert(sorted.take(0) =~= seq![]);
        assert(item_views(r@) =~= seq![]);
    }
    for i in 0..names.len()
        invariant
            all == entry_views(entries@),
            sorted == texts(names@),
            levels == deepest(all),
            item_views(r@) == collection_items(sorted.take(i as int), all),
    {
        let name = names[i].as_str();
        proof {
            assert(sorted[i as int] == name@);
            assert(sorted.take(i + 1).drop_last() =~= sorted.take(i as int));
            assert(sorted.take(i + 1).last() == sorted[i as int]);
        }
        let own = concat2("collection:", name);
        let inside = find_in_collection(entries, name);
        let children = browser_node_items(inside.as_slice(), own.as_str(), 0, levels);
        let item = BrowserItem { id: own, label: name.to_owned(), expanded: true, children };
        proof {
            lemma_items_pushed(r@, item);
        }
        r.push(item);
    }
    assert(sorted.take(names@.len() as int) =~= sorted);
    r
}

/// Makes the items that are shown for some requests.
pub fn workspace_browser_items(requests: &[WorkspaceRequestEntry]) -> (r: Vec<BrowserItem>)
    ensures
        item_views(r@) == shown_items(entry_views(requests@)),
{
    assert(entry_views(requests@).len() == requests@.len());
    if requests.len() == 0 {
        let draft = leaf_item("gui-draft", "GUI Draft");
        let ghost shown = item_view(draft);
        let mut children: Vec<BrowserItem> = Vec::new();
        proof {
            lemma_items_pushed(children@, draft);
        }
        children.push(draft);
        assert(item_views(children@) =~= seq![shown]);
        let item = BrowserItem {
            id: "local-drafts".to_owned(),
            label: "Local Drafts".to_owned(),
            expanded: true,
            children,
        };
        let mut r: Vec<BrowserItem> = Vec::new();
        proof {
            lemma_items_pushed(r@, item);
        }
        r.push(item);
        assert(item_views(r@) =~= shown_items(entry_views(requests@)));
        r
    } else {
        workspace_tree(requests)
    }
}

/// Whether an item stands among others or below one of them, down to a number of levels.
pub open spec fn stands_in(items: Seq<ItemView>, item: ItemView, levels: nat) -> bool
    decreases levels,
{
    ||| items.contains(item)
    ||| levels > 0 && exists|i: int|
        0 <= i < items.len() && stands_in(
            #[trigger] items[i].children,
            item,
            (levels - 1) as nat,
        )
}

proof fn lemma_request_item(list: Seq<RequestEntryView>, depth: nat, i: int)
    requires
        0 <= i < list.len(),
        list[i].folders.len() <= depth,
    ensures
        request_items(list, depth).contains(request_item(list[i])),
    decreases list.len(),
{
    let all = request_items(list, depth);
    let rest = request_items(list.drop_last(), depth);
    if i == list.len() - 1 {
        assert(all[rest.len() as int] == request_item(list[i]));
    } else {
        assert(list.drop_last()[i] == list[i]);
        lemma_request_item(list.drop_last(), depth, i);
        let k = choose|k: int| 0 <= k < rest.len() && rest[k] == request_item(list[i]);
        assert(all[k] == rest[k]);
    }
}

proof fn lemma_folder_names(list: Seq<RequestEntryView>, depth: nat)
    ensures
        folder_names(list, depth).finite(),
        forall|i: int|
            0 <= i < list.len() && (#[trigger] list[i]).folders.len() > depth ==> folder_names(
                list,
                depth,
            ).contains(list[i].folders[depth as int]),
    decreases list.len(),
{
    if list.len() > 0 {
        let rest = list.drop_last();
        lemma_folder_names(rest, depth);
        assert forall|i: int|
            0 <= i < list.len() && (#[trigger] list[i]).folders.len() > depth implies folder_names(
            list,
            depth,
        ).contains(list[i].folders[depth as int]) by {
            if i < rest.len() {
                assert(rest[i] == list[i]);
            }
        }
    }
}

proof fn lemma_collection_names(list: Seq<RequestEntryView>)
    ensures
        collection_names(list).finite(),
        forall|i: int|
            0 <= i < list.len() ==> collection_names(list).contains(
                (#[trigger] list[i]).collection,
            ),
    decreases list.len(),
{
    if list.len() > 0 {
        let rest = list.drop_last();
        lemma_collection_names(rest);
        assert forall|i: int| 0 <= i < list.len() implies collection_names(list).contains(
            (#[trigger] list[i]).collection,
        ) by {
            if i < rest.len() {
                assert(rest[i] == list[i]);
            }
        }
    }
}

proof fn lemma_in_folder(list: Seq<RequestEntryView>, depth: nat, i: int)
    requires
        0 <= i < list.len(),
        list[i].folders.len() > depth,
    ensures
        in_folder(list, depth, list[i].folders[depth as int]).contains(list[i]),
    decreases list.len(),
{
    let name = list[i].folders[depth as int];
    let rest = in_folder(list.drop_last(), depth, name);
    let all = in_folder(list, depth, name);
    if i == list.len() - 1 {
        assert(all[rest.len() as int] == list[i]);
    } else {
        assert(list.drop_last()[i] == list[i]);
        lemma_in_folder(list.drop_last(), depth, i);
        let k = choose|k: int| 0 <= k < rest.len() && rest[k] == list[i];
        assert(all[k] == list[i]);
    }
}

proof fn lemma_in_collection(list: Seq<RequestEntryView>, i: int)
    requires
        0 <= i < list.len(),
    ensures
        in_collection(list, list[i].collection).contains(list[i]),
    decreases list.len(),
{
    let name = list[i].collection;
    let rest = in_collection(list.drop_last(), name);
    let all = in_collection(list, name);
    if i == list.len() - 1 {
        assert(all[rest.len() as int] == list[i]);
    } else {
        assert(list.drop_last()[i] == list[i]);
        lemma_in_collection(list.drop_last(), i);
        let k = choose|k: int| 0 <= k < rest.len() && rest[k] == list[i];
        assert(all[k] == list[i]);
    }
}

proof fn lemma_folder_item(
    names: Seq<Seq<char>>,
    list: Seq<RequestEntryView>,
    id: Seq<char>,
    depth: nat,
    levels: nat,
    k: int,
)
    requires
        0 <= k < names.len(),
        levels > 0,
    ensures
        folder_items(names, list, id, depth, levels).len() == names.len(),
        folder_items(names, list, id, depth, levels)[k].label == names[k],
        folder_items(names, list, id, depth, levels)[k].children == node_items(
            in_folder(list, depth, names[k]),
            "folder:"@ + id + "/"@ + names[k],
            depth + 1,
            (levels - 1) as nat,
        ),
    decreases names.len(),
{
    let rest = names.drop_last();
    if rest.len() > 0 {
        let j = if k < rest.len() { k } else { 0 };
        lemma_folder_item(rest, list, id, depth, levels, j);
        assert(rest[j] == names[j]);
    } else {
        assert(folder_items(rest, list, id, depth, levels) =~= seq![]);
    }
}

proof fn lemma_collection_item(names: Seq<Seq<char>>, list: Seq<RequestEntryView>, k: int)
    requires
        0 <= k < names.len(),
    ensures
        collection_items(names, list).len() == names.len(),
        collection_items(names, list)[k].label == names[k],
        collection_items(names, list)[k].children == node_items(
            in_collection(list, names[k]),
            "collection:"@ + names[k],
            0,
            deepest(list),
        ),
    decreases names.len(),
{
    let rest = names.drop_last();
    if rest.len() > 0 {
        let j = if k < rest.len() { k } else { 0 };
        lemma_collection_item(rest, list, j);
        assert(rest[j] == names[j]);
    } else {
        assert(collection_items(rest, list) =~= seq![]);
    }
}

proof fn lemma_deepest(list: Seq<RequestEntryView>, i: int)
    requires
        0 <= i < list.len(),
    ensures
        list[i].folders.len() <= deepest(list),
    decreases list.len(),
{
    if i < list.len() - 1 {
        assert(list.drop_last()[i] == list[i]);
        lemma_deepest(list.drop_last(), i);
    }
}

proof fn lemma_node_holds(
    list: Seq<RequestEntryView>,
    id: Seq<char>,
    depth: nat,
    levels: nat,
    i: int,
)
    requires
        0 <= i < list.len(),
        list[i].folders.len() <= depth + levels,
    ensures
        stands_in(node_items(list, id, depth, levels), request_item(list[i]), levels),
    decreases levels,
{
    let item = request_item(list[i]);
    let items = node_items(list, id, depth, levels);
    let requests = request_items(list, depth);
    if list[i].folders.len() <= depth {
        lemma_request_item(list, depth, i);
        let k = choose|k: int| 0 <= k < requests.len() && requests[k] == item;
        let before = items.len() - requests.len();
        assert(items[before + k] == item);
    } else {
        let name = list[i].folders[depth as int];
        let names = sorted_texts(folder_names(list, depth));
        lemma_folder_names(list, depth);
        lemma_sorted_texts(folder_names(list, depth));
        assert(names.contains(name));
        let k = choose|k: int| 0 <= k < names.len() && names[k] == name;
        lemma_folder_item(names, list, id, depth, levels, k);
        let inside = in_folder(list, depth, name);
        lemma_in_folder(list, depth, i);
        let j = choose|j: int| 0 <= j < inside.len() && inside[j] == list[i];
        lemma_node_holds(
            inside,
            "folder:"@ + id + "/"@ + name,
            depth + 1,
            (levels - 1) as nat,
            j,
        );
        let folders = folder_items(names, list, id, depth, levels);
        assert(items[k] == folders[k]);
        assert(stands_in(items[k].children, item, (levels - 1) as nat));
    }
}

/// Every request stands somewhere in the tree of the requests.
pub proof fn law_every_request_is_in_the_tree(list: Seq<RequestEntryView>, i: int)
    requires
        0 <= i < list.len(),
    ensures
        stands_in(shown_items(list), request_item(list[i]), deepest(list) + 1),
{
    let name = list[i].collection;
    let names = sorted_texts(collection_names(list));
    lemma_collection_names(list);
    lemma_sorted_texts(collection_names(list));
    assert(collection_names(list).contains(name));
    assert(names.contains(name));
    let k = choose|k: int| 0 <= k < names.len() && names[k] == name;
    lemma_collection_item(names, list, k);
    let inside = in_collection(list, name);
    lemma_in_collection(list, i);
    let j = choose|j: int| 0 <= j < inside.len() && inside[j] == list[i];
    lemma_deepest(list, i);
    lemma_node_holds(inside, "collection:"@ + name, 0, deepest(list), j);
    let items = tree_items(list);
    assert(stands_in(items[k].children, request_item(list[i]), deepest(list)));
}

/// Whether an item is found by going through items of some labels, one below the other.
pub open spec fn found_under(items: Seq<ItemView>, labels: Seq<Seq<char>>, item: ItemView) -> bool
    decreases labels.len(),
{
    if labels.len() == 0 {
        items.contains(item)
    } else {
        exists|i: int|
            0 <= i < items.len() && (#[trigger] items[i]).label == labels[0] && found_under(
                items[i].children,
                labels.skip(1),
                item,
            )
    }
}

proof fn lemma_found_in_folders(
    list: Seq<RequestEntryView>,
    id: Seq<char>,
    depth: nat,
    levels: nat,
    i: int,
)
    requires
        0 <= i < list.len(),
        depth <= list[i].folders.len() <= depth + levels,
    ensures
        found_under(
            node_items(list, id, depth, levels),
            list[i].folders.skip(depth as int),
            request_item(list[i]),
        ),
    decreases levels,
{
    let item = request_item(list[i]);
    let items = node_items(list, id, depth, levels);
    let requests = request_items(list, depth);
    let labels = list[i].folders.skip(depth as int);
    if list[i].folders.len() <= depth {
        lemma_request_item(list, depth, i);
        let k = choose|k: int| 0 <= k < requests.len() && requests[k] == item;
        let before = items.len() - requests.len();
        assert(items[before + k] == item);
    } else {
        let name = list[i].folders[depth as int];
        let names = sorted_texts(folder_names(list, depth));
        lemma_folder_names(list, depth);
        lemma_sorted_texts(folder_names(list, depth));
        assert(names.contains(name));
        let k = choose|k: int| 0 <= k < names.len() && names[k] == name;
        lemma_folder_item(names, list, id, depth, levels, k);
        let inside = in_folder(list, depth, name);
        lemma_in_folder(list, depth, i);
        let j = choose|j: int| 0 <= j < inside.len() && inside[j] == list[i];
        lemma_found_in_folders(
            inside,
            "folder:"@ + id + "/"@ + name,
            depth + 1,
            (levels - 1) as nat,
            j,
        );
        let folders = folder_items(names, list, id, depth, levels);
        assert(items[k] == folders[k]);
        assert(labels[0] == name);
        assert(labels.skip(1) =~= list[i].folders.skip((depth + 1) as int));
    }
}

/// Every request is found in the tree by going through its collection and then its folders, one
/// after the other. It is shown by its method and its name, and known by its path.
pub proof fn law_requests_stand_in_their_folders(list: Seq<RequestEntryView>, i: int)
    requires
        0 <= i < list.len(),
    ensures
        found_under(
            shown_items(list),
            seq![list[i].collection] + list[i].folders,
            ItemView {
                id: list[i].relative_path,
                label: method_text(list[i].method) + "  "@ + list[i].name,
                expanded: false,
                children: seq![],
            },
        ),
{
    let name = list[i].collection;
    let names = sorted_texts(collection_names(list));
    lemma_collection_names(list);
    lemma_sorted_texts(collection_names(list));
    assert(collection_names(list).contains(name));
    assert(names.contains(name));
    let k = choose|k: int| 0 <= k < names.len() && names[k] == name;
    lemma_collection_item(names, list, k);
    let inside = in_collection(list, name);
    lemma_in_collection(list, i);
    let j = choose|j: int| 0 <= j < inside.len() && inside[j] == list[i];
    lemma_deepest(list, i);
    lemma_found_in_folders(inside, "collection:"@ + name, 0, deepest(list), j);
    let items = tree_items(list);
    let labels = seq![name] + list[i].folders;
    assert(labels.skip(1) =~= list[i].folders.skip(0));
    assert(found_under(items[k].children, labels.skip(1), request_item(list[i])));
}

} // verus!
