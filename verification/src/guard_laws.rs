//! What is never done: trees that changed or hold links are left alone, and reading is bounded.
use crate::error::WorkspaceErrorView;
use crate::files::{
    entry_names, entry_path, is_directory, lemma_below_shrinks, lemma_entry_below,
    lemma_entry_names_finite, tree_order, tree_order_of, FilesView, Nodes,
};
use crate::fingerprint::{directory_digest, survey};
use crate::naming::IdSource;
use crate::order::{lemma_sorted_texts, sorted_texts};
use crate::repository::{limited_bytes, limited_text, settled_text};
use crate::repository_collections::{deleted, duplicated, renamed};
use vstd::prelude::*;

verus! {

/// Whether names lead from a directory to something that is there, through directories.
pub open spec fn leads(nodes: Nodes, directory: Seq<char>, names: Seq<Seq<char>>) -> bool
    decreases names.len(),
{
    &&& names.len() > 0
    &&& entry_names(nodes, directory).contains(names[0])
    &&& names.len() > 1 ==> is_directory(nodes, entry_path(directory, names[0])) && leads(
        nodes,
        entry_path(directory, names[0]),
        names.drop_first(),
    )
}

/// Where names lead to from a directory.
pub open spec fn led_to(directory: Seq<char>, names: Seq<Seq<char>>) -> Seq<char>
    decreases names.len(),
{
    if names.len() == 0 {
        directory
    } else {
        led_to(entry_path(directory, names[0]), names.drop_first())
    }
}

proof fn lemma_order_holds_entry(
    nodes: Nodes,
    directory: Seq<char>,
    names: Seq<Seq<char>>,
    k: int,
    path: Seq<char>,
)
    requires
        nodes.dom().finite(),
        directory.len() > 0,
        0 <= k < names.len(),
        entry_names(nodes, directory).contains(names[k]),
        path == entry_path(directory, names[k]) || is_directory(
            nodes,
            entry_path(directory, names[k]),
        ) && tree_order(nodes, entry_path(directory, names[k])).contains(path),
    ensures
        tree_order_of(nodes, directory, names).contains(path),
    decreases names.len(),
{
    let entry = entry_path(directory, names.last());
    let front = tree_order_of(nodes, directory, names.drop_last());
    let whole = tree_order_of(nodes, directory, names);
    if k == names.len() - 1 {
        lemma_entry_below(nodes, directory, names.last());
        lemma_below_shrinks(nodes, directory, entry);
        if path == entry {
            assert(whole[front.len() as int] == entry);
        } else {
            let inside = tree_order(nodes, entry);
            let i = choose|i: int| 0 <= i < inside.len() && inside[i] == path;
            assert(whole[front.len() + 1 + i] == path);
        }
    } else {
        assert(names.drop_last()[k] == names[k]);
        lemma_order_holds_entry(nodes, directory, names.drop_last(), k, path);
        let i = choose|i: int| 0 <= i < front.len() && front[i] == path;
        assert(whole[i] == path);
    }
}

/// What names lead to is in the order of the directory.
pub proof fn lemma_order_holds(nodes: Nodes, directory: Seq<char>, names: Seq<Seq<char>>)
    requires
        nodes.dom().finite(),
        directory.len() > 0,
        leads(nodes, directory, names),
    ensures
        tree_order(nodes, directory).contains(led_to(directory, names)),
    decreases names.len(),
{
    let entry = entry_path(directory, names[0]);
    let all = entry_names(nodes, directory);
    let sorted = sorted_texts(all);
    lemma_entry_names_finite(nodes, directory);
    lemma_sorted_texts(all);
    assert(sorted.contains(names[0]));
    let k = choose|k: int| 0 <= k < sorted.len() && sorted[k] == names[0];
    if names.len() > 1 {
        lemma_order_holds(nodes, entry, names.drop_first());
    } else {
        reveal_with_fuel(led_to, 2);
        assert(led_to(directory, names) == entry);
    }
    lemma_order_holds_entry(nodes, directory, sorted, k, led_to(directory, names));
    reveal_with_fuel(tree_order, 2);
}

proof fn lemma_survey_meets_link(
    nodes: Nodes,
    root: Seq<char>,
    directory: Seq<char>,
    list: Seq<Seq<char>>,
    path: Seq<char>,
)
    requires
        list.contains(path),
        nodes[path] is Link,
    ensures
        survey(nodes, root, directory, list) is Err,
    decreases list.len(),
{
    let i = choose|i: int| 0 <= i < list.len() && list[i] == path;
    if i < list.len() - 1 {
        assert(list.drop_last()[i] == path);
        lemma_survey_meets_link(nodes, root, directory, list.drop_last(), path);
    }
}

/// A tree that is not as it was when it was looked at is neither renamed nor copied nor
/// deleted, and the files stay as they are.
pub proof fn law_changed_trees_are_left_alone(
    files: FilesView,
    root: Seq<char>,
    place: Seq<char>,
    target: Seq<char>,
    expected: u64,
    slug: Option<Seq<char>>,
    ids: IdSource,
    leaks: Seq<Seq<Seq<char>>>,
    nonce: u128,
)
    requires
        directory_digest(files.nodes, root, place) != Ok::<u64, WorkspaceErrorView>(expected),
    ensures
        ({
            let (a, after_a) = renamed(files, root, place, target, expected);
            let (b, after_b) = deleted(files, root, place, expected, nonce);
            let (c, after_c) = duplicated(
                files,
                root,
                place,
                target,
                expected,
                slug,
                ids,
                leaks,
                nonce,
            );
            &&& a is Err && after_a == files
            &&& b is Err && after_b == files
            &&& c is Err && after_c == files
        }),
{
}

/// A tree that holds a symbolic link, at whatever depth, has no fingerprint: it is neither
/// renamed nor copied nor deleted, and the files stay as they are.
pub proof fn law_trees_with_links_are_left_alone(
    files: FilesView,
    root: Seq<char>,
    place: Seq<char>,
    names: Seq<Seq<char>>,
    target: Seq<char>,
    expected: u64,
    slug: Option<Seq<char>>,
    ids: IdSource,
    leaks: Seq<Seq<Seq<char>>>,
    nonce: u128,
)
    requires
        files.nodes.dom().finite(),
        place.len() > 0,
        leads(files.nodes, place, names),
        files.nodes[led_to(place, names)] is Link,
    ensures
        directory_digest(files.nodes, root, place) is Err,
        ({
            let (a, after_a) = renamed(files, root, place, target, expected);
            let (b, after_b) = deleted(files, root, place, expected, nonce);
            let (c, after_c) = duplicated(
                files,
                root,
                place,
                target,
                expected,
                slug,
                ids,
                leaks,
                nonce,
            );
            &&& a is Err && after_a == files
            &&& b is Err && after_b == files
            &&& c is Err && after_c == files
        }),
{
    let nodes = files.nodes;
    lemma_order_holds(nodes, place, names);
    lemma_survey_meets_link(
        nodes,
        root,
        place,
        tree_order(nodes, place),
        led_to(place, names),
    );
    law_changed_trees_are_left_alone(
        files,
        root,
        place,
        target,
        expected,
        slug,
        ids,
        leaks,
        nonce,
    );
}

/// No more than the limit is ever read of a file, and a text that is read is valid UTF-8.
pub proof fn law_reading_is_bounded(nodes: Nodes, root: Seq<char>, place: Seq<char>, limit: u64)
    ensures
        limited_bytes(nodes, root, place, limit) matches Ok(bytes) ==> bytes.len() <= limit,
        limited_text(nodes, root, place, limit) is Ok ==> limited_bytes(nodes, root, place, limit) is Ok
            && vstd::utf8::valid_utf8(limited_bytes(nodes, root, place, limit)->Ok_0),
        settled_text(nodes, root, place, limit) is Ok ==> limited_text(nodes, root, place, limit)
            == settled_text(nodes, root, place, limit),
{
}

} // verus!
