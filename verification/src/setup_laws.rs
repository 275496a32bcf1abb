//! What setting a workspace up and looking through its documents promises.
use crate::conflict::{conflicts, ConflictMarker};
use crate::files::{
    can_be_entered, entry_names, entry_path, file_bytes, is_directory, is_there,
    lemma_entry_names_finite, parent_place, performed, root_order, root_order_of,
    tree_order, under, with_directories, ActionView, FilesView, NodeView, Nodes,
};
use crate::guard_laws::{leads, led_to, lemma_order_holds};
use crate::lines::starts_with;
use crate::manifest::{manifest_text, manifest_writable, ManifestView};
use crate::naming::place_name;
use crate::order::{lemma_sorted_texts, sorted_texts};
use crate::paths::{extension_of, joined};
use crate::repository::{write_actions, written, MAXIMUM_METADATA_BYTES};
use crate::repository_documents::{
    directories_made, first_directories, ignore_file_made, initialized,
};
use crate::repository_environments::manifest_loaded;
use crate::repository_laws::law_saved_manifest_is_loaded;
use crate::repository_listing::{all_conflicts, shown_text};
use vstd::prelude::*;
use vstd::utf8::encode_utf8;

verus! {

/// Whether all that is there stays as it is, but for some places.
pub open spec fn stays_but(before: Nodes, after: Nodes, places: Set<Seq<char>>) -> bool {
    forall|k: Seq<char>| #[trigger]
        before.dom().contains(k) && !places.contains(k) ==> after.dom().contains(k) && after[k]
            == before[k]
}

proof fn lemma_one_made(files: FilesView, name: Seq<char>)
    requires
        name.len() > 0,
        !crate::files::blocked(files.nodes, name),
    ensures
        ({
            let after = performed(files, seq![ActionView::MakeDirectories(name)]).nodes;
            &&& can_be_entered(after, name)
            &&& stays_but(files.nodes, after, Set::empty())
        }),
{
    let one = seq![ActionView::MakeDirectories(name)];
    assert(one.drop_last() =~= seq![]);
    assert(performed(files, one.drop_last()) == files);
    assert(under(name, name));
}

proof fn lemma_all_made(files: FilesView, root: Seq<char>, names: Seq<Seq<char>>)
    requires
        forall|i: int| 0 <= i < names.len() ==> (#[trigger] names[i]).len() > 0,
        directories_made(files, root, names).0 is Ok,
    ensures
        ({
            let after = directories_made(files, root, names).1.nodes;
            &&& stays_but(files.nodes, after, Set::empty())
            &&& forall|i: int| 0 <= i < names.len() ==> can_be_entered(after, #[trigger] names[i])
        }),
    decreases names.len(),
{
    if names.len() > 0 {
        let front = names.drop_last();
        assert forall|i: int| 0 <= i < front.len() implies (#[trigger] front[i]).len() > 0 by {
            assert(front[i] == names[i]);
        }
        lemma_all_made(files, root, front);
        let made = directories_made(files, root, front).1;
        lemma_one_made(made, names.last());
        let after = directories_made(files, root, names).1.nodes;
        assert forall|i: int| 0 <= i < names.len() implies can_be_entered(
            after,
            #[trigger] names[i],
        ) by {
            if i < front.len() {
                assert(front[i] == names[i]);
                assert(made.nodes.dom().contains(names[i]));
            }
        }
    }
}

/// Making directories makes nothing of another name.
proof fn lemma_nothing_else_made(
    files: FilesView,
    root: Seq<char>,
    names: Seq<Seq<char>>,
    other: Seq<char>,
)
    requires
        other.len() > 0,
        forall|i: int|
            0 <= i < names.len() ==> (#[trigger] names[i]).len() > 0 && names[i][0] != other[0],
    ensures
        directories_made(files, root, names).1.nodes.dom().contains(other)
            <==> files.nodes.dom().contains(other),
        files.nodes.dom().contains(other) ==> directories_made(files, root, names).1.nodes[other]
            == files.nodes[other],
    decreases names.len(),
{
    if names.len() > 0 {
        let front = names.drop_last();
        assert forall|i: int| 0 <= i < front.len() implies (#[trigger] front[i]).len() > 0
            && front[i][0] != other[0] by {
            assert(front[i] == names[i]);
        }
        lemma_nothing_else_made(files, root, front, other);
        let made = directories_made(files, root, front).1;
        let name = names[names.len() - 1];
        let one = seq![ActionView::MakeDirectories(name)];
        assert(one.drop_last() =~= seq![]);
        assert(performed(made, one.drop_last()) == made);
        assert(!under(other, name)) by {
            if starts_with(name, other + seq!['/']) {
                assert((other + seq!['/'])[0] == other[0]);
                assert(name.take(other.len() as int + 1)[0] == name[0]);
            }
        }
    }
}

proof fn lemma_write_stays(
    files: FilesView,
    root: Seq<char>,
    place: Seq<char>,
    text: Seq<char>,
)
    requires
        written(files, root, place, text, None).0 is Ok,
    ensures
        ({
            let after = written(files, root, place, text, None).1.nodes;
            &&& stays_but(files.nodes, after, Set::empty().insert(place))
            &&& file_bytes(after, place) == Some(encode_utf8(text))
        }),
{
    let all = write_actions(place, encode_utf8(text));
    let one = all.drop_last();
    assert(one =~= seq![all[0]]);
    assert(one.drop_last() =~= seq![]);
    assert(performed(files, one.drop_last()) == files);
    assert(one.last() == all[0] && all.last() == all[1]);
    let middle = performed(files, one);
    assert(middle.nodes == with_directories(files.nodes, parent_place(place)));
}

/// A workspace that was set up has a directory for each kind of document, its manifest is the
/// given one, and its local state is kept out of version control. A file that said so before is
/// left as it is, and so is all else that was there.
pub proof fn law_workspaces_are_set_up(files: FilesView, root: Seq<char>, manifest: ManifestView)
    requires
        initialized(files, root, manifest).0 is Ok,
        manifest_writable(manifest),
        encode_utf8(manifest_text(manifest)).len() <= MAXIMUM_METADATA_BYTES,
    ensures
        ({
            let (r, after) = initialized(files, root, manifest);
            &&& can_be_entered(after.nodes, "environments"@)
            &&& can_be_entered(after.nodes, "collections"@)
            &&& can_be_entered(after.nodes, "schemas"@)
            &&& can_be_entered(after.nodes, "grpc"@)
            &&& can_be_entered(after.nodes, "mocks"@)
            &&& can_be_entered(after.nodes, "profiles"@)
            &&& manifest_loaded(after.nodes, root) matches Ok(loaded) && loaded.value == manifest
                && loaded.fingerprint == r->Ok_0
            &&& !is_there(files.nodes, ".gitignore"@) ==> file_bytes(after.nodes, ".gitignore"@)
                == Some(encode_utf8(".apex/\n"@))
            &&& is_there(files.nodes, ".gitignore"@) ==> after.nodes[".gitignore"@]
                == files.nodes[".gitignore"@]
            &&& stays_but(
                files.nodes,
                after.nodes,
                Set::empty().insert(".gitignore"@).insert("apex.toml"@),
            )
        }),
{
    reveal_strlit("environments");
    reveal_strlit("collections");
    reveal_strlit("schemas");
    reveal_strlit("grpc");
    reveal_strlit("mocks");
    reveal_strlit("profiles");
    reveal_strlit(".gitignore");
    reveal_strlit("apex.toml");
    let names = first_directories();
    lemma_all_made(files, root, names);
    let made = directories_made(files, root, names).1;
    assert(names[0][0] == 'e' && names[1][0] == 'c' && names[2][0] == 's' && names[3][0] == 'g'
        && names[4][0] == 'm' && names[5][0] == 'p');
    lemma_nothing_else_made(files, root, names, ".gitignore"@);
    let ready = ignore_file_made(made, root).1;
    let ignored = ".gitignore"@;
    let kept = "apex.toml"@;
    assert(ignored[0] == '.');
    assert(kept[0] == 'a' && kept[1] == 'p');
    if !is_there(made.nodes, ignored) {
        lemma_write_stays(made, root, ignored, ".apex/\n"@);
    }
    assert(stays_but(made.nodes, ready.nodes, Set::empty().insert(ignored)));
    lemma_write_stays(ready, root, kept, manifest_text(manifest));
    law_saved_manifest_is_loaded(ready, root, manifest, None);
    let after = initialized(files, root, manifest).1;
    assert forall|i: int| 0 <= i < names.len() implies can_be_entered(
        after.nodes,
        #[trigger] names[i],
    ) by {
        assert(names[i] != ignored && names[i] != kept) by {
            assert(names[5][1] == 'r');
        }
        assert(can_be_entered(made.nodes, names[i]));
        assert(ready.nodes.dom().contains(names[i]));
    }
    assert(can_be_entered(after.nodes, names[0]));
    assert(can_be_entered(after.nodes, names[1]));
    assert(can_be_entered(after.nodes, names[2]));
    assert(can_be_entered(after.nodes, names[3]));
    assert(can_be_entered(after.nodes, names[4]));
    assert(can_be_entered(after.nodes, names[5]));
    assert(ignored != kept);
}

/// Whether a place is that of a document with merge conflicts, and those are told of as found.
pub open spec fn is_document_with(
    nodes: Nodes,
    root: Seq<char>,
    place: Seq<char>,
    found: (Seq<char>, Seq<ConflictMarker>),
) -> bool {
    &&& nodes.dom().contains(place)
    &&& extension_of(place_name(place)) == Some("toml"@)
    &&& nodes[place] matches NodeView::File(bytes) && conflicts(shown_text(bytes)).len() > 0
        && found == (joined(root, place), conflicts(shown_text(bytes)))
}

/// Whether some document has the merge conflicts that are told of.
pub open spec fn some_document_has(
    nodes: Nodes,
    root: Seq<char>,
    found: (Seq<char>, Seq<ConflictMarker>),
) -> bool {
    exists|place: Seq<char>| #[trigger] is_document_with(nodes, root, place, found)
}

proof fn lemma_found_in(nodes: Nodes, root: Seq<char>, places: Seq<Seq<char>>)
    requires
        all_conflicts(nodes, root, places) is Ok,
    ensures
        ({
            let found = all_conflicts(nodes, root, places)->Ok_0;
            &&& forall|i: int, one: (Seq<char>, Seq<ConflictMarker>)|
                0 <= i < places.len() && #[trigger] is_document_with(nodes, root, places[i], one)
                    ==> found.contains(one)
            &&& forall|k: int|
                0 <= k < found.len() ==> some_document_has(nodes, root, #[trigger] found[k])
        }),
    decreases places.len(),
{
    if places.len() > 0 {
        let front = places.drop_last();
        lemma_found_in(nodes, root, front);
        let before = all_conflicts(nodes, root, front)->Ok_0;
        let found = all_conflicts(nodes, root, places)->Ok_0;
        assert forall|i: int, one: (Seq<char>, Seq<ConflictMarker>)|
            0 <= i < places.len() && #[trigger] is_document_with(
                nodes,
                root,
                places[i],
                one,
            ) implies found.contains(one) by {
            if i < front.len() {
                assert(is_document_with(nodes, root, front[i], one));
                assert(before.contains(one));
                let k = choose|k: int| 0 <= k < before.len() && before[k] == one;
                assert(found[k] == one);
            } else {
                assert(found.last() == one);
            }
        }
        assert forall|k: int| 0 <= k < found.len() implies some_document_has(
            nodes,
            root,
            #[trigger] found[k],
        ) by {
            if k < before.len() {
                assert(found[k] == before[k]);
            } else {
                assert(is_document_with(nodes, root, places.last(), found[k]));
            }
        }
    }
}

proof fn lemma_root_order_holds_entry(
    nodes: Nodes,
    names: Seq<Seq<char>>,
    k: int,
    path: Seq<char>,
)
    requires
        0 <= k < names.len(),
        path == names[k] || is_directory(nodes, names[k]) && tree_order(nodes, names[k]).contains(
            path,
        ),
    ensures
        root_order_of(nodes, names).contains(path),
    decreases names.len(),
{
    let front = root_order_of(nodes, names.drop_last());
    let whole = root_order_of(nodes, names);
    if k == names.len() - 1 {
        if path == names.last() {
            assert(whole[front.len() as int] == path);
        } else {
            let inside = tree_order(nodes, names.last());
            let i = choose|i: int| 0 <= i < inside.len() && inside[i] == path;
            assert(whole[front.len() + 1 + i] == path);
        }
    } else {
        assert(names.drop_last()[k] == names[k]);
        lemma_root_order_holds_entry(nodes, names.drop_last(), k, path);
        let i = choose|i: int| 0 <= i < front.len() && front[i] == path;
        assert(whole[i] == path);
    }
}

/// Every document of the workspace with merge conflicts in it is found, with all of them,
/// wherever names lead to it from the root. Nothing else is found.
pub proof fn law_documents_with_conflicts_are_found(
    nodes: Nodes,
    root: Seq<char>,
    names: Seq<Seq<char>>,
    one: (Seq<char>, Seq<ConflictMarker>),
)
    requires
        nodes.dom().finite(),
        all_conflicts(nodes, root, root_order(nodes)) is Ok,
    ensures
        ({
            let found = all_conflicts(nodes, root, root_order(nodes))->Ok_0;
            &&& leads(nodes, seq![], names) && is_document_with(
                nodes,
                root,
                led_to(seq![], names),
                one,
            ) ==> found.contains(one)
            &&& found.contains(one) ==> some_document_has(nodes, root, one)
        }),
{
    let places = root_order(nodes);
    lemma_found_in(nodes, root, places);
    if leads(nodes, seq![], names) {
        let top = Seq::<char>::empty();
        let all = entry_names(nodes, top);
        let sorted = sorted_texts(all);
        lemma_entry_names_finite(nodes, top);
        lemma_sorted_texts(all);
        assert(sorted.contains(names[0]));
        let k = choose|k: int| 0 <= k < sorted.len() && sorted[k] == names[0];
        let place = led_to(top, names);
        assert(entry_path(top, names[0]) == names[0]);
        if names.len() > 1 {
            lemma_order_holds(nodes, names[0], names.drop_first());
        } else {
            reveal_with_fuel(led_to, 2);
            assert(place == names[0]);
        }
        lemma_root_order_holds_entry(nodes, sorted, k, place);
        let i = choose|i: int| 0 <= i < places.len() && places[i] == place;
        if is_document_with(nodes, root, place, one) {
            assert(is_document_with(nodes, root, places[i], one));
        }
    }
}

} // verus!
