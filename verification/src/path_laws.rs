//! What holds of the paths of a workspace.
use crate::domain::{is_slug, is_slug_char};
use crate::files::entry_path;
use crate::paths::{
    climbs, components, components_below, is_inside, leading_component, piece_component,
    piece_components, ComponentView,
};
use crate::repository::{collection_place, folder_place, place_in, plain_names, request_place};
use crate::text::{index_of, lemma_index_of, split_all, split_once};
use vstd::prelude::*;

verus! {

/// The first place of a character stays where it is when a text goes on.
proof fn lemma_index_of_front(a: Seq<char>, b: Seq<char>, c: char)
    ensures
        index_of(a, c) < a.len() ==> index_of(a + b, c) == index_of(a, c),
        index_of(a, c) >= a.len() ==> index_of(a + b, c) == a.len() + index_of(b, c),
    decreases a.len(),
{
    if a.len() == 0 {
        assert(a + b =~= b);
    } else {
        lemma_index_of_front(a.drop_first(), b, c);
        assert((a + b).drop_first() =~= a.drop_first() + b);
        assert((a + b)[0] == a[0]);
        lemma_index_of(a, c);
        lemma_index_of(b, c);
    }
}

/// A name that is put below a path becomes the last of its pieces.
pub proof fn lemma_split_entry(a: Seq<char>, b: Seq<char>)
    requires
        !b.contains('/'),
    ensures
        split_all(a + seq!['/'] + b, '/') == split_all(a, '/').push(b),
    decreases a.len(),
{
    let c = '/';
    let rest = seq![c] + b;
    let whole = a + seq![c] + b;
    assert(whole =~= a + rest);
    lemma_index_of_front(a, rest, c);
    lemma_index_of(a, c);
    lemma_index_of(b, c);
    let k = index_of(a, c);
    if k < a.len() {
        let tail = a.skip(k + 1);
        lemma_split_entry(tail, b);
        assert(whole.take(k) =~= a.take(k));
        assert(whole.skip(k + 1) =~= tail + seq![c] + b);
        assert(split_all(whole, c) =~= split_all(a, c).push(b));
    } else {
        assert(rest[0] == c);
        assert(index_of(rest, c) == 0);
        assert(k == a.len());
        assert(whole.take(k) =~= a);
        assert(whole.skip(k + 1) =~= b);
        assert(split_once(b, c) is None) by {
            if index_of(b, c) < b.len() {
                assert(b.contains(b[index_of(b, c)]));
            }
        }
        assert(split_all(b, c) =~= seq![b]);
        assert(split_all(whole, c) =~= seq![a].push(b));
    }
}

/// Whether all pieces of a path are plain names.
spec fn plain_pieces(path: Seq<char>) -> bool {
    &&& path.len() > 0
    &&& path[0] != '/'
    &&& forall|i: int|
        0 <= i < split_all(path, '/').len() ==> piece_component(
            #[trigger] split_all(path, '/')[i],
        ) == Some(ComponentView::Normal(split_all(path, '/')[i]))
}

proof fn lemma_plain_entry(path: Seq<char>, name: Seq<char>)
    requires
        plain_pieces(path),
        !name.contains('/'),
        piece_component(name) == Some(ComponentView::Normal(name)),
    ensures
        plain_pieces(entry_path(path, name)),
{
    lemma_split_entry(path, name);
    let all = split_all(entry_path(path, name), '/');
    let front = split_all(path, '/');
    assert forall|i: int| 0 <= i < all.len() implies piece_component(#[trigger] all[i]) == Some(
        ComponentView::Normal(all[i]),
    ) by {
        if i < front.len() {
            assert(all[i] == front[i]);
        }
    }
}

proof fn lemma_slug_piece(slug: Seq<char>)
    requires
        is_slug(slug),
    ensures
        !slug.contains('/'),
        piece_component(slug) == Some(ComponentView::Normal(slug)),
{
    assert(is_slug_char(slug[0]));
    if slug.contains('/') {
        let i = choose|i: int| 0 <= i < slug.len() && slug[i] == '/';
        assert(is_slug_char(slug[i]));
    }
    let one = seq!['.'];
    let two = seq!['.', '.'];
    assert(one[0] == '.' && two[0] == '.');
}

proof fn lemma_plain_components(pieces: Seq<Seq<char>>)
    requires
        forall|i: int|
            0 <= i < pieces.len() ==> piece_component(#[trigger] pieces[i]) == Some(
                ComponentView::Normal(pieces[i]),
            ),
    ensures
        piece_components(pieces).len() == pieces.len(),
        forall|i: int|
            0 <= i < pieces.len() ==> #[trigger] piece_components(pieces)[i]
                == ComponentView::Normal(pieces[i]),
    decreases pieces.len(),
{
    if pieces.len() > 0 {
        let shorter = pieces.drop_last();
        assert forall|i: int| 0 <= i < shorter.len() implies piece_component(#[trigger] shorter[i])
            == Some(ComponentView::Normal(shorter[i])) by {
            assert(shorter[i] == pieces[i]);
        }
        lemma_plain_components(shorter);
        assert(piece_component(pieces[pieces.len() - 1]) is Some);
    }
}

proof fn lemma_split_not_empty(s: Seq<char>)
    ensures
        split_all(s, '/').len() > 0,
{
}

proof fn lemma_plain_does_not_climb(path: Seq<char>)
    requires
        plain_pieces(path),
    ensures
        !climbs(components(path)),
{
    let pieces = split_all(path, '/');
    lemma_split_not_empty(path);
    lemma_plain_components(pieces);
    assert(piece_component(pieces[0]) is Some);
    assert(leading_component(path) =~= seq![]);
    let list = components(path);
    assert(list =~= piece_components(pieces));
    assert forall|i: int| 0 <= i < list.len() implies !((#[trigger] list[i]) is Root
        || list[i] is Parent) by {
        assert(piece_components(pieces)[i] == ComponentView::Normal(pieces[i]));
    }
}

proof fn lemma_plain_collection(slug: Seq<char>)
    requires
        is_slug(slug),
    ensures
        plain_pieces(entry_path("collections"@, slug)),
{
    let base = "collections"@;
    reveal_strlit("collections");
    lemma_index_of(base, '/');
    assert(index_of(base, '/') == base.len()) by {
        if index_of(base, '/') < base.len() {
            assert(base[index_of(base, '/')] == '/');
        }
    }
    assert(split_all(base, '/') =~= seq![base]);
    assert(plain_pieces(base));
    lemma_slug_piece(slug);
    lemma_plain_entry(base, slug);
}

proof fn lemma_plain_folder(collection: Seq<char>, folders: Seq<Seq<char>>)
    requires
        folder_place(collection, folders) is Ok,
    ensures
        plain_pieces(folder_place(collection, folders)->Ok_0),
    decreases folders.len(),
{
    if folders.len() == 0 {
        lemma_plain_collection(collection);
    } else {
        lemma_plain_folder(collection, folders.drop_last());
        lemma_slug_piece(folders.last());
        lemma_plain_entry(folder_place(collection, folders.drop_last())->Ok_0, folders.last());
    }
}

/// The place of a collection or a folder never leaves the workspace, whatever it is called.
pub proof fn law_folder_places_stay_inside(collection: Seq<char>, folders: Seq<Seq<char>>)
    ensures
        folder_place(collection, folders) matches Ok(place) ==> !climbs(components(place)),
        collection_place(collection) matches Ok(place) ==> !climbs(components(place)),
{
    if folder_place(collection, folders) is Ok {
        lemma_plain_folder(collection, folders);
        lemma_plain_does_not_climb(folder_place(collection, folders)->Ok_0);
    }
    if collection_place(collection) is Ok {
        lemma_plain_collection(collection);
        lemma_plain_does_not_climb(collection_place(collection)->Ok_0);
    }
}

/// The place of a request never leaves the workspace, whatever it is called.
pub proof fn law_request_places_stay_inside(collection: Seq<char>, request: Seq<char>)
    ensures
        request_place(collection, request) matches Ok(place) ==> !climbs(components(place)),
{
    if let Ok(place) = request_place(collection, request) {
        let name = request + ".request.toml"@;
        reveal_strlit(".request.toml");
        lemma_plain_collection(collection);
        lemma_slug_piece(request);
        assert(is_slug_char(request[0]));
        assert(name[0] == request[0]);
        if name.contains('/') {
            let i = choose|i: int| 0 <= i < name.len() && name[i] == '/';
            if i < request.len() {
                assert(request.contains(request[i]));
            }
        }
        let one = seq!['.'];
        let two = seq!['.', '.'];
        assert(one[0] == '.' && two[0] == '.');
        lemma_plain_entry(entry_path("collections"@, collection), name);
        lemma_plain_does_not_climb(place);
    }
}

proof fn lemma_plain_names(list: Seq<ComponentView>)
    requires
        plain_names(list) is Some,
    ensures
        forall|i: int| 0 <= i < list.len() ==> (#[trigger] list[i]) is Normal,
    decreases list.len(),
{
    if list.len() > 0 {
        lemma_plain_names(list.drop_last());
        assert forall|i: int| 0 <= i < list.len() implies (#[trigger] list[i]) is Normal by {
            if i < list.len() - 1 {
                assert(list.drop_last()[i] == list[i]);
            }
        }
    }
}

/// A path that stands in a workspace is inside its root.
pub proof fn law_placed_paths_stay_inside(root: Seq<char>, path: Seq<char>)
    requires
        place_in(root, path) is Some,
    ensures
        is_inside(root, path),
{
    lemma_plain_names(components_below(root, path)->Some_0);
}

} // verus!
