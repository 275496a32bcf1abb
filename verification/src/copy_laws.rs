//! What copying collections and folders promises of what they hold.
use crate::collection::{
    collection_text, collection_value, folder_text, folder_value, law_collection_rewrite_is_stable,
    law_collection_round_trip, law_folder_rewrite_is_stable, law_folder_round_trip, NamedView,
    COLLECTION_FILE, FOLDER_FILE,
};
use crate::domain::{is_slug, is_slug_char};
use crate::error::WorkspaceErrorView;
use crate::files::{
    entry_path, file_bytes, moved_path, parent_place, performed, tree_order, under, ActionView,
    FilesView, Nodes,
};
use crate::lines::{ends_with, starts_with};
use crate::naming::{
    generated_text, law_generated_ids_are_valid, place_name, temporary_place, IdSource,
};
use crate::recovery_laws::apart;
use crate::repository::{
    loaded, written, LoadedView, MAXIMUM_METADATA_BYTES, MAXIMUM_REQUEST_BYTES,
};
use crate::repository_collections::{
    duplicated, rekeyed, rekeyed_collection, rekeyed_file, rekeyed_files, rekeyed_request,
    tree_files, Rekeying,
};
use crate::repository_laws::{
    law_readable_text_has_no_conflict, law_write_leaves_other_files_alone, lemma_written_bytes,
};
use crate::request::{request_text, RequestDocumentView};
use crate::request_laws::{law_request_rewrite_is_stable, law_request_round_trip};
use crate::request_reader::request_value;
use crate::tree_laws::{
    lemma_comparable, lemma_copies_finite, lemma_moved_there_and_back, lemma_one_change,
    lemma_rekeyed_leaves_alone, lemma_removing_leaves_alone, untouched,
};
use vstd::prelude::*;
use vstd::utf8::{
    decode_utf8, encode_utf8, encode_utf8_decode_utf8, encode_utf8_valid_utf8, valid_utf8,
};

verus! {

/// Whether bytes are the text of a request.
pub open spec fn holds_request(bytes: Seq<u8>, d: RequestDocumentView) -> bool {
    valid_utf8(bytes) && request_value(decode_utf8(bytes)) == Ok::<
        RequestDocumentView,
        WorkspaceErrorView,
    >(d)
}

/// Whether bytes are the text of a folder.
pub open spec fn holds_folder(bytes: Seq<u8>, d: NamedView) -> bool {
    valid_utf8(bytes) && folder_value(decode_utf8(bytes)) == Ok::<NamedView, WorkspaceErrorView>(d)
}

/// The request that is read at a place of a workspace.
pub open spec fn request_at(nodes: Nodes, root: Seq<char>, place: Seq<char>) -> Result<
    LoadedView<RequestDocumentView>,
    WorkspaceErrorView,
> {
    loaded(nodes, root, place, MAXIMUM_REQUEST_BYTES, |text: Seq<char>| request_value(text))
}

/// The folder that is read at a place of a workspace.
pub open spec fn folder_at(nodes: Nodes, root: Seq<char>, place: Seq<char>) -> Result<
    LoadedView<NamedView>,
    WorkspaceErrorView,
> {
    loaded(nodes, root, place, MAXIMUM_METADATA_BYTES, |text: Seq<char>| folder_value(text))
}

/// The collection that is read at a place of a workspace.
pub open spec fn collection_at(nodes: Nodes, root: Seq<char>, place: Seq<char>) -> Result<
    LoadedView<NamedView>,
    WorkspaceErrorView,
> {
    loaded(nodes, root, place, MAXIMUM_METADATA_BYTES, |text: Seq<char>| collection_value(text))
}

/// Whether a request is another one under its own identifier: name, method, url, query,
/// headers, authentication, body, settings, documentation and unknown fields are the same.
pub open spec fn same_but_identifier(a: RequestDocumentView, b: RequestDocumentView) -> bool {
    &&& a.schema_version == b.schema_version
    &&& a.unknown_fields == b.unknown_fields
    &&& a.request.name == b.request.name
    &&& a.request.method == b.request.method
    &&& a.request.url == b.request.url
    &&& a.request.query == b.request.query
    &&& a.request.headers == b.request.headers
    &&& a.request.authentication == b.request.authentication
    &&& a.request.body == b.request.body
    &&& a.request.settings == b.request.settings
    &&& a.request.documentation == b.request.documentation
}

/// Whether metadata is other metadata under its own identifier.
pub open spec fn same_metadata_but_identifier(a: NamedView, b: NamedView) -> bool {
    &&& a.schema_version == b.schema_version
    &&& a.name == b.name
    &&& a.archived == b.archived
    &&& a.unknown_fields == b.unknown_fields
}

/// Whether what a file of a copy holds still is what the file that it was copied from holds.
spec fn still_holds(place: Seq<char>, before: Seq<u8>, after: Seq<u8>) -> bool {
    let name = place_name(place);
    if name == FOLDER_FILE@ {
        folder_kept(before, after)
    } else if ends_with(name, ".request.toml"@) {
        request_kept(before, after)
    } else {
        after == before
    }
}

spec fn folder_kept(before: Seq<u8>, after: Seq<u8>) -> bool {
    forall|d: NamedView| #[trigger]
        holds_folder(before, d) ==> exists|c: NamedView|
            #[trigger] holds_folder(after, c)
                && same_metadata_but_identifier(c, d)
}

spec fn request_kept(before: Seq<u8>, after: Seq<u8>) -> bool {
    forall|d: RequestDocumentView| #[trigger]
        holds_request(before, d) ==> exists|
            c: RequestDocumentView,
        | #[trigger] holds_request(after, c)
            && same_but_identifier(c, d)
}

proof fn lemma_holds_at_first(place: Seq<char>, bytes: Seq<u8>)
    ensures
        still_holds(place, bytes, bytes),
{
    assert forall|d: NamedView| #[trigger]
        holds_folder(bytes, d) implies exists|c: NamedView|
        #[trigger] holds_folder(bytes, c)
            && same_metadata_but_identifier(c, d) by {
        assert(same_metadata_but_identifier(d, d));
    }
    assert forall|d: RequestDocumentView| #[trigger]
        holds_request(bytes, d) implies exists|
        c: RequestDocumentView,
    | #[trigger] holds_request(bytes, c)
        && same_but_identifier(c, d) by {
        assert(same_but_identifier(d, d));
    }
}

proof fn lemma_prefixes_are_slugs()
    ensures
        is_slug("folder"@),
        is_slug("request"@),
        is_slug("collection"@),
{
    reveal_strlit("folder");
    reveal_strlit("request");
    reveal_strlit("collection");
    assert forall|i: int| 0 <= i < "folder"@.len() implies is_slug_char(#[trigger] "folder"@[i]) by {
        assert(i == 0 || i == 1 || i == 2 || i == 3 || i == 4 || i == 5);
    }
    assert forall|i: int| 0 <= i < "request"@.len() implies is_slug_char(
        #[trigger] "request"@[i],
    ) by {
        assert(i == 0 || i == 1 || i == 2 || i == 3 || i == 4 || i == 5 || i == 6);
    }
    assert forall|i: int| 0 <= i < "collection"@.len() implies is_slug_char(
        #[trigger] "collection"@[i],
    ) by {
        assert(i == 0 || i == 1 || i == 2 || i == 3 || i == 4 || i == 5 || i == 6 || i == 7 || i
            == 8 || i == 9);
    }
}

/// Giving a request another identifier keeps all else of it.
proof fn lemma_request_step(before: Seq<u8>, now: Seq<u8>, d: RequestDocumentView, source: IdSource)
    requires
        request_kept(before, now),
        holds_request(now, d),
    ensures
        request_kept(before, encode_utf8(request_text(rekeyed_request(d, source)))),
        holds_request(
            encode_utf8(request_text(rekeyed_request(d, source))),
            rekeyed_request(d, source),
        ),
{
    let e = rekeyed_request(d, source);
    law_request_rewrite_is_stable(decode_utf8(now));
    lemma_prefixes_are_slugs();
    law_generated_ids_are_valid("request"@, source);
    law_request_round_trip(e);
    encode_utf8_valid_utf8(request_text(e));
    encode_utf8_decode_utf8(request_text(e));
    let after = encode_utf8(request_text(e));
    assert forall|o: RequestDocumentView| #[trigger]
        holds_request(before, o) implies exists|
        c: RequestDocumentView,
    | #[trigger] holds_request(after, c)
        && same_but_identifier(c, o) by {
        let c = choose|c: RequestDocumentView| #[trigger]
            holds_request(now, c) && same_but_identifier(c, o);
        assert(c == d);
        assert(same_but_identifier(e, o));
        assert(holds_request(after, e));
    }
}

proof fn lemma_folder_step(before: Seq<u8>, now: Seq<u8>, d: NamedView, id: Seq<char>)
    requires
        folder_kept(before, now),
        holds_folder(now, d),
        is_slug(id),
    ensures
        folder_kept(before, encode_utf8(folder_text(NamedView { id, ..d }))),
{
    let e = NamedView { id, ..d };
    law_folder_rewrite_is_stable(decode_utf8(now));
    law_folder_round_trip(e);
    encode_utf8_valid_utf8(folder_text(e));
    encode_utf8_decode_utf8(folder_text(e));
    let after = encode_utf8(folder_text(e));
    assert forall|o: NamedView| #[trigger]
        holds_folder(before, o) implies exists|c: NamedView|
        #[trigger] holds_folder(after, c)
            && same_metadata_but_identifier(c, o) by {
        let c = choose|c: NamedView| #[trigger]
            holds_folder(now, c)
                && same_metadata_but_identifier(c, o);
        assert(c == d);
        assert(same_metadata_but_identifier(e, o));
        assert(holds_folder(after, e));
    }
}

/// What was written is there, and other files are as they were.
proof fn lemma_write_step(
    files: FilesView,
    root: Seq<char>,
    place: Seq<char>,
    text: Seq<char>,
    expected: Option<u64>,
    path: Seq<char>,
)
    requires
        written(files, root, place, text, expected).0 is Ok,
        file_bytes(files.nodes, path) is Some,
    ensures
        file_bytes(written(files, root, place, text, expected).1.nodes, path) == (if path == place {
            Some(encode_utf8(text))
        } else {
            file_bytes(files.nodes, path)
        }),
{
    if path == place {
        lemma_written_bytes(files, place, encode_utf8(text));
    } else {
        law_write_leaves_other_files_alone(files, root, place, text, expected, path);
    }
}

/// One file of a copy gets its identifier: what any file of the copy holds stays.
proof fn lemma_file_step(
    state: Rekeying,
    root: Seq<char>,
    place: Seq<char>,
    leaks: Seq<Seq<Seq<char>>>,
    path: Seq<char>,
    before: Seq<u8>,
)
    requires
        rekeyed_file(state, root, place, leaks).0 is Ok,
        file_bytes(state.files.nodes, path) is Some,
        still_holds(path, before, file_bytes(state.files.nodes, path)->Some_0),
    ensures
        file_bytes(rekeyed_file(state, root, place, leaks).1.files.nodes, path) is Some,
        still_holds(
            path,
            before,
            file_bytes(rekeyed_file(state, root, place, leaks).1.files.nodes, path)->Some_0,
        ),
{
    let name = place_name(place);
    let nodes = state.files.nodes;
    let now = file_bytes(nodes, path)->Some_0;
    lemma_prefixes_are_slugs();
    if name == FOLDER_FILE@ {
        let d = loaded(
            nodes,
            root,
            place,
            MAXIMUM_METADATA_BYTES,
            |text: Seq<char>| folder_value(text),
        )->Ok_0;
        law_generated_ids_are_valid("folder"@, state.source);
        let id = generated_text("folder"@, state.source);
        let text = folder_text(NamedView { id, ..d.value });
        lemma_write_step(state.files, root, place, text, Some(d.fingerprint), path);
        if path == place {
            assert(holds_folder(now, d.value));
            lemma_folder_step(before, now, d.value, id);
        }
    } else if ends_with(name, ".request.toml"@) {
        let d = loaded(
            nodes,
            root,
            place,
            MAXIMUM_REQUEST_BYTES,
            |text: Seq<char>| request_value(text),
        )->Ok_0;
        let text = request_text(rekeyed_request(d.value, state.source));
        lemma_write_step(state.files, root, place, text, Some(d.fingerprint), path);
        if path == place {
            assert(holds_request(now, d.value));
            lemma_request_step(before, now, d.value, state.source);
        }
    }
}

proof fn lemma_files_step(
    state: Rekeying,
    root: Seq<char>,
    list: Seq<Seq<char>>,
    leaks: Seq<Seq<Seq<char>>>,
    path: Seq<char>,
    before: Seq<u8>,
)
    requires
        rekeyed_files(state, root, list, leaks).0 is Ok,
        file_bytes(state.files.nodes, path) is Some,
        still_holds(path, before, file_bytes(state.files.nodes, path)->Some_0),
    ensures
        file_bytes(rekeyed_files(state, root, list, leaks).1.files.nodes, path) is Some,
        still_holds(
            path,
            before,
            file_bytes(rekeyed_files(state, root, list, leaks).1.files.nodes, path)->Some_0,
        ),
    decreases list.len(),
{
    if list.len() > 0 {
        lemma_files_step(state, root, list.drop_last(), leaks, path, before);
        let now = rekeyed_files(state, root, list.drop_last(), leaks).1;
        lemma_file_step(now, root, list.last(), leaks, path, before);
    }
}

/// Where the last name of a path begins.
spec fn last_separator(rest: Seq<char>) -> int
    decreases rest.len(),
{
    if rest.len() == 0 {
        -1
    } else if rest.last() == '/' {
        rest.len() - 1
    } else {
        last_separator(rest.drop_last())
    }
}

proof fn lemma_parent_after(front: Seq<char>, rest: Seq<char>)
    requires
        rest.len() > 0,
        rest[0] == '/',
    ensures
        0 <= last_separator(rest) < rest.len(),
        parent_place(front + rest) == front + rest.take(last_separator(rest)),
    decreases rest.len(),
{
    let whole = front + rest;
    assert(whole.last() == rest.last());
    assert(whole.drop_last() =~= front + rest.drop_last());
    if rest.last() == '/' {
        assert(rest.take(rest.len() - 1) =~= rest.drop_last());
    } else {
        assert(rest.drop_last()[0] == '/');
        lemma_parent_after(front, rest.drop_last());
        let n = last_separator(rest);
        assert(rest.take(n) =~= rest.drop_last().take(n));
    }
}

/// What lies below a directory keeps its name where the directory has another path.
proof fn lemma_name_after(a: Seq<char>, b: Seq<char>, rest: Seq<char>)
    requires
        a.len() > 0,
        b.len() > 0,
        rest.len() > 0,
        rest[0] == '/',
    ensures
        place_name(a + rest) == place_name(b + rest),
{
    lemma_parent_after(a, rest);
    lemma_parent_after(b, rest);
    let n = last_separator(rest);
    assert((a + rest).skip(a.len() + n + 1) =~= rest.skip(n + 1));
    assert((b + rest).skip(b.len() + n + 1) =~= rest.skip(n + 1));
}

proof fn lemma_below_is_longer(directory: Seq<char>, path: Seq<char>)
    requires
        starts_with(path, directory + seq!['/']),
    ensures
        under(directory, path),
        path != directory,
        path == directory + path.skip(directory.len() as int),
        path.skip(directory.len() as int).len() > 0,
        path.skip(directory.len() as int)[0] == '/',
{
    let front = directory + seq!['/'];
    assert(path.take(front.len() as int)[directory.len() as int] == '/');
    assert(path =~= directory + path.skip(directory.len() as int)) by {
        assert forall|i: int| 0 <= i < directory.len() implies path[i] == directory[i] by {
            assert(path.take(front.len() as int)[i] == front[i]);
        }
    }
}

/// The file of a copied collection is not touched but where the collection gets its identifier.
spec fn names_the_copy(source: Seq<char>, path: Seq<char>) -> bool {
    path == entry_path(source, COLLECTION_FILE@)
}

/// What a file of a copy holds is what the file that it was copied from held.
proof fn lemma_copy_holds(
    files: FilesView,
    root: Seq<char>,
    source: Seq<char>,
    target: Seq<char>,
    expected: u64,
    slug: Option<Seq<char>>,
    ids: IdSource,
    leaks: Seq<Seq<Seq<char>>>,
    nonce: u128,
    path: Seq<char>,
)
    requires
        source.len() > 0,
        target.len() > 0,
        duplicated(files, root, source, target, expected, slug, ids, leaks, nonce).0 is Ok,
        starts_with(path, source + seq!['/']),
        !names_the_copy(source, path),
        file_bytes(files.nodes, path) is Some,
    ensures
        ({
            let after = duplicated(
                files,
                root,
                source,
                target,
                expected,
                slug,
                ids,
                leaks,
                nonce,
            ).1.nodes;
            let copy = moved_path(source, target, path);
            &&& file_bytes(after, copy) is Some
            &&& place_name(copy) == place_name(path)
            &&& still_holds(path, file_bytes(files.nodes, path)->Some_0, file_bytes(after, copy)->Some_0)
        }),
{
    let temporary = temporary_place(target, "copy"@, nonce);
    crate::repository_collections::lemma_temporary_not_empty(target, "copy"@, nonce);
    let action = ActionView::CopyTree { from: source, to: temporary };
    let copied = performed(files, seq![action]);
    lemma_one_change(files, action);
    let before = file_bytes(files.nodes, path)->Some_0;
    let there = moved_path(source, temporary, path);
    lemma_below_is_longer(source, path);
    lemma_moved_there_and_back(source, temporary, path);
    let rest = path.skip(source.len() as int);
    assert(there =~= temporary + rest);
    assert(there.len() > temporary.len());
    assert(copied.nodes[there] == files.nodes[path]);
    assert(file_bytes(copied.nodes, there) == Some(before));
    lemma_name_after(source, temporary, rest);
    lemma_name_after(source, target, rest);
    assert(place_name(there) == place_name(path));
    lemma_holds_at_first(there, before);
    let start = Rekeying { files: copied, source: ids, requests: 0 };
    let (r, first) = rekeyed_collection(start, root, temporary, slug);
    let file = entry_path(temporary, COLLECTION_FILE@);
    assert(there != file) by {
        if there == file {
            assert(rest =~= seq!['/'] + COLLECTION_FILE@) by {
                assert(there.skip(temporary.len() as int) =~= rest);
                assert(file.skip(temporary.len() as int) =~= seq!['/'] + COLLECTION_FILE@);
            }
            assert(path =~= entry_path(source, COLLECTION_FILE@));
        }
    }
    assert(file_bytes(first.files.nodes, there) == Some(before)) by {
        assert forall|text: Seq<char>, e: Option<u64>|
            (#[trigger] written(copied, root, file, text, e)).0 is Ok implies file_bytes(
            written(copied, root, file, text, e).1.nodes,
            there,
        ) == Some(before) by {
            lemma_write_step(copied, root, file, text, e, there);
        }
    }
    let list = tree_files(first.files.nodes, root, tree_order(first.files.nodes, temporary))->Ok_0;
    lemma_files_step(first, root, list, leaks, there, before);
    let (_, last) = rekeyed(start, root, temporary, slug, leaks);
    let move_there = ActionView::Rename { from: temporary, to: target };
    lemma_one_change(last.files, move_there);
    let after = duplicated(
        files,
        root,
        source,
        target,
        expected,
        slug,
        ids,
        leaks,
        nonce,
    ).1.nodes;
    let copy = moved_path(source, target, path);
    assert(copy =~= target + rest);
    assert(moved_path(temporary, target, there) =~= copy) by {
        assert(there.skip(temporary.len() as int) =~= rest);
    }
    assert(under(temporary, there)) by {
        assert(there.take(temporary.len() as int + 1) =~= temporary + seq!['/']);
    }
    lemma_moved_there_and_back(temporary, target, there);
    assert(after[copy] == last.files.nodes[there]);
    assert(after.dom().contains(copy));
}

/// The file of a request is neither that of a folder nor that of a collection.
proof fn lemma_requests_are_no_metadata(source: Seq<char>, path: Seq<char>)
    requires
        source.len() > 0,
        ends_with(place_name(path), ".request.toml"@),
    ensures
        place_name(path) != FOLDER_FILE@,
        !names_the_copy(source, path),
{
    reveal_strlit(".request.toml");
    reveal_strlit("folder.toml");
    reveal_strlit("collection.toml");
    assert("folder.toml"@.len() < ".request.toml"@.len());
    if names_the_copy(source, path) {
        lemma_collection_name(source);
        let name = COLLECTION_FILE@;
        assert(name.skip(name.len() - 13)[1] == 'l');
        assert(".request.toml"@[1] == 'r');
    }
}

/// Every request of a copy, once it is read, is the request at the same place of what was
/// copied, in everything but its identifier. It can be read unless it has become too long.
pub proof fn law_copied_requests_are_the_same(
    files: FilesView,
    root: Seq<char>,
    source: Seq<char>,
    target: Seq<char>,
    expected: u64,
    slug: Option<Seq<char>>,
    ids: IdSource,
    leaks: Seq<Seq<Seq<char>>>,
    nonce: u128,
    path: Seq<char>,
)
    requires
        source.len() > 0,
        target.len() > 0,
        duplicated(files, root, source, target, expected, slug, ids, leaks, nonce).0 is Ok,
        starts_with(path, source + seq!['/']),
        ends_with(place_name(path), ".request.toml"@),
        request_at(files.nodes, root, path) is Ok,
    ensures
        ({
            let after = duplicated(
                files,
                root,
                source,
                target,
                expected,
                slug,
                ids,
                leaks,
                nonce,
            ).1.nodes;
            let copy = target + path.skip(source.len() as int);
            let held = request_at(files.nodes, root, path)->Ok_0;
            &&& file_bytes(after, copy) is Some
            &&& (file_bytes(after, copy)->Some_0).len() <= MAXIMUM_REQUEST_BYTES ==> request_at(
                after,
                root,
                copy,
            ) is Ok && same_but_identifier(request_at(after, root, copy)->Ok_0.value, held.value)
        }),
{
    lemma_requests_are_no_metadata(source, path);
    let d = request_at(files.nodes, root, path)->Ok_0;
    let before = file_bytes(files.nodes, path)->Some_0;
    assert(holds_request(before, d.value));
    lemma_copy_holds(files, root, source, target, expected, slug, ids, leaks, nonce, path);
    let after = duplicated(
        files,
        root,
        source,
        target,
        expected,
        slug,
        ids,
        leaks,
        nonce,
    ).1.nodes;
    let copy = moved_path(source, target, path);
    let bytes = file_bytes(after, copy)->Some_0;
    assert(request_kept(before, bytes));
    let c = choose|c: RequestDocumentView| #[trigger]
        holds_request(bytes, c) && same_but_identifier(
            c,
            d.value,
        );
    law_readable_text_has_no_conflict(decode_utf8(bytes));
}

/// The last name of the path of the file of a collection.
proof fn lemma_collection_name(source: Seq<char>)
    requires
        source.len() > 0,
    ensures
        place_name(entry_path(source, COLLECTION_FILE@)) == COLLECTION_FILE@,
{
    reveal_strlit("collection.toml");
    let name = COLLECTION_FILE@;
    assert(!name.contains('/')) by {
        if name.contains('/') {
            let i = choose|i: int| 0 <= i < name.len() && name[i] == '/';
            assert(i == 0 || i == 1 || i == 2 || i == 3 || i == 4 || i == 5 || i == 6 || i == 7
                || i == 8 || i == 9 || i == 10 || i == 11 || i == 12 || i == 13 || i == 14);
        }
    }
    crate::tree_laws::lemma_entry_parts(source, name);
}

/// Every folder of a copy, once it is read, is the folder at the same place of what was copied,
/// in everything but its identifier.
pub proof fn law_copied_folders_are_the_same(
    files: FilesView,
    root: Seq<char>,
    source: Seq<char>,
    target: Seq<char>,
    expected: u64,
    slug: Option<Seq<char>>,
    ids: IdSource,
    leaks: Seq<Seq<Seq<char>>>,
    nonce: u128,
    path: Seq<char>,
)
    requires
        source.len() > 0,
        target.len() > 0,
        duplicated(files, root, source, target, expected, slug, ids, leaks, nonce).0 is Ok,
        starts_with(path, source + seq!['/']),
        place_name(path) == FOLDER_FILE@,
        folder_at(files.nodes, root, path) is Ok,
    ensures
        ({
            let after = duplicated(
                files,
                root,
                source,
                target,
                expected,
                slug,
                ids,
                leaks,
                nonce,
            ).1.nodes;
            let copy = target + path.skip(source.len() as int);
            let held = folder_at(files.nodes, root, path)->Ok_0;
            &&& file_bytes(after, copy) is Some
            &&& (file_bytes(after, copy)->Some_0).len() <= MAXIMUM_METADATA_BYTES ==> folder_at(
                after,
                root,
                copy,
            ) is Ok && same_metadata_but_identifier(
                folder_at(after, root, copy)->Ok_0.value,
                held.value,
            )
        }),
{
    reveal_strlit("folder.toml");
    reveal_strlit("collection.toml");
    let d = folder_at(files.nodes, root, path)->Ok_0;
    let before = file_bytes(files.nodes, path)->Some_0;
    assert(holds_folder(before, d.value));
    assert(!names_the_copy(source, path)) by {
        lemma_collection_name(source);
        assert(FOLDER_FILE@.len() != COLLECTION_FILE@.len());
    }
    lemma_copy_holds(files, root, source, target, expected, slug, ids, leaks, nonce, path);
    let after = duplicated(
        files,
        root,
        source,
        target,
        expected,
        slug,
        ids,
        leaks,
        nonce,
    ).1.nodes;
    let copy = moved_path(source, target, path);
    let bytes = file_bytes(after, copy)->Some_0;
    assert(folder_kept(before, bytes));
    let c = choose|c: NamedView| #[trigger]
        holds_folder(bytes, c) && same_metadata_but_identifier(c, d.value);
    law_readable_text_has_no_conflict(decode_utf8(bytes));
}

/// A file of a copy that is neither a request nor metadata is the file that was copied, byte
/// for byte.
pub proof fn law_copied_files_are_the_same(
    files: FilesView,
    root: Seq<char>,
    source: Seq<char>,
    target: Seq<char>,
    expected: u64,
    slug: Option<Seq<char>>,
    ids: IdSource,
    leaks: Seq<Seq<Seq<char>>>,
    nonce: u128,
    path: Seq<char>,
)
    requires
        source.len() > 0,
        target.len() > 0,
        duplicated(files, root, source, target, expected, slug, ids, leaks, nonce).0 is Ok,
        starts_with(path, source + seq!['/']),
        place_name(path) != FOLDER_FILE@,
        !ends_with(place_name(path), ".request.toml"@),
        path != source + seq!['/'] + COLLECTION_FILE@,
        file_bytes(files.nodes, path) is Some,
    ensures
        file_bytes(
            duplicated(files, root, source, target, expected, slug, ids, leaks, nonce).1.nodes,
            target + path.skip(source.len() as int),
        ) == file_bytes(files.nodes, path),
{
    lemma_copy_holds(files, root, source, target, expected, slug, ids, leaks, nonce, path);
}

/// A request of a copy gets an identifier of its own as it is given its turn: the next that
/// there is.
pub proof fn law_copied_requests_get_new_identifiers(
    state: Rekeying,
    root: Seq<char>,
    place: Seq<char>,
    leaks: Seq<Seq<Seq<char>>>,
)
    requires
        rekeyed_file(state, root, place, leaks).0 is Ok,
        ends_with(place_name(place), ".request.toml"@),
    ensures
        ({
            let after = rekeyed_file(state, root, place, leaks).1;
            &&& after.source == crate::naming::next_source(state.source)
            &&& file_bytes(after.files.nodes, place) is Some
            &&& (file_bytes(after.files.nodes, place)->Some_0).len() <= MAXIMUM_REQUEST_BYTES
                ==> request_at(after.files.nodes, root, place) is Ok && request_at(
                after.files.nodes,
                root,
                place,
            )->Ok_0.value.request.id == generated_text("request"@, state.source)
        }),
{
    reveal_strlit(".request.toml");
    reveal_strlit("folder.toml");
    assert("folder.toml"@.len() < ".request.toml"@.len());
    let d = request_at(state.files.nodes, root, place)->Ok_0;
    let now = file_bytes(state.files.nodes, place)->Some_0;
    assert(holds_request(now, d.value));
    let text = request_text(rekeyed_request(d.value, state.source));
    assert(request_kept(now, now)) by {
        lemma_holds_at_first(place, now);
    }
    lemma_request_step(now, now, d.value, state.source);
    lemma_write_step(state.files, root, place, text, Some(d.fingerprint), place);
    law_readable_text_has_no_conflict(decode_utf8(encode_utf8(text)));
}

/// A copied collection is called after its slug and is archived where the collection is; what
/// is unknown of the collection is kept.
pub proof fn law_copied_collections_are_called_after_their_slug(
    state: Rekeying,
    root: Seq<char>,
    place: Seq<char>,
    slug: Seq<char>,
)
    requires
        rekeyed_collection(state, root, place, Some(slug)).0 is Ok,
        crate::collection::is_document_name(crate::naming::humanized(slug)),
    ensures
        ({
            let after = rekeyed_collection(state, root, place, Some(slug)).1.files.nodes;
            let file = place + seq!['/'] + COLLECTION_FILE@;
            &&& place.len() > 0 && (file_bytes(after, file)->Some_0).len()
                <= MAXIMUM_METADATA_BYTES ==> {
                &&& collection_at(after, root, file) is Ok
                &&& collection_at(after, root, file)->Ok_0.value.name == crate::naming::humanized(
                    slug,
                )
                &&& collection_at(after, root, file)->Ok_0.value.id == generated_text(
                    "collection"@,
                    state.source,
                )
                &&& collection_at(state.files.nodes, root, file) matches Ok(d) ==> {
                    &&& collection_at(after, root, file)->Ok_0.value.archived == d.value.archived
                    &&& collection_at(after, root, file)->Ok_0.value.unknown_fields
                        == d.value.unknown_fields
                }
                &&& !crate::files::is_there(state.files.nodes, file) ==> !collection_at(
                    after,
                    root,
                    file,
                )->Ok_0.value.archived
            }
        }),
{
    if place.len() > 0 {
        let file = entry_path(place, COLLECTION_FILE@);
        lemma_prefixes_are_slugs();
        law_generated_ids_are_valid("collection"@, state.source);
        let id = generated_text("collection"@, state.source);
        let name = crate::naming::humanized(slug);
        if crate::files::is_there(state.files.nodes, file) {
            let d = collection_at(state.files.nodes, root, file)->Ok_0;
            let now = file_bytes(state.files.nodes, file)->Some_0;
            law_collection_rewrite_is_stable(decode_utf8(now));
            let e = NamedView { id, name, ..d.value };
            law_collection_round_trip(e);
            law_readable_text_has_no_conflict(collection_text(e));
            encode_utf8_valid_utf8(collection_text(e));
            encode_utf8_decode_utf8(collection_text(e));
            lemma_written_bytes(state.files, file, encode_utf8(collection_text(e)));
        } else {
            let e = crate::collection::new_named(id, name);
            law_collection_round_trip(e);
            law_readable_text_has_no_conflict(collection_text(e));
            encode_utf8_valid_utf8(collection_text(e));
            encode_utf8_decode_utf8(collection_text(e));
            lemma_written_bytes(state.files, file, encode_utf8(collection_text(e)));
        }
    }
}

/// Copying leaves what is copied as it was.
pub proof fn law_copying_leaves_the_source_alone(
    files: FilesView,
    root: Seq<char>,
    source: Seq<char>,
    target: Seq<char>,
    expected: u64,
    slug: Option<Seq<char>>,
    ids: IdSource,
    leaks: Seq<Seq<Seq<char>>>,
    nonce: u128,
    path: Seq<char>,
)
    requires
        files.nodes.dom().finite(),
        under(source, path),
        apart(source, target),
        apart(source, temporary_place(target, "copy"@, nonce)),
    ensures
        ({
            let after = duplicated(
                files,
                root,
                source,
                target,
                expected,
                slug,
                ids,
                leaks,
                nonce,
            ).1.nodes;
            &&& after.dom().contains(path) <==> files.nodes.dom().contains(path)
            &&& files.nodes.dom().contains(path) ==> after[path] == files.nodes[path]
        }),
{
    let temporary = temporary_place(target, "copy"@, nonce);
    crate::repository_collections::lemma_temporary_not_empty(target, "copy"@, nonce);
    let action = ActionView::CopyTree { from: source, to: temporary };
    let copied = performed(files, seq![action]);
    lemma_one_change(files, action);
    lemma_copies_finite(files.nodes, files.nodes, source, temporary);
    assert(untouched(files.nodes, copied.nodes, source)) by {
        assert forall|k: Seq<char>| #[trigger] under(source, k) implies (
        copied.nodes.dom().contains(k) <==> files.nodes.dom().contains(k)) && (
        files.nodes.dom().contains(k) ==> copied.nodes[k] == files.nodes[k]) by {
            if under(temporary, k) {
                lemma_comparable(temporary, source, k);
            }
        }
    }
    let start = Rekeying { files: copied, source: ids, requests: 0 };
    lemma_rekeyed_leaves_alone(files.nodes, start, root, temporary, source, slug, leaks);
    let done = rekeyed(start, root, temporary, slug, leaks).1.files;
    lemma_removing_leaves_alone(files.nodes, files, temporary, source);
    lemma_removing_leaves_alone(files.nodes, copied, temporary, source);
    lemma_removing_leaves_alone(files.nodes, done, temporary, source);
    lemma_one_change(done, ActionView::Rename { from: temporary, to: target });
    assert(under(source, path));
    if under(temporary, path) {
        lemma_comparable(temporary, source, path);
    }
    if under(target, path) {
        lemma_comparable(target, source, path);
    }
}

} // verus!
