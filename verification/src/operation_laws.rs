//! What the changes to a workspace that commands ask for promise.
use crate::collection::{
    collection_text, folder_text, law_collection_rewrite_is_stable, law_collection_round_trip,
    law_folder_rewrite_is_stable, law_folder_round_trip, new_named, NamedView, OrderView,
    COLLECTION_FILE, FOLDER_FILE, ORDER_FILE,
};
use crate::copy_laws::{
    collection_at, folder_at, law_copied_requests_are_the_same, request_at, same_but_identifier,
};
use crate::document::CURRENT_SCHEMA_VERSION;
use crate::domain::{is_slug, AuthenticationView, BodyView, MethodView};
use crate::files::{
    can_be_entered, entry_path, file_bytes, moved_path, parent_place, performed, rooted, under,
    ActionView, FilesView, Nodes,
};
use crate::flat::Fields;
use crate::lines::{ends_with, starts_with};
use crate::naming::{place_name, temporary_place, IdSource};
use crate::repository::{
    collection_place, folder_place, MAXIMUM_METADATA_BYTES, MAXIMUM_REQUEST_BYTES,
};
use crate::repository_collections::{created, creation_actions, deleted, renamed};
use crate::repository_documents::{order_loaded, request_loaded};
use crate::repository_laws::{
    law_readable_text_has_no_conflict, law_saved_request_is_loaded, lemma_written_bytes,
};
use crate::tree_laws::{
    law_deleted_tree_is_gone, law_rename_moves_the_tree, lemma_entry_parts, lemma_one_change,
    lemma_slug_is_entry_name,
};
use crate::workspace_effect::{
    collection_digest, folder_digest, new_request, operation_done, RequestChangeView, ReportView,
};
use crate::workspace_operation::OperationView;
use vstd::prelude::*;
use vstd::utf8::{decode_utf8, encode_utf8, encode_utf8_decode_utf8, encode_utf8_valid_utf8};

verus! {

/// The directory of a folder of a collection, or of the collection itself.
pub open spec fn directory_of(collection: Seq<char>, folders: Seq<Seq<char>>) -> Seq<char>
    decreases folders.len(),
{
    if folders.len() == 0 {
        "collections/"@ + collection
    } else {
        directory_of(collection, folders.drop_last()) + seq!['/'] + folders.last()
    }
}

proof fn lemma_directory_of(collection: Seq<char>, folders: Seq<Seq<char>>)
    requires
        folder_place(collection, folders) is Ok,
    ensures
        folder_place(collection, folders)->Ok_0 == directory_of(collection, folders),
        directory_of(collection, folders).len() > 0,
        is_slug(collection),
        folders.len() > 0 ==> is_slug(folders.last()) && folder_place(
            collection,
            folders.drop_last(),
        ) is Ok,
    decreases folders.len(),
{
    reveal_strlit("collections/");
    reveal_strlit("collections");
    if folders.len() == 0 {
        assert(entry_path("collections"@, collection) =~= "collections/"@ + collection);
    } else {
        lemma_directory_of(collection, folders.drop_last());
    }
}

proof fn lemma_collection_directory(slug: Seq<char>)
    ensures
        collection_place(slug) matches Ok(place) ==> place == directory_of(slug, seq![]) && is_slug(
            slug,
        ) && place.len() > 0,
        directory_of(slug, seq![]) == "collections/"@ + slug,
{
    let none = Seq::<Seq<char>>::empty();
    if collection_place(slug) is Ok {
        assert(folder_place(slug, none) == collection_place(slug));
        lemma_directory_of(slug, none);
    }
}

/// Whether a command was carried out.
pub open spec fn carried_out(
    files: FilesView,
    root: Seq<char>,
    operation: OperationView,
    nonce: u128,
    ids: IdSource,
    leaks: Seq<Seq<Seq<char>>>,
) -> bool {
    operation_done(files, root, operation, nonce, ids, leaks).0 matches Ok(ReportView::Completed(_))
}

/// What was made beside its place is there once it was moved.
proof fn lemma_created_file(
    files: FilesView,
    root: Seq<char>,
    place: Seq<char>,
    name: Seq<char>,
    text: Seq<char>,
    nonce: u128,
)
    requires
        place.len() > 0,
        created(files, root, place, name, text, nonce).0 is Ok,
    ensures
        file_bytes(
            created(files, root, place, name, text, nonce).1.nodes,
            place + seq!['/'] + name,
        ) == Some(encode_utf8(text)),
{
    let bytes = encode_utf8(text);
    let all = creation_actions(place, name, text, nonce);
    let temporary = temporary_place(place, "create"@, nonce);
    crate::repository_collections::lemma_temporary_not_empty(place, "create"@, nonce);
    let before = performed(files, all.drop_last());
    assert(all.drop_last().last() == all[2]);
    let source = entry_path(temporary, name);
    assert(file_bytes(before.nodes, source) == Some(bytes));
    let file = entry_path(place, name);
    assert(all.last() == ActionView::Rename { from: temporary, to: place });
    assert(under(place, file)) by {
        assert(file.take(place.len() as int + 1) =~= place + seq!['/']);
    }
    assert(moved_path(place, temporary, file) =~= source);
}

proof fn lemma_text_is_read(text: Seq<char>)
    ensures
        decode_utf8(encode_utf8(text)) == text,
        vstd::utf8::valid_utf8(encode_utf8(text)),
{
    encode_utf8_valid_utf8(text);
    encode_utf8_decode_utf8(text);
}

/// A collection that a command made is read under its identifier and its name, and is not
/// archived.
pub proof fn law_made_collections_are_read(
    files: FilesView,
    root: Seq<char>,
    slug: Seq<char>,
    id: Seq<char>,
    name: Seq<char>,
    nonce: u128,
    ids: IdSource,
    leaks: Seq<Seq<Seq<char>>>,
)
    requires
        is_slug(id),
        carried_out(
            files,
            root,
            OperationView::CreateCollection { slug, id, name },
            nonce,
            ids,
            leaks,
        ),
    ensures
        ({
            let operation = OperationView::CreateCollection { slug, id, name };
            let after = operation_done(files, root, operation, nonce, ids, leaks).1.nodes;
            let place = directory_of(slug, seq![]) + seq!['/'] + COLLECTION_FILE@;
            &&& file_bytes(after, place) is Some
            &&& (file_bytes(after, place)->Some_0).len() <= MAXIMUM_METADATA_BYTES ==> {
                &&& collection_at(after, root, place) is Ok
                &&& collection_at(after, root, place)->Ok_0.value.id == id
                &&& collection_at(after, root, place)->Ok_0.value.name == name
                &&& !collection_at(after, root, place)->Ok_0.value.archived
            }
        }),
{
    lemma_collection_directory(slug);
    let place = directory_of(slug, seq![]);
    let d = new_named(id, name);
    lemma_created_file(files, root, place, COLLECTION_FILE@, collection_text(d), nonce);
    law_collection_round_trip(d);
    law_readable_text_has_no_conflict(collection_text(d));
    lemma_text_is_read(collection_text(d));
}

/// A folder that a command made is read under its identifier and its name, and is not archived.
pub proof fn law_made_folders_are_read(
    files: FilesView,
    root: Seq<char>,
    collection: Seq<char>,
    folders: Seq<Seq<char>>,
    id: Seq<char>,
    name: Seq<char>,
    nonce: u128,
    ids: IdSource,
    leaks: Seq<Seq<Seq<char>>>,
)
    requires
        is_slug(id),
        carried_out(
            files,
            root,
            OperationView::CreateFolder { collection, folders, id, name },
            nonce,
            ids,
            leaks,
        ),
    ensures
        ({
            let operation = OperationView::CreateFolder { collection, folders, id, name };
            let after = operation_done(files, root, operation, nonce, ids, leaks).1.nodes;
            let place = directory_of(collection, folders) + seq!['/'] + FOLDER_FILE@;
            &&& folders.len() > 0
            &&& file_bytes(after, place) is Some
            &&& (file_bytes(after, place)->Some_0).len() <= MAXIMUM_METADATA_BYTES ==> {
                &&& folder_at(after, root, place) is Ok
                &&& folder_at(after, root, place)->Ok_0.value.id == id
                &&& folder_at(after, root, place)->Ok_0.value.name == name
                &&& !folder_at(after, root, place)->Ok_0.value.archived
            }
        }),
{
    lemma_directory_of(collection, folders);
    let place = directory_of(collection, folders);
    let d = new_named(id, name);
    lemma_created_file(files, root, place, FOLDER_FILE@, folder_text(d), nonce);
    law_folder_round_trip(d);
    law_readable_text_has_no_conflict(folder_text(d));
    lemma_text_is_read(folder_text(d));
}

/// Whether all that a directory held, and nothing else, now lies at another place.
pub open spec fn has_moved(before: Nodes, after: Nodes, from: Seq<char>, to: Seq<char>) -> bool {
    &&& forall|path: Seq<char>| #[trigger]
        under(from, path) ==> !after.dom().contains(path) && (before.dom().contains(path)
            ==> after.dom().contains(to + path.skip(from.len() as int)) && after[to + path.skip(
            from.len() as int,
        )] == before[path])
    &&& forall|path: Seq<char>|
        !under(from, path) && !under(to, path) ==> (#[trigger] after.dom().contains(path)
            <==> before.dom().contains(path)) && (before.dom().contains(path) ==> after[path]
            == before[path])
}

proof fn lemma_has_moved(
    files: FilesView,
    root: Seq<char>,
    from: Seq<char>,
    to: Seq<char>,
    expected: u64,
)
    requires
        rooted(files.nodes),
        to.len() > 0,
        renamed(files, root, from, to, expected).0 is Ok,
    ensures
        has_moved(files.nodes, renamed(files, root, from, to, expected).1.nodes, from, to),
{
    let after = renamed(files, root, from, to, expected).1;
    lemma_one_change(files, ActionView::Rename { from, to });
    assert(after.journal.len() == files.journal.len() + 1);
    assert forall|path: Seq<char>| #[trigger] under(from, path) implies !after.nodes.dom().contains(
        path,
    ) && (files.nodes.dom().contains(path) ==> after.nodes.dom().contains(
        to + path.skip(from.len() as int),
    ) && after.nodes[to + path.skip(from.len() as int)] == files.nodes[path]) by {
        law_rename_moves_the_tree(files, root, from, to, expected, path);
    }
    assert forall|path: Seq<char>| !under(from, path) && !under(to, path) implies (
    #[trigger] after.nodes.dom().contains(path) <==> files.nodes.dom().contains(path)) && (
    files.nodes.dom().contains(path) ==> after.nodes[path] == files.nodes[path]) by {
        law_rename_moves_the_tree(files, root, from, to, expected, path);
    }
}

/// A collection that a command renamed stands under its new name with all it held.
pub proof fn law_renamed_collections_move(
    files: FilesView,
    root: Seq<char>,
    source: Seq<char>,
    target: Seq<char>,
    nonce: u128,
    ids: IdSource,
    leaks: Seq<Seq<Seq<char>>>,
)
    requires
        rooted(files.nodes),
        carried_out(
            files,
            root,
            OperationView::RenameCollection { source, target },
            nonce,
            ids,
            leaks,
        ),
    ensures
        has_moved(
            files.nodes,
            operation_done(
                files,
                root,
                OperationView::RenameCollection { source, target },
                nonce,
                ids,
                leaks,
            ).1.nodes,
            directory_of(source, seq![]),
            directory_of(target, seq![]),
        ),
{
    lemma_collection_directory(source);
    lemma_collection_directory(target);
    let expected = collection_digest(files.nodes, root, source)->Ok_0;
    lemma_has_moved(
        files,
        root,
        directory_of(source, seq![]),
        directory_of(target, seq![]),
        expected,
    );
}

/// A folder that a command renamed stands under its new name, beside where it stood, with all
/// it held.
pub proof fn law_renamed_folders_move(
    files: FilesView,
    root: Seq<char>,
    collection: Seq<char>,
    folders: Seq<Seq<char>>,
    target: Seq<char>,
    nonce: u128,
    ids: IdSource,
    leaks: Seq<Seq<Seq<char>>>,
)
    requires
        rooted(files.nodes),
        folders.len() > 0,
        carried_out(
            files,
            root,
            OperationView::RenameFolder { collection, folders, target },
            nonce,
            ids,
            leaks,
        ),
    ensures
        has_moved(
            files.nodes,
            operation_done(
                files,
                root,
                OperationView::RenameFolder { collection, folders, target },
                nonce,
                ids,
                leaks,
            ).1.nodes,
            directory_of(collection, folders),
            directory_of(collection, folders.drop_last().push(target)),
        ),
{
    lemma_directory_of(collection, folders);
    let front = folders.drop_last();
    lemma_directory_of(collection, front);
    let source = directory_of(collection, folders);
    lemma_slug_is_entry_name(folders.last());
    lemma_entry_parts(directory_of(collection, front), folders.last());
    assert(parent_place(source) == directory_of(collection, front));
    let more = front.push(target);
    assert(more.drop_last() =~= front);
    let to = directory_of(collection, more);
    assert(to == entry_path(parent_place(source), target));
    let expected = folder_digest(files.nodes, root, collection, folders)->Ok_0;
    lemma_has_moved(files, root, source, to, expected);
}

/// A folder that a command moved stands in the folder that was named, under the name that was
/// given, with all it held.
pub proof fn law_moved_folders_move(
    files: FilesView,
    root: Seq<char>,
    collection: Seq<char>,
    folders: Seq<Seq<char>>,
    parents: Seq<Seq<char>>,
    target: Seq<char>,
    nonce: u128,
    ids: IdSource,
    leaks: Seq<Seq<Seq<char>>>,
)
    requires
        rooted(files.nodes),
        carried_out(
            files,
            root,
            OperationView::MoveFolder { collection, folders, parents, target },
            nonce,
            ids,
            leaks,
        ),
    ensures
        has_moved(
            files.nodes,
            operation_done(
                files,
                root,
                OperationView::MoveFolder { collection, folders, parents, target },
                nonce,
                ids,
                leaks,
            ).1.nodes,
            directory_of(collection, folders),
            directory_of(collection, parents.push(target)),
        ),
        !under(directory_of(collection, folders), directory_of(collection, parents)),
        can_be_entered(files.nodes, directory_of(collection, parents)),
{
    lemma_directory_of(collection, folders);
    lemma_directory_of(collection, parents);
    let more = parents.push(target);
    assert(more.drop_last() =~= parents);
    let to = directory_of(collection, more);
    let expected = folder_digest(files.nodes, root, collection, folders)->Ok_0;
    lemma_has_moved(files, root, directory_of(collection, folders), to, expected);
}

/// A collection or folder that a command deleted is gone with all it held.
pub proof fn law_deleted_directories_are_gone(
    files: FilesView,
    root: Seq<char>,
    collection: Seq<char>,
    folders: Seq<Seq<char>>,
    nonce: u128,
    ids: IdSource,
    leaks: Seq<Seq<Seq<char>>>,
    path: Seq<char>,
)
    requires
        rooted(files.nodes),
    ensures
        ({
            let operation = OperationView::DeleteFolder { collection, folders };
            let after = operation_done(files, root, operation, nonce, ids, leaks).1.nodes;
            let place = directory_of(collection, folders);
            let aside = temporary_place(place, "delete"@, nonce);
            carried_out(files, root, operation, nonce, ids, leaks) ==> {
                &&& under(place, path) ==> !after.dom().contains(path)
                &&& !under(place, path) && !under(aside, path) ==> (after.dom().contains(path)
                    <==> files.nodes.dom().contains(path)) && (files.nodes.dom().contains(path)
                    ==> after[path] == files.nodes[path])
            }
        }),
        ({
            let operation = OperationView::DeleteCollection { slug: collection };
            let after = operation_done(files, root, operation, nonce, ids, leaks).1.nodes;
            let place = directory_of(collection, seq![]);
            let aside = temporary_place(place, "delete"@, nonce);
            carried_out(files, root, operation, nonce, ids, leaks) ==> {
                &&& under(place, path) ==> !after.dom().contains(path)
                &&& !under(place, path) && !under(aside, path) ==> (after.dom().contains(path)
                    <==> files.nodes.dom().contains(path)) && (files.nodes.dom().contains(path)
                    ==> after[path] == files.nodes[path])
            }
        }),
{
    let folder = OperationView::DeleteFolder { collection, folders };
    if carried_out(files, root, folder, nonce, ids, leaks) {
        lemma_directory_of(collection, folders);
        let expected = folder_digest(files.nodes, root, collection, folders)->Ok_0;
        law_deleted_tree_is_gone(
            files,
            root,
            directory_of(collection, folders),
            expected,
            nonce,
            path,
        );
    }
    let whole = OperationView::DeleteCollection { slug: collection };
    if carried_out(files, root, whole, nonce, ids, leaks) {
        lemma_collection_directory(collection);
        let expected = collection_digest(files.nodes, root, collection)->Ok_0;
        law_deleted_tree_is_gone(
            files,
            root,
            directory_of(collection, seq![]),
            expected,
            nonce,
            path,
        );
    }
}

/// A collection that a command archived, or took out of the archive, reads as such; its
/// identifier, its name and what is unknown of it are as they were.
pub proof fn law_archived_collections_keep_the_rest(
    files: FilesView,
    root: Seq<char>,
    slug: Seq<char>,
    archived: bool,
    nonce: u128,
    ids: IdSource,
    leaks: Seq<Seq<Seq<char>>>,
)
    requires
        carried_out(
            files,
            root,
            OperationView::ArchiveCollection { slug, archived },
            nonce,
            ids,
            leaks,
        ),
    ensures
        ({
            let operation = OperationView::ArchiveCollection { slug, archived };
            let after = operation_done(files, root, operation, nonce, ids, leaks).1.nodes;
            let place = directory_of(slug, seq![]) + seq!['/'] + COLLECTION_FILE@;
            let before = collection_at(files.nodes, root, place);
            &&& before is Ok
            &&& file_bytes(after, place) is Some
            &&& (file_bytes(after, place)->Some_0).len() <= MAXIMUM_METADATA_BYTES ==> {
                &&& collection_at(after, root, place) is Ok
                &&& collection_at(after, root, place)->Ok_0.value.archived == archived
                &&& collection_at(after, root, place)->Ok_0.value.id == before->Ok_0.value.id
                &&& collection_at(after, root, place)->Ok_0.value.name == before->Ok_0.value.name
                &&& collection_at(after, root, place)->Ok_0.value.unknown_fields
                    == before->Ok_0.value.unknown_fields
            }
        }),
{
    lemma_collection_directory(slug);
    let place = directory_of(slug, seq![]) + seq!['/'] + COLLECTION_FILE@;
    let d = collection_at(files.nodes, root, place)->Ok_0;
    law_collection_rewrite_is_stable(decode_utf8(file_bytes(files.nodes, place)->Some_0));
    let e = NamedView { archived, ..d.value };
    law_collection_round_trip(e);
    law_readable_text_has_no_conflict(collection_text(e));
    lemma_text_is_read(collection_text(e));
    lemma_written_bytes(files, place, encode_utf8(collection_text(e)));
}

/// A folder that a command archived, or took out of the archive, reads as such; its
/// identifier, its name and what is unknown of it are as they were.
pub proof fn law_archived_folders_keep_the_rest(
    files: FilesView,
    root: Seq<char>,
    collection: Seq<char>,
    folders: Seq<Seq<char>>,
    archived: bool,
    nonce: u128,
    ids: IdSource,
    leaks: Seq<Seq<Seq<char>>>,
)
    requires
        carried_out(
            files,
            root,
            OperationView::ArchiveFolder { collection, folders, archived },
            nonce,
            ids,
            leaks,
        ),
    ensures
        ({
            let operation = OperationView::ArchiveFolder { collection, folders, archived };
            let after = operation_done(files, root, operation, nonce, ids, leaks).1.nodes;
            let place = directory_of(collection, folders) + seq!['/'] + FOLDER_FILE@;
            let before = folder_at(files.nodes, root, place);
            &&& before is Ok
            &&& file_bytes(after, place) is Some
            &&& (file_bytes(after, place)->Some_0).len() <= MAXIMUM_METADATA_BYTES ==> {
                &&& folder_at(after, root, place) is Ok
                &&& folder_at(after, root, place)->Ok_0.value.archived == archived
                &&& folder_at(after, root, place)->Ok_0.value.id == before->Ok_0.value.id
                &&& folder_at(after, root, place)->Ok_0.value.name == before->Ok_0.value.name
                &&& folder_at(after, root, place)->Ok_0.value.unknown_fields
                    == before->Ok_0.value.unknown_fields
            }
        }),
{
    lemma_directory_of(collection, folders);
    let place = directory_of(collection, folders) + seq!['/'] + FOLDER_FILE@;
    let d = folder_at(files.nodes, root, place)->Ok_0;
    law_folder_rewrite_is_stable(decode_utf8(file_bytes(files.nodes, place)->Some_0));
    let e = NamedView { archived, ..d.value };
    law_folder_round_trip(e);
    law_readable_text_has_no_conflict(folder_text(e));
    lemma_text_is_read(folder_text(e));
    lemma_written_bytes(files, place, encode_utf8(folder_text(e)));
}

/// A collection that a command copied holds the requests of the collection that was copied,
/// each at its place and the same in all but its identifier.
pub proof fn law_duplicated_collections_hold_the_same(
    files: FilesView,
    root: Seq<char>,
    source: Seq<char>,
    target: Seq<char>,
    nonce: u128,
    ids: IdSource,
    leaks: Seq<Seq<Seq<char>>>,
    path: Seq<char>,
)
    requires
        carried_out(
            files,
            root,
            OperationView::DuplicateCollection { source, target },
            nonce,
            ids,
            leaks,
        ),
        starts_with(path, directory_of(source, seq![]) + seq!['/']),
        ends_with(place_name(path), ".request.toml"@),
        request_at(files.nodes, root, path) is Ok,
    ensures
        ({
            let operation = OperationView::DuplicateCollection { source, target };
            let after = operation_done(files, root, operation, nonce, ids, leaks).1.nodes;
            let copy = directory_of(target, seq![]) + path.skip(
                directory_of(source, seq![]).len() as int,
            );
            &&& file_bytes(after, copy) is Some
            &&& (file_bytes(after, copy)->Some_0).len() <= MAXIMUM_REQUEST_BYTES ==> request_at(
                after,
                root,
                copy,
            ) is Ok && same_but_identifier(
                request_at(after, root, copy)->Ok_0.value,
                request_at(files.nodes, root, path)->Ok_0.value,
            )
        }),
{
    lemma_collection_directory(source);
    lemma_collection_directory(target);
    let expected = collection_digest(files.nodes, root, source)->Ok_0;
    law_copied_requests_are_the_same(
        files,
        root,
        directory_of(source, seq![]),
        directory_of(target, seq![]),
        expected,
        Some(target),
        ids,
        leaks,
        nonce,
        path,
    );
}

/// A folder that a command copied holds the requests of the folder that was copied, each at its
/// place and the same in all but its identifier.
pub proof fn law_duplicated_folders_hold_the_same(
    files: FilesView,
    root: Seq<char>,
    collection: Seq<char>,
    folders: Seq<Seq<char>>,
    parents: Seq<Seq<char>>,
    target: Seq<char>,
    nonce: u128,
    ids: IdSource,
    leaks: Seq<Seq<Seq<char>>>,
    path: Seq<char>,
)
    requires
        carried_out(
            files,
            root,
            OperationView::DuplicateFolder { collection, folders, parents, target },
            nonce,
            ids,
            leaks,
        ),
        starts_with(path, directory_of(collection, folders) + seq!['/']),
        ends_with(place_name(path), ".request.toml"@),
        request_at(files.nodes, root, path) is Ok,
    ensures
        ({
            let operation = OperationView::DuplicateFolder {
                collection,
                folders,
                parents,
                target,
            };
            let after = operation_done(files, root, operation, nonce, ids, leaks).1.nodes;
            let copy = directory_of(collection, parents.push(target)) + path.skip(
                directory_of(collection, folders).len() as int,
            );
            &&& file_bytes(after, copy) is Some
            &&& (file_bytes(after, copy)->Some_0).len() <= MAXIMUM_REQUEST_BYTES ==> request_at(
                after,
                root,
                copy,
            ) is Ok && same_but_identifier(
                request_at(after, root, copy)->Ok_0.value,
                request_at(files.nodes, root, path)->Ok_0.value,
            )
        }),
{
    lemma_directory_of(collection, folders);
    lemma_directory_of(collection, parents);
    let more = parents.push(target);
    assert(more.drop_last() =~= parents);
    let expected = folder_digest(files.nodes, root, collection, folders)->Ok_0;
    law_copied_requests_are_the_same(
        files,
        root,
        directory_of(collection, folders),
        directory_of(collection, more),
        expected,
        None,
        ids,
        leaks,
        nonce,
        path,
    );
}

/// A request that a command made is read at its path, under its identifier and its name and
/// with its url; it is a plain request that nothing else was said of.
pub proof fn law_made_requests_are_read(
    files: FilesView,
    root: Seq<char>,
    path: Seq<char>,
    id: Seq<char>,
    name: Seq<char>,
    url: Seq<char>,
    nonce: u128,
    ids: IdSource,
    leaks: Seq<Seq<Seq<char>>>,
)
    requires
        is_slug(id),
        crate::request_laws::request_writable(new_request(id, name, url)),
        encode_utf8(crate::request::request_text(new_request(id, name, url))).len()
            <= MAXIMUM_REQUEST_BYTES,
        carried_out(
            files,
            root,
            OperationView::CreateRequest { path, id, name, url },
            nonce,
            ids,
            leaks,
        ),
    ensures
        ({
            let operation = OperationView::CreateRequest { path, id, name, url };
            let after = operation_done(files, root, operation, nonce, ids, leaks).1.nodes;
            &&& request_loaded(after, root, path) is Ok
            &&& request_loaded(after, root, path)->Ok_0.value.request.id == id
            &&& request_loaded(after, root, path)->Ok_0.value.request.name == name
            &&& request_loaded(after, root, path)->Ok_0.value.request.url == url
            &&& request_loaded(after, root, path)->Ok_0.value.request.method == MethodView::Get
            &&& request_loaded(after, root, path)->Ok_0.value.request.query.len() == 0
            &&& request_loaded(after, root, path)->Ok_0.value.request.authentication
                == AuthenticationView::Anonymous
            &&& request_loaded(after, root, path)->Ok_0.value.request.body == BodyView::Empty
            &&& request_loaded(after, root, path)->Ok_0.value.request.documentation.len() == 0
        }),
{
    law_saved_request_is_loaded(
        files,
        root,
        path,
        new_request(id, name, url),
        None,
        seq![],
    );
}

/// A change to a request is left to be done on the request that was named, as it is now, and
/// touches nothing by itself.
pub proof fn law_changes_to_requests_are_left_as_asked(
    files: FilesView,
    root: Seq<char>,
    source: Seq<char>,
    target: Seq<char>,
    nonce: u128,
    ids: IdSource,
    leaks: Seq<Seq<Seq<char>>>,
)
    ensures
        ({
            let move_it = operation_done(
                files,
                root,
                OperationView::MoveRequest { source, target },
                nonce,
                ids,
                leaks,
            );
            let copy_it = operation_done(
                files,
                root,
                OperationView::DuplicateRequest { source, target },
                nonce,
                ids,
                leaks,
            );
            let delete_it = operation_done(
                files,
                root,
                OperationView::DeleteRequest { path: source },
                nonce,
                ids,
                leaks,
            );
            let found = request_loaded(files.nodes, root, source);
            &&& move_it.1 == files && copy_it.1 == files && delete_it.1 == files
            &&& (move_it.0 is Ok <==> found is Ok) && (copy_it.0 is Ok <==> found is Ok) && (
            delete_it.0 is Ok <==> found is Ok)
            &&& found matches Ok(d) ==> {
                &&& move_it.0->Ok_0 == ReportView::Left(
                    RequestChangeView::Move { source, target, expected: d.fingerprint },
                )
                &&& copy_it.0->Ok_0 == ReportView::Left(
                    RequestChangeView::Duplicate { source, target, expected: d.fingerprint },
                )
                &&& delete_it.0->Ok_0 == ReportView::Left(
                    RequestChangeView::Delete { path: source, expected: d.fingerprint },
                )
            }
        }),
{
}

/// An order that a command gave is what is read of the directory, so long as the list of its
/// items is read back from its text.
pub proof fn law_given_orders_are_read(
    files: FilesView,
    root: Seq<char>,
    collection: Seq<char>,
    folders: Seq<Seq<char>>,
    items: Seq<Seq<char>>,
    nonce: u128,
    ids: IdSource,
    leaks: Seq<Seq<Seq<char>>>,
)
    requires
        carried_out(
            files,
            root,
            OperationView::SetOrder { collection, folders, items },
            nonce,
            ids,
            leaks,
        ),
        crate::collection::json_list_value(crate::collection::json_list_text(items)) == Ok::<
            Seq<Seq<char>>,
            Seq<char>,
        >(items),
        crate::document::plain_value(crate::collection::json_list_text(items)),
    ensures
        ({
            let operation = OperationView::SetOrder { collection, folders, items };
            let after = operation_done(files, root, operation, nonce, ids, leaks).1.nodes;
            let place = directory_of(collection, folders) + seq!['/'] + ORDER_FILE@;
            &&& file_bytes(after, place) is Some
            &&& (file_bytes(after, place)->Some_0).len() <= MAXIMUM_METADATA_BYTES ==> {
                &&& order_loaded(after, root, Some(collection), folders) matches Ok(Some(_))
                &&& (order_loaded(after, root, Some(collection), folders)->Ok_0->Some_0).value.items
                    == items
            }
            &&& forall|i: int|
                0 <= i < items.len() ==> crate::files::is_there(
                    files.nodes,
                    directory_of(collection, folders) + seq!['/'] + #[trigger] items[i],
                )
        }),
{
    lemma_directory_of(collection, folders);
    let place = directory_of(collection, folders) + seq!['/'] + ORDER_FILE@;
    let d = OrderView {
        schema_version: CURRENT_SCHEMA_VERSION,
        items,
        unknown_fields: Fields::empty(),
    };
    let text = crate::collection::order_text(d);
    crate::collection::law_order_round_trip(d, crate::collection::json_list_text(items));
    law_readable_text_has_no_conflict(text);
    lemma_text_is_read(text);
    lemma_written_bytes(files, place, encode_utf8(text));
    lemma_no_item_missing(files.nodes, directory_of(collection, folders), items);
}

proof fn lemma_no_item_missing(nodes: Nodes, directory: Seq<char>, items: Seq<Seq<char>>)
    requires
        crate::repository_documents::missing_item(nodes, directory, items) is None,
    ensures
        forall|i: int|
            0 <= i < items.len() ==> crate::files::is_there(
                nodes,
                entry_path(directory, #[trigger] items[i]),
            ),
    decreases items.len(),
{
    if items.len() > 0 {
        let front = items.drop_last();
        lemma_no_item_missing(nodes, directory, front);
        assert forall|i: int| 0 <= i < items.len() implies crate::files::is_there(
            nodes,
            entry_path(directory, #[trigger] items[i]),
        ) by {
            if i < front.len() {
                assert(front[i] == items[i]);
            }
        }
    }
}

} // verus!
