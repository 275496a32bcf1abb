//! What reading and writing a workspace promise together.
use crate::collection::{collection_value, folder_value, order_value};
use crate::conflict::{conflicts, marker_line, scan, ConflictScan};
use crate::document::{assignment, is_key_char};
use crate::environment::{set_scan, set_text, set_value, VariableSetView};
use crate::environment_laws::{json_kept, law_variable_set_round_trip, storable_set};
use crate::error::WorkspaceErrorView;
use crate::files::{
    file_bytes, parent_place, performed, with_directories, ActionView, FilesView, Nodes,
};
use crate::fingerprint::file_digest;
use crate::flat::flat_fields;
use crate::lines::lines;
use crate::manifest::{
    law_manifest_round_trip, manifest_text, manifest_value, manifest_writable, ManifestView,
};
use crate::paths::joined;
use crate::repository::{
    digest_at, limited_text, loaded, place_in, settled_text, write_actions, written, LoadedView,
    MAXIMUM_METADATA_BYTES, MAXIMUM_REQUEST_BYTES,
};
use crate::repository_documents::{request_loaded, request_saved, set_loaded, set_saved};
use crate::repository_environments::manifest_loaded;
use crate::request::{request_text, RequestDocumentView};
use crate::request_laws::{law_request_round_trip, request_writable};
use crate::request_reader::request_value;
use crate::text::{lemma_index_of, lemma_trim_first, split_once, trim};
use vstd::prelude::*;
use vstd::utf8::{encode_utf8, encode_utf8_decode_utf8, encode_utf8_valid_utf8};

verus! {

/// What was written is there.
pub proof fn lemma_written_bytes(files: FilesView, place: Seq<char>, bytes: Seq<u8>)
    ensures
        file_bytes(performed(files, write_actions(place, bytes)).nodes, place) == Some(bytes),
{
    let all = write_actions(place, bytes);
    assert(all.drop_last() =~= seq![all[0]]);
    assert(all.last() == ActionView::Write { path: place, bytes });
}

/// A text that was written is read back, so long as it is within the limit and holds no merge
/// conflict; and the fingerprint that writing gave is that of the file.
pub proof fn law_written_text_is_read(
    files: FilesView,
    root: Seq<char>,
    place: Seq<char>,
    text: Seq<char>,
    expected: Option<u64>,
    limit: u64,
)
    requires
        written(files, root, place, text, expected).0 is Ok,
        encode_utf8(text).len() <= limit,
        conflicts(text).len() == 0,
    ensures
        ({
            let (r, after) = written(files, root, place, text, expected);
            &&& limited_text(after.nodes, root, place, limit) == Ok::<
                Seq<char>,
                WorkspaceErrorView,
            >(text)
            &&& settled_text(after.nodes, root, place, limit) == Ok::<
                Seq<char>,
                WorkspaceErrorView,
            >(text)
            &&& r == Ok::<u64, WorkspaceErrorView>(digest_at(after.nodes, place))
        }),
{
    let bytes = encode_utf8(text);
    lemma_written_bytes(files, place, bytes);
    encode_utf8_valid_utf8(text);
    encode_utf8_decode_utf8(text);
}

/// A write that is refused changes nothing.
pub proof fn law_refused_write_changes_nothing(
    files: FilesView,
    root: Seq<char>,
    place: Seq<char>,
    text: Seq<char>,
    expected: Option<u64>,
)
    ensures
        written(files, root, place, text, expected).0 is Err ==> written(
            files,
            root,
            place,
            text,
            expected,
        ).1 == files,
{
}

/// A file that someone else wrote in the meantime is not overwritten: of two writers that
/// expect the same fingerprint, the second is refused, so long as the first one changed it.
pub proof fn law_second_writer_is_refused(
    files: FilesView,
    root: Seq<char>,
    place: Seq<char>,
    first: Seq<char>,
    second: Seq<char>,
    expected: u64,
)
    requires
        written(files, root, place, first, Some(expected)).0 is Ok,
        file_digest(encode_utf8(first)) != expected,
    ensures
        ({
            let after = written(files, root, place, first, Some(expected)).1;
            written(after, root, place, second, Some(expected)) == (
                Err::<u64, WorkspaceErrorView>(
                    WorkspaceErrorView::ExternalChange(joined(root, place)),
                ),
                after,
            )
        }),
{
    lemma_written_bytes(files, place, encode_utf8(first));
}

proof fn lemma_still_open(nodes: Nodes, after: Nodes, directory: Seq<char>, place: Seq<char>)
    requires
        !crate::files::blocked(nodes, directory),
        directory.len() < place.len() || directory.len() == 0,
        forall|k: Seq<char>|
            k.len() < place.len() && #[trigger] after.dom().contains(k) ==> (nodes.dom().contains(k)
                && after[k] == nodes[k]) || after[k] is Directory,
    ensures
        !crate::files::blocked(after, directory),
    decreases directory.len(),
{
    if directory.len() > 0 {
        crate::files::lemma_parent_is_shorter(directory);
        lemma_still_open(nodes, after, crate::files::parent_place(directory), place);
    }
}

/// The writer that knows the fingerprint of what it wrote may write again.
pub proof fn law_writer_may_write_again(
    files: FilesView,
    root: Seq<char>,
    place: Seq<char>,
    first: Seq<char>,
    second: Seq<char>,
    expected: Option<u64>,
)
    requires
        written(files, root, place, first, expected).0 is Ok,
    ensures
        ({
            let (r, after) = written(files, root, place, first, expected);
            written(after, root, place, second, Some(r->Ok_0)).0 is Ok
        }),
{
    lemma_written_bytes(files, place, encode_utf8(first));
    let (_, after) = written(files, root, place, first, expected);
    let all = write_actions(place, encode_utf8(first));
    let one = all.drop_last();
    assert(one =~= seq![all[0]]);
    assert(one.drop_last() =~= seq![]);
    assert(performed(files, one.drop_last()) == files);
    assert(performed(files, one).nodes == with_directories(files.nodes, parent_place(place)));
    assert(after == performed(files, all));
    assert(after.nodes == with_directories(files.nodes, parent_place(place)).insert(
        place,
        crate::files::NodeView::File(encode_utf8(first)),
    ));
    crate::files::lemma_parent_is_shorter(place);
    lemma_still_open(files.nodes, after.nodes, parent_place(place), place);
}

/// Writing leaves every other file as it is.
pub proof fn law_write_leaves_other_files_alone(
    files: FilesView,
    root: Seq<char>,
    place: Seq<char>,
    text: Seq<char>,
    expected: Option<u64>,
    other: Seq<char>,
)
    requires
        other != place,
        file_bytes(files.nodes, other) is Some,
    ensures
        file_bytes(written(files, root, place, text, expected).1.nodes, other) == file_bytes(
            files.nodes,
            other,
        ),
{
    if written(files, root, place, text, expected).0 is Ok {
        let all = write_actions(place, encode_utf8(text));
        let one = all.drop_last();
        assert(one =~= seq![all[0]]);
        assert(one.drop_last() =~= seq![]);
        assert(performed(files, one.drop_last()) == files);
        assert(one.last() == all[0] && all.last() == all[1]);
        let middle = performed(files, one);
        assert(middle.nodes == with_directories(
            files.nodes,
            crate::files::parent_place(place),
        ));
    }
}

/// Whether a line marks no conflict.
spec fn unmarked(line: Seq<char>) -> bool {
    !(marker_line(line) is Start)
}

proof fn lemma_no_start_no_conflict(list: Seq<Seq<char>>)
    requires
        forall|i: int| 0 <= i < list.len() ==> unmarked(#[trigger] list[i]),
    ensures
        scan(list) == (ConflictScan { closed: seq![], open: None }),
    decreases list.len(),
{
    if list.len() > 0 {
        let front = list.drop_last();
        assert forall|i: int| 0 <= i < front.len() implies unmarked(#[trigger] front[i]) by {
            assert(front[i] == list[i]);
        }
        lemma_no_start_no_conflict(front);
        assert(unmarked(list[list.len() - 1]));
    }
}

/// A line that marks the start of a conflict assigns nothing, opens no section and is not
/// ignored.
proof fn lemma_marker_is_no_assignment(line: Seq<char>, number: nat)
    requires
        !unmarked(line),
    ensures
        trim(line).len() > 0,
        trim(line)[0] == '<',
        assignment(trim(line), number) is Err,
{
    reveal_strlit("<<<<<<< ");
    assert(line.take(8)[0] == '<');
    lemma_trim_first(line);
    let t = trim(line);
    if let Some((key, value)) = split_once(t, '=') {
        lemma_index_of(t, '=');
        assert(key.len() > 0 && key[0] == '<');
        lemma_trim_first(key);
        assert(!is_key_char(trim(key)[0]));
    }
}

proof fn lemma_flat_unmarked(list: Seq<Seq<char>>)
    requires
        flat_fields(list) is Ok,
    ensures
        forall|i: int| 0 <= i < list.len() ==> unmarked(#[trigger] list[i]),
    decreases list.len(),
{
    if list.len() > 0 {
        let front = list.drop_last();
        lemma_flat_unmarked(front);
        if !unmarked(list.last()) {
            lemma_marker_is_no_assignment(list.last(), list.len());
        }
        assert forall|i: int| 0 <= i < list.len() implies unmarked(#[trigger] list[i]) by {
            if i < front.len() {
                assert(front[i] == list[i]);
            }
        }
    }
}

proof fn lemma_scan_unmarked(list: Seq<Seq<char>>)
    requires
        crate::request_reader::scan(list) is Ok,
    ensures
        forall|i: int| 0 <= i < list.len() ==> unmarked(#[trigger] list[i]),
    decreases list.len(),
{
    if list.len() > 0 {
        let front = list.drop_last();
        lemma_scan_unmarked(front);
        if !unmarked(list.last()) {
            lemma_marker_is_no_assignment(list.last(), list.len());
            reveal_strlit("[[query]]");
            reveal_strlit("[[headers]]");
            reveal_strlit("[auth]");
            reveal_strlit("[body]");
            reveal_strlit("[[body.fields]]");
            assert("[[query]]"@[0] == '[' && "[[headers]]"@[0] == '[' && "[auth]"@[0] == '['
                && "[body]"@[0] == '[' && "[[body.fields]]"@[0] == '[');
            assert(crate::request_reader::opened_section(trim(list.last())) is None);
        }
        assert forall|i: int| 0 <= i < list.len() implies unmarked(#[trigger] list[i]) by {
            if i < front.len() {
                assert(front[i] == list[i]);
            }
        }
    }
}

proof fn lemma_set_unmarked(list: Seq<Seq<char>>)
    requires
        set_scan(list) is Ok,
    ensures
        forall|i: int| 0 <= i < list.len() ==> unmarked(#[trigger] list[i]),
    decreases list.len(),
{
    if list.len() > 0 {
        let front = list.drop_last();
        lemma_set_unmarked(front);
        if !unmarked(list.last()) {
            lemma_marker_is_no_assignment(list.last(), list.len());
            reveal_strlit("[[variables]]");
            assert("[[variables]]"@[0] == '[');
        }
        assert forall|i: int| 0 <= i < list.len() implies unmarked(#[trigger] list[i]) by {
            if i < front.len() {
                assert(front[i] == list[i]);
            }
        }
    }
}

/// A text that can be read as a document of any sort holds no merge conflict.
pub proof fn law_readable_text_has_no_conflict(text: Seq<char>)
    ensures
        manifest_value(text) is Ok ==> conflicts(text).len() == 0,
        collection_value(text) is Ok ==> conflicts(text).len() == 0,
        folder_value(text) is Ok ==> conflicts(text).len() == 0,
        order_value(text) is Ok ==> conflicts(text).len() == 0,
        request_value(text) is Ok ==> conflicts(text).len() == 0,
        set_value(text) is Ok ==> conflicts(text).len() == 0,
{
    let list = lines(text);
    if flat_fields(list) is Ok {
        lemma_flat_unmarked(list);
        lemma_no_start_no_conflict(list);
    }
    if crate::request_reader::scan(list) is Ok {
        lemma_scan_unmarked(list);
        lemma_no_start_no_conflict(list);
    }
    if set_scan(list) is Ok {
        lemma_set_unmarked(list);
        lemma_no_start_no_conflict(list);
    }
}

/// A document that was written, and whose text means the document, is what is read
/// afterwards, with the fingerprint that writing gave.
proof fn lemma_written_document_is_read<T>(
    files: FilesView,
    root: Seq<char>,
    place: Seq<char>,
    text: Seq<char>,
    expected: Option<u64>,
    limit: u64,
    meaning: spec_fn(Seq<char>) -> Result<T, WorkspaceErrorView>,
    document: T,
)
    requires
        written(files, root, place, text, expected).0 is Ok,
        encode_utf8(text).len() <= limit,
        conflicts(text).len() == 0,
        meaning(text) == Ok::<T, WorkspaceErrorView>(document),
    ensures
        ({
            let (r, after) = written(files, root, place, text, expected);
            loaded(after.nodes, root, place, limit, meaning) == Ok::<
                LoadedView<T>,
                WorkspaceErrorView,
            >(LoadedView { value: document, path: joined(root, place), fingerprint: r->Ok_0 })
        }),
{
    law_written_text_is_read(files, root, place, text, expected, limit);
}

/// A manifest that was saved is what is read afterwards.
pub proof fn law_saved_manifest_is_loaded(
    files: FilesView,
    root: Seq<char>,
    manifest: ManifestView,
    expected: Option<u64>,
)
    requires
        manifest_writable(manifest),
        encode_utf8(manifest_text(manifest)).len() <= MAXIMUM_METADATA_BYTES,
        written(files, root, "apex.toml"@, manifest_text(manifest), expected).0 is Ok,
    ensures
        ({
            let (r, after) = written(
                files,
                root,
                "apex.toml"@,
                manifest_text(manifest),
                expected,
            );
            manifest_loaded(after.nodes, root) == Ok::<
                LoadedView<ManifestView>,
                WorkspaceErrorView,
            >(
                LoadedView {
                    value: manifest,
                    path: joined(root, "apex.toml"@),
                    fingerprint: r->Ok_0,
                },
            )
        }),
{
    law_manifest_round_trip(manifest);
    law_readable_text_has_no_conflict(manifest_text(manifest));
    lemma_written_document_is_read(
        files,
        root,
        "apex.toml"@,
        manifest_text(manifest),
        expected,
        MAXIMUM_METADATA_BYTES,
        |text: Seq<char>| manifest_value(text),
        manifest,
    );
}

/// A request that was saved is what is read afterwards.
pub proof fn law_saved_request_is_loaded(
    files: FilesView,
    root: Seq<char>,
    path: Seq<char>,
    document: RequestDocumentView,
    expected: Option<u64>,
    leaks: Seq<Seq<char>>,
)
    requires
        request_writable(document),
        encode_utf8(request_text(document)).len() <= MAXIMUM_REQUEST_BYTES,
        request_saved(files, root, path, document, expected, leaks).0 is Ok,
    ensures
        ({
            let (r, after) = request_saved(files, root, path, document, expected, leaks);
            request_loaded(after.nodes, root, path) == Ok::<
                LoadedView<RequestDocumentView>,
                WorkspaceErrorView,
            >(LoadedView { value: document, path, fingerprint: r->Ok_0 })
        }),
{
    law_request_round_trip(document);
    law_readable_text_has_no_conflict(request_text(document));
    let place = place_in(root, path)->Some_0;
    lemma_written_document_is_read(
        files,
        root,
        place,
        request_text(document),
        expected,
        MAXIMUM_REQUEST_BYTES,
        |text: Seq<char>| request_value(text),
        document,
    );
}

/// A request in which a leak was found is never written.
pub proof fn law_leaking_request_is_refused(
    files: FilesView,
    root: Seq<char>,
    path: Seq<char>,
    document: RequestDocumentView,
    expected: Option<u64>,
    leaks: Seq<Seq<char>>,
)
    requires
        leaks.len() > 0,
    ensures
        request_saved(files, root, path, document, expected, leaks).0 is Err,
        request_saved(files, root, path, document, expected, leaks).1 == files,
{
}

/// A file of variables that was saved is what is read afterwards, so long as the JSON text of
/// every compound literal is read back.
pub proof fn law_saved_variables_are_loaded(
    files: FilesView,
    root: Seq<char>,
    place: Seq<char>,
    document: VariableSetView,
    expected: Option<u64>,
)
    requires
        storable_set(document),
        forall|i: int|
            0 <= i < document.variables.len() ==> json_kept(#[trigger] document.variables[i]),
        encode_utf8(set_text(document)->Ok_0).len() <= MAXIMUM_METADATA_BYTES,
        set_saved(files, root, place, document, expected).0 is Ok,
    ensures
        ({
            let (r, after) = set_saved(files, root, place, document, expected);
            set_loaded(after.nodes, root, place) == Ok::<
                LoadedView<VariableSetView>,
                WorkspaceErrorView,
            >(LoadedView { value: document, path: joined(root, place), fingerprint: r->Ok_0 })
        }),
{
    law_variable_set_round_trip(document);
    let text = set_text(document)->Ok_0;
    law_readable_text_has_no_conflict(text);
    lemma_written_document_is_read(
        files,
        root,
        place,
        text,
        expected,
        MAXIMUM_METADATA_BYTES,
        |text: Seq<char>| set_value(text),
        document,
    );
}

} // verus!
