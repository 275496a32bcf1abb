//! What is promised of the search for secrets in what is written.
use crate::collection::{COLLECTION_FILE, FOLDER_FILE};
use crate::files::{entry_path, performed, tree_order, ActionView, FilesView};
use crate::lines::ends_with;
use crate::naming::{place_name, temporary_place, IdSource};
use crate::repository::{write_actions, written};
use crate::repository_collections::{
    clean_scans, copied_request, copied_requests, copy_requests, duplicated, lemma_clean_scans,
    rekeyed, rekeyed_collection, rekeyed_file, rekeyed_files, tree_files, with_text, Rekeying,
};
use crate::repository_documents::{scan_check, scanned_request_saved};
use crate::request::RequestDocumentView;
use crate::tree_laws::lemma_one_change;
use vstd::prelude::*;
use vstd::utf8::encode_utf8;

verus! {

/// Whether a request stands at a path.
pub open spec fn is_request_place(path: Seq<char>) -> bool {
    place_name(path) != FOLDER_FILE@ && ends_with(place_name(path), ".request.toml"@)
}

/// Whether bytes are those of a text in which a detector of leaks looked and found nothing.
pub open spec fn found_clean(
    texts: Seq<Seq<char>>,
    leaks: Seq<Seq<Seq<char>>>,
    bytes: Seq<u8>,
) -> bool {
    exists|k: int|
        0 <= k < texts.len() && k < leaks.len() && bytes == encode_utf8(#[trigger] texts[k])
            && leaks[k].len() == 0
}

/// Whether a change writes no request but those in which nothing was found.
pub open spec fn writes_clean(
    action: ActionView,
    texts: Seq<Seq<char>>,
    leaks: Seq<Seq<Seq<char>>>,
) -> bool {
    action matches ActionView::Write { path, bytes } ==> is_request_place(path) ==> found_clean(
        texts,
        leaks,
        bytes,
    )
}

/// Whether all that was done since writes no request but those in which nothing was found.
pub open spec fn wrote_clean(
    before: FilesView,
    after: FilesView,
    texts: Seq<Seq<char>>,
    leaks: Seq<Seq<Seq<char>>>,
) -> bool {
    &&& before.journal.len() <= after.journal.len()
    &&& forall|j: int|
        before.journal.len() <= j < after.journal.len() ==> writes_clean(
            #[trigger] after.journal[j],
            texts,
            leaks,
        )
}

proof fn lemma_more_texts(
    before: FilesView,
    after: FilesView,
    texts: Seq<Seq<char>>,
    more: Seq<Seq<char>>,
    leaks: Seq<Seq<Seq<char>>>,
)
    requires
        wrote_clean(before, after, texts, leaks),
        texts.len() <= more.len(),
        forall|k: int| 0 <= k < texts.len() ==> #[trigger] texts[k] == more[k],
    ensures
        wrote_clean(before, after, more, leaks),
{
    assert forall|j: int|
        before.journal.len() <= j < after.journal.len() implies writes_clean(
        #[trigger] after.journal[j],
        more,
        leaks,
    ) by {
        assert(writes_clean(after.journal[j], texts, leaks));
        if let ActionView::Write { path, bytes } = after.journal[j] {
            if is_request_place(path) {
                let k = choose|k: int|
                    0 <= k < texts.len() && k < leaks.len() && bytes == encode_utf8(
                        #[trigger] texts[k],
                    ) && leaks[k].len() == 0;
                assert(more[k] == texts[k]);
            }
        }
    }
}

proof fn lemma_written_clean(
    start: FilesView,
    files: FilesView,
    root: Seq<char>,
    place: Seq<char>,
    text: Seq<char>,
    expected: Option<u64>,
    texts: Seq<Seq<char>>,
    leaks: Seq<Seq<Seq<char>>>,
)
    requires
        wrote_clean(start, files, texts, leaks),
        is_request_place(place) ==> found_clean(texts, leaks, encode_utf8(text)),
    ensures
        wrote_clean(start, written(files, root, place, text, expected).1, texts, leaks),
{
    let all = write_actions(place, encode_utf8(text));
    let a = seq![all[0]];
    let b = seq![all[1]];
    assert(a + b =~= all);
    crate::files::lemma_performed(files, a, b);
    lemma_one_change(files, all[0]);
    lemma_one_change(performed(files, a), all[1]);
    let after = written(files, root, place, text, expected).1;
    assert forall|j: int|
        start.journal.len() <= j < after.journal.len() implies writes_clean(
        #[trigger] after.journal[j],
        texts,
        leaks,
    ) by {
        if j < files.journal.len() {
            assert(after.journal[j] == files.journal[j]);
        }
    }
}

proof fn lemma_texts_grow(state: Rekeying, root: Seq<char>, list: Seq<Seq<char>>)
    requires
        list.len() > 0,
    ensures
        ({
            let texts = copied_requests(state, root, list.drop_last());
            let more = copied_requests(state, root, list);
            &&& texts.len() <= more.len()
            &&& forall|k: int| 0 <= k < texts.len() ==> #[trigger] texts[k] == more[k]
        }),
{
}

proof fn lemma_rekeying_writes_clean(
    start: FilesView,
    state: Rekeying,
    root: Seq<char>,
    list: Seq<Seq<char>>,
    leaks: Seq<Seq<Seq<char>>>,
)
    requires
        state.requests == 0,
        wrote_clean(start, state.files, seq![], leaks),
    ensures
        ({
            let (r, after) = rekeyed_files(state, root, list, leaks);
            let texts = copied_requests(state, root, list);
            &&& wrote_clean(start, after.files, texts, leaks)
            &&& r is Ok ==> {
                &&& rekeyed_files(state, root, list, clean_scans(list.len())) == (r, after)
                &&& after.requests == texts.len()
                &&& texts.len() <= list.len()
            }
        }),
    decreases list.len(),
{
    if list.len() > 0 {
        let front = list.drop_last();
        let place = list.last();
        let (r, before) = rekeyed_files(state, root, front, leaks);
        let texts = copied_requests(state, root, front);
        let more = copied_requests(state, root, list);
        let n = list.len();
        lemma_rekeying_writes_clean(start, state, root, front, leaks);
        lemma_texts_grow(state, root, list);
        lemma_more_texts(start, before.files, texts, more, leaks);
        if r is Ok {
            lemma_clean_scans(state, root, front, front.len(), n);
            assert(rekeyed_files(state, root, front, clean_scans(n)) == (r, before));
            assert(more == with_text(texts, copied_request(before, root, place)));
            assert forall|text: Seq<char>, expected: Option<u64>|
                (is_request_place(place) ==> found_clean(more, leaks, encode_utf8(text)))
                    implies wrote_clean(
                start,
                (#[trigger] written(before.files, root, place, text, expected)).1,
                more,
                leaks,
            ) by {
                lemma_written_clean(
                    start,
                    before.files,
                    root,
                    place,
                    text,
                    expected,
                    more,
                    leaks,
                );
            }
            if is_request_place(place) {
                if let Some(text) = copied_request(before, root, place) {
                    assert(more[texts.len() as int] == text);
                    if scan_check(leaks, before.requests) is Ok {
                        assert(leaks[texts.len() as int].len() == 0);
                        assert(found_clean(more, leaks, encode_utf8(text)));
                    }
                }
            }
            let (done, after) = rekeyed_file(before, root, place, leaks);
            assert(wrote_clean(start, after.files, more, leaks));
            if done is Ok {
                assert(rekeyed_file(before, root, place, clean_scans(n)) == (done, after));
            }
        }
    } else {
        assert(copied_requests(state, root, list) =~= seq![]);
    }
}

/// Every request that a copy of a directory writes was handed out to be searched for secrets,
/// and none was found in it.
pub proof fn law_copied_requests_were_scanned(
    files: FilesView,
    root: Seq<char>,
    source: Seq<char>,
    target: Seq<char>,
    expected: u64,
    slug: Option<Seq<char>>,
    ids: IdSource,
    leaks: Seq<Seq<Seq<char>>>,
    nonce: u128,
)
    ensures
        wrote_clean(
            files,
            duplicated(files, root, source, target, expected, slug, ids, leaks, nonce).1,
            copy_requests(files, root, source, target, slug, ids, nonce),
            leaks,
        ),
{
    let temporary = temporary_place(target, "copy"@, nonce);
    let copy = ActionView::CopyTree { from: source, to: temporary };
    let remove = ActionView::RemoveTree(temporary);
    let copied = performed(files, seq![copy]);
    lemma_one_change(files, copy);
    lemma_one_change(files, remove);
    lemma_one_change(copied, remove);
    let state = Rekeying { files: copied, source: ids, requests: 0 };
    let file = entry_path(temporary, COLLECTION_FILE@);
    assert(!is_request_place(file)) by {
        lemma_collection_is_no_request(temporary);
    }
    let nothing: Seq<Seq<char>> = seq![];
    assert forall|text: Seq<char>, check: Option<u64>| wrote_clean(
        files,
        (#[trigger] written(copied, root, file, text, check)).1,
        nothing,
        leaks,
    ) by {
        lemma_written_clean(files, copied, root, file, text, check, nothing, leaks);
    }
    let (r, first) = rekeyed_collection(state, root, temporary, slug);
    let texts = copy_requests(files, root, source, target, slug, ids, nonce);
    assert(wrote_clean(files, first.files, nothing, leaks));
    assert(first.requests == 0);
    lemma_more_texts(files, first.files, nothing, texts, leaks);
    let (done, after) = rekeyed(state, root, temporary, slug, leaks);
    if r is Ok {
        if let Ok(list) = tree_files(
            first.files.nodes,
            root,
            tree_order(first.files.nodes, temporary),
        ) {
            lemma_rekeying_writes_clean(files, first, root, list, leaks);
            assert(texts == copied_requests(first, root, list));
        }
    }
    assert(wrote_clean(files, after.files, texts, leaks));
    lemma_one_change(after.files, remove);
    lemma_one_change(after.files, ActionView::Rename { from: temporary, to: target });
}

proof fn lemma_collection_is_no_request(directory: Seq<char>)
    ensures
        !is_request_place(entry_path(directory, COLLECTION_FILE@)),
{
    let path = entry_path(directory, COLLECTION_FILE@);
    reveal_strlit("collection.toml");
    reveal_strlit(".request.toml");
    let name = place_name(path);
    assert(path.last() == 'l');
    if ends_with(name, ".request.toml"@) {
        crate::files::lemma_parent_is_shorter(path);
        let n = name.len() as int;
        assert(name.skip(n - 13) == ".request.toml"@);
        assert(name[n - 6] == name.skip(n - 13)[7]);
        assert(path[path.len() - 6] == name[n - 6]);
        assert(path[path.len() - 6] == COLLECTION_FILE@[COLLECTION_FILE@.len() - 6]);
    }
}

/// A request that is one of several new ones is written only where its text was searched for
/// secrets and none was found.
pub proof fn law_new_requests_were_scanned(
    files: FilesView,
    root: Seq<char>,
    path: Seq<char>,
    document: RequestDocumentView,
    leaks: Seq<Seq<Seq<char>>>,
    index: nat,
)
    ensures
        scanned_request_saved(files, root, path, document, leaks, index).1 != files ==> index
            < leaks.len() && leaks[index as int].len() == 0,
{
}

} // verus!
