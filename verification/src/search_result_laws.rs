//! What a search promises of its results.
use crate::files::Nodes;
use crate::lines::starts_with;
use crate::repository_documents::request_loaded;
use crate::repository_listing::{all_entries, RequestEntryView};
use crate::search::{
    escaped, fields_listed, planned_terms, refreshed, result_of, results_of, row_score, scored,
    with_removals, with_requests, with_row, with_rows, DocumentView, FieldSet, IndexActionView,
    RefreshView, ResultView, RowView, ScoreView, Scores, MAXIMUM_QUERY_TERMS,
};
use crate::search_laws::{is_word, lemma_words_of, words_are_short};
use crate::search_text::{field_of, folded, indexed, words_of, SearchField, SearchIndexPolicy};
use crate::text::ascii_lowercase;
use vstd::prelude::*;

verus! {

/// Whether a field is among some.
pub open spec fn has_field(set: FieldSet, field: SearchField) -> bool {
    match field {
        SearchField::Name => set.name,
        SearchField::Method => set.method,
        SearchField::Url => set.url,
        SearchField::Headers => set.headers,
        SearchField::Body => set.body,
        SearchField::Documentation => set.documentation,
    }
}

/// Whether an occurrence of a word is one in a field of the request at a path, and in a field
/// that is searched.
pub open spec fn found_in(
    row: RowView,
    selected: Option<SearchField>,
    path: Seq<char>,
    field: SearchField,
) -> bool {
    &&& row.path == path
    &&& row.field == (match field {
        SearchField::Name => "name"@,
        SearchField::Method => "method"@,
        SearchField::Url => "url"@,
        SearchField::Headers => "headers"@,
        SearchField::Body => "body"@,
        SearchField::Documentation => "documentation"@,
    })
    &&& selected is None || selected == Some(field)
}

/// Whether one of the words occurs in a field of the request at a path.
pub open spec fn found_among(
    queries: Seq<Seq<char>>,
    selected: Option<SearchField>,
    rows: Seq<Seq<RowView>>,
    path: Seq<char>,
    field: SearchField,
) -> bool {
    exists|q: int, r: int|
        0 <= q < queries.len() && 0 <= r < rows[q].len() && #[trigger] found_in(
            rows[q][r],
            selected,
            path,
            field,
        )
}

/// The fields that the scores note for a path.
spec fn noted(scores: Scores, path: Seq<char>, field: SearchField) -> bool {
    scores.dom().contains(path) && has_field(scores[path].fields, field)
}

/// Whether every path that has a score has it for a field.
spec fn noted_for_a_field(scores: Scores) -> bool {
    forall|path: Seq<char>| #[trigger]
        scores.dom().contains(path) ==> exists|f: SearchField| #[trigger] noted(scores, path, f)
}

proof fn lemma_field_names(field: SearchField, text: Seq<char>)
    ensures
        field_of(text) == Some(field) <==> text == (match field {
            SearchField::Name => "name"@,
            SearchField::Method => "method"@,
            SearchField::Url => "url"@,
            SearchField::Headers => "headers"@,
            SearchField::Body => "body"@,
            SearchField::Documentation => "documentation"@,
        }),
{
    reveal_strlit("name");
    reveal_strlit("method");
    reveal_strlit("url");
    reveal_strlit("headers");
    reveal_strlit("body");
    reveal_strlit("documentation");
    assert("name"@.len() == 4 && "body"@.len() == 4 && "name"@[0] == 'n' && "body"@[0] == 'b');
    assert("method"@.len() == 6 && "url"@.len() == 3 && "headers"@.len() == 7);
    assert("documentation"@.len() == 13);
}

proof fn lemma_one_row(
    scores: Scores,
    query: Seq<char>,
    selected: Option<SearchField>,
    row: RowView,
    path: Seq<char>,
    field: SearchField,
)
    requires
        noted_for_a_field(scores),
    ensures
        noted_for_a_field(with_row(scores, query, selected, row)),
        noted(with_row(scores, query, selected, row), path, field) <==> noted(scores, path, field)
            || found_in(row, selected, path, field),
{
    let after = with_row(scores, query, selected, row);
    lemma_field_names(field, row.field);
    assert forall|p: Seq<char>| #[trigger] after.dom().contains(p) implies exists|f: SearchField|
        #[trigger] noted(after, p, f) by {
        if scores.dom().contains(p) {
            let f = choose|f: SearchField| #[trigger] noted(scores, p, f);
            assert(noted(after, p, f));
        } else {
            let f = field_of(row.field)->Some_0;
            assert(noted(after, p, f));
        }
    }
}

proof fn lemma_rows(
    scores: Scores,
    query: Seq<char>,
    selected: Option<SearchField>,
    rows: Seq<RowView>,
    path: Seq<char>,
    field: SearchField,
)
    requires
        noted_for_a_field(scores),
    ensures
        noted_for_a_field(with_rows(scores, query, selected, rows)),
        noted(with_rows(scores, query, selected, rows), path, field) <==> noted(scores, path, field)
            || exists|r: int| 0 <= r < rows.len() && found_in(#[trigger] rows[r], selected, path, field),
    decreases rows.len(),
{
    if rows.len() > 0 {
        let front = rows.drop_last();
        lemma_rows(scores, query, selected, front, path, field);
        let before = with_rows(scores, query, selected, front);
        lemma_one_row(before, query, selected, rows.last(), path, field);
        if exists|r: int| 0 <= r < rows.len() && found_in(#[trigger] rows[r], selected, path, field) {
            let r = choose|r: int|
                0 <= r < rows.len() && found_in(#[trigger] rows[r], selected, path, field);
            if r < front.len() {
                assert(front[r] == rows[r]);
            }
        }
        if exists|r: int| 0 <= r < front.len() && found_in(#[trigger] front[r], selected, path, field) {
            let r = choose|r: int|
                0 <= r < front.len() && found_in(#[trigger] front[r], selected, path, field);
            assert(rows[r] == front[r]);
        }
        if found_in(rows.last(), selected, path, field) {
            assert(found_in(rows[rows.len() - 1], selected, path, field));
        }
    }
}

proof fn lemma_scored(
    queries: Seq<Seq<char>>,
    selected: Option<SearchField>,
    rows: Seq<Seq<RowView>>,
    path: Seq<char>,
    field: SearchField,
)
    ensures
        noted_for_a_field(scored(queries, selected, rows)),
        noted(scored(queries, selected, rows), path, field) <==> found_among(
            queries,
            selected,
            rows,
            path,
            field,
        ),
    decreases queries.len(),
{
    if queries.len() > 0 {
        let front = queries.drop_last();
        let last = rows[queries.len() - 1];
        lemma_scored(front, selected, rows, path, field);
        lemma_rows(
            scored(front, selected, rows),
            queries.last(),
            selected,
            last,
            path,
            field,
        );
        if found_among(queries, selected, rows, path, field) {
            let (q, r) = choose|q: int, r: int|
                0 <= q < queries.len() && 0 <= r < rows[q].len() && #[trigger] found_in(
                    rows[q][r],
                    selected,
                    path,
                    field,
                );
            if q < front.len() {
                assert(found_among(front, selected, rows, path, field));
            } else {
                assert(found_in(last[r], selected, path, field));
            }
        }
        if found_among(front, selected, rows, path, field) {
            let (q, r) = choose|q: int, r: int|
                0 <= q < front.len() && 0 <= r < rows[q].len() && #[trigger] found_in(
                    rows[q][r],
                    selected,
                    path,
                    field,
                );
            assert(found_in(rows[q][r], selected, path, field));
        }
        if exists|r: int| 0 <= r < last.len() && found_in(#[trigger] last[r], selected, path, field) {
            let r = choose|r: int|
                0 <= r < last.len() && found_in(#[trigger] last[r], selected, path, field);
            assert(found_in(rows[queries.len() - 1][r], selected, path, field));
        }
    }
}

/// A request is found exactly where one of the words occurs in a field of it that is searched,
/// and the fields that it is found in are exactly those.
pub proof fn law_requests_are_found_where_words_occur(
    queries: Seq<Seq<char>>,
    selected: Option<SearchField>,
    rows: Seq<Seq<RowView>>,
    path: Seq<char>,
    field: SearchField,
)
    ensures
        ({
            let scores = scored(queries, selected, rows);
            &&& scores.dom().contains(path) <==> exists|f: SearchField| #[trigger]
                found_among(queries, selected, rows, path, f)
            &&& scores.dom().contains(path) ==> (fields_listed(scores[path].fields).contains(field)
                <==> found_among(queries, selected, rows, path, field))
        }),
{
    let scores = scored(queries, selected, rows);
    lemma_scored(queries, selected, rows, path, field);
    if scores.dom().contains(path) {
        let f = choose|f: SearchField| #[trigger] noted(scores, path, f);
        lemma_scored(queries, selected, rows, path, f);
        lemma_listed(scores[path].fields, field);
    }
    if exists|f: SearchField| #[trigger] found_among(queries, selected, rows, path, f) {
        let f = choose|f: SearchField| #[trigger] found_among(queries, selected, rows, path, f);
        lemma_scored(queries, selected, rows, path, f);
    }
}

proof fn lemma_listed(set: FieldSet, field: SearchField)
    ensures
        fields_listed(set).contains(field) <==> has_field(set, field),
{
    let a = crate::search::if_set(seq![], set.body, SearchField::Body);
    let b = crate::search::if_set(a, set.documentation, SearchField::Documentation);
    let c = crate::search::if_set(b, set.headers, SearchField::Headers);
    let d = crate::search::if_set(c, set.method, SearchField::Method);
    let e = crate::search::if_set(d, set.name, SearchField::Name);
    lemma_one_listed(seq![], set.body, SearchField::Body, field);
    lemma_one_listed(a, set.documentation, SearchField::Documentation, field);
    lemma_one_listed(b, set.headers, SearchField::Headers, field);
    lemma_one_listed(c, set.method, SearchField::Method, field);
    lemma_one_listed(d, set.name, SearchField::Name, field);
    lemma_one_listed(e, set.url, SearchField::Url, field);
}

proof fn lemma_one_listed(
    list: Seq<SearchField>,
    set: bool,
    one: SearchField,
    field: SearchField,
)
    ensures
        crate::search::if_set(list, set, one).contains(field) <==> list.contains(field) || set
            && field == one,
{
    let more = list.push(one);
    if list.contains(field) {
        let i = choose|i: int| 0 <= i < list.len() && list[i] == field;
        assert(more[i] == field);
    }
    assert(more[list.len() as int] == one);
}

/// An occurrence counts most where it is the word that is searched for, and more where it
/// begins with it; of occurrences of one sort, those in the name count most, and then those in
/// the method, the url, the headers, the body and the documentation.
pub proof fn law_better_occurrences_count_more(
    query: Seq<char>,
    longer: Seq<char>,
    other: Seq<char>,
    field: SearchField,
)
    requires
        longer != query,
        starts_with(longer, query),
        other != query,
        !starts_with(other, query),
    ensures
        row_score(query, query, field) > row_score(query, longer, field),
        row_score(query, longer, field) > row_score(query, other, field),
        row_score(query, other, field) > 0,
        row_score(query, other, SearchField::Name) > row_score(query, other, SearchField::Method),
        row_score(query, other, SearchField::Method) > row_score(query, other, SearchField::Url),
        row_score(query, other, SearchField::Url) > row_score(query, other, SearchField::Headers),
        row_score(query, other, SearchField::Headers) > row_score(query, other, SearchField::Body),
        row_score(query, other, SearchField::Body) > row_score(
            query,
            other,
            SearchField::Documentation,
        ),
{
}

/// One more occurrence adds to how well its request matches, by what it counts, and to nothing
/// else.
pub proof fn law_occurrences_add_up(
    scores: Scores,
    query: Seq<char>,
    selected: Option<SearchField>,
    row: RowView,
    field: SearchField,
    path: Seq<char>,
)
    requires
        found_in(row, selected, row.path, field),
    ensures
        ({
            let after = with_row(scores, query, selected, row);
            &&& after.dom().contains(row.path)
            &&& after[row.path].value == row_score(query, row.term, field) + (
            if scores.dom().contains(row.path) {
                scores[row.path].value
            } else {
                0
            })
            &&& path != row.path ==> (after.dom().contains(path) <==> scores.dom().contains(path))
                && (scores.dom().contains(path) ==> after[path] == scores[path])
        }),
{
    lemma_field_names(field, row.field);
}

/// Whether a result is what an index holds of a match.
pub open spec fn is_result_of(
    r: ResultView,
    found: (Seq<char>, ScoreView),
    document: Option<DocumentView>,
) -> bool {
    &&& r.relative_path == found.0
    &&& r.score == found.1.value
    &&& forall|f: SearchField| #[trigger]
        r.matched_fields.contains(f) <==> has_field(found.1.fields, f)
    &&& document matches Some(d) && r.name == d.name && r.method == d.method && r.url == d.url
        && r.truncated_source == d.truncated
}

/// Whether a match is one that is asked for.
pub open spec fn is_asked_for(document: Option<DocumentView>, method: Option<Seq<char>>) -> bool {
    document matches Some(d) && (method matches Some(m) ==> ascii_lowercase(m) == ascii_lowercase(
        d.method,
    ))
}

/// Every result is what the index holds of a match; the matches keep their order. Where there
/// is room, every match that is asked for is among the results.
pub proof fn law_results_are_what_was_found(
    matches: Seq<(Seq<char>, ScoreView)>,
    documents: Seq<Option<DocumentView>>,
    method: Option<Seq<char>>,
    maximum: nat,
)
    ensures
        ({
            let all = results_of(matches, documents, method, maximum);
            &&& forall|i: int|
                0 <= i < all.len() ==> exists|k: int|
                    0 <= k < matches.len() && is_asked_for(documents[k], method) && is_result_of(
                        #[trigger] all[i],
                        #[trigger] matches[k],
                        documents[k],
                    )
            &&& all.len() < maximum ==> forall|k: int|
                0 <= k < matches.len() && is_asked_for(documents[k], method) ==> exists|i: int|
                    0 <= i < all.len() && is_result_of(
                        #[trigger] all[i],
                        #[trigger] matches[k],
                        documents[k],
                    )
        }),
    decreases matches.len(),
{
    if matches.len() > 0 {
        let shorter = matches.drop_last();
        law_results_are_what_was_found(shorter, documents, method, maximum);
        let front = results_of(shorter, documents, method, maximum);
        let all = results_of(matches, documents, method, maximum);
        let n = shorter.len() as int;
        assert forall|i: int| 0 <= i < all.len() implies exists|k: int|
            0 <= k < matches.len() && is_asked_for(documents[k], method) && is_result_of(
                #[trigger] all[i],
                #[trigger] matches[k],
                documents[k],
            ) by {
            if i < front.len() {
                assert(all[i] == front[i]);
                let k = choose|k: int|
                    0 <= k < shorter.len() && is_asked_for(documents[k], method) && is_result_of(
                        front[i],
                        #[trigger] shorter[k],
                        documents[k],
                    );
                assert(matches[k] == shorter[k]);
            } else {
                lemma_result(matches[n], documents[n], method);
                assert(is_result_of(all[i], matches[n], documents[n]));
            }
        }
        if all.len() < maximum {
            assert forall|k: int|
                0 <= k < matches.len() && is_asked_for(documents[k], method) implies exists|i: int|
                0 <= i < all.len() && is_result_of(
                    #[trigger] all[i],
                    #[trigger] matches[k],
                    documents[k],
                ) by {
                if k < n {
                    assert(matches[k] == shorter[k]);
                    let i = choose|i: int|
                        0 <= i < front.len() && is_result_of(
                            #[trigger] front[i],
                            shorter[k],
                            documents[k],
                        );
                    assert(all[i] == front[i]);
                } else {
                    lemma_result(matches[n], documents[n], method);
                    assert(is_result_of(all[front.len() as int], matches[n], documents[n]));
                }
            }
        }
    }
}

proof fn lemma_result(
    found: (Seq<char>, ScoreView),
    document: Option<DocumentView>,
    method: Option<Seq<char>>,
)
    ensures
        result_of(found, document, method) is Some <==> is_asked_for(document, method),
        result_of(found, document, method) matches Some(r) ==> is_result_of(r, found, document),
{
    if let Some(r) = result_of(found, document, method) {
        assert forall|f: SearchField| #[trigger] r.matched_fields.contains(f) <==> has_field(
            found.1.fields,
            f,
        ) by {
            lemma_listed(found.1.fields, f);
        }
    }
}

/// What an index is told to hold of a request is what the request at that path is indexed as.
pub proof fn law_requests_are_indexed_as_they_are(
    nodes: Nodes,
    root: Seq<char>,
    existing: Map<Seq<char>, Seq<char>>,
    policy: SearchIndexPolicy,
    i: int,
)
    requires
        refreshed(nodes, root, existing, policy) is Ok,
        0 <= i < refreshed(nodes, root, existing, policy)->Ok_0.1.actions.len(),
    ensures
        refreshed(nodes, root, existing, policy)->Ok_0.1.actions[i] matches IndexActionView::Write {
            path,
            document,
            ..
        } ==> exists|k: int|
            0 <= k < (all_entries(nodes, root)->Ok_0).len() && written_for(
                nodes,
                root,
                #[trigger] (all_entries(nodes, root)->Ok_0)[k],
                path,
                document,
                policy,
            ),
{
    let entries = all_entries(nodes, root)->Ok_0;
    let bytes = policy.maximum_document_bytes as nat;
    let maximum = policy.maximum_terms_per_document as nat;
    let state = with_requests(nodes, root, entries, existing, bytes, maximum)->Ok_0;
    let keys = crate::order::keys_of(crate::order::in_order(existing));
    let current = crate::search::entry_paths(entries).to_set();
    lemma_removals_write_nothing(state, keys, current, i);
    if let IndexActionView::Write { path, document, .. } = with_removals(
        state,
        keys,
        current,
    ).actions[i] {
        lemma_writes(nodes, root, entries, existing, policy, i);
    }
}

/// Whether a document is what the request of an entry is indexed as.
pub open spec fn written_for(
    nodes: Nodes,
    root: Seq<char>,
    entry: RequestEntryView,
    path: Seq<char>,
    document: crate::search_text::IndexedView,
    policy: SearchIndexPolicy,
) -> bool {
    &&& path == entry.relative_path
    &&& request_loaded(nodes, root, entry.path) matches Ok(d) && document == indexed(
        d.value.request,
        policy.maximum_document_bytes as nat,
        policy.maximum_terms_per_document as nat,
    )
}

proof fn lemma_removals_write_nothing(
    state: RefreshView,
    keys: Seq<Seq<char>>,
    current: Set<Seq<char>>,
    i: int,
)
    requires
        0 <= i < with_removals(state, keys, current).actions.len(),
    ensures
        with_removals(state, keys, current).actions[i] is Write ==> i < state.actions.len()
            && with_removals(state, keys, current).actions[i] == state.actions[i],
        i < state.actions.len() ==> with_removals(state, keys, current).actions[i]
            == state.actions[i],
        with_removals(state, keys, current).actions.len() >= state.actions.len(),
    decreases keys.len(),
{
    if keys.len() > 0 {
        let before = with_removals(state, keys.drop_last(), current);
        if i < before.actions.len() {
            lemma_removals_write_nothing(state, keys.drop_last(), current, i);
        } else {
            lemma_removals_grow(state, keys.drop_last(), current);
        }
    }
}

proof fn lemma_removals_grow(state: RefreshView, keys: Seq<Seq<char>>, current: Set<Seq<char>>)
    ensures
        with_removals(state, keys, current).actions.len() >= state.actions.len(),
    decreases keys.len(),
{
    if keys.len() > 0 {
        lemma_removals_grow(state, keys.drop_last(), current);
    }
}

proof fn lemma_writes(
    nodes: Nodes,
    root: Seq<char>,
    entries: Seq<RequestEntryView>,
    existing: Map<Seq<char>, Seq<char>>,
    policy: SearchIndexPolicy,
    i: int,
)
    requires
        with_requests(
            nodes,
            root,
            entries,
            existing,
            policy.maximum_document_bytes as nat,
            policy.maximum_terms_per_document as nat,
        ) matches Ok(state) && 0 <= i < state.actions.len(),
    ensures
        with_requests(
            nodes,
            root,
            entries,
            existing,
            policy.maximum_document_bytes as nat,
            policy.maximum_terms_per_document as nat,
        )->Ok_0.actions[i] matches IndexActionView::Write { path, document, .. } ==> exists|k: int|
            0 <= k < entries.len() && written_for(
                nodes,
                root,
                #[trigger] entries[k],
                path,
                document,
                policy,
            ),
    decreases entries.len(),
{
    let bytes = policy.maximum_document_bytes as nat;
    let maximum = policy.maximum_terms_per_document as nat;
    let all = with_requests(nodes, root, entries, existing, bytes, maximum)->Ok_0;
    if entries.len() > 0 {
        let shorter = entries.drop_last();
        let before = with_requests(nodes, root, shorter, existing, bytes, maximum)->Ok_0;
        if i < before.actions.len() {
            lemma_writes(nodes, root, shorter, existing, policy, i);
            assert(all.actions[i] == before.actions[i]);
            if let IndexActionView::Write { path, document, .. } = all.actions[i] {
                let k = choose|k: int|
                    0 <= k < shorter.len() && written_for(
                        nodes,
                        root,
                        #[trigger] shorter[k],
                        path,
                        document,
                        policy,
                    );
                assert(entries[k] == shorter[k]);
            }
        } else {
            if let IndexActionView::Write { path, document, .. } = all.actions[i] {
                assert(written_for(
                    nodes,
                    root,
                    entries[entries.len() - 1],
                    path,
                    document,
                    policy,
                ));
            }
        }
    }
}

/// An index is asked for the words of the query, so long as there are not too many; each is
/// looked for as it is, or as a part of other words.
pub proof fn law_queries_ask_for_their_words(text: Seq<char>, exact: bool, word: Seq<char>)
    requires
        words_are_short(text),
        planned_terms(text, exact).len() < MAXIMUM_QUERY_TERMS,
    ensures
        is_word(text, word) <==> exists|i: int|
            0 <= i < planned_terms(text, exact).len() && (#[trigger] planned_terms(text, exact)[i]).0
                == word,
        forall|i: int|
            0 <= i < planned_terms(text, exact).len() ==> (#[trigger] planned_terms(text, exact)[i]).1
                == (if exact {
                planned_terms(text, exact)[i].0
            } else {
                seq!['%'] + escaped(planned_terms(text, exact)[i].0) + seq!['%']
            }),
{
    let words = words_of(folded(text), MAXIMUM_QUERY_TERMS as nat);
    let all = planned_terms(text, exact);
    lemma_words_of(text, MAXIMUM_QUERY_TERMS as nat, word);
    reveal_strlit("%");
    assert("%"@ =~= seq!['%']);
    if words.contains(word) {
        let i = choose|i: int| 0 <= i < words.len() && words[i] == word;
        assert(all[i].0 == word);
    }
    if exists|i: int| 0 <= i < all.len() && (#[trigger] all[i]).0 == word {
        let i = choose|i: int| 0 <= i < all.len() && (#[trigger] all[i]).0 == word;
        assert(words[i] == word);
        assert(words.contains(word));
    }
}

} // verus!
