//! Searching the requests of a workspace: what an index has to be told, and what it finds.
use crate::error::{error_message, WorkspaceError, WorkspaceErrorView};
use crate::files::{FileTree, Nodes};
use crate::lines::{has_prefix, starts_with};
use crate::listing_laws::law_requests_are_listed_once;
use crate::message::{concat2, concat3, concat4};
use crate::number::{decimal, decimal_text, hex};
use crate::order::{less_text, lemma_text_lt_irreflexive, text_lt, FieldMap, TextMap, TextSet};
use crate::paths::ResourcePath;
use crate::repository::{LoadedView, WorkspaceRepository};
use crate::repository_documents::request_loaded;
use crate::repository_environments::{lemma_pair_rank, pair_before};
use crate::repository_listing::{
    all_entries, all_request_places, entries_at, entry_views, RequestEntryView,
};
use crate::request::RequestDocumentView;
use crate::search_text::{
    build_indexed_document, field_of, field_weight, folded, indexed, parse_field, tokenize,
    words_of, IndexedDocument, IndexedView, SearchField, SearchIndexPolicy,
};
use crate::sorting::{sort_stable, sorted, views, Ranked};
use crate::text::{
    ascii_lowercase, chars_of, optional_text, same_chars, same_text, texts, to_ascii_lower,
};
use vstd::prelude::*;
use vstd::string::*;

verus! {

/// The version of the tables that an index is kept in.
pub const SEARCH_SCHEMA_VERSION: u64 = 1;

/// What bringing an index up to date did.
#[derive(Clone, Copy, Debug, PartialEq, Eq, Structural)]
pub struct SearchRefreshReport {
    pub scanned: usize,
    pub inserted: usize,
    pub updated: usize,
    pub unchanged: usize,
    pub removed: usize,
    pub truncated: usize,
}

/// What is searched for.
#[derive(Clone, Debug, PartialEq, Eq)]
pub struct SearchQuery {
    pub text: String,
    pub exact: bool,
    pub method: Option<String>,
    pub field: Option<SearchField>,
    pub limit: Option<usize>,
}

/// A request that was found.
#[derive(Clone, Debug, PartialEq, Eq)]
pub struct SearchResult {
    pub relative_path: ResourcePath,
    pub name: String,
    pub method: String,
    pub url: String,
    pub score: i64,
    pub matched_fields: Vec<SearchField>,
    pub truncated_source: bool,
}

/// A request that was found, by its contents.
#[verifier::ext_equal]
pub struct ResultView {
    pub relative_path: Seq<char>,
    pub name: Seq<char>,
    pub method: Seq<char>,
    pub url: Seq<char>,
    pub score: int,
    pub matched_fields: Seq<SearchField>,
    pub truncated_source: bool,
}

impl View for SearchResult {
    type V = ResultView;

    open spec fn view(&self) -> ResultView {
        ResultView {
            relative_path: self.relative_path@,
            name: self.name@,
            method: self.method@,
            url: self.url@,
            score: self.score as int,
            matched_fields: self.matched_fields@,
            truncated_source: self.truncated_source,
        }
    }
}

/// Why an index cannot be used.
#[derive(Clone, Debug, PartialEq, Eq)]
pub enum SearchIndexError {
    Database(String),
    Workspace(WorkspaceError),
    Io(String),
    InvalidPath(ResourcePath),
    UnsupportedSchema(String),
    DocumentLimit { maximum: usize, observed: usize },
}

/// Why an index cannot be used, by its contents.
pub enum SearchErrorView {
    Database(Seq<char>),
    Workspace(WorkspaceErrorView),
    Io(Seq<char>),
    InvalidPath(Seq<char>),
    UnsupportedSchema(Seq<char>),
    DocumentLimit { maximum: nat, observed: nat },
}

impl View for SearchIndexError {
    type V = SearchErrorView;

    open spec fn view(&self) -> SearchErrorView {
        match self {
            SearchIndexError::Database(t) => SearchErrorView::Database(t@),
            SearchIndexError::Workspace(e) => SearchErrorView::Workspace(e@),
            SearchIndexError::Io(t) => SearchErrorView::Io(t@),
            SearchIndexError::InvalidPath(p) => SearchErrorView::InvalidPath(p@),
            SearchIndexError::UnsupportedSchema(v) => SearchErrorView::UnsupportedSchema(v@),
            SearchIndexError::DocumentLimit { maximum, observed } =>
                SearchErrorView::DocumentLimit {
                maximum: *maximum as nat,
                observed: *observed as nat,
            },
        }
    }
}

/// What an error says.
pub open spec fn search_message(error: SearchErrorView) -> Seq<char> {
    match error {
        SearchErrorView::Database(t) => "search database failed: "@ + t,
        SearchErrorView::Workspace(e) => "workspace search refresh failed: "@ + error_message(e),
        SearchErrorView::Io(t) => "search index I/O failed: "@ + t,
        SearchErrorView::InvalidPath(p) => "search index path has no parent: "@ + p,
        SearchErrorView::UnsupportedSchema(v) => "unsupported search index schema version: "@ + v,
        SearchErrorView::DocumentLimit { maximum, observed } => "workspace has "@ + decimal(
            observed,
        ) + " searchable requests; configured maximum is "@ + decimal(maximum),
    }
}

impl SearchIndexError {
    /// What the error says.
    pub fn message(&self) -> (r: String)
        ensures
            r@ == search_message(self@),
    {
        match self {
            SearchIndexError::Database(t) => concat2("search database failed: ", t.as_str()),
            SearchIndexError::Workspace(e) => concat2(
                "workspace search refresh failed: ",
                e.message().as_str(),
            ),
            SearchIndexError::Io(t) => concat2("search index I/O failed: ", t.as_str()),
            SearchIndexError::InvalidPath(p) => concat2(
                "search index path has no parent: ",
                p.as_text(),
            ),
            SearchIndexError::UnsupportedSchema(v) => concat2(
                "unsupported search index schema version: ",
                v.as_str(),
            ),
            SearchIndexError::DocumentLimit { maximum, observed } => concat4(
                "workspace has ",
                decimal_text(*observed as u64).as_str(),
                " searchable requests; configured maximum is ",
                decimal_text(*maximum as u64).as_str(),
            ),
        }
    }
}

/// Tells whether tables of some version can be used; tables without one are new.
pub fn check_schema(version: Option<&str>) -> (r: Result<(), SearchIndexError>)
    ensures
        r is Ok <==> (version matches Some(v) ==> v@ == decimal(SEARCH_SCHEMA_VERSION as nat)),
        r matches Err(e) ==> version is Some && e@ == SearchErrorView::UnsupportedSchema(
            version->Some_0@,
        ),
{
    match version {
        None => Ok(()),
        Some(v) => if same_text(v, decimal_text(SEARCH_SCHEMA_VERSION).as_str()) {
            Ok(())
        } else {
            Err(SearchIndexError::UnsupportedSchema(v.to_owned()))
        },
    }
}

/// A text for a pattern in which `\`, `%` and `_` stand for themselves.
pub open spec fn escaped(text: Seq<char>) -> Seq<char>
    decreases text.len(),
{
    if text.len() == 0 {
        seq![]
    } else {
        let c = text.last();
        if c == '\\' || c == '%' || c == '_' {
            escaped(text.drop_last()).push('\\').push(c)
        } else {
            escaped(text.drop_last()).push(c)
        }
    }
}

/// Writes a text for a pattern in which special characters stand for themselves.
pub fn escape_like(value: &str) -> (r: String)
    ensures
        r@ == escaped(value@),
{
    let chars = chars_of(value);
    let mut r = String::new();
    assert(value@.take(0) =~= seq![]);
    assert(r@ =~= seq![]);
    for i in 0..chars.len()
        invariant
            chars@ == value@,
            r@ == escaped(value@.take(i as int)),
    {
        let c = chars[i];
        proof {
            assert(value@.take(i + 1).drop_last() =~= value@.take(i as int));
            assert(value@.take(i + 1).last() == c);
        }
        if c == '\\' || c == '%' || c == '_' {
            r.push('\\');
        }
        r.push(c);
    }
    assert(value@.take(chars@.len() as int) =~= value@);
    r
}

/// The text that a pattern stands for when `\` takes the meaning off what follows it, where
/// nothing else in it has one.
pub open spec fn unescaped(pattern: Seq<char>) -> Option<Seq<char>>
    decreases pattern.len(),
{
    if pattern.len() == 0 {
        Some(seq![])
    } else if pattern[0] == '\\' {
        if pattern.len() == 1 {
            None
        } else {
            match unescaped(pattern.skip(2)) {
                Some(rest) => Some(seq![pattern[1]] + rest),
                None => None,
            }
        }
    } else if pattern[0] == '%' || pattern[0] == '_' {
        None
    } else {
        match unescaped(pattern.skip(1)) {
            Some(rest) => Some(seq![pattern[0]] + rest),
            None => None,
        }
    }
}

proof fn lemma_unescape_more(pattern: Seq<char>, more: Seq<char>)
    requires
        unescaped(pattern) is Some,
        unescaped(more) is Some,
    ensures
        unescaped(pattern + more) == Some(unescaped(pattern)->Some_0 + unescaped(more)->Some_0),
    decreases pattern.len(),
{
    let whole = pattern + more;
    if pattern.len() == 0 {
        assert(whole =~= more);
        assert(unescaped(pattern)->Some_0 + unescaped(more)->Some_0 =~= unescaped(more)->Some_0);
    } else if pattern[0] == '\\' {
        lemma_unescape_more(pattern.skip(2), more);
        assert(whole.skip(2) =~= pattern.skip(2) + more);
        let rest = unescaped(pattern.skip(2))->Some_0;
        let tail = unescaped(more)->Some_0;
        assert(seq![pattern[1]] + (rest + tail) =~= (seq![pattern[1]] + rest) + tail);
    } else {
        lemma_unescape_more(pattern.skip(1), more);
        assert(whole.skip(1) =~= pattern.skip(1) + more);
        let rest = unescaped(pattern.skip(1))->Some_0;
        let tail = unescaped(more)->Some_0;
        assert(seq![pattern[0]] + (rest + tail) =~= (seq![pattern[0]] + rest) + tail);
    }
}

/// A text that was written for a pattern is matched as it stands.
pub proof fn law_escaped_text_stands_for_itself(text: Seq<char>)
    ensures
        unescaped(escaped(text)) == Some(text),
    decreases text.len(),
{
    if text.len() > 0 {
        let front = text.drop_last();
        let c = text.last();
        law_escaped_text_stands_for_itself(front);
        let nothing = Seq::<char>::empty();
        assert(unescaped(nothing) == Some(nothing));
        if c == '\\' || c == '%' || c == '_' {
            let end = seq!['\\', c];
            assert(end.skip(2) =~= nothing);
            assert(unescaped(end)->Some_0 =~= seq![c]);
            lemma_unescape_more(escaped(front), end);
            assert(escaped(text) =~= escaped(front) + end);
        } else {
            let end = seq![c];
            assert(end.skip(1) =~= nothing);
            assert(unescaped(end)->Some_0 =~= seq![c]);
            lemma_unescape_more(escaped(front), end);
            assert(escaped(text) =~= escaped(front) + end);
        }
        assert(front + seq![c] =~= text);
    }
}

/// A word that an index is asked for, and the pattern for it.
#[derive(Clone, Debug, PartialEq, Eq)]
pub struct TermQuery {
    pub term: String,
    pub pattern: String,
}

impl View for TermQuery {
    type V = (Seq<char>, Seq<char>);

    open spec fn view(&self) -> (Seq<char>, Seq<char>) {
        (self.term@, self.pattern@)
    }
}

/// The contents of a list of words.
pub open spec fn term_queries(list: Seq<TermQuery>) -> Seq<(Seq<char>, Seq<char>)> {
    list.map_values(|t: TermQuery| t@)
}

/// The pattern for a word: the word itself, or whatever has it somewhere.
pub open spec fn pattern_for(term: Seq<char>, exact: bool) -> Seq<char> {
    if exact {
        term
    } else {
        "%"@ + escaped(term) + "%"@
    }
}

/// What an index is asked.
#[derive(Clone, Debug, PartialEq, Eq)]
pub struct SearchPlan {
    pub terms: Vec<TermQuery>,
    /// How many requests are given back.
    pub maximum_results: usize,
    /// How many occurrences of a word are looked at.
    pub term_limit: usize,
}

/// How many words of a query count.
pub const MAXIMUM_QUERY_TERMS: usize = 32;

/// The words that an index is asked for.
pub open spec fn planned_terms(text: Seq<char>, exact: bool) -> Seq<(Seq<char>, Seq<char>)> {
    words_of(folded(text), MAXIMUM_QUERY_TERMS as nat).map_values(
        |t: Seq<char>| (t, pattern_for(t, exact)),
    )
}

/// Plans what an index is asked.
pub fn plan_search(query: &SearchQuery, policy: &SearchIndexPolicy) -> (r: SearchPlan)
    ensures
        term_queries(r.terms@) == planned_terms(query.text@, query.exact),
        r.maximum_results == match query.limit {
            Some(limit) => if limit < policy.maximum_results {
                limit
            } else {
                policy.maximum_results
            },
            None => policy.maximum_results,
        },
        r.term_limit as int == if policy.maximum_results * 100 < 50_000 {
            policy.maximum_results * 100
        } else {
            50_000
        },
{
    let chars = chars_of(query.text.as_str());
    let words = tokenize(chars.as_slice(), MAXIMUM_QUERY_TERMS);
    let ghost all = texts(words@);
    let mut terms: Vec<TermQuery> = Vec::new();
    for i in 0..words.len()
        invariant
            all == texts(words@),
            terms@.len() == i,
            forall|k: int|
                0 <= k < i ==> (#[trigger] terms@[k])@ == (all[k], pattern_for(all[k], query.exact)),
    {
        let term = words[i].clone();
        assert(all[i as int] == term@);
        let pattern = if query.exact {
            term.clone()
        } else {
            concat3("%", escape_like(term.as_str()).as_str(), "%")
        };
        terms.push(TermQuery { term, pattern });
    }
    assert(term_queries(terms@) =~= planned_terms(query.text@, query.exact));
    let maximum_results: usize = match query.limit {
        Some(limit) => if limit < policy.maximum_results {
            limit
        } else {
            policy.maximum_results
        },
        None => policy.maximum_results,
    };
    let term_limit: usize = if policy.maximum_results < 500 {
        policy.maximum_results * 100
    } else {
        50_000
    };
    SearchPlan { terms, maximum_results, term_limit }
}

/// An occurrence of a word, as an index gives it.
#[derive(Clone, Debug, PartialEq, Eq)]
pub struct TermRow {
    pub path: String,
    pub term: String,
    pub field: String,
}

/// An occurrence of a word, by its contents.
#[verifier::ext_equal]
pub struct RowView {
    pub path: Seq<char>,
    pub term: Seq<char>,
    pub field: Seq<char>,
}

impl View for TermRow {
    type V = RowView;

    open spec fn view(&self) -> RowView {
        RowView { path: self.path@, term: self.term@, field: self.field@ }
    }
}

/// The contents of a list of occurrences.
pub open spec fn row_views(list: Seq<TermRow>) -> Seq<RowView> {
    list.map_values(|r: TermRow| r@)
}

/// The contents of lists of occurrences.
pub open spec fn row_lists(list: Seq<Vec<TermRow>>) -> Seq<Seq<RowView>> {
    list.map_values(|l: Vec<TermRow>| row_views(l@))
}

/// Some fields.
#[derive(Clone, Copy, Debug, PartialEq, Eq, Structural)]
pub struct FieldSet {
    pub body: bool,
    pub documentation: bool,
    pub headers: bool,
    pub method: bool,
    pub name: bool,
    pub url: bool,
}

/// No fields.
pub open spec fn no_fields() -> FieldSet {
    FieldSet {
        body: false,
        documentation: false,
        headers: false,
        method: false,
        name: false,
        url: false,
    }
}

/// Some fields and one more.
pub open spec fn with_field(set: FieldSet, field: SearchField) -> FieldSet {
    match field {
        SearchField::Name => FieldSet { name: true, ..set },
        SearchField::Method => FieldSet { method: true, ..set },
        SearchField::Url => FieldSet { url: true, ..set },
        SearchField::Headers => FieldSet { headers: true, ..set },
        SearchField::Body => FieldSet { body: true, ..set },
        SearchField::Documentation => FieldSet { documentation: true, ..set },
    }
}

/// A field, where it is among some.
pub open spec fn if_set(list: Seq<SearchField>, set: bool, field: SearchField) -> Seq<SearchField> {
    if set {
        list.push(field)
    } else {
        list
    }
}

/// Some fields, by name.
pub open spec fn fields_listed(set: FieldSet) -> Seq<SearchField> {
    let a = if_set(seq![], set.body, SearchField::Body);
    let b = if_set(a, set.documentation, SearchField::Documentation);
    let c = if_set(b, set.headers, SearchField::Headers);
    let d = if_set(c, set.method, SearchField::Method);
    let e = if_set(d, set.name, SearchField::Name);
    if_set(e, set.url, SearchField::Url)
}

impl FieldSet {
    fn insert(self, field: SearchField) -> (r: FieldSet)
        ensures
            r == with_field(self, field),
    {
        match field {
            SearchField::Name => FieldSet { name: true, ..self },
            SearchField::Method => FieldSet { method: true, ..self },
            SearchField::Url => FieldSet { url: true, ..self },
            SearchField::Headers => FieldSet { headers: true, ..self },
            SearchField::Body => FieldSet { body: true, ..self },
            SearchField::Documentation => FieldSet { documentation: true, ..self },
        }
    }

    /// The fields, by name.
    pub fn listed(self) -> (r: Vec<SearchField>)
        ensures
            r@ == fields_listed(self),
    {
        let mut r: Vec<SearchField> = Vec::new();
        if self.body {
            r.push(SearchField::Body);
        }
        if self.documentation {
            r.push(SearchField::Documentation);
        }
        if self.headers {
            r.push(SearchField::Headers);
        }
        if self.method {
            r.push(SearchField::Method);
        }
        if self.name {
            r.push(SearchField::Name);
        }
        if self.url {
            r.push(SearchField::Url);
        }
        assert(r@ =~= fields_listed(self));
        r
    }
}

/// How well a request matches.
#[derive(Clone, Copy, Debug, PartialEq, Eq, Structural)]
pub struct SearchScore {
    pub value: i64,
    pub fields: FieldSet,
}

/// How well a request matches, by its contents.
#[verifier::ext_equal]
pub struct ScoreView {
    pub value: int,
    pub fields: FieldSet,
}

impl View for SearchScore {
    type V = ScoreView;

    open spec fn view(&self) -> ScoreView {
        ScoreView { value: self.value as int, fields: self.fields }
    }
}

/// How well requests match, by path.
pub type Scores = Map<Seq<char>, ScoreView>;

/// What an occurrence of a word counts: most where it is the word that is searched for, more
/// where it begins with it, and more or less with the field.
pub open spec fn row_score(query: Seq<char>, term: Seq<char>, field: SearchField) -> int {
    (if term == query {
        100int
    } else if starts_with(term, query) {
        60int
    } else {
        25int
    }) + field_weight(field)
}

/// How well requests match after one more occurrence.
pub open spec fn with_row(
    scores: Scores,
    query: Seq<char>,
    selected: Option<SearchField>,
    row: RowView,
) -> Scores {
    match field_of(row.field) {
        None => scores,
        Some(field) => if selected is Some && selected->Some_0 != field {
            scores
        } else {
            let before = if scores.dom().contains(row.path) {
                scores[row.path]
            } else {
                ScoreView { value: 0, fields: no_fields() }
            };
            scores.insert(
                row.path,
                ScoreView {
                    value: before.value + row_score(query, row.term, field),
                    fields: with_field(before.fields, field),
                },
            )
        },
    }
}

/// How well requests match after some occurrences of a word.
pub open spec fn with_rows(
    scores: Scores,
    query: Seq<char>,
    selected: Option<SearchField>,
    rows: Seq<RowView>,
) -> Scores
    decreases rows.len(),
{
    if rows.len() == 0 {
        scores
    } else {
        with_row(with_rows(scores, query, selected, rows.drop_last()), query, selected, rows.last())
    }
}

/// How well requests match, given the occurrences of each word.
pub open spec fn scored(
    queries: Seq<Seq<char>>,
    selected: Option<SearchField>,
    rows: Seq<Seq<RowView>>,
) -> Scores
    decreases queries.len(),
{
    if queries.len() == 0 {
        Map::empty()
    } else {
        with_rows(
            scored(queries.drop_last(), selected, rows),
            queries.last(),
            selected,
            rows[queries.len() - 1],
        )
    }
}

/// How many occurrences there are.
pub open spec fn row_count(rows: Seq<Seq<RowView>>) -> nat
    decreases rows.len(),
{
    if rows.len() == 0 {
        0
    } else {
        row_count(rows.drop_last()) + rows.last().len()
    }
}

/// The words of a plan.
pub open spec fn plan_words(list: Seq<TermQuery>) -> Seq<Seq<char>> {
    list.map_values(|t: TermQuery| t.term@)
}

proof fn lemma_with_row_bound(
    scores: Scores,
    query: Seq<char>,
    selected: Option<SearchField>,
    row: RowView,
    bound: int,
)
    requires
        bound >= 0,
        forall|p: Seq<char>| #[trigger]
            scores.dom().contains(p) ==> 0 <= scores[p].value <= bound,
    ensures
        forall|p: Seq<char>| #[trigger]
            with_row(scores, query, selected, row).dom().contains(p) ==> 0 <= with_row(
                scores,
                query,
                selected,
                row,
            )[p].value <= bound + 150,
{
}

/// A request with how well it matches.
#[derive(Clone, Debug, PartialEq, Eq)]
pub struct RankedMatch {
    pub path: String,
    pub score: SearchScore,
}

impl View for RankedMatch {
    type V = (Seq<char>, ScoreView);

    open spec fn view(&self) -> (Seq<char>, ScoreView) {
        (self.path@, self.score@)
    }
}

impl Ranked for RankedMatch {
    open spec fn before(a: (Seq<char>, ScoreView), b: (Seq<char>, ScoreView)) -> bool {
        a.1.value > b.1.value || a.1.value == b.1.value && text_lt(a.0, b.0)
    }

    proof fn lemma_rank(
        a: (Seq<char>, ScoreView),
        b: (Seq<char>, ScoreView),
        c: (Seq<char>, ScoreView),
    ) {
        let nothing = Seq::<char>::empty();
        lemma_pair_rank((nothing, a.0), (nothing, b.0), (nothing, c.0));
        lemma_text_lt_irreflexive(nothing);
        assert(pair_before((nothing, a.0), (nothing, b.0)) == text_lt(a.0, b.0));
        assert(pair_before((nothing, b.0), (nothing, a.0)) == text_lt(b.0, a.0));
        assert(pair_before((nothing, c.0), (nothing, b.0)) == text_lt(c.0, b.0));
        assert(pair_before((nothing, c.0), (nothing, a.0)) == text_lt(c.0, a.0));
    }

    fn comes_before(&self, other: &RankedMatch) -> (r: bool) {
        if self.score.value > other.score.value {
            true
        } else {
            self.score.value == other.score.value && less_text(
                self.path.as_str(),
                other.path.as_str(),
            )
        }
    }
}

/// The requests that match, the best first, and by path where they match alike.
pub open spec fn ranked(scores: Scores) -> Seq<(Seq<char>, ScoreView)> {
    sorted::<RankedMatch>(crate::order::in_order(scores))
}

/// Puts the requests that match in order, given the occurrences of each word.
pub fn rank_matches(
    terms: &[TermQuery],
    selected: Option<SearchField>,
    rows: &[Vec<TermRow>],
) -> (r: Vec<RankedMatch>)
    requires
        rows@.len() == terms@.len(),
        row_count(row_lists(rows@)) * 150 <= i64::MAX,
    ensures
        views(r@) == ranked(scored(plan_words(terms@), selected, row_lists(rows@))),
{
    let ghost words = plan_words(terms@);
    let ghost lists = row_lists(rows@);
    let mut scores: TextMap<SearchScore> = TextMap::new();
    proof {
        assert(words.take(0) =~= seq![]);
        assert(lists.take(0) =~= seq![]);
    }
    for i in 0..terms.len()
        invariant
            words == plan_words(terms@),
            lists == row_lists(rows@),
            rows@.len() == terms@.len(),
            row_count(lists) * 150 <= i64::MAX,
            scores.wf(),
            scores@ == scored(words.take(i as int), selected, lists),
            forall|p: Seq<char>| #[trigger]
                scores@.dom().contains(p) ==> 0 <= scores@[p].value <= row_count(
                    lists.take(i as int),
                ) * 150,
    {
        let query = terms[i].term.as_str();
        let wanted = chars_of(query);
        let ghost start = scores@;
        let ghost done = row_count(lists.take(i as int));
        let list = &rows[i];
        let ghost all = row_views(list@);
        proof {
            assert(words[i as int] == query@);
            assert(words.take(i + 1).drop_last() =~= words.take(i as int));
            assert(words.take(i + 1).last() == words[i as int]);
            assert(lists[i as int] == all);
            assert(lists.take(i + 1).drop_last() =~= lists.take(i as int));
            assert(all.take(0) =~= seq![]);
            lemma_row_count_take(lists, i + 1);
            assert(row_count(lists.take(i + 1)) == done + all.len());
        }
        for k in 0..list.len()
            invariant
                all == row_views(list@),
                wanted@ == query@,
                (done + all.len()) * 150 <= i64::MAX,
                scores.wf(),
                scores@ == with_rows(start, query@, selected, all.take(k as int)),
                forall|p: Seq<char>| #[trigger]
                    scores@.dom().contains(p) ==> 0 <= scores@[p].value <= (done + k) * 150,
        {
            let row = &list[k];
            let ghost before = scores@;
            proof {
                assert(all[k as int] == row@);
                assert(all.take(k + 1).drop_last() =~= all.take(k as int));
                assert(all.take(k + 1).last() == row@);
                lemma_with_row_bound(before, query@, selected, row@, (done + k) * 150);
            }
            if let Some(field) = parse_field(row.field.as_str()) {
                let skipped = match selected {
                    Some(s) => s != field,
                    None => false,
                };
                if !skipped {
                    let term = chars_of(row.term.as_str());
                    let weight: i64 = if same_text(row.term.as_str(), query) {
                        100
                    } else if has_prefix(term.as_slice(), wanted.as_slice()) {
                        60
                    } else {
                        25
                    };
                    let old = match scores.get(row.path.as_str()) {
                        Some(s) => *s,
                        None => SearchScore {
                            value: 0,
                            fields: FieldSet {
                                body: false,
                                documentation: false,
                                headers: false,
                                method: false,
                                name: false,
                                url: false,
                            },
                        },
                    };
                    let next = SearchScore {
                        value: old.value + weight + field.weight(),
                        fields: old.fields.insert(field),
                    };
                    scores.insert(row.path.clone(), next);
                    assert(scores@ =~= with_row(before, query@, selected, row@));
                }
            }
        }
        assert(all.take(list@.len() as int) =~= all);
    }
    proof {
        assert(words.take(terms@.len() as int) =~= words);
        crate::order::lemma_in_order(scores.pairs());
    }
    let mut r: Vec<RankedMatch> = Vec::new();
    for i in 0..scores.entries.len()
        invariant
            r@.len() == i,
            forall|k: int| 0 <= k < i ==> (#[trigger] r@[k])@ == scores.pairs()[k],
    {
        let entry = &scores.entries[i];
        r.push(RankedMatch { path: entry.0.clone(), score: entry.1 });
    }
    assert(views(r@) =~= scores.pairs());
    sort_stable(r)
}

proof fn lemma_row_count_take(rows: Seq<Seq<RowView>>, k: int)
    requires
        0 <= k <= rows.len(),
    ensures
        row_count(rows.take(k)) <= row_count(rows),
    decreases rows.len() - k,
{
    if k < rows.len() {
        lemma_row_count_take(rows, k + 1);
        assert(rows.take(k + 1).drop_last() =~= rows.take(k));
    } else {
        assert(rows.take(k) =~= rows);
    }
}

/// What an index holds of a request besides its words.
#[derive(Clone, Debug, PartialEq, Eq)]
pub struct DocumentRow {
    pub name: String,
    pub method: String,
    pub url: String,
    pub truncated: bool,
}

/// What an index holds of a request, by its contents.
#[verifier::ext_equal]
pub struct DocumentView {
    pub name: Seq<char>,
    pub method: Seq<char>,
    pub url: Seq<char>,
    pub truncated: bool,
}

impl View for DocumentRow {
    type V = DocumentView;

    open spec fn view(&self) -> DocumentView {
        DocumentView {
            name: self.name@,
            method: self.method@,
            url: self.url@,
            truncated: self.truncated,
        }
    }
}

/// The contents of an optional document.
pub open spec fn optional_document(d: Option<DocumentRow>) -> Option<DocumentView> {
    match d {
        Some(d) => Some(d@),
        None => None,
    }
}

/// The result that a match gives: none where the index has lost the request, or where another
/// method is asked for.
pub open spec fn result_of(
    found: (Seq<char>, ScoreView),
    document: Option<DocumentView>,
    method: Option<Seq<char>>,
) -> Option<ResultView> {
    match document {
        None => None,
        Some(d) => if method is Some && ascii_lowercase(method->Some_0) != ascii_lowercase(
            d.method,
        ) {
            None
        } else {
            Some(
                ResultView {
                    relative_path: found.0,
                    name: d.name,
                    method: d.method,
                    url: d.url,
                    score: found.1.value,
                    matched_fields: fields_listed(found.1.fields),
                    truncated_source: d.truncated,
                },
            )
        },
    }
}

/// The results after one more match; once there are enough, nothing more is taken.
pub open spec fn offered(
    results: Seq<ResultView>,
    found: (Seq<char>, ScoreView),
    document: Option<DocumentView>,
    method: Option<Seq<char>>,
    maximum: nat,
) -> Seq<ResultView> {
    if results.len() >= maximum {
        results
    } else {
        match result_of(found, document, method) {
            Some(r) => results.push(r),
            None => results,
        }
    }
}

/// The contents of a list of results.
pub open spec fn result_views(list: Seq<SearchResult>) -> Seq<ResultView> {
    list.map_values(|r: SearchResult| r@)
}

/// Takes one more match, in the order of the matches; tells whether more are wanted.
pub fn offer_match(
    results: &mut Vec<SearchResult>,
    found: &RankedMatch,
    document: Option<DocumentRow>,
    query: &SearchQuery,
    maximum: usize,
) -> (more: bool)
    ensures
        result_views(final(results)@) == offered(
            result_views(old(results)@),
            found@,
            optional_document(document),
            optional_text(query.method),
            maximum as nat,
        ),
        more == (final(results)@.len() < maximum),
{
    let ghost before = result_views(results@);
    assert(before.len() == results@.len());
    if results.len() >= maximum {
        return false;
    }
    if let Some(d) = document {
        let other = match &query.method {
            Some(m) => {
                let a = to_ascii_lower(chars_of(m.as_str()).as_slice());
                let b = to_ascii_lower(chars_of(d.method.as_str()).as_slice());
                !same_chars(a.as_slice(), b.as_slice())
            },
            None => false,
        };
        if !other {
            let result = SearchResult {
                relative_path: ResourcePath::new(found.path.as_str()),
                name: d.name,
                method: d.method,
                url: d.url,
                score: found.score.value,
                matched_fields: found.score.fields.listed(),
                truncated_source: d.truncated,
            };
            let ghost r = result@;
            results.push(result);
            assert(result_views(results@) =~= before.push(r));
        }
    }
    results.len() < maximum
}

/// The results of a search, given what the index holds of each request that matches.
pub open spec fn results_of(
    matches: Seq<(Seq<char>, ScoreView)>,
    documents: Seq<Option<DocumentView>>,
    method: Option<Seq<char>>,
    maximum: nat,
) -> Seq<ResultView>
    decreases matches.len(),
{
    if matches.len() == 0 {
        seq![]
    } else {
        offered(
            results_of(matches.drop_last(), documents, method, maximum),
            matches.last(),
            documents[matches.len() - 1],
            method,
            maximum,
        )
    }
}

/// No more requests are given back than were asked for, and a request of another method than
/// the one that is asked for is not.
pub proof fn law_results_are_those_asked_for(
    matches: Seq<(Seq<char>, ScoreView)>,
    documents: Seq<Option<DocumentView>>,
    method: Option<Seq<char>>,
    maximum: nat,
)
    ensures
        results_of(matches, documents, method, maximum).len() <= maximum,
        forall|i: int|
            0 <= i < results_of(matches, documents, method, maximum).len() && method is Some
                ==> ascii_lowercase(
                (#[trigger] results_of(matches, documents, method, maximum)[i]).method,
            ) == ascii_lowercase(method->Some_0),
    decreases matches.len(),
{
    if matches.len() > 0 {
        law_results_are_those_asked_for(matches.drop_last(), documents, method, maximum);
    }
}

proof fn lemma_results_from(
    matches: Seq<(Seq<char>, ScoreView)>,
    documents: Seq<Option<DocumentView>>,
    method: Option<Seq<char>>,
    maximum: nat,
    i: int,
)
    requires
        0 <= i < results_of(matches, documents, method, maximum).len(),
    ensures
        exists|k: int|
            0 <= k < matches.len() && (#[trigger] matches[k]).0 == results_of(
                matches,
                documents,
                method,
                maximum,
            )[i].relative_path && matches[k].1.value == results_of(
                matches,
                documents,
                method,
                maximum,
            )[i].score,
    decreases matches.len(),
{
    let all = results_of(matches, documents, method, maximum);
    let shorter = matches.drop_last();
    let front = results_of(shorter, documents, method, maximum);
    if i < front.len() {
        lemma_results_from(shorter, documents, method, maximum, i);
        assert(all[i] == front[i]);
        let k = choose|k: int|
            0 <= k < shorter.len() && (#[trigger] shorter[k]).0 == front[i].relative_path
                && shorter[k].1.value == front[i].score;
        assert(matches[k] == shorter[k]);
    } else {
        assert(matches[matches.len() - 1] == matches.last());
    }
}

/// The results come with the best match first.
pub proof fn law_best_results_come_first(
    matches: Seq<(Seq<char>, ScoreView)>,
    documents: Seq<Option<DocumentView>>,
    method: Option<Seq<char>>,
    maximum: nat,
    i: int,
    j: int,
)
    requires
        crate::sorting::in_rank::<RankedMatch>(matches),
        0 <= i < j < results_of(matches, documents, method, maximum).len(),
    ensures
        results_of(matches, documents, method, maximum)[i].score >= results_of(
            matches,
            documents,
            method,
            maximum,
        )[j].score,
    decreases matches.len(),
{
    let all = results_of(matches, documents, method, maximum);
    let shorter = matches.drop_last();
    let front = results_of(shorter, documents, method, maximum);
    assert(crate::sorting::in_rank::<RankedMatch>(shorter)) by {
        assert forall|a: int, b: int| 0 <= a < b < shorter.len() implies !RankedMatch::before(
            #[trigger] shorter[b],
            #[trigger] shorter[a],
        ) by {
            assert(shorter[a] == matches[a] && shorter[b] == matches[b]);
        }
    }
    if j < front.len() {
        law_best_results_come_first(shorter, documents, method, maximum, i, j);
        assert(all[i] == front[i] && all[j] == front[j]);
    } else {
        assert(all[i] == front[i]);
        lemma_results_from(shorter, documents, method, maximum, i);
        let k = choose|k: int|
            0 <= k < shorter.len() && (#[trigger] shorter[k]).0 == front[i].relative_path
                && shorter[k].1.value == front[i].score;
        assert(shorter[k] == matches[k]);
        assert(!RankedMatch::before(matches[matches.len() - 1], matches[k]));
    }
}

/// Something that an index has to be told.
#[derive(Clone, Debug, PartialEq, Eq)]
pub enum IndexAction {
    /// The request at a path is to be held, in place of what was held before.
    Write { path: String, fingerprint: String, document: IndexedDocument },
    /// The request at a path is gone.
    Remove(String),
}

/// Something that an index has to be told, by its contents.
pub enum IndexActionView {
    Write { path: Seq<char>, fingerprint: Seq<char>, document: IndexedView },
    Remove(Seq<char>),
}

impl View for IndexAction {
    type V = IndexActionView;

    open spec fn view(&self) -> IndexActionView {
        match self {
            IndexAction::Write { path, fingerprint, document } => IndexActionView::Write {
                path: path@,
                fingerprint: fingerprint@,
                document: document@,
            },
            IndexAction::Remove(path) => IndexActionView::Remove(path@),
        }
    }
}

/// The contents of a list of things to be told.
pub open spec fn index_actions(list: Seq<IndexAction>) -> Seq<IndexActionView> {
    list.map_values(|a: IndexAction| a@)
}

/// What an index has to be told, and what that does.
#[verifier::ext_equal]
pub struct RefreshView {
    pub actions: Seq<IndexActionView>,
    pub inserted: nat,
    pub updated: nat,
    pub unchanged: nat,
    pub removed: nat,
    pub truncated: nat,
}

/// What an index has to be told after one more request.
pub open spec fn with_request(
    state: RefreshView,
    existing: Map<Seq<char>, Seq<char>>,
    path: Seq<char>,
    loaded: LoadedView<RequestDocumentView>,
    bytes: nat,
    maximum: nat,
) -> RefreshView {
    let fingerprint = hex(loaded.fingerprint as int, 16);
    let known = existing.dom().contains(path);
    if known && existing[path] == fingerprint {
        RefreshView { unchanged: state.unchanged + 1, ..state }
    } else {
        let document = indexed(loaded.value.request, bytes, maximum);
        RefreshView {
            actions: state.actions.push(IndexActionView::Write { path, fingerprint, document }),
            inserted: if known {
                state.inserted
            } else {
                state.inserted + 1
            },
            updated: if known {
                state.updated + 1
            } else {
                state.updated
            },
            truncated: if document.truncated {
                state.truncated + 1
            } else {
                state.truncated
            },
            ..state
        }
    }
}

/// What an index has to be told of some requests.
pub open spec fn with_requests(
    nodes: Nodes,
    root: Seq<char>,
    entries: Seq<RequestEntryView>,
    existing: Map<Seq<char>, Seq<char>>,
    bytes: nat,
    maximum: nat,
) -> Result<RefreshView, SearchErrorView>
    decreases entries.len(),
{
    if entries.len() == 0 {
        Ok(
            RefreshView {
                actions: seq![],
                inserted: 0,
                updated: 0,
                unchanged: 0,
                removed: 0,
                truncated: 0,
            },
        )
    } else {
        match with_requests(nodes, root, entries.drop_last(), existing, bytes, maximum) {
            Err(e) => Err(e),
            Ok(state) => match request_loaded(nodes, root, entries.last().path) {
                Err(e) => Err(SearchErrorView::Workspace(e)),
                Ok(loaded) => Ok(
                    with_request(
                        state,
                        existing,
                        entries.last().relative_path,
                        loaded,
                        bytes,
                        maximum,
                    ),
                ),
            },
        }
    }
}

/// What an index has to be told of requests that are gone: the keys are those it holds.
pub open spec fn with_removals(
    state: RefreshView,
    keys: Seq<Seq<char>>,
    current: Set<Seq<char>>,
) -> RefreshView
    decreases keys.len(),
{
    if keys.len() == 0 {
        state
    } else {
        let before = with_removals(state, keys.drop_last(), current);
        if current.contains(keys.last()) {
            before
        } else {
            RefreshView {
                actions: before.actions.push(IndexActionView::Remove(keys.last())),
                removed: before.removed + 1,
                ..before
            }
        }
    }
}

/// The paths of requests.
pub open spec fn entry_paths(entries: Seq<RequestEntryView>) -> Seq<Seq<char>> {
    entries.map_values(|e: RequestEntryView| e.relative_path)
}

/// What an index has to be told to be up to date.
pub open spec fn refreshed(
    nodes: Nodes,
    root: Seq<char>,
    existing: Map<Seq<char>, Seq<char>>,
    policy: SearchIndexPolicy,
) -> Result<(nat, RefreshView), SearchErrorView> {
    match all_entries(nodes, root) {
        Err(e) => Err(SearchErrorView::Workspace(e)),
        Ok(entries) => if entries.len() > policy.maximum_documents {
            Err(
                SearchErrorView::DocumentLimit {
                    maximum: policy.maximum_documents as nat,
                    observed: entries.len(),
                },
            )
        } else {
            match with_requests(
                nodes,
                root,
                entries,
                existing,
                policy.maximum_document_bytes as nat,
                policy.maximum_terms_per_document as nat,
            ) {
                Err(e) => Err(e),
                Ok(state) => Ok(
                    (
                        entries.len(),
                        with_removals(
                            state,
                            crate::order::keys_of(crate::order::in_order(existing)),
                            entry_paths(entries).to_set(),
                        ),
                    ),
                ),
            }
        },
    }
}

proof fn lemma_requests_error(
    nodes: Nodes,
    root: Seq<char>,
    entries: Seq<RequestEntryView>,
    existing: Map<Seq<char>, Seq<char>>,
    bytes: nat,
    maximum: nat,
    k: int,
)
    requires
        0 <= k <= entries.len(),
        with_requests(nodes, root, entries.take(k), existing, bytes, maximum) is Err,
    ensures
        with_requests(nodes, root, entries, existing, bytes, maximum) == with_requests(
            nodes,
            root,
            entries.take(k),
            existing,
            bytes,
            maximum,
        ),
    decreases entries.len() - k,
{
    if k < entries.len() {
        assert(entries.take(k + 1).drop_last() =~= entries.take(k));
        lemma_requests_error(nodes, root, entries, existing, bytes, maximum, k + 1);
    } else {
        assert(entries.take(k) =~= entries);
    }
}

/// What an index has to be told, with a report of it.
#[derive(Clone, Debug, PartialEq, Eq)]
pub struct RefreshPlan {
    pub report: SearchRefreshReport,
    pub actions: Vec<IndexAction>,
}

/// What a plan says.
pub open spec fn plan_view(p: RefreshPlan) -> (nat, RefreshView) {
    (
        p.report.scanned as nat,
        RefreshView {
            actions: index_actions(p.actions@),
            inserted: p.report.inserted as nat,
            updated: p.report.updated as nat,
            unchanged: p.report.unchanged as nat,
            removed: p.report.removed as nat,
            truncated: p.report.truncated as nat,
        },
    )
}

/// Whether the counts of what was done add up.
pub open spec fn counts_within(state: RefreshView, n: nat) -> bool {
    &&& state.inserted + state.updated + state.unchanged == n
    &&& state.truncated <= n
}

proof fn lemma_counts(
    nodes: Nodes,
    root: Seq<char>,
    entries: Seq<RequestEntryView>,
    existing: Map<Seq<char>, Seq<char>>,
    bytes: nat,
    maximum: nat,
)
    ensures
        with_requests(nodes, root, entries, existing, bytes, maximum) matches Ok(state)
            ==> counts_within(state, entries.len()) && state.removed == 0,
    decreases entries.len(),
{
    if entries.len() > 0 {
        lemma_counts(nodes, root, entries.drop_last(), existing, bytes, maximum);
    }
}

proof fn lemma_removal_counts(state: RefreshView, keys: Seq<Seq<char>>, current: Set<Seq<char>>)
    ensures
        ({
            let after = with_removals(state, keys, current);
            &&& after.inserted == state.inserted
            &&& after.updated == state.updated
            &&& after.unchanged == state.unchanged
            &&& after.truncated == state.truncated
            &&& state.removed <= after.removed <= state.removed + keys.len()
        }),
    decreases keys.len(),
{
    if keys.len() > 0 {
        lemma_removal_counts(state, keys.drop_last(), current);
    }
}

proof fn lemma_one_more_path(all: Seq<RequestEntryView>, i: int)
    requires
        0 <= i < all.len(),
    ensures
        entry_paths(all.take(i + 1)).to_set() == entry_paths(all.take(i)).to_set().insert(
            all[i].relative_path,
        ),
{
    let path = all[i].relative_path;
    let a = entry_paths(all.take(i));
    let b = entry_paths(all.take(i + 1));
    assert(b =~= a.push(path));
    assert forall|t: Seq<char>| b.to_set().contains(t) <==> a.to_set().insert(path).contains(t) by {
        if a.contains(t) {
            let k = choose|k: int| 0 <= k < a.len() && a[k] == t;
            assert(b[k] == t);
        }
        if b.contains(t) && t != path {
            let k = choose|k: int| 0 <= k < b.len() && b[k] == t;
            assert(a[k] == t);
        }
        assert(b[i] == path);
    }
    assert(b.to_set() =~= a.to_set().insert(path));
}

/// Plans what an index that holds requests with the given fingerprints has to be told.
#[verifier::rlimit(60)]
#[verifier::spinoff_prover]
pub fn plan_refresh(
    repository: &WorkspaceRepository,
    files: &FileTree,
    existing: &FieldMap,
    policy: &SearchIndexPolicy,
) -> (r: Result<RefreshPlan, SearchIndexError>)
    requires
        files.wf(),
        existing.wf(),
    ensures
        match r {
            Ok(p) => refreshed(files@.nodes, repository@, existing@, *policy) == Ok::<
                (nat, RefreshView),
                SearchErrorView,
            >(plan_view(p)),
            Err(e) => refreshed(files@.nodes, repository@, existing@, *policy) == Err::<
                (nat, RefreshView),
                SearchErrorView,
            >(e@),
        },
{
    let entries = match repository.list_requests(files) {
        Ok(list) => list,
        Err(e) => {
            return Err(SearchIndexError::Workspace(e));
        },
    };
    let scanned: usize = entries.len();
    let ghost all = entry_views(entries@);
    assert(all.len() == entries@.len());
    if scanned > policy.maximum_documents {
        return Err(
            SearchIndexError::DocumentLimit {
                maximum: policy.maximum_documents,
                observed: scanned,
            },
        );
    }
    let ghost nodes = files@.nodes;
    let ghost root = repository@;
    let ghost bytes = policy.maximum_document_bytes as nat;
    let ghost maximum = policy.maximum_terms_per_document as nat;
    let mut report = SearchRefreshReport {
        scanned,
        inserted: 0,
        updated: 0,
        unchanged: 0,
        removed: 0,
        truncated: 0,
    };
    let mut actions: Vec<IndexAction> = Vec::new();
    let mut current = TextSet::new();
    proof {
        assert(all.take(0) =~= seq![]);
        assert(index_actions(actions@) =~= seq![]);
        assert(entry_paths(all.take(0)).to_set() =~= Set::empty());
    }
    for i in 0..scanned
        invariant
            files.wf(),
            existing.wf(),
            nodes == files@.nodes,
            root == repository@,
            scanned == entries@.len(),
            all == entry_views(entries@),
            all.len() == scanned,
            scanned <= policy.maximum_documents,
            all_entries(nodes, root) == Ok::<Seq<RequestEntryView>, WorkspaceErrorView>(all),
            bytes == policy.maximum_document_bytes as nat,
            maximum == policy.maximum_terms_per_document as nat,
            current.wf(),
            current@ == entry_paths(all.take(i as int)).to_set(),
            report.scanned == scanned,
            with_requests(nodes, root, all.take(i as int), existing@, bytes, maximum) == Ok::<
                RefreshView,
                SearchErrorView,
            >(plan_view(RefreshPlan { report, actions }).1),
    {
        let ghost before = plan_view(RefreshPlan { report, actions }).1;
        let entry = &entries[i];
        proof {
            assert(all[i as int] == entry@);
            assert(all.take(i + 1).drop_last() =~= all.take(i as int));
            assert(all.take(i + 1).last() == entry@);
            lemma_counts(nodes, root, all.take(i as int), existing@, bytes, maximum);
        }
        let loaded = match repository.load_request(files, &entry.path) {
            Ok(d) => d,
            Err(e) => {
                proof {
                    lemma_requests_error(nodes, root, all, existing@, bytes, maximum, i + 1);
                }
                return Err(SearchIndexError::Workspace(e));
            },
        };
        let path = entry.relative_path.as_text();
        current.insert(path.to_owned());
        proof {
            lemma_one_more_path(all, i as int);
        }
        let fingerprint = loaded.fingerprint.to_hex();
        let known = existing.get(path);
        let same = match known {
            Some(f) => same_text(f.as_str(), fingerprint.as_str()),
            None => false,
        };
        if same {
            report.unchanged = report.unchanged + 1;
        } else {
            let document = build_indexed_document(&loaded.value.request, policy);
            if document.truncated {
                report.truncated = report.truncated + 1;
            }
            match known {
                Some(_) => {
                    report.updated = report.updated + 1;
                },
                None => {
                    report.inserted = report.inserted + 1;
                },
            }
            let action = IndexAction::Write { path: path.to_owned(), fingerprint, document };
            let ghost a = action@;
            let ghost old_actions = index_actions(actions@);
            actions.push(action);
            assert(index_actions(actions@) =~= old_actions.push(a));
        }
        assert(plan_view(RefreshPlan { report, actions }).1 =~= with_request(
            before,
            existing@,
            entry@.relative_path,
            loaded@,
            bytes,
            maximum,
        ));
    }
    let ghost state = plan_view(RefreshPlan { report, actions }).1;
    let ghost keys = crate::order::keys_of(existing.pairs());
    let ghost paths = entry_paths(all).to_set();
    proof {
        assert(all.take(scanned as int) =~= all);
        lemma_counts(nodes, root, all, existing@, bytes, maximum);
        crate::order::lemma_in_order(existing.pairs());
        assert(keys.take(0) =~= seq![]);
    }
    for i in 0..existing.entries.len()
        invariant
            existing.wf(),
            current.wf(),
            current@ == paths,
            keys == crate::order::keys_of(existing.pairs()),
            report.scanned == scanned,
            state.removed == 0,
            plan_view(RefreshPlan { report, actions }).1 == with_removals(
                state,
                keys.take(i as int),
                paths,
            ),
    {
        let ghost before = plan_view(RefreshPlan { report, actions }).1;
        let key = &existing.entries[i].0;
        proof {
            assert(existing.pairs()[i as int].0 == key@);
            assert(keys[i as int] == key@);
            assert(keys.take(i + 1).drop_last() =~= keys.take(i as int));
            assert(keys.take(i + 1).last() == key@);
            lemma_removal_counts(state, keys.take(i as int), paths);
        }
        if !current.contains(key.as_str()) {
            let action = IndexAction::Remove(key.clone());
            let ghost a = action@;
            let ghost old_actions = index_actions(actions@);
            actions.push(action);
            report.removed = report.removed + 1;
            proof {
                assert(index_actions(actions@) =~= old_actions.push(a));
                assert(plan_view(RefreshPlan { report, actions }).1 =~= with_removals(
                    state,
                    keys.take(i + 1),
                    paths,
                ));
            }
        }
    }
    assert(keys.take(existing.entries@.len() as int) =~= keys);
    Ok(RefreshPlan { report, actions })
}

/// The counts of a report add up: every request is either new, or changed, or as it was.
pub proof fn law_report_adds_up(
    nodes: Nodes,
    root: Seq<char>,
    existing: Map<Seq<char>, Seq<char>>,
    policy: SearchIndexPolicy,
)
    ensures
        refreshed(nodes, root, existing, policy) matches Ok((scanned, state)) ==> state.inserted
            + state.updated + state.unchanged == scanned && state.truncated <= scanned,
{
    if let Ok(entries) = all_entries(nodes, root) {
        let bytes = policy.maximum_document_bytes as nat;
        let maximum = policy.maximum_terms_per_document as nat;
        lemma_counts(nodes, root, entries, existing, bytes, maximum);
        if let Ok(state) = with_requests(nodes, root, entries, existing, bytes, maximum) {
            lemma_removal_counts(
                state,
                crate::order::keys_of(crate::order::in_order(existing)),
                entry_paths(entries).to_set(),
            );
        }
    }
}

/// What an index holds after it was told something.
pub open spec fn told(existing: Map<Seq<char>, Seq<char>>, action: IndexActionView) -> Map<
    Seq<char>,
    Seq<char>,
> {
    match action {
        IndexActionView::Write { path, fingerprint, .. } => existing.insert(path, fingerprint),
        IndexActionView::Remove(path) => existing.remove(path),
    }
}

/// What an index holds after it was told some things.
pub open spec fn told_all(existing: Map<Seq<char>, Seq<char>>, actions: Seq<IndexActionView>) -> Map<
    Seq<char>,
    Seq<char>,
>
    decreases actions.len(),
{
    if actions.len() == 0 {
        existing
    } else {
        told(told_all(existing, actions.drop_last()), actions.last())
    }
}

proof fn lemma_told_push(
    existing: Map<Seq<char>, Seq<char>>,
    actions: Seq<IndexActionView>,
    action: IndexActionView,
)
    ensures
        told_all(existing, actions.push(action)) == told(told_all(existing, actions), action),
{
    assert(actions.push(action).drop_last() =~= actions);
}

/// The fingerprint of the request at a path.
pub open spec fn fingerprint_at(nodes: Nodes, root: Seq<char>, path: Seq<char>) -> Option<Seq<char>> {
    match request_loaded(nodes, root, path) {
        Ok(d) => Some(hex(d.fingerprint as int, 16)),
        Err(_) => None,
    }
}

/// Whether an index holds some requests with their fingerprints, and otherwise what it held.
spec fn holds_requests(
    nodes: Nodes,
    root: Seq<char>,
    entries: Seq<RequestEntryView>,
    existing: Map<Seq<char>, Seq<char>>,
    after: Map<Seq<char>, Seq<char>>,
) -> bool {
    &&& forall|i: int|
        0 <= i < entries.len() ==> after.dom().contains((#[trigger] entries[i]).relative_path)
            && Some(after[entries[i].relative_path]) == fingerprint_at(
            nodes,
            root,
            entries[i].path,
        )
    &&& forall|p: Seq<char>|
        !(#[trigger] entry_paths(entries).contains(p)) ==> (after.dom().contains(p)
            <==> existing.dom().contains(p)) && after[p] == existing[p]
}

#[verifier::rlimit(50)]
#[verifier::spinoff_prover]
proof fn lemma_holds_one_more(
    nodes: Nodes,
    root: Seq<char>,
    entries: Seq<RequestEntryView>,
    existing: Map<Seq<char>, Seq<char>>,
    before: Map<Seq<char>, Seq<char>>,
    after: Map<Seq<char>, Seq<char>>,
    print: Seq<char>,
)
    requires
        entries.len() > 0,
        entry_paths(entries).no_duplicates(),
        holds_requests(nodes, root, entries.drop_last(), existing, before),
        fingerprint_at(nodes, root, entries.last().path) == Some(print),
        after == before.insert(entries.last().relative_path, print) || (after == before
            && existing.dom().contains(entries.last().relative_path)
            && existing[entries.last().relative_path] == print),
    ensures
        holds_requests(nodes, root, entries, existing, after),
{
    let shorter = entries.drop_last();
    let last = entries.last();
    let path = last.relative_path;
    let paths = entry_paths(entries);
    let front = entry_paths(shorter);
    assert(paths =~= front.push(path));
    assert(!front.contains(path)) by {
        if front.contains(path) {
            let i = choose|i: int| 0 <= i < front.len() && front[i] == path;
            assert(paths[i] == paths[paths.len() - 1]);
        }
    }
    assert forall|i: int| 0 <= i < entries.len() implies after.dom().contains(
        (#[trigger] entries[i]).relative_path,
    ) && Some(after[entries[i].relative_path]) == fingerprint_at(nodes, root, entries[i].path) by {
        if i < shorter.len() {
            assert(shorter[i] == entries[i]);
            assert(front[i] == entries[i].relative_path);
            assert(front.contains(front[i]));
        }
    }
    assert forall|p: Seq<char>| !(#[trigger] paths.contains(p)) implies (after.dom().contains(p)
        <==> existing.dom().contains(p)) && after[p] == existing[p] by {
        assert(paths[paths.len() - 1] == path);
        if front.contains(p) {
            let i = choose|i: int| 0 <= i < front.len() && front[i] == p;
            assert(paths[i] == p);
        }
    }
}

proof fn lemma_told_requests(
    nodes: Nodes,
    root: Seq<char>,
    entries: Seq<RequestEntryView>,
    existing: Map<Seq<char>, Seq<char>>,
    bytes: nat,
    maximum: nat,
)
    requires
        with_requests(nodes, root, entries, existing, bytes, maximum) is Ok,
        entry_paths(entries).no_duplicates(),
    ensures
        holds_requests(
            nodes,
            root,
            entries,
            existing,
            told_all(
                existing,
                with_requests(nodes, root, entries, existing, bytes, maximum)->Ok_0.actions,
            ),
        ),
    decreases entries.len(),
{
    let state = with_requests(nodes, root, entries, existing, bytes, maximum)->Ok_0;
    let after = told_all(existing, state.actions);
    if entries.len() > 0 {
        let shorter = entries.drop_last();
        let last = entries.last();
        let paths = entry_paths(entries);
        let front = entry_paths(shorter);
        assert(front.no_duplicates()) by {
            assert forall|i: int, j: int| 0 <= i < front.len() && 0 <= j < front.len() && i != j implies front[i]
                != front[j] by {
                assert(paths[i] == front[i] && paths[j] == front[j]);
            }
        }
        lemma_told_requests(nodes, root, shorter, existing, bytes, maximum);
        let before_state = with_requests(nodes, root, shorter, existing, bytes, maximum)->Ok_0;
        let before = told_all(existing, before_state.actions);
        let loaded = request_loaded(nodes, root, last.path)->Ok_0;
        let print = hex(loaded.fingerprint as int, 16);
        if !(existing.dom().contains(last.relative_path) && existing[last.relative_path] == print) {
            let action = IndexActionView::Write {
                path: last.relative_path,
                fingerprint: print,
                document: indexed(loaded.value.request, bytes, maximum),
            };
            lemma_told_push(existing, before_state.actions, action);
        }
        lemma_holds_one_more(nodes, root, entries, existing, before, after, print);
    }
}

proof fn lemma_told_removals(
    existing: Map<Seq<char>, Seq<char>>,
    state: RefreshView,
    keys: Seq<Seq<char>>,
    current: Set<Seq<char>>,
)
    ensures
        ({
            let before = told_all(existing, state.actions);
            let after = told_all(existing, with_removals(state, keys, current).actions);
            forall|p: Seq<char>|
                (#[trigger] after.dom().contains(p) <==> before.dom().contains(p) && !(keys.contains(
                    p,
                ) && !current.contains(p))) && (after.dom().contains(p) ==> after[p] == before[p])
        }),
    decreases keys.len(),
{
    let before = told_all(existing, state.actions);
    let after = told_all(existing, with_removals(state, keys, current).actions);
    if keys.len() > 0 {
        let shorter = keys.drop_last();
        let key = keys.last();
        lemma_told_removals(existing, state, shorter, current);
        let now = with_removals(state, shorter, current);
        let then = told_all(existing, now.actions);
        if !current.contains(key) {
            lemma_told_push(existing, now.actions, IndexActionView::Remove(key));
            assert(after == then.remove(key));
        }
        assert forall|p: Seq<char>|
            (#[trigger] after.dom().contains(p) <==> before.dom().contains(p) && !(keys.contains(p)
                && !current.contains(p))) && (after.dom().contains(p) ==> after[p] == before[p]) by {
            assert(then.dom().contains(p) <==> before.dom().contains(p) && !(shorter.contains(p)
                && !current.contains(p)));
            if shorter.contains(p) {
                let i = choose|i: int| 0 <= i < shorter.len() && shorter[i] == p;
                assert(keys[i] == p);
            }
            if keys.contains(p) && p != key {
                let i = choose|i: int| 0 <= i < keys.len() && keys[i] == p;
                assert(shorter[i] == p);
            }
            assert(keys[keys.len() - 1] == key);
        }
    }
}

proof fn lemma_entries_once(nodes: Nodes, root: Seq<char>, places: Seq<Seq<char>>)
    requires
        places.no_duplicates(),
    ensures
        entries_at(nodes, root, places) matches Ok(entries) ==> {
            &&& entry_paths(entries).no_duplicates()
            &&& forall|i: int|
                0 <= i < entries.len() ==> places.contains((#[trigger] entries[i]).relative_path)
        },
    decreases places.len(),
{
    if places.len() > 0 {
        let shorter = places.drop_last();
        let last = places.last();
        lemma_entries_once(nodes, root, shorter);
        if let Ok(entries) = entries_at(nodes, root, places) {
            let front = entries_at(nodes, root, shorter)->Ok_0;
            let paths = entry_paths(entries);
            assert(places[places.len() - 1] == last);
            assert(!shorter.contains(last)) by {
                if shorter.contains(last) {
                    let k = choose|k: int| 0 <= k < shorter.len() && shorter[k] == last;
                    assert(places[k] == places[places.len() - 1]);
                }
            }
            assert forall|i: int| 0 <= i < entries.len() implies places.contains(
                (#[trigger] entries[i]).relative_path,
            ) by {
                if i < front.len() {
                    assert(entries[i] == front[i]);
                    let k = choose|k: int|
                        0 <= k < shorter.len() && shorter[k] == front[i].relative_path;
                    assert(places[k] == shorter[k]);
                }
            }
            assert forall|i: int, j: int| 0 <= i < j < paths.len() implies paths[i] != paths[j] by {
                assert(entries[i] == front[i]);
                assert(entry_paths(front)[i] == paths[i]);
                assert(shorter.contains(front[i].relative_path));
                if j < front.len() {
                    assert(entries[j] == front[j]);
                    assert(entry_paths(front)[j] == paths[j]);
                } else {
                    assert(paths[j] == last);
                }
            }
        }
    }
}

/// An index that was told what it has to be told holds exactly the requests of the workspace,
/// each with its fingerprint.
pub proof fn law_refreshed_index_is_up_to_date(
    nodes: Nodes,
    root: Seq<char>,
    existing: Map<Seq<char>, Seq<char>>,
    policy: SearchIndexPolicy,
    entries: Seq<RequestEntryView>,
)
    requires
        nodes.dom().finite(),
        existing.dom().finite(),
        all_entries(nodes, root) == Ok::<Seq<RequestEntryView>, WorkspaceErrorView>(entries),
        refreshed(nodes, root, existing, policy) is Ok,
    ensures
        ({
            let after = told_all(existing, refreshed(nodes, root, existing, policy)->Ok_0.1.actions);
            &&& forall|p: Seq<char>| #[trigger]
                after.dom().contains(p) <==> entry_paths(entries).contains(p)
            &&& forall|i: int|
                0 <= i < entries.len() ==> Some(after[(#[trigger] entries[i]).relative_path])
                    == fingerprint_at(nodes, root, entries[i].path)
        }),
{
    let bytes = policy.maximum_document_bytes as nat;
    let maximum = policy.maximum_terms_per_document as nat;
    let state = with_requests(nodes, root, entries, existing, bytes, maximum)->Ok_0;
    let keys = crate::order::keys_of(crate::order::in_order(existing));
    let paths = entry_paths(entries);
    law_requests_are_listed_once(nodes, root);
    lemma_entries_once(nodes, root, all_request_places(nodes, root)->Ok_0);
    lemma_told_requests(nodes, root, entries, existing, bytes, maximum);
    lemma_told_removals(existing, state, keys, paths.to_set());
    let before = told_all(existing, state.actions);
    let after = told_all(existing, with_removals(state, keys, paths.to_set()).actions);
    crate::order::lemma_keys_in_order(existing);
    assert forall|p: Seq<char>| #[trigger] after.dom().contains(p) <==> paths.contains(p) by {
        if paths.contains(p) {
            let i = choose|i: int| 0 <= i < paths.len() && paths[i] == p;
            assert(entries[i].relative_path == p);
            assert(before.dom().contains(p));
        } else {
            assert(before.dom().contains(p) <==> existing.dom().contains(p));
            assert(existing.dom().contains(p) <==> keys.contains(p));
        }
    }
    assert forall|i: int| 0 <= i < entries.len() implies Some(
        after[(#[trigger] entries[i]).relative_path],
    ) == fingerprint_at(nodes, root, entries[i].path) by {
        assert(paths[i] == entries[i].relative_path);
        assert(paths.contains(paths[i]));
        assert(after.dom().contains(paths[i]));
    }
}

} // verus!
