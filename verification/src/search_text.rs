//! The words that requests are found by.
use crate::domain::{
    form_views, header_views, method_text, multipart_views, BodyView, FormField, FormFieldView,
    HeaderEntry, HttpRequest, MultipartField, MultipartFieldView, MultipartValue,
    MultipartValueView, RequestBody, RequestView, ValueSensitivity,
};
use crate::lines::{join, join_texts};
use crate::message::{concat3, concat5};
use crate::number::{
    byte_length, bytes_in, char_width, lemma_byte_length_bound, lemma_byte_length_push, width_of,
};
use crate::order::{sorted_texts, TextSet};
use crate::text::{chars_of, same_text, texts};
use vstd::prelude::*;
use vstd::slice::slice_subrange;
use vstd::string::*;

verus! {

/// What an index holds of a workspace, and how much of it.
#[derive(Clone, Debug, PartialEq, Eq)]
pub struct SearchIndexPolicy {
    pub maximum_documents: usize,
    pub maximum_document_bytes: usize,
    pub maximum_terms_per_document: usize,
    pub maximum_results: usize,
}

impl Default for SearchIndexPolicy {
    fn default() -> (r: SearchIndexPolicy)
        ensures
            r.maximum_documents == 100_000,
            r.maximum_document_bytes == 512 * 1024,
            r.maximum_terms_per_document == 10_000,
            r.maximum_results == 200,
    {
        SearchIndexPolicy {
            maximum_documents: 100_000,
            maximum_document_bytes: 524_288,
            maximum_terms_per_document: 10_000,
            maximum_results: 200,
        }
    }
}

/// A part of a request that words are found in.
#[derive(Clone, Copy, Debug, PartialEq, Eq, Structural)]
pub enum SearchField {
    Name,
    Method,
    Url,
    Headers,
    Body,
    Documentation,
}

/// The name of a field.
pub open spec fn field_name(field: SearchField) -> Seq<char> {
    match field {
        SearchField::Name => "name"@,
        SearchField::Method => "method"@,
        SearchField::Url => "url"@,
        SearchField::Headers => "headers"@,
        SearchField::Body => "body"@,
        SearchField::Documentation => "documentation"@,
    }
}

/// How much a word in a field counts.
pub open spec fn field_weight(field: SearchField) -> int {
    match field {
        SearchField::Name => 50,
        SearchField::Method => 40,
        SearchField::Url => 35,
        SearchField::Headers => 20,
        SearchField::Body => 10,
        SearchField::Documentation => 8,
    }
}

/// The field of a name.
pub open spec fn field_of(name: Seq<char>) -> Option<SearchField> {
    if name == "name"@ {
        Some(SearchField::Name)
    } else if name == "method"@ {
        Some(SearchField::Method)
    } else if name == "url"@ {
        Some(SearchField::Url)
    } else if name == "headers"@ {
        Some(SearchField::Headers)
    } else if name == "body"@ {
        Some(SearchField::Body)
    } else if name == "documentation"@ {
        Some(SearchField::Documentation)
    } else {
        None
    }
}

impl SearchField {
    /// The name of the field.
    pub fn as_str(self) -> (r: &'static str)
        ensures
            r@ == field_name(self),
    {
        match self {
            SearchField::Name => "name",
            SearchField::Method => "method",
            SearchField::Url => "url",
            SearchField::Headers => "headers",
            SearchField::Body => "body",
            SearchField::Documentation => "documentation",
        }
    }

    /// How much a word in the field counts.
    pub fn weight(self) -> (r: i64)
        ensures
            r == field_weight(self),
            8 <= r <= 50,
    {
        match self {
            SearchField::Name => 50,
            SearchField::Method => 40,
            SearchField::Url => 35,
            SearchField::Headers => 20,
            SearchField::Body => 10,
            SearchField::Documentation => 8,
        }
    }
}

/// Finds the field of a name.
pub fn parse_field(value: &str) -> (r: Option<SearchField>)
    ensures
        r == field_of(value@),
{
    if same_text(value, "name") {
        Some(SearchField::Name)
    } else if same_text(value, "method") {
        Some(SearchField::Method)
    } else if same_text(value, "url") {
        Some(SearchField::Url)
    } else if same_text(value, "headers") {
        Some(SearchField::Headers)
    } else if same_text(value, "body") {
        Some(SearchField::Body)
    } else if same_text(value, "documentation") {
        Some(SearchField::Documentation)
    } else {
        None
    }
}

/// A field is found again by its name.
pub proof fn law_field_names_are_read(field: SearchField)
    ensures
        field_of(field_name(field)) == Some(field),
{
    reveal_strlit("name");
    reveal_strlit("method");
    reveal_strlit("url");
    reveal_strlit("headers");
    reveal_strlit("body");
    reveal_strlit("documentation");
    assert("name"@.len() == 4 && "method"@.len() == 6 && "url"@.len() == 3 && "headers"@.len() == 7);
    assert("body"@.len() == 4 && "documentation"@.len() == 13);
    assert("name"@[0] == 'n' && "body"@[0] == 'b');
}

/// Whether a character is a letter or a digit in any script.
pub uninterp spec fn is_letter_or_digit(c: char) -> bool;

/// A character in lower case; it can be more than one.
pub uninterp spec fn lower_case(c: char) -> Seq<char>;

/// Whether a character is a letter or a digit: `char::is_alphanumeric`, which goes by the
/// properties that Unicode gives characters.
#[verifier::external_body]
fn letter_or_digit(c: char) -> (r: bool)
    ensures
        r == is_letter_or_digit(c),
{
    c.is_alphanumeric()
}

/// A character in lower case: `char::to_lowercase`, which goes by the mapping that Unicode
/// gives characters.
#[verifier::external_body]
fn lowered(c: char) -> (r: String)
    ensures
        r@ == lower_case(c),
{
    c.to_lowercase().collect()
}

/// What a character is to a word: whether it belongs to one, and what it is there.
#[derive(Clone, Debug, PartialEq, Eq)]
pub struct WordChar {
    pub in_word: bool,
    pub lower: String,
}

/// What a character is to a word, by its contents.
#[verifier::ext_equal]
pub struct WordCharView {
    pub in_word: bool,
    pub lower: Seq<char>,
}

impl View for WordChar {
    type V = WordCharView;

    open spec fn view(&self) -> WordCharView {
        WordCharView { in_word: self.in_word, lower: self.lower@ }
    }
}

/// The contents of a list of characters.
pub open spec fn word_chars(list: Seq<WordChar>) -> Seq<WordCharView> {
    list.map_values(|c: WordChar| c@)
}

/// What a character is to a word.
pub open spec fn word_char(c: char) -> WordCharView {
    WordCharView {
        in_word: is_letter_or_digit(c) || c == '_' || c == '-' || c == '.',
        lower: lower_case(c),
    }
}

/// What the characters of a text are to words.
pub open spec fn folded(text: Seq<char>) -> Seq<WordCharView> {
    text.map_values(|c: char| word_char(c))
}

/// Finds what the characters of a text are to words.
pub fn fold_text(text: &[char]) -> (r: Vec<WordChar>)
    ensures
        word_chars(r@) == folded(text@),
{
    let mut r: Vec<WordChar> = Vec::new();
    for i in 0..text.len()
        invariant
            r@.len() == i,
            forall|k: int| 0 <= k < i ==> (#[trigger] r@[k])@ == word_char(text@[k]),
    {
        let c = text[i];
        let in_word = letter_or_digit(c) || c == '_' || c == '-' || c == '.';
        r.push(WordChar { in_word, lower: lowered(c) });
    }
    assert(word_chars(r@) =~= folded(text@));
    r
}

/// How many bytes a word takes before it is broken off.
pub const MAXIMUM_WORD_BYTES: usize = 64;

/// The words that were found, and the one that is being read.
#[verifier::ext_equal]
pub struct Wording {
    pub words: Seq<Seq<char>>,
    pub current: Seq<char>,
}

/// The words after one more character.
pub open spec fn next_wording(state: Wording, c: WordCharView) -> Wording {
    if c.in_word {
        let current = state.current + c.lower;
        if byte_length(current) >= MAXIMUM_WORD_BYTES {
            Wording { words: state.words.push(current), current: seq![] }
        } else {
            Wording { words: state.words, current }
        }
    } else if state.current.len() > 0 {
        Wording { words: state.words.push(state.current), current: seq![] }
    } else {
        state
    }
}

/// The words of a text that goes on after some words: as soon as there are enough, they are
/// given as they came, and otherwise in order and each once.
pub open spec fn words_from(state: Wording, text: Seq<WordCharView>, maximum: nat) -> Seq<Seq<char>>
    decreases text.len(),
{
    if text.len() == 0 {
        let all = if state.current.len() > 0 && state.words.len() < maximum {
            state.words.push(state.current)
        } else {
            state.words
        };
        sorted_texts(all.to_set())
    } else {
        let next = next_wording(state, text[0]);
        if next.words.len() >= maximum {
            next.words
        } else {
            words_from(next, text.skip(1), maximum)
        }
    }
}

/// The words of a text.
pub open spec fn words_of(text: Seq<WordCharView>, maximum: nat) -> Seq<Seq<char>> {
    words_from(Wording { words: seq![], current: seq![] }, text, maximum)
}

/// Finds the words among characters.
pub fn collect_words(text: &[WordChar], maximum: usize) -> (r: Vec<String>)
    ensures
        texts(r@) == words_of(word_chars(text@), maximum as nat),
{
    let ghost all = word_chars(text@);
    let mut words: Vec<String> = Vec::new();
    let mut current = String::new();
    proof {
        assert(all.skip(0) =~= all);
        assert(texts(words@) =~= seq![]);
        assert(current@ =~= seq![]);
    }
    for i in 0..text.len()
        invariant
            all == word_chars(text@),
            words_of(all, maximum as nat) == words_from(
                Wording { words: texts(words@), current: current@ },
                all.skip(i as int),
                maximum as nat,
            ),
    {
        let ghost state = Wording { words: texts(words@), current: current@ };
        let ghost rest = all.skip(i as int);
        proof {
            assert(rest[0] == text@[i as int]@);
            assert(rest.skip(1) =~= all.skip(i + 1));
        }
        let c = &text[i];
        if c.in_word {
            current.append(c.lower.as_str());
            if bytes_in(current.as_str()) >= MAXIMUM_WORD_BYTES {
                let ghost word = current@;
                words.push(current);
                current = String::new();
                proof {
                    assert(texts(words@) =~= state.words.push(word));
                    assert(current@ =~= seq![]);
                }
            }
        } else if current.as_str().unicode_len() > 0 {
            let ghost word = current@;
            words.push(current);
            current = String::new();
            proof {
                assert(texts(words@) =~= state.words.push(word));
                assert(current@ =~= seq![]);
            }
        }
        assert(next_wording(state, rest[0]) == Wording { words: texts(words@), current: current@ });
        assert(texts(words@).len() == words@.len());
        if words.len() >= maximum {
            return words;
        }
    }
    proof {
        assert(all.skip(text@.len() as int) =~= seq![]);
        assert(texts(words@).len() == words@.len());
    }
    if current.as_str().unicode_len() > 0 && words.len() < maximum {
        let ghost before = texts(words@);
        let ghost word = current@;
        words.push(current);
        assert(texts(words@) =~= before.push(word));
    }
    in_order_once(words.as_slice())
}

/// Texts in ascending order, each once.
fn in_order_once(list: &[String]) -> (r: Vec<String>)
    ensures
        texts(r@) == sorted_texts(texts(list@).to_set()),
{
    let ghost all = texts(list@);
    let mut set = TextSet::new();
    assert(all.take(0).to_set() =~= Set::empty());
    for i in 0..list.len()
        invariant
            all == texts(list@),
            set.wf(),
            set@ == all.take(i as int).to_set(),
    {
        set.insert(list[i].clone());
        proof {
            let before = all.take(i as int);
            let after = all.take(i + 1);
            assert(after =~= before.push(all[i as int]));
            assert forall|t: Seq<char>| after.to_set().contains(t) <==> before.to_set().insert(
                all[i as int],
            ).contains(t) by {
                if before.contains(t) {
                    let k = choose|k: int| 0 <= k < before.len() && before[k] == t;
                    assert(after[k] == t);
                }
                if after.contains(t) && t != all[i as int] {
                    let k = choose|k: int| 0 <= k < after.len() && after[k] == t;
                    assert(before[k] == t);
                }
                assert(after[i as int] == all[i as int]);
            }
            assert(after.to_set() =~= before.to_set().insert(all[i as int]));
        }
    }
    assert(all.take(list@.len() as int) =~= all);
    set.to_texts()
}

/// Finds the words of a text: runs of letters, digits, `_`, `-` and `.`, in lower case.
pub fn tokenize(value: &[char], maximum: usize) -> (r: Vec<String>)
    ensures
        texts(r@) == words_of(folded(value@), maximum as nat),
{
    let characters = fold_text(value);
    collect_words(characters.as_slice(), maximum)
}

proof fn lemma_words_bounded(state: Wording, text: Seq<WordCharView>, maximum: nat)
    requires
        state.words.len() < maximum,
    ensures
        words_from(state, text, maximum).len() <= maximum,
    decreases text.len(),
{
    if text.len() == 0 {
        let all = if state.current.len() > 0 && state.words.len() < maximum {
            state.words.push(state.current)
        } else {
            state.words
        };
        all.lemma_cardinality_of_set();
        crate::order::lemma_sorted_count(all.to_set());
    } else {
        let next = next_wording(state, text[0]);
        if next.words.len() < maximum {
            lemma_words_bounded(next, text.skip(1), maximum);
        }
    }
}

/// No more words are found than were asked for.
pub proof fn law_words_are_bounded(text: Seq<WordCharView>, maximum: nat)
    requires
        maximum > 0,
    ensures
        words_of(text, maximum).len() <= maximum,
{
    lemma_words_bounded(Wording { words: seq![], current: seq![] }, text, maximum);
}

/// How many characters at the beginning of a text fit into a number of bytes.
pub open spec fn fitting(text: Seq<char>, limit: int) -> nat
    decreases text.len(),
{
    if text.len() == 0 || char_width(text[0]) > limit {
        0
    } else {
        1 + fitting(text.skip(1), limit - char_width(text[0]))
    }
}

proof fn lemma_byte_length_skip(text: Seq<char>)
    requires
        text.len() > 0,
    ensures
        byte_length(text) == char_width(text[0]) + byte_length(text.skip(1)),
    decreases text.len(),
{
    let rest = text.skip(1);
    if rest.len() == 0 {
        let nothing = Seq::<char>::empty();
        lemma_byte_length_push(nothing, text[0]);
        assert(nothing.push(text[0]) =~= text);
        assert(rest =~= nothing);
        lemma_byte_length_bound(nothing);
    } else {
        let front = text.drop_last();
        lemma_byte_length_skip(front);
        lemma_byte_length_push(front, text.last());
        lemma_byte_length_push(front.skip(1), text.last());
        assert(front.push(text.last()) =~= text);
        assert(front.skip(1).push(text.last()) =~= rest);
    }
}

/// What fits of a text takes no more bytes than there is room for, and one character more
/// would not fit.
pub proof fn law_fitting_is_the_most(text: Seq<char>, limit: int)
    requires
        limit >= 0,
    ensures
        fitting(text, limit) <= text.len(),
        byte_length(text.take(fitting(text, limit) as int)) <= limit,
        fitting(text, limit) < text.len() ==> byte_length(
            text.take(fitting(text, limit) as int + 1),
        ) > limit,
    decreases text.len(),
{
    let k = fitting(text, limit) as int;
    lemma_byte_length_bound(seq![]);
    if text.len() > 0 {
        let rest = text.skip(1);
        let width = char_width(text[0]) as int;
        if width > limit {
            assert(text.take(0) =~= seq![]);
            lemma_byte_length_skip(text.take(1));
            assert(text.take(1).skip(1) =~= seq![]);
        } else {
            law_fitting_is_the_most(rest, limit - width);
            lemma_byte_length_skip(text.take(k));
            assert(text.take(k).skip(1) =~= rest.take(k - 1));
            if k < text.len() {
                lemma_byte_length_skip(text.take(k + 1));
                assert(text.take(k + 1).skip(1) =~= rest.take(k));
            }
        }
    } else {
        assert(text.take(0) =~= seq![]);
    }
}

/// Finds how many characters fit into a number of bytes, and how many bytes they take.
pub fn floor_char_boundary(text: &[char], limit: usize) -> (r: (usize, usize))
    ensures
        r.0 == fitting(text@, limit as int),
        r.0 <= text@.len(),
        r.1 == byte_length(text@.take(r.0 as int)),
        r.1 <= limit,
{
    let mut count: usize = 0;
    let mut used: usize = 0;
    proof {
        assert(text@.skip(0) =~= text@);
        assert(text@.take(0) =~= seq![]);
        lemma_byte_length_bound(seq![]);
    }
    while count < text.len()
        invariant_except_break
            true,
        invariant
            count <= text@.len(),
            used <= limit,
            used == byte_length(text@.take(count as int)),
            fitting(text@, limit as int) == count + fitting(
                text@.skip(count as int),
                limit - used,
            ),
        ensures
            count == text@.len() || char_width(text@[count as int]) > limit - used,
        decreases text@.len() - count,
    {
        let width: usize = width_of(text[count]);
        assert(text@.skip(count as int)[0] == text@[count as int]);
        if width > limit - used {
            break;
        }
        proof {
            lemma_byte_length_push(text@.take(count as int), text@[count as int]);
            assert(text@.take(count as int).push(text@[count as int]) =~= text@.take(count + 1));
            assert(text@.skip(count as int).skip(1) =~= text@.skip(count + 1));
        }
        used += width;
        count += 1;
    }
    proof {
        if count < text@.len() {
            assert(text@.skip(count as int)[0] == text@[count as int]);
        }
    }
    (count, used)
}

/// What is searched of a named value: the value only where it is public.
pub open spec fn entry_words(name: Seq<char>, value: Seq<char>, sensitivity: ValueSensitivity) -> Seq<char> {
    if sensitivity == ValueSensitivity::Public {
        name + " "@ + value
    } else {
        name
    }
}

/// What is searched of named values.
pub open spec fn entries_words(list: Seq<FormFieldView>) -> Seq<char> {
    join(
        list.map_values(|f: FormFieldView| entry_words(f.name, f.value, f.sensitivity)),
        "\n"@,
    )
}

/// What is searched of a part of a body.
pub open spec fn part_words(part: MultipartFieldView) -> Seq<char> {
    match part.value {
        MultipartValueView::Text(value) => entry_words(part.name, value, part.sensitivity),
        MultipartValueView::File { relative_path } => part.name + " "@ + relative_path,
    }
}

/// What is searched of a body.
pub open spec fn body_words(body: BodyView) -> Seq<char> {
    match body {
        BodyView::Empty => seq![],
        BodyView::Text { text, .. } => text,
        BodyView::Json(text) => text,
        BodyView::Xml(text) => text,
        BodyView::GraphQl { query, variables_json, operation_name } => (match operation_name {
            Some(n) => n,
            None => seq![],
        }) + "\n"@ + query + "\n"@ + variables_json,
        BodyView::FormUrlEncoded(list) => entries_words(list),
        BodyView::Multipart(parts) => join(
            parts.map_values(|p: MultipartFieldView| part_words(p)),
            "\n"@,
        ),
        BodyView::BinaryFile { relative_path } => relative_path,
        BodyView::StreamFile { relative_path } => relative_path,
    }
}

/// What is searched of a request, by field.
pub open spec fn searched_fields(request: RequestView) -> Seq<(SearchField, Seq<char>)> {
    seq![
        (SearchField::Name, request.name),
        (SearchField::Method, method_text(request.method)),
        (SearchField::Url, request.url),
        (SearchField::Headers, entries_words(request.headers)),
        (SearchField::Body, body_words(request.body)),
        (SearchField::Documentation, request.documentation),
    ]
}

fn entry_text(name: &str, value: &str, sensitivity: ValueSensitivity) -> (r: String)
    ensures
        r@ == entry_words(name@, value@, sensitivity),
{
    if sensitivity == ValueSensitivity::Public {
        concat3(name, " ", value)
    } else {
        name.to_owned()
    }
}

fn form_text(list: &[FormField]) -> (r: String)
    ensures
        r@ == entries_words(form_views(list@)),
{
    let ghost all = form_views(list@);
    let mut pieces: Vec<String> = Vec::new();
    for i in 0..list.len()
        invariant
            all == form_views(list@),
            pieces@.len() == i,
            forall|k: int|
                0 <= k < i ==> (#[trigger] pieces@[k])@ == entry_words(
                    all[k].name,
                    all[k].value,
                    all[k].sensitivity,
                ),
    {
        let f = &list[i];
        assert(all[i as int] == f@);
        pieces.push(entry_text(f.name.as_str(), f.value.as_str(), f.sensitivity));
    }
    assert(texts(pieces@) =~= all.map_values(
        |f: FormFieldView| entry_words(f.name, f.value, f.sensitivity),
    ));
    join_texts(pieces.as_slice(), "\n")
}

fn headers_text(list: &[HeaderEntry]) -> (r: String)
    ensures
        r@ == entries_words(header_views(list@)),
{
    let ghost all = header_views(list@);
    let mut pieces: Vec<String> = Vec::new();
    for i in 0..list.len()
        invariant
            all == header_views(list@),
            pieces@.len() == i,
            forall|k: int|
                0 <= k < i ==> (#[trigger] pieces@[k])@ == entry_words(
                    all[k].name,
                    all[k].value,
                    all[k].sensitivity,
                ),
    {
        let h = &list[i];
        assert(all[i as int] == h@);
        pieces.push(entry_text(h.name.as_str(), h.value.as_str(), h.sensitivity));
    }
    assert(texts(pieces@) =~= all.map_values(
        |f: FormFieldView| entry_words(f.name, f.value, f.sensitivity),
    ));
    join_texts(pieces.as_slice(), "\n")
}

fn parts_text(list: &[MultipartField]) -> (r: String)
    ensures
        r@ == join(
            multipart_views(list@).map_values(|p: MultipartFieldView| part_words(p)),
            "\n"@,
        ),
{
    let ghost all = multipart_views(list@);
    let mut pieces: Vec<String> = Vec::new();
    for i in 0..list.len()
        invariant
            all == multipart_views(list@),
            pieces@.len() == i,
            forall|k: int| 0 <= k < i ==> (#[trigger] pieces@[k])@ == part_words(all[k]),
    {
        let p = &list[i];
        assert(all[i as int] == p@);
        let piece = match &p.value {
            MultipartValue::Text(value) => entry_text(
                p.name.as_str(),
                value.as_str(),
                p.sensitivity,
            ),
            MultipartValue::File { relative_path } => concat3(
                p.name.as_str(),
                " ",
                relative_path.as_str(),
            ),
        };
        pieces.push(piece);
    }
    assert(texts(pieces@) =~= all.map_values(|p: MultipartFieldView| part_words(p)));
    join_texts(pieces.as_slice(), "\n")
}

/// Finds what is searched of a body.
pub fn body_search_text(body: &RequestBody) -> (r: String)
    ensures
        r@ == body_words(body@),
{
    match body {
        RequestBody::Empty => {
            let r = String::new();
            assert(r@ =~= seq![]);
            r
        },
        RequestBody::Text { text, .. } => text.clone(),
        RequestBody::Json(text) => text.clone(),
        RequestBody::Xml(text) => text.clone(),
        RequestBody::GraphQl { query, variables_json, operation_name } => {
            let empty = String::new();
            assert(empty@ =~= seq![]);
            let name = match operation_name {
                Some(n) => n.as_str(),
                None => empty.as_str(),
            };
            concat5(name, "\n", query.as_str(), "\n", variables_json.as_str())
        },
        RequestBody::FormUrlEncoded(list) => form_text(list.as_slice()),
        RequestBody::Multipart(list) => parts_text(list.as_slice()),
        RequestBody::BinaryFile { relative_path } => relative_path.clone(),
        RequestBody::StreamFile { relative_path } => relative_path.clone(),
    }
}

/// A word of a request, and where in the request it is.
#[derive(Clone, Debug, PartialEq, Eq)]
pub struct IndexedTerm {
    pub term: String,
    pub field: SearchField,
}

impl View for IndexedTerm {
    type V = (Seq<char>, SearchField);

    open spec fn view(&self) -> (Seq<char>, SearchField) {
        (self.term@, self.field)
    }
}

/// The contents of a list of words.
pub open spec fn term_views(list: Seq<IndexedTerm>) -> Seq<(Seq<char>, SearchField)> {
    list.map_values(|t: IndexedTerm| t@)
}

/// What an index holds of a request.
#[derive(Clone, Debug, PartialEq, Eq)]
pub struct IndexedDocument {
    pub name: String,
    pub method: String,
    pub url: String,
    pub truncated: bool,
    pub terms: Vec<IndexedTerm>,
}

/// What an index holds of a request, by its contents.
#[verifier::ext_equal]
pub struct IndexedView {
    pub name: Seq<char>,
    pub method: Seq<char>,
    pub url: Seq<char>,
    pub truncated: bool,
    pub terms: Seq<(Seq<char>, SearchField)>,
}

impl View for IndexedDocument {
    type V = IndexedView;

    open spec fn view(&self) -> IndexedView {
        IndexedView {
            name: self.name@,
            method: self.method@,
            url: self.url@,
            truncated: self.truncated,
            terms: term_views(self.terms@),
        }
    }
}

/// The words that were gathered, what room there is left, and whether something was left out.
#[verifier::ext_equal]
pub struct Gathering {
    pub terms: Seq<(Seq<char>, SearchField)>,
    pub budget: nat,
    pub truncated: bool,
    pub stopped: bool,
}

/// The words of a field.
pub open spec fn in_field(words: Seq<Seq<char>>, field: SearchField) -> Seq<
    (Seq<char>, SearchField),
> {
    words.map_values(|w: Seq<char>| (w, field))
}

/// The words with those of one more field: as much of it is read as there are bytes left, and
/// as many words are taken as there is room for.
pub open spec fn gathered(state: Gathering, field: SearchField, text: Seq<char>, maximum: nat) -> Gathering {
    if state.stopped {
        state
    } else if state.budget == 0 || state.terms.len() >= maximum {
        Gathering { truncated: true, stopped: true, ..state }
    } else {
        let count = fitting(text, state.budget as int);
        let part = text.take(count as int);
        let words = words_of(folded(part), (maximum - state.terms.len()) as nat);
        let terms = state.terms + in_field(words, field);
        Gathering {
            terms,
            budget: (state.budget - byte_length(part)) as nat,
            truncated: state.truncated || count < text.len() || terms.len() >= maximum,
            stopped: false,
        }
    }
}

/// The words of some fields.
pub open spec fn gathered_all(
    fields: Seq<(SearchField, Seq<char>)>,
    budget: nat,
    maximum: nat,
) -> Gathering
    decreases fields.len(),
{
    if fields.len() == 0 {
        Gathering { terms: seq![], budget, truncated: false, stopped: false }
    } else {
        gathered(
            gathered_all(fields.drop_last(), budget, maximum),
            fields.last().0,
            fields.last().1,
            maximum,
        )
    }
}

/// What an index holds of a request.
pub open spec fn indexed(request: RequestView, bytes: nat, maximum: nat) -> IndexedView {
    let all = gathered_all(searched_fields(request), bytes, maximum);
    IndexedView {
        name: request.name,
        method: method_text(request.method),
        url: request.url,
        truncated: all.truncated,
        terms: all.terms,
    }
}

/// Finds what an index holds of a request: the words of its parts. Values that are not public
/// are left out, and so is all that proves who sends it.
pub fn build_indexed_document(request: &HttpRequest, policy: &SearchIndexPolicy) -> (r:
    IndexedDocument)
    ensures
        r@ == indexed(
            request@,
            policy.maximum_document_bytes as nat,
            policy.maximum_terms_per_document as nat,
        ),
{
    let maximum: usize = policy.maximum_terms_per_document;
    let ghost fields = searched_fields(request@);
    let mut values: Vec<(SearchField, String)> = Vec::new();
    values.push((SearchField::Name, request.name.clone()));
    values.push((SearchField::Method, request.method.as_str().to_owned()));
    values.push((SearchField::Url, request.url.clone()));
    values.push((SearchField::Headers, headers_text(request.headers.as_slice())));
    values.push((SearchField::Body, body_search_text(&request.body)));
    values.push((SearchField::Documentation, request.documentation.clone()));
    let mut terms: Vec<IndexedTerm> = Vec::new();
    let mut budget: usize = policy.maximum_document_bytes;
    let mut truncated = false;
    let mut stopped = false;
    proof {
        assert(term_views(terms@) =~= seq![]);
        assert(fields.take(0) =~= seq![]);
        assert forall|k: int| 0 <= k < 6 implies fields[k] == (
            (#[trigger] values@[k]).0,
            values@[k].1@,
        ) by {}
    }
    for i in 0..values.len()
        invariant
            values@.len() == 6,
            fields.len() == 6,
            maximum == policy.maximum_terms_per_document,
            forall|k: int| 0 <= k < 6 ==> fields[k] == ((#[trigger] values@[k]).0, values@[k].1@),
            gathered_all(
                fields.take(i as int),
                policy.maximum_document_bytes as nat,
                maximum as nat,
            ) == (Gathering { terms: term_views(terms@), budget: budget as nat, truncated, stopped }),
    {
        let ghost state = Gathering {
            terms: term_views(terms@),
            budget: budget as nat,
            truncated,
            stopped,
        };
        proof {
            assert(fields.take(i + 1).drop_last() =~= fields.take(i as int));
            assert(fields.take(i + 1).last() == fields[i as int]);
            assert(fields[i as int] == (values@[i as int].0, values@[i as int].1@));
            assert(state.terms.len() == terms@.len());
        }
        if !stopped {
            if budget == 0 || terms.len() >= maximum {
                truncated = true;
                stopped = true;
            } else {
                let (field, value) = &values[i];
                let chars = chars_of(value.as_str());
                let (count, used) = floor_char_boundary(chars.as_slice(), budget);
                let part = slice_subrange(chars.as_slice(), 0, count);
                proof {
                    assert(part@ =~= value@.take(count as int));
                }
                if count < chars.len() {
                    truncated = true;
                }
                budget = budget - used;
                let words = tokenize(part, maximum - terms.len());
                let ghost before = term_views(terms@);
                let ghost list = texts(words@);
                assert(before + in_field(list.take(0), *field) =~= before);
                for k in 0..words.len()
                    invariant
                        list == texts(words@),
                        term_views(terms@) == before + in_field(list.take(k as int), *field),
                {
                    let ghost now = term_views(terms@);
                    let entry = IndexedTerm { term: words[k].clone(), field: *field };
                    terms.push(entry);
                    proof {
                        assert(list[k as int] == words@[k as int]@);
                        assert(term_views(terms@) =~= now.push((list[k as int], *field)));
                        assert(in_field(list.take(k + 1), *field) =~= in_field(
                            list.take(k as int),
                            *field,
                        ).push((list[k as int], *field)));
                    }
                }
                proof {
                    assert(list.take(words@.len() as int) =~= list);
                    assert(term_views(terms@).len() == terms@.len());
                }
                if terms.len() >= maximum {
                    truncated = true;
                }
            }
        }
        assert(gathered(state, fields[i as int].0, fields[i as int].1, maximum as nat)
            =~= Gathering { terms: term_views(terms@), budget: budget as nat, truncated, stopped });
    }
    assert(fields.take(6) =~= fields);
    IndexedDocument {
        name: request.name.clone(),
        method: request.method.as_str().to_owned(),
        url: request.url.clone(),
        truncated,
        terms,
    }
}

/// An index never holds more words of a request than it may.
pub proof fn law_index_is_bounded(
    fields: Seq<(SearchField, Seq<char>)>,
    budget: nat,
    maximum: nat,
)
    ensures
        gathered_all(fields, budget, maximum).terms.len() <= maximum,
    decreases fields.len(),
{
    if fields.len() > 0 {
        law_index_is_bounded(fields.drop_last(), budget, maximum);
        let state = gathered_all(fields.drop_last(), budget, maximum);
        if !state.stopped && state.budget > 0 && state.terms.len() < maximum {
            let text = fields.last().1;
            let part = text.take(fitting(text, state.budget as int) as int);
            law_words_are_bounded(folded(part), (maximum - state.terms.len()) as nat);
        }
    }
}

/// The value of a header that is not public does not reach an index: two requests that differ
/// in nothing else are held alike.
pub proof fn law_hidden_headers_are_not_indexed(
    request: RequestView,
    i: int,
    value: Seq<char>,
    bytes: nat,
    maximum: nat,
)
    requires
        0 <= i < request.headers.len(),
        request.headers[i].sensitivity != ValueSensitivity::Public,
    ensures
        indexed(
            RequestView {
                headers: request.headers.update(
                    i,
                    FormFieldView { value, ..request.headers[i] },
                ),
                ..request
            },
            bytes,
            maximum,
        ) == indexed(request, bytes, maximum),
{
    let other = RequestView {
        headers: request.headers.update(i, FormFieldView { value, ..request.headers[i] }),
        ..request
    };
    let shown = |f: FormFieldView| entry_words(f.name, f.value, f.sensitivity);
    assert(other.headers.map_values(shown) =~= request.headers.map_values(shown));
    assert(searched_fields(other) =~= searched_fields(request));
}

/// What proves who sends a request does not reach an index.
pub proof fn law_authentication_is_not_indexed(
    request: RequestView,
    authentication: crate::domain::AuthenticationView,
    bytes: nat,
    maximum: nat,
)
    ensures
        indexed(RequestView { authentication, ..request }, bytes, maximum) == indexed(
            request,
            bytes,
            maximum,
        ),
{
    assert(searched_fields(RequestView { authentication, ..request }) =~= searched_fields(request));
}

} // verus!
