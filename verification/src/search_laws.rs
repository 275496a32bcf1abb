//! What an index of requests promises to hold.
use crate::domain::{
    method_text, BodyView, FormFieldView, MultipartFieldView, MultipartValueView, RequestView,
};
use crate::lines::join;
use crate::number::byte_length;
use crate::order::{lemma_sorted_texts, sorted_texts};
use crate::search_text::{
    folded, gathered, gathered_all, in_field, indexed, is_letter_or_digit, lower_case,
    next_wording, searched_fields, word_char, words_from, words_of, SearchField, WordCharView,
    Wording, MAXIMUM_WORD_BYTES,
};
use vstd::prelude::*;

verus! {

/// Whether a character can stand in a word.
pub open spec fn stands_in_words(c: char) -> bool {
    is_letter_or_digit(c) || c == '_' || c == '-' || c == '.'
}

/// A text in lower case.
pub open spec fn in_lower_case(text: Seq<char>) -> Seq<char>
    decreases text.len(),
{
    if text.len() == 0 {
        seq![]
    } else {
        in_lower_case(text.drop_last()) + lower_case(text.last())
    }
}

/// Whether all characters from one position to another can stand in a word.
pub open spec fn run_at(text: Seq<char>, i: int, j: int) -> bool {
    &&& 0 <= i <= j <= text.len()
    &&& forall|k: int| i <= k < j ==> stands_in_words(#[trigger] text[k])
}

/// Whether a word stands between two positions, and goes on neither before nor after them.
pub open spec fn word_at(text: Seq<char>, i: int, j: int) -> bool {
    &&& i < j
    &&& run_at(text, i, j)
    &&& i > 0 ==> !stands_in_words(text[i - 1])
    &&& j < text.len() ==> !stands_in_words(text[j])
}

/// Whether a word stands in a text; words are taken in lower case.
pub open spec fn is_word(text: Seq<char>, word: Seq<char>) -> bool {
    word.len() > 0 && exists|i: int, j: int| #[trigger]
        word_at(text, i, j) && word == in_lower_case(text.subrange(i, j))
}

/// Whether no word of a text is so long that it is broken off.
pub open spec fn words_are_short(text: Seq<char>) -> bool {
    forall|i: int, j: int| #[trigger]
        run_at(text, i, j) ==> byte_length(in_lower_case(text.subrange(i, j))) < MAXIMUM_WORD_BYTES
}

/// The words once so many characters were read.
spec fn wording_at(text: Seq<char>, n: nat) -> Wording
    decreases n,
{
    if n == 0 {
        Wording { words: seq![], current: seq![] }
    } else {
        next_wording(wording_at(text, (n - 1) as nat), word_char(text[n - 1]))
    }
}

/// Whether a word that stands in a text has ended before a position.
spec fn ended_word(text: Seq<char>, n: int, word: Seq<char>) -> bool {
    word.len() > 0 && exists|i: int, j: int| #[trigger]
        word_at(text, i, j) && j < n && word == in_lower_case(text.subrange(i, j))
}

/// Whether the words that were read are those that ended, and what is being read began at a
/// position.
spec fn read_so_far(text: Seq<char>, n: int, start: int) -> bool {
    let state = wording_at(text, n as nat);
    &&& 0 <= start <= n <= text.len()
    &&& run_at(text, start, n)
    &&& start > 0 ==> !stands_in_words(text[start - 1])
    &&& state.current == in_lower_case(text.subrange(start, n))
    &&& forall|w: Seq<char>| #[trigger] state.words.contains(w) <==> ended_word(text, n, w)
}

proof fn lemma_pushed(list: Seq<Seq<char>>, word: Seq<char>, w: Seq<char>)
    ensures
        list.push(word).contains(w) <==> (list.contains(w) || w == word),
{
    let more = list.push(word);
    if list.contains(w) {
        let i = choose|i: int| 0 <= i < list.len() && list[i] == w;
        assert(more[i] == w);
    }
    if w == word {
        assert(more[list.len() as int] == w);
    }
    if more.contains(w) {
        let i = choose|i: int| 0 <= i < more.len() && more[i] == w;
        if i < list.len() {
            assert(list[i] == w);
        }
    }
}

proof fn lemma_read(text: Seq<char>, n: nat) -> (start: int)
    requires
        n <= text.len(),
        words_are_short(text),
    ensures
        read_so_far(text, n as int, start),
    decreases n,
{
    let state = wording_at(text, n);
    if n == 0 {
        assert(text.subrange(0, 0) =~= seq![]);
        assert(in_lower_case(text.subrange(0, 0)) =~= seq![]);
        assert forall|w: Seq<char>| #[trigger] state.words.contains(w) <==> ended_word(
            text,
            0,
            w,
        ) by {}
        0
    } else {
        let m = (n - 1) as nat;
        let s = lemma_read(text, m);
        let before = wording_at(text, m);
        let c = text[m as int];
        if stands_in_words(c) {
            assert(run_at(text, s, n as int));
            let run = text.subrange(s, n as int);
            assert(run.drop_last() =~= text.subrange(s, m as int));
            assert(run.last() == c);
            assert(before.current + lower_case(c) == in_lower_case(run));
            assert(state == (Wording { words: before.words, current: in_lower_case(run) }));
            assert forall|w: Seq<char>| #[trigger] state.words.contains(w) <==> ended_word(
                text,
                n as int,
                w,
            ) by {
                assert(before.words.contains(w) <==> ended_word(text, m as int, w));
                if ended_word(text, n as int, w) {
                    let (i, j) = choose|i: int, j: int| #[trigger]
                        word_at(text, i, j) && j < n && w == in_lower_case(text.subrange(i, j));
                    assert(j != m);
                    assert(ended_word(text, m as int, w));
                }
                if ended_word(text, m as int, w) {
                    let (i, j) = choose|i: int, j: int| #[trigger]
                        word_at(text, i, j) && j < m && w == in_lower_case(text.subrange(i, j));
                    assert(j < n);
                }
            }
            s
        } else {
            assert(text.subrange(n as int, n as int) =~= seq![]);
            assert(run_at(text, n as int, n as int));
            let word = before.current;
            assert(state.current =~= seq![]);
            assert(in_lower_case(text.subrange(n as int, n as int)) =~= seq![]);
            assert forall|w: Seq<char>| #[trigger] state.words.contains(w) <==> ended_word(
                text,
                n as int,
                w,
            ) by {
                assert(before.words.contains(w) <==> ended_word(text, m as int, w));
                lemma_pushed(before.words, word, w);
                if ended_word(text, n as int, w) {
                    let (i, j) = choose|i: int, j: int| #[trigger]
                        word_at(text, i, j) && j < n && w == in_lower_case(text.subrange(i, j));
                    if j < m {
                        assert(ended_word(text, m as int, w));
                    } else {
                        assert(j == m);
                        assert(i == s) by {
                            if i < s {
                                assert(stands_in_words(text[s - 1]));
                            }
                            if s < i {
                                assert(stands_in_words(text[i - 1]));
                            }
                        }
                        assert(w == word);
                    }
                }
                if ended_word(text, m as int, w) {
                    let (i, j) = choose|i: int, j: int| #[trigger]
                        word_at(text, i, j) && j < m && w == in_lower_case(text.subrange(i, j));
                    assert(j < n);
                }
                if word.len() > 0 && w == word {
                    assert(s < m) by {
                        if s == m {
                            assert(text.subrange(s, m as int) =~= seq![]);
                        }
                    }
                    assert(word_at(text, s, m as int));
                }
            }
            n as int
        }
    }
}

proof fn lemma_words_go_on(text: Seq<char>, n: nat, maximum: nat)
    requires
        n <= text.len(),
        wording_at(text, n).words.len() < maximum,
        words_from(wording_at(text, n), folded(text).skip(n as int), maximum).len() < maximum,
    ensures
        ({
            let last = wording_at(text, text.len());
            let all = if last.current.len() > 0 {
                last.words.push(last.current)
            } else {
                last.words
            };
            words_from(wording_at(text, n), folded(text).skip(n as int), maximum) == sorted_texts(
                all.to_set(),
            )
        }),
    decreases text.len() - n,
{
    let rest = folded(text).skip(n as int);
    if n < text.len() {
        assert(rest[0] == word_char(text[n as int]));
        assert(rest.skip(1) =~= folded(text).skip((n + 1) as int));
        lemma_words_go_on(text, n + 1, maximum);
    }
}

/// The words of a text that are fewer than there is room for are the words that stand in it.
pub proof fn lemma_words_of(text: Seq<char>, maximum: nat, word: Seq<char>)
    requires
        words_are_short(text),
        words_of(folded(text), maximum).len() < maximum,
    ensures
        words_of(folded(text), maximum).contains(word) <==> is_word(text, word),
{
    let s = lemma_read(text, text.len());
    let last = wording_at(text, text.len());
    assert(folded(text).skip(0) =~= folded(text));
    lemma_words_go_on(text, 0, maximum);
    let all = if last.current.len() > 0 {
        last.words.push(last.current)
    } else {
        last.words
    };
    vstd::seq_lib::seq_to_set_is_finite(all);
    lemma_sorted_texts(all.to_set());
    assert(words_of(folded(text), maximum).contains(word) <==> all.contains(word)) by {
        assert(all.to_set().contains(word) <==> all.contains(word));
    }
    lemma_pushed(last.words, last.current, word);
    let n = text.len() as int;
    assert(last.words.contains(word) <==> ended_word(text, n, word));
    if is_word(text, word) {
        let (i, j) = choose|i: int, j: int| #[trigger]
            word_at(text, i, j) && word == in_lower_case(text.subrange(i, j));
        if j < n {
            assert(ended_word(text, n, word));
        } else {
            assert(i == s) by {
                if i < s {
                    assert(stands_in_words(text[s - 1]));
                }
                if s < i {
                    assert(stands_in_words(text[i - 1]));
                }
            }
        }
    }
    if ended_word(text, n, word) {
        let (i, j) = choose|i: int, j: int| #[trigger]
            word_at(text, i, j) && j < n && word == in_lower_case(text.subrange(i, j));
        assert(word_at(text, i, j));
    }
    if last.current.len() > 0 && word == last.current {
        assert(s < n) by {
            if s == n {
                assert(text.subrange(s, n) =~= seq![]);
            }
        }
        assert(word_at(text, s, n));
    }
}

/// Whether a word stands in one of some fields.
spec fn stands_in(
    fields: Seq<(SearchField, Seq<char>)>,
    word: Seq<char>,
    field: SearchField,
) -> bool {
    exists|k: int| 0 <= k < fields.len() && (#[trigger] fields[k]).0 == field && is_word(
        fields[k].1,
        word,
    )
}

proof fn lemma_gathered_words(
    fields: Seq<(SearchField, Seq<char>)>,
    budget: nat,
    maximum: nat,
    word: Seq<char>,
    field: SearchField,
)
    requires
        !gathered_all(fields, budget, maximum).truncated,
        forall|k: int| 0 <= k < fields.len() ==> words_are_short((#[trigger] fields[k]).1),
    ensures
        !gathered_all(fields, budget, maximum).stopped,
        gathered_all(fields, budget, maximum).terms.contains((word, field)) <==> stands_in(
            fields,
            word,
            field,
        ),
    decreases fields.len(),
{
    if fields.len() > 0 {
        let front = fields.drop_last();
        let before = gathered_all(front, budget, maximum);
        let after = gathered_all(fields, budget, maximum);
        let (last, text) = fields.last();
        assert forall|k: int| 0 <= k < front.len() implies words_are_short(
            (#[trigger] front[k]).1,
        ) by {
            assert(front[k] == fields[k]);
        }
        assert(words_are_short(fields[fields.len() - 1].1));
        assert(after == gathered(before, last, text, maximum));
        assert(!before.truncated);
        lemma_gathered_words(front, budget, maximum, word, field);
        let count = crate::search_text::fitting(text, before.budget as int);
        crate::search_text::law_fitting_is_the_most(text, before.budget as int);
        assert(text.take(count as int) =~= text);
        let room = (maximum - before.terms.len()) as nat;
        let words = words_of(folded(text), room);
        let more = in_field(words, last);
        assert(after.terms == before.terms + more);
        lemma_words_of(text, room, word);
        let t = (word, field);
        if before.terms.contains(t) {
            let i = choose|i: int| 0 <= i < before.terms.len() && before.terms[i] == t;
            assert(after.terms[i] == t);
        }
        if last == field && words.contains(word) {
            let i = choose|i: int| 0 <= i < words.len() && words[i] == word;
            assert(more[i] == t);
            assert(after.terms[before.terms.len() + i] == t);
        }
        if after.terms.contains(t) {
            let i = choose|i: int| 0 <= i < after.terms.len() && after.terms[i] == t;
            if i < before.terms.len() {
                assert(before.terms[i] == t);
            } else {
                assert(more[i - before.terms.len()] == t);
                assert(words[i - before.terms.len()] == word);
                assert(words.contains(word));
            }
        }
        if stands_in(fields, word, field) {
            let k = choose|k: int|
                0 <= k < fields.len() && (#[trigger] fields[k]).0 == field && is_word(
                    fields[k].1,
                    word,
                );
            if k < front.len() {
                assert(front[k] == fields[k]);
                assert(stands_in(front, word, field));
            }
        }
        if stands_in(front, word, field) {
            let k = choose|k: int|
                0 <= k < front.len() && (#[trigger] front[k]).0 == field && is_word(
                    front[k].1,
                    word,
                );
            assert(fields[k] == front[k]);
        }
        if last == field && is_word(text, word) {
            assert(fields[fields.len() - 1].0 == field);
        }
    }
}

/// Whether texts are what is searched of named values: the name of each, and its value too
/// where it is public.
pub open spec fn lines_of_entries(lines: Seq<Seq<char>>, list: Seq<FormFieldView>) -> bool {
    &&& lines.len() == list.len()
    &&& forall|i: int|
        0 <= i < list.len() ==> #[trigger] lines[i] == (if list[i].sensitivity is Public {
            list[i].name + " "@ + list[i].value
        } else {
            list[i].name
        })
}

/// Whether texts are what is searched of the parts of a body: the name of each, the place of a
/// file, and a text where it is public.
pub open spec fn lines_of_parts(lines: Seq<Seq<char>>, list: Seq<MultipartFieldView>) -> bool {
    &&& lines.len() == list.len()
    &&& forall|i: int|
        0 <= i < list.len() ==> #[trigger] lines[i] == (match list[i].value {
            MultipartValueView::File { relative_path } => list[i].name + " "@ + relative_path,
            MultipartValueView::Text(text) => if list[i].sensitivity is Public {
                list[i].name + " "@ + text
            } else {
                list[i].name
            },
        })
}

/// Whether a text is what is searched of a body.
pub open spec fn text_of_body(text: Seq<char>, lines: Seq<Seq<char>>, body: BodyView) -> bool {
    match body {
        BodyView::Empty => text.len() == 0,
        BodyView::Text { text: t, .. } => text == t,
        BodyView::Json(t) => text == t,
        BodyView::Xml(t) => text == t,
        BodyView::GraphQl { query, variables_json, operation_name: Some(name) } => text == name
            + "\n"@ + query + "\n"@ + variables_json,
        BodyView::GraphQl { query, variables_json, operation_name: None } => text == "\n"@ + query
            + "\n"@ + variables_json,
        BodyView::FormUrlEncoded(list) => lines_of_entries(lines, list) && text == join(
            lines,
            "\n"@,
        ),
        BodyView::Multipart(list) => lines_of_parts(lines, list) && text == join(lines, "\n"@),
        BodyView::BinaryFile { relative_path } => text == relative_path,
        BodyView::StreamFile { relative_path } => text == relative_path,
    }
}

/// What is searched of the headers and of the body.
proof fn lemma_searched(
    request: RequestView,
    headers: Seq<Seq<char>>,
    body: Seq<char>,
    lines: Seq<Seq<char>>,
)
    requires
        lines_of_entries(headers, request.headers),
        text_of_body(body, lines, request.body),
    ensures
        crate::search_text::entries_words(request.headers) == join(headers, "\n"@),
        crate::search_text::body_words(request.body) == body,
{
    let shown = |f: FormFieldView| crate::search_text::entry_words(f.name, f.value, f.sensitivity);
    assert(request.headers.map_values(shown) =~= headers);
    match request.body {
        BodyView::Empty => {
            assert(body =~= seq![]);
        },
        BodyView::GraphQl { query, variables_json, operation_name: None } => {
            assert(crate::search_text::body_words(request.body) =~= body);
        },
        BodyView::FormUrlEncoded(list) => {
            assert(list.map_values(shown) =~= lines);
        },
        BodyView::Multipart(list) => {
            assert(list.map_values(|p: MultipartFieldView| crate::search_text::part_words(p))
                =~= lines);
        },
        _ => {},
    }
    assert(crate::search_text::body_words(request.body) == body);
}

/// Where nothing is left out, an index holds under each field of a request exactly the words
/// that stand in that part of the request: the name, the method, the url, the headers, the body
/// and the documentation. It shows the request under its own name, method and url.
pub proof fn law_every_field_is_found_by_its_words(
    request: RequestView,
    bytes: nat,
    maximum: nat,
    headers: Seq<Seq<char>>,
    body: Seq<char>,
    lines: Seq<Seq<char>>,
    word: Seq<char>,
)
    requires
        lines_of_entries(headers, request.headers),
        text_of_body(body, lines, request.body),
        words_are_short(request.name),
        words_are_short(method_text(request.method)),
        words_are_short(request.url),
        words_are_short(join(headers, "\n"@)),
        words_are_short(body),
        words_are_short(request.documentation),
    ensures
        ({
            let held = indexed(request, bytes, maximum);
            &&& held.name == request.name
            &&& held.method == method_text(request.method)
            &&& held.url == request.url
            &&& !held.truncated ==> {
                &&& held.terms.contains((word, SearchField::Name)) <==> is_word(request.name, word)
                &&& held.terms.contains((word, SearchField::Method)) <==> is_word(
                    method_text(request.method),
                    word,
                )
                &&& held.terms.contains((word, SearchField::Url)) <==> is_word(request.url, word)
                &&& held.terms.contains((word, SearchField::Headers)) <==> is_word(
                    join(headers, "\n"@),
                    word,
                )
                &&& held.terms.contains((word, SearchField::Body)) <==> is_word(body, word)
                &&& held.terms.contains((word, SearchField::Documentation)) <==> is_word(
                    request.documentation,
                    word,
                )
            }
        }),
{
    let fields = searched_fields(request);
    let held = indexed(request, bytes, maximum);
    lemma_searched(request, headers, body, lines);
    if !held.truncated {
        assert forall|k: int| 0 <= k < fields.len() implies words_are_short(
            (#[trigger] fields[k]).1,
        ) by {}
        assert forall|f: SearchField|
            held.terms.contains((word, f)) <==> #[trigger] stands_in(fields, word, f) by {
            lemma_gathered_words(fields, bytes, maximum, word, f);
        }
        assert(fields[0].0 == SearchField::Name && fields[1].0 == SearchField::Method);
        assert(fields[2].0 == SearchField::Url && fields[3].0 == SearchField::Headers);
        assert(fields[4].0 == SearchField::Body && fields[5].0 == SearchField::Documentation);
        assert(stands_in(fields, word, SearchField::Name) <==> is_word(request.name, word));
        assert(stands_in(fields, word, SearchField::Method) <==> is_word(
            method_text(request.method),
            word,
        ));
        assert(stands_in(fields, word, SearchField::Url) <==> is_word(request.url, word));
        assert(stands_in(fields, word, SearchField::Headers) <==> is_word(
            join(headers, "\n"@),
            word,
        ));
        assert(stands_in(fields, word, SearchField::Body) <==> is_word(body, word));
        assert(stands_in(fields, word, SearchField::Documentation) <==> is_word(
            request.documentation,
            word,
        ));
    }
}

/// The bytes that some fields take.
pub open spec fn bytes_of_fields(fields: Seq<(SearchField, Seq<char>)>) -> nat
    decreases fields.len(),
{
    if fields.len() == 0 {
        0
    } else {
        bytes_of_fields(fields.drop_last()) + byte_length(fields.last().1)
    }
}

proof fn lemma_few_words(state: Wording, text: Seq<WordCharView>, maximum: nat)
    ensures
        words_from(state, text, maximum).len() <= state.words.len() + (if state.current.len() > 0 {
            1nat
        } else {
            0nat
        }) + text.len(),
    decreases text.len(),
{
    if text.len() == 0 {
        let all = if state.current.len() > 0 && state.words.len() < maximum {
            state.words.push(state.current)
        } else {
            state.words
        };
        all.lemma_cardinality_of_set();
        crate::order::lemma_sorted_count(all.to_set());
    } else {
        let next = next_wording(state, text[0]);
        if next.words.len() < maximum {
            lemma_few_words(next, text.skip(1), maximum);
        }
    }
}

proof fn lemma_all_fits(text: Seq<char>, limit: int)
    requires
        byte_length(text) <= limit,
    ensures
        crate::search_text::fitting(text, limit) == text.len(),
{
    crate::search_text::law_fitting_is_the_most(text, limit);
    let k = crate::search_text::fitting(text, limit) as int;
    if k < text.len() {
        let front = text.take(k + 1);
        lemma_front_is_shorter(text, k + 1);
    }
}

proof fn lemma_front_is_shorter(text: Seq<char>, k: int)
    requires
        0 <= k <= text.len(),
    ensures
        byte_length(text.take(k)) <= byte_length(text),
    decreases text.len(),
{
    if k < text.len() {
        let front = text.drop_last();
        lemma_front_is_shorter(front, k);
        assert(front.take(k) =~= text.take(k));
        crate::number::lemma_byte_length_push(front, text.last());
        assert(front.push(text.last()) =~= text);
    } else {
        assert(text.take(k) =~= text);
    }
}

proof fn lemma_nothing_left_out(
    fields: Seq<(SearchField, Seq<char>)>,
    budget: nat,
    maximum: nat,
)
    requires
        bytes_of_fields(fields) < budget,
        bytes_of_fields(fields) < maximum,
    ensures
        ({
            let all = gathered_all(fields, budget, maximum);
            &&& !all.truncated
            &&& !all.stopped
            &&& all.budget == budget - bytes_of_fields(fields)
            &&& all.terms.len() <= bytes_of_fields(fields)
        }),
    decreases fields.len(),
{
    if fields.len() > 0 {
        let front = fields.drop_last();
        lemma_nothing_left_out(front, budget, maximum);
        let before = gathered_all(front, budget, maximum);
        let (field, text) = fields.last();
        lemma_all_fits(text, before.budget as int);
        assert(text.take(text.len() as int) =~= text);
        let room = (maximum - before.terms.len()) as nat;
        lemma_few_words(Wording { words: seq![], current: seq![] }, folded(text), room);
        crate::number::lemma_byte_length_bound(text);
    }
}

/// Nothing is left out of an index where there is room for more bytes, and for more words, than
/// what is searched of the request takes.
pub proof fn law_nothing_is_left_out_where_there_is_room(
    request: RequestView,
    bytes: nat,
    maximum: nat,
    headers: Seq<Seq<char>>,
    body: Seq<char>,
    lines: Seq<Seq<char>>,
)
    requires
        lines_of_entries(headers, request.headers),
        text_of_body(body, lines, request.body),
        byte_length(request.name) + byte_length(method_text(request.method)) + byte_length(
            request.url,
        ) + byte_length(join(headers, "\n"@)) + byte_length(body) + byte_length(
            request.documentation,
        ) < bytes,
        bytes <= maximum,
    ensures
        !indexed(request, bytes, maximum).truncated,
{
    let fields = searched_fields(request);
    lemma_searched(request, headers, body, lines);
    reveal_with_fuel(bytes_of_fields, 7);
    assert(bytes_of_fields(fields) == byte_length(request.name) + byte_length(
        method_text(request.method),
    ) + byte_length(request.url) + byte_length(join(headers, "\n"@)) + byte_length(body)
        + byte_length(request.documentation));
    lemma_nothing_left_out(fields, bytes, maximum);
}

} // verus!
