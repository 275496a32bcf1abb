//! What putting the values of variables into a request promises, field by field.
use crate::domain::{
    AuthenticationView, BodyView, FormFieldView, MultipartFieldView, MultipartValueView,
    RequestView, ValueSensitivity,
};
use crate::number::decimal;
use crate::resolved_request::{
    authentication_value, body_value, entry_label, entry_value, entry_values, field_value,
    head_value, law_sensitive_values_are_listed_in_order, multipart_text, no_progress,
    optional_value, part_value, part_values, request_value, resolved_request, secrecy,
    step_sensitivity, templates_resolved, two_values, used_sensitivity, FieldTraceView, Progress,
    RequestSurroundings, ResolvedRequestView, Stopped,
};
use crate::resolver::{
    begins, lemma_begins, resolved_template, ResolvedView, Surroundings, TraceStep, TraceView,
    VariableErrorView,
};
use vstd::prelude::*;

verus! {

/// What a text stands for under the answers that were given when it was its turn.
pub open spec fn text_at(w: RequestSurroundings, turn: int, text: Seq<char>) -> Result<
    ResolvedView,
    VariableErrorView,
> {
    resolved_template(
        Surroundings { context: w.context, options: w.options, answers: w.runs[turn] },
        text,
    )
}

/// Whether a text of a request was resolved to what it stands for: it had its turn among the
/// texts, what it made use of is noted under the name of the field, and its values that are not
/// public are listed.
pub open spec fn resolved_as(
    w: RequestSurroundings,
    turns: Seq<Seq<char>>,
    r: ResolvedRequestView,
    field: Seq<char>,
    text: Seq<char>,
    found: ResolvedView,
) -> bool {
    &&& exists|k: int|
        0 <= k < turns.len() && turns[k] == text && #[trigger] text_at(w, k, text) == Ok::<
            ResolvedView,
            VariableErrorView,
        >(found)
    &&& forall|s: Seq<char>| #[trigger]
        found.sensitive_values.contains(s) ==> r.sensitive_values.contains(s)
    &&& found.traces.len() > 0 ==> r.field_traces.contains(
        FieldTraceView { field, traces: found.traces },
    )
}

/// Whether a text of a resolved request is what the text of the request stands for.
pub open spec fn filled_in(
    w: RequestSurroundings,
    turns: Seq<Seq<char>>,
    r: ResolvedRequestView,
    field: Seq<char>,
    before: Seq<char>,
    after: Seq<char>,
) -> bool {
    exists|found: ResolvedView| #[trigger]
        resolved_as(w, turns, r, field, before, found) && after == found.value
}

/// The same of a text that may be missing.
pub open spec fn optional_filled_in(
    w: RequestSurroundings,
    turns: Seq<Seq<char>>,
    r: ResolvedRequestView,
    field: Seq<char>,
    before: Option<Seq<char>>,
    after: Option<Seq<char>>,
) -> bool {
    match (before, after) {
        (None, None) => true,
        (Some(a), Some(b)) => filled_in(w, turns, r, field, a, b),
        _ => false,
    }
}

/// Whether a variable of some secrecy was made use of.
pub open spec fn made_use_of(traces: Seq<TraceView>, s: ValueSensitivity) -> bool {
    exists|i: int, j: int|
        0 <= i < traces.len() && 0 <= j < traces[i].steps.len() && (#[trigger] traces[i].steps[j]).selected
            && traces[i].steps[j].sensitivity == Some(s)
}

/// Whether something is as secret as it was and as all that was made use of, and not more.
pub open spec fn as_secret_as(
    before: ValueSensitivity,
    traces: Seq<TraceView>,
    after: ValueSensitivity,
) -> bool {
    &&& secrecy(before) <= secrecy(after)
    &&& forall|s: ValueSensitivity| #[trigger]
        made_use_of(traces, s) ==> secrecy(s) <= secrecy(after)
    &&& after == before || made_use_of(traces, after)
}

/// Whether a named value of a resolved request is what that of the request stands for.
pub open spec fn entry_filled_in(
    w: RequestSurroundings,
    turns: Seq<Seq<char>>,
    r: ResolvedRequestView,
    label: Seq<char>,
    before: FormFieldView,
    after: FormFieldView,
) -> bool {
    exists|name: ResolvedView, value: ResolvedView|
        {
            &&& #[trigger] resolved_as(w, turns, r, label + ".name"@, before.name, name)
            &&& #[trigger] resolved_as(w, turns, r, label + ".value"@, before.value, value)
            &&& after.name == name.value
            &&& after.value == value.value
            &&& after.enabled == before.enabled
            &&& as_secret_as(before.sensitivity, name.traces + value.traces, after.sensitivity)
        }
}

/// Whether the named values of a resolved request are what those of the request stand for.
pub open spec fn entries_filled_in(
    w: RequestSurroundings,
    turns: Seq<Seq<char>>,
    r: ResolvedRequestView,
    prefix: Seq<char>,
    before: Seq<FormFieldView>,
    after: Seq<FormFieldView>,
) -> bool {
    &&& after.len() == before.len()
    &&& forall|i: int|
        0 <= i < before.len() ==> entry_filled_in(
            w,
            turns,
            r,
            prefix + "["@ + decimal(i as nat) + "]"@,
            before[i],
            #[trigger] after[i],
        )
}

/// Whether a field of the multipart body of a resolved request is what that of the request
/// stands for. The name of the field is looked at, but stays as it is.
pub open spec fn part_filled_in(
    w: RequestSurroundings,
    turns: Seq<Seq<char>>,
    r: ResolvedRequestView,
    label: Seq<char>,
    before: MultipartFieldView,
    after: MultipartFieldView,
) -> bool {
    exists|name: ResolvedView, value: ResolvedView|
        {
            &&& #[trigger] resolved_as(w, turns, r, label + ".name"@, before.name, name)
            &&& match (before.value, after.value) {
                (MultipartValueView::Text(a), MultipartValueView::Text(b)) => resolved_as(
                    w,
                    turns,
                    r,
                    label + ".text"@,
                    a,
                    value,
                ) && b == value.value,
                (
                    MultipartValueView::File { relative_path: a },
                    MultipartValueView::File { relative_path: b },
                ) => resolved_as(w, turns, r, label + ".file"@, a, value) && b == value.value,
                _ => false,
            }
            &&& after.name == before.name
            &&& after.enabled == before.enabled
            &&& optional_filled_in(
                w,
                turns,
                r,
                label + ".content_type"@,
                before.content_type,
                after.content_type,
            )
            &&& #[trigger] as_secret_as(
                before.sensitivity,
                name.traces + value.traces,
                after.sensitivity,
            )
        }
}

/// Whether the fields of the multipart body of a resolved request are what those of the
/// request stand for.
pub open spec fn parts_filled_in(
    w: RequestSurroundings,
    turns: Seq<Seq<char>>,
    r: ResolvedRequestView,
    before: Seq<MultipartFieldView>,
    after: Seq<MultipartFieldView>,
) -> bool {
    &&& after.len() == before.len()
    &&& forall|i: int|
        0 <= i < before.len() ==> part_filled_in(
            w,
            turns,
            r,
            "body.multipart["@ + decimal(i as nat) + "]"@,
            before[i],
            #[trigger] after[i],
        )
}

/// Whether the sender that a resolved request names is what that of the request stands for:
/// every credential is filled in.
pub open spec fn authentication_filled_in(
    w: RequestSurroundings,
    turns: Seq<Seq<char>>,
    r: ResolvedRequestView,
    before: AuthenticationView,
    after: AuthenticationView,
) -> bool {
    match (before, after) {
        (AuthenticationView::Anonymous, AuthenticationView::Anonymous) => true,
        (
            AuthenticationView::Basic { username: a, password: b },
            AuthenticationView::Basic { username: c, password: d },
        ) => filled_in(w, turns, r, "auth.username"@, a, c) && filled_in(
            w,
            turns,
            r,
            "auth.password"@,
            b,
            d,
        ),
        (AuthenticationView::Bearer { token: a }, AuthenticationView::Bearer { token: b }) =>
            filled_in(w, turns, r, "auth.token"@, a, b),
        (
            AuthenticationView::ApiKey { name: a, value: b, placement: p },
            AuthenticationView::ApiKey { name: c, value: d, placement: q },
        ) => p == q && filled_in(w, turns, r, "auth.name"@, a, c) && filled_in(
            w,
            turns,
            r,
            "auth.value"@,
            b,
            d,
        ),
        _ => false,
    }
}

/// Whether what a resolved request sends is what the request's body stands for.
pub open spec fn body_filled_in(
    w: RequestSurroundings,
    turns: Seq<Seq<char>>,
    r: ResolvedRequestView,
    before: BodyView,
    after: BodyView,
) -> bool {
    match (before, after) {
        (BodyView::Empty, BodyView::Empty) => true,
        (
            BodyView::Text { content_type: a, text: b },
            BodyView::Text { content_type: c, text: d },
        ) => optional_filled_in(w, turns, r, "body.content_type"@, a, c) && filled_in(
            w,
            turns,
            r,
            "body.text"@,
            b,
            d,
        ),
        (BodyView::Json(a), BodyView::Json(b)) => filled_in(w, turns, r, "body.text"@, a, b),
        (BodyView::Xml(a), BodyView::Xml(b)) => filled_in(w, turns, r, "body.text"@, a, b),
        (
            BodyView::GraphQl { query: a, variables_json: b, operation_name: c },
            BodyView::GraphQl { query: d, variables_json: e, operation_name: f },
        ) => filled_in(w, turns, r, "body.query"@, a, d) && filled_in(
            w,
            turns,
            r,
            "body.variables_json"@,
            b,
            e,
        ) && optional_filled_in(w, turns, r, "body.operation_name"@, c, f),
        (BodyView::FormUrlEncoded(a), BodyView::FormUrlEncoded(b)) => entries_filled_in(
            w,
            turns,
            r,
            "body.fields"@,
            a,
            b,
        ),
        (BodyView::Multipart(a), BodyView::Multipart(b)) => parts_filled_in(w, turns, r, a, b),
        (
            BodyView::BinaryFile { relative_path: a },
            BodyView::BinaryFile { relative_path: b },
        ) => filled_in(w, turns, r, "body.file"@, a, b),
        (
            BodyView::StreamFile { relative_path: a },
            BodyView::StreamFile { relative_path: b },
        ) => filled_in(w, turns, r, "body.file"@, a, b),
        _ => false,
    }
}

/// Whether a text was resolved, as far as the request was.
spec fn done_as(
    w: RequestSurroundings,
    q: Progress,
    field: Seq<char>,
    text: Seq<char>,
    found: ResolvedView,
) -> bool {
    &&& exists|k: int|
        0 <= k < q.templates.len() && q.templates[k] == text && #[trigger] text_at(w, k, text)
            == Ok::<ResolvedView, VariableErrorView>(found)
    &&& forall|s: Seq<char>| #[trigger]
        found.sensitive_values.contains(s) ==> q.sensitive.contains(s)
    &&& found.traces.len() > 0 ==> q.traces.contains(FieldTraceView { field, traces: found.traces })
}

/// Whether one state of resolving a request comes after another.
spec fn later(p: Progress, q: Progress) -> bool {
    &&& begins(p.templates, q.templates)
    &&& begins(p.traces, q.traces)
    &&& p.sensitive.subset_of(q.sensitive)
}

proof fn lemma_later(p: Progress, q: Progress, r: Progress)
    requires
        later(p, q),
        later(q, r),
    ensures
        later(p, r),
{
    lemma_begins(p.templates, q.templates, r.templates);
    lemma_begins(p.traces, q.traces, r.traces);
}

proof fn lemma_now(p: Progress)
    ensures
        later(p, p),
{
    assert(p.templates.take(p.templates.len() as int) =~= p.templates);
    assert(p.traces.take(p.traces.len() as int) =~= p.traces);
}

proof fn lemma_done_stays(
    w: RequestSurroundings,
    p: Progress,
    q: Progress,
    field: Seq<char>,
    text: Seq<char>,
    found: ResolvedView,
)
    requires
        done_as(w, p, field, text, found),
        later(p, q),
    ensures
        done_as(w, q, field, text, found),
{
    let k = choose|k: int|
        0 <= k < p.templates.len() && p.templates[k] == text && #[trigger] text_at(w, k, text)
            == Ok::<ResolvedView, VariableErrorView>(found);
    assert(q.templates.take(p.templates.len() as int)[k] == q.templates[k]);
    assert(text_at(w, k, text) == Ok::<ResolvedView, VariableErrorView>(found));
    if found.traces.len() > 0 {
        let t = FieldTraceView { field, traces: found.traces };
        let i = choose|i: int| 0 <= i < p.traces.len() && p.traces[i] == t;
        assert(q.traces.take(p.traces.len() as int)[i] == q.traces[i]);
        assert(q.traces[i] == t);
    }
}

proof fn lemma_field(
    w: RequestSurroundings,
    field: Seq<char>,
    input: Seq<char>,
    p: Progress,
)
    ensures
        field_value(w, field, input, p) matches Ok((found, q)) ==> later(p, q) && done_as(
            w,
            q,
            field,
            input,
            found,
        ),
{
    if let Ok((found, q)) = field_value(w, field, input, p) {
        let k = p.templates.len() as int;
        assert(q.templates.take(k) =~= p.templates);
        assert(q.templates[k] == input);
        assert(text_at(w, k, input) == Ok::<ResolvedView, VariableErrorView>(found));
        assert(q.traces.take(p.traces.len() as int) =~= p.traces);
        if found.traces.len() > 0 {
            assert(q.traces[p.traces.len() as int] == FieldTraceView {
                field,
                traces: found.traces,
            });
        }
    }
}

/// Whether a text was resolved to a value, as far as the request was.
spec fn done(
    w: RequestSurroundings,
    q: Progress,
    field: Seq<char>,
    before: Seq<char>,
    after: Seq<char>,
) -> bool {
    exists|found: ResolvedView| #[trigger]
        done_as(w, q, field, before, found) && after == found.value
}

spec fn done_optional(
    w: RequestSurroundings,
    q: Progress,
    field: Seq<char>,
    before: Option<Seq<char>>,
    after: Option<Seq<char>>,
) -> bool {
    match (before, after) {
        (None, None) => true,
        (Some(a), Some(b)) => done(w, q, field, a, b),
        _ => false,
    }
}

proof fn lemma_value_stays(
    w: RequestSurroundings,
    p: Progress,
    q: Progress,
    field: Seq<char>,
    before: Seq<char>,
    after: Seq<char>,
)
    requires
        done(w, p, field, before, after),
        later(p, q),
    ensures
        done(w, q, field, before, after),
{
    let found = choose|found: ResolvedView| #[trigger]
        done_as(w, p, field, before, found) && after == found.value;
    lemma_done_stays(w, p, q, field, before, found);
}

proof fn lemma_optional(
    w: RequestSurroundings,
    field: Seq<char>,
    input: Option<Seq<char>>,
    p: Progress,
)
    ensures
        optional_value(w, field, input, p) matches Ok((found, q)) ==> later(p, q)
            && done_optional(w, q, field, input, found),
{
    lemma_now(p);
    if let Some(text) = input {
        lemma_field(w, field, text, p);
    }
}

proof fn lemma_two(
    w: RequestSurroundings,
    first: (Seq<char>, Seq<char>),
    second: (Seq<char>, Seq<char>),
    p: Progress,
)
    ensures
        two_values(w, first, second, p) matches Ok(((a, b), r)) ==> {
            &&& later(p, r)
            &&& done(w, r, first.0, first.1, a)
            &&& done(w, r, second.0, second.1, b)
        },
{
    lemma_field(w, first.0, first.1, p);
    if let Ok((a, q)) = field_value(w, first.0, first.1, p) {
        lemma_field(w, second.0, second.1, q);
        if let Ok((b, r)) = field_value(w, second.0, second.1, q) {
            lemma_later(p, q, r);
            lemma_done_stays(w, q, r, first.0, first.1, a);
        }
    }
}

proof fn lemma_steps_secret(current: ValueSensitivity, steps: Seq<TraceStep>)
    ensures
        ({
            let r = step_sensitivity(current, steps);
            &&& secrecy(current) <= secrecy(r)
            &&& forall|j: int|
                0 <= j < steps.len() && (#[trigger] steps[j]).selected && steps[j].sensitivity is Some
                    ==> secrecy(steps[j].sensitivity->Some_0) <= secrecy(r)
            &&& r == current || exists|j: int|
                0 <= j < steps.len() && (#[trigger] steps[j]).selected && steps[j].sensitivity
                    == Some(r)
        }),
    decreases steps.len(),
{
    if steps.len() > 0 {
        let front = steps.drop_last();
        lemma_steps_secret(current, front);
        let r = step_sensitivity(current, steps);
        let b = step_sensitivity(current, front);
        assert forall|j: int|
            0 <= j < steps.len() && (#[trigger] steps[j]).selected && steps[j].sensitivity is Some
            implies secrecy(steps[j].sensitivity->Some_0) <= secrecy(r) by {
            if j < front.len() {
                assert(front[j] == steps[j]);
            }
        }
        if r != current {
            if r == b {
                let j = choose|j: int|
                    0 <= j < front.len() && (#[trigger] front[j]).selected && front[j].sensitivity
                        == Some(b);
                assert(steps[j] == front[j]);
            } else {
                assert(steps[steps.len() - 1].selected);
            }
        }
    }
}

proof fn lemma_traces_secret(current: ValueSensitivity, traces: Seq<TraceView>)
    ensures
        as_secret_as(current, traces, used_sensitivity(current, traces)),
    decreases traces.len(),
{
    let r = used_sensitivity(current, traces);
    if traces.len() > 0 {
        let front = traces.drop_last();
        lemma_traces_secret(current, front);
        let b = used_sensitivity(current, front);
        let last = traces.last().steps;
        lemma_steps_secret(b, last);
        assert forall|s: ValueSensitivity| #[trigger] made_use_of(traces, s) implies secrecy(s)
            <= secrecy(r) by {
            let (i, j) = choose|i: int, j: int|
                0 <= i < traces.len() && 0 <= j < traces[i].steps.len() && (
                #[trigger] traces[i].steps[j]).selected && traces[i].steps[j].sensitivity == Some(
                    s,
                );
            if i < front.len() {
                assert(front[i].steps[j].selected);
                assert(made_use_of(front, s));
            } else {
                assert(last[j].selected);
            }
        }
        if r != current {
            if r == b {
                let (i, j) = choose|i: int, j: int|
                    0 <= i < front.len() && 0 <= j < front[i].steps.len() && (
                    #[trigger] front[i].steps[j]).selected && front[i].steps[j].sensitivity
                        == Some(r);
                assert(traces[i].steps[j].selected);
            } else {
                let j = choose|j: int|
                    0 <= j < last.len() && (#[trigger] last[j]).selected && last[j].sensitivity
                        == Some(r);
                assert(traces[traces.len() - 1].steps[j].selected);
            }
            assert(made_use_of(traces, r));
        }
    }
}

spec fn done_entry(
    w: RequestSurroundings,
    q: Progress,
    label: Seq<char>,
    before: FormFieldView,
    after: FormFieldView,
) -> bool {
    exists|name: ResolvedView, value: ResolvedView|
        {
            &&& #[trigger] done_as(w, q, label + ".name"@, before.name, name)
            &&& #[trigger] done_as(w, q, label + ".value"@, before.value, value)
            &&& after.name == name.value
            &&& after.value == value.value
            &&& after.enabled == before.enabled
            &&& as_secret_as(before.sensitivity, name.traces + value.traces, after.sensitivity)
        }
}

proof fn lemma_entry_stays(
    w: RequestSurroundings,
    p: Progress,
    q: Progress,
    label: Seq<char>,
    before: FormFieldView,
    after: FormFieldView,
)
    requires
        done_entry(w, p, label, before, after),
        later(p, q),
    ensures
        done_entry(w, q, label, before, after),
{
    let (name, value) = choose|name: ResolvedView, value: ResolvedView|
        {
            &&& #[trigger] done_as(w, p, label + ".name"@, before.name, name)
            &&& #[trigger] done_as(w, p, label + ".value"@, before.value, value)
            &&& after.name == name.value
            &&& after.value == value.value
            &&& after.enabled == before.enabled
            &&& as_secret_as(before.sensitivity, name.traces + value.traces, after.sensitivity)
        };
    lemma_done_stays(w, p, q, label + ".name"@, before.name, name);
    lemma_done_stays(w, p, q, label + ".value"@, before.value, value);
}

proof fn lemma_entry(w: RequestSurroundings, label: Seq<char>, f: FormFieldView, p: Progress)
    ensures
        entry_value(w, label, f, p) matches Ok((after, q)) ==> later(p, q) && done_entry(
            w,
            q,
            label,
            f,
            after,
        ),
{
    lemma_field(w, label + ".name"@, f.name, p);
    if let Ok((name, q)) = field_value(w, label + ".name"@, f.name, p) {
        lemma_field(w, label + ".value"@, f.value, q);
        if let Ok((value, r)) = field_value(w, label + ".value"@, f.value, q) {
            lemma_later(p, q, r);
            lemma_done_stays(w, q, r, label + ".name"@, f.name, name);
            lemma_traces_secret(f.sensitivity, name.traces + value.traces);
        }
    }
}

proof fn lemma_entries(
    w: RequestSurroundings,
    prefix: Seq<char>,
    list: Seq<FormFieldView>,
    n: nat,
    p: Progress,
)
    requires
        n <= list.len(),
    ensures
        entry_values(w, prefix, list, n, p) matches Ok((after, q)) ==> {
            &&& later(p, q)
            &&& after.len() == n
            &&& forall|i: int|
                0 <= i < n ==> done_entry(
                    w,
                    q,
                    entry_label(prefix, i as nat),
                    list[i],
                    #[trigger] after[i],
                )
        },
    decreases n,
{
    lemma_now(p);
    if n > 0 {
        let m = (n - 1) as nat;
        lemma_entries(w, prefix, list, m, p);
        if let Ok((front, q)) = entry_values(w, prefix, list, m, p) {
            lemma_entry(w, entry_label(prefix, m), list[m as int], q);
            if let Ok((last, r)) = entry_value(w, entry_label(prefix, m), list[m as int], q) {
                lemma_later(p, q, r);
                let after = front.push(last);
                assert forall|i: int| 0 <= i < n implies done_entry(
                    w,
                    r,
                    entry_label(prefix, i as nat),
                    list[i],
                    #[trigger] after[i],
                ) by {
                    if i < m {
                        assert(front[i] == after[i]);
                        lemma_entry_stays(
                            w,
                            q,
                            r,
                            entry_label(prefix, i as nat),
                            list[i],
                            after[i],
                        );
                    }
                }
            }
        }
    }
}

spec fn done_part(
    w: RequestSurroundings,
    q: Progress,
    label: Seq<char>,
    before: MultipartFieldView,
    after: MultipartFieldView,
) -> bool {
    exists|name: ResolvedView, value: ResolvedView|
        {
            &&& #[trigger] done_as(w, q, label + ".name"@, before.name, name)
            &&& #[trigger] done_as(
                w,
                q,
                label + multipart_text(before.value).0,
                multipart_text(before.value).1,
                value,
            )
            &&& multipart_text(after.value) == (multipart_text(before.value).0, value.value)
            &&& (after.value is File) == (before.value is File)
            &&& after.name == before.name
            &&& after.enabled == before.enabled
            &&& done_optional(
                w,
                q,
                label + ".content_type"@,
                before.content_type,
                after.content_type,
            )
            &&& as_secret_as(before.sensitivity, name.traces + value.traces, after.sensitivity)
        }
}

proof fn lemma_part_stays(
    w: RequestSurroundings,
    p: Progress,
    q: Progress,
    label: Seq<char>,
    before: MultipartFieldView,
    after: MultipartFieldView,
)
    requires
        done_part(w, p, label, before, after),
        later(p, q),
    ensures
        done_part(w, q, label, before, after),
{
    let (field, text) = multipart_text(before.value);
    let (name, value) = choose|name: ResolvedView, value: ResolvedView|
        {
            &&& #[trigger] done_as(w, p, label + ".name"@, before.name, name)
            &&& #[trigger] done_as(w, p, label + field, text, value)
            &&& multipart_text(after.value) == (field, value.value)
            &&& (after.value is File) == (before.value is File)
            &&& after.name == before.name
            &&& after.enabled == before.enabled
            &&& done_optional(
                w,
                p,
                label + ".content_type"@,
                before.content_type,
                after.content_type,
            )
            &&& as_secret_as(before.sensitivity, name.traces + value.traces, after.sensitivity)
        };
    lemma_done_stays(w, p, q, label + ".name"@, before.name, name);
    lemma_done_stays(w, p, q, label + field, text, value);
    if let (Some(a), Some(b)) = (before.content_type, after.content_type) {
        lemma_value_stays(w, p, q, label + ".content_type"@, a, b);
    }
}

proof fn lemma_part(w: RequestSurroundings, label: Seq<char>, f: MultipartFieldView, p: Progress)
    ensures
        part_value(w, label, f, p) matches Ok((after, q)) ==> later(p, q) && done_part(
            w,
            q,
            label,
            f,
            after,
        ),
{
    let (field, text) = multipart_text(f.value);
    lemma_field(w, label + ".name"@, f.name, p);
    if let Ok((name, q)) = field_value(w, label + ".name"@, f.name, p) {
        lemma_optional(w, label + ".content_type"@, f.content_type, q);
        if let Ok((kind, r)) = optional_value(w, label + ".content_type"@, f.content_type, q) {
            lemma_field(w, label + field, text, r);
            if let Ok((value, s)) = field_value(w, label + field, text, r) {
                lemma_later(p, q, r);
                lemma_later(p, r, s);
                lemma_later(q, r, s);
                lemma_done_stays(w, q, s, label + ".name"@, f.name, name);
                if let (Some(a), Some(b)) = (f.content_type, kind) {
                    lemma_value_stays(w, r, s, label + ".content_type"@, a, b);
                }
                lemma_traces_secret(f.sensitivity, name.traces + value.traces);
                let after = part_value(w, label, f, p)->Ok_0.0;
                assert(done_as(w, s, label + ".name"@, f.name, name));
                assert(done_as(w, s, label + field, text, value));
                assert(done_part(w, s, label, f, after));
            }
        }
    }
}

proof fn lemma_parts(
    w: RequestSurroundings,
    prefix: Seq<char>,
    list: Seq<MultipartFieldView>,
    n: nat,
    p: Progress,
)
    requires
        n <= list.len(),
    ensures
        part_values(w, prefix, list, n, p) matches Ok((after, q)) ==> {
            &&& later(p, q)
            &&& after.len() == n
            &&& forall|i: int|
                0 <= i < n ==> done_part(
                    w,
                    q,
                    entry_label(prefix, i as nat),
                    list[i],
                    #[trigger] after[i],
                )
        },
    decreases n,
{
    lemma_now(p);
    if n > 0 {
        let m = (n - 1) as nat;
        lemma_parts(w, prefix, list, m, p);
        if let Ok((front, q)) = part_values(w, prefix, list, m, p) {
            lemma_part(w, entry_label(prefix, m), list[m as int], q);
            if let Ok((last, r)) = part_value(w, entry_label(prefix, m), list[m as int], q) {
                lemma_later(p, q, r);
                let after = front.push(last);
                assert forall|i: int| 0 <= i < n implies done_part(
                    w,
                    r,
                    entry_label(prefix, i as nat),
                    list[i],
                    #[trigger] after[i],
                ) by {
                    if i < m {
                        assert(front[i] == after[i]);
                        lemma_part_stays(
                            w,
                            q,
                            r,
                            entry_label(prefix, i as nat),
                            list[i],
                            after[i],
                        );
                    }
                }
            }
        }
    }
}


/// Whether a resolved request shows all that was noted.
spec fn shows(p: Progress, r: ResolvedRequestView) -> bool {
    &&& r.field_traces == p.traces
    &&& forall|s: Seq<char>| #[trigger]
        p.sensitive.contains(s) ==> r.sensitive_values.contains(s)
}

proof fn lemma_as_shown(
    w: RequestSurroundings,
    q: Progress,
    p: Progress,
    r: ResolvedRequestView,
    field: Seq<char>,
    text: Seq<char>,
    found: ResolvedView,
)
    requires
        done_as(w, q, field, text, found),
        later(q, p),
        shows(p, r),
    ensures
        resolved_as(w, p.templates, r, field, text, found),
{
    lemma_done_stays(w, q, p, field, text, found);
}

proof fn lemma_value_shown(
    w: RequestSurroundings,
    q: Progress,
    p: Progress,
    r: ResolvedRequestView,
    field: Seq<char>,
    before: Seq<char>,
    after: Seq<char>,
)
    requires
        done(w, q, field, before, after),
        later(q, p),
        shows(p, r),
    ensures
        filled_in(w, p.templates, r, field, before, after),
{
    let found = choose|found: ResolvedView| #[trigger]
        done_as(w, q, field, before, found) && after == found.value;
    lemma_as_shown(w, q, p, r, field, before, found);
}

proof fn lemma_optional_shown(
    w: RequestSurroundings,
    q: Progress,
    p: Progress,
    r: ResolvedRequestView,
    field: Seq<char>,
    before: Option<Seq<char>>,
    after: Option<Seq<char>>,
)
    requires
        done_optional(w, q, field, before, after),
        later(q, p),
        shows(p, r),
    ensures
        optional_filled_in(w, p.templates, r, field, before, after),
{
    if let (Some(a), Some(b)) = (before, after) {
        lemma_value_shown(w, q, p, r, field, a, b);
    }
}

proof fn lemma_entry_shown(
    w: RequestSurroundings,
    q: Progress,
    p: Progress,
    r: ResolvedRequestView,
    label: Seq<char>,
    before: FormFieldView,
    after: FormFieldView,
)
    requires
        done_entry(w, q, label, before, after),
        later(q, p),
        shows(p, r),
    ensures
        entry_filled_in(w, p.templates, r, label, before, after),
{
    let (name, value) = choose|name: ResolvedView, value: ResolvedView|
        {
            &&& #[trigger] done_as(w, q, label + ".name"@, before.name, name)
            &&& #[trigger] done_as(w, q, label + ".value"@, before.value, value)
            &&& after.name == name.value
            &&& after.value == value.value
            &&& after.enabled == before.enabled
            &&& as_secret_as(before.sensitivity, name.traces + value.traces, after.sensitivity)
        };
    lemma_as_shown(w, q, p, r, label + ".name"@, before.name, name);
    lemma_as_shown(w, q, p, r, label + ".value"@, before.value, value);
}

proof fn lemma_part_shown(
    w: RequestSurroundings,
    q: Progress,
    p: Progress,
    r: ResolvedRequestView,
    label: Seq<char>,
    before: MultipartFieldView,
    after: MultipartFieldView,
)
    requires
        done_part(w, q, label, before, after),
        later(q, p),
        shows(p, r),
    ensures
        part_filled_in(w, p.templates, r, label, before, after),
{
    let (field, text) = multipart_text(before.value);
    let (name, value) = choose|name: ResolvedView, value: ResolvedView|
        {
            &&& #[trigger] done_as(w, q, label + ".name"@, before.name, name)
            &&& #[trigger] done_as(w, q, label + field, text, value)
            &&& multipart_text(after.value) == (field, value.value)
            &&& (after.value is File) == (before.value is File)
            &&& after.name == before.name
            &&& after.enabled == before.enabled
            &&& done_optional(
                w,
                q,
                label + ".content_type"@,
                before.content_type,
                after.content_type,
            )
            &&& as_secret_as(before.sensitivity, name.traces + value.traces, after.sensitivity)
        };
    lemma_as_shown(w, q, p, r, label + ".name"@, before.name, name);
    lemma_as_shown(w, q, p, r, label + field, text, value);
    lemma_optional_shown(
        w,
        q,
        p,
        r,
        label + ".content_type"@,
        before.content_type,
        after.content_type,
    );
}

proof fn lemma_entries_shown(
    w: RequestSurroundings,
    prefix: Seq<char>,
    list: Seq<FormFieldView>,
    start: Progress,
    p: Progress,
    r: ResolvedRequestView,
)
    requires
        entry_values(w, prefix, list, list.len(), start) matches Ok((_, q)) && later(q, p),
        shows(p, r),
    ensures
        entries_filled_in(
            w,
            p.templates,
            r,
            prefix,
            list,
            entry_values(w, prefix, list, list.len(), start)->Ok_0.0,
        ),
{
    lemma_entries(w, prefix, list, list.len(), start);
    let (after, q) = entry_values(w, prefix, list, list.len(), start)->Ok_0;
    assert forall|i: int| 0 <= i < list.len() implies entry_filled_in(
        w,
        p.templates,
        r,
        prefix + "["@ + decimal(i as nat) + "]"@,
        list[i],
        #[trigger] after[i],
    ) by {
        lemma_entry_shown(w, q, p, r, entry_label(prefix, i as nat), list[i], after[i]);
    }
}

proof fn lemma_parts_shown(
    w: RequestSurroundings,
    list: Seq<MultipartFieldView>,
    start: Progress,
    p: Progress,
    r: ResolvedRequestView,
)
    requires
        part_values(w, "body.multipart"@, list, list.len(), start) matches Ok((_, q)) && later(
            q,
            p,
        ),
        shows(p, r),
    ensures
        parts_filled_in(
            w,
            p.templates,
            r,
            list,
            part_values(w, "body.multipart"@, list, list.len(), start)->Ok_0.0,
        ),
{
    lemma_parts(w, "body.multipart"@, list, list.len(), start);
    let (after, q) = part_values(w, "body.multipart"@, list, list.len(), start)->Ok_0;
    reveal_strlit("body.multipart[");
    reveal_strlit("body.multipart");
    reveal_strlit("[");
    assert("body.multipart["@ =~= "body.multipart"@ + "["@);
    assert forall|i: int| 0 <= i < list.len() implies part_filled_in(
        w,
        p.templates,
        r,
        "body.multipart["@ + decimal(i as nat) + "]"@,
        list[i],
        #[trigger] after[i],
    ) by {
        lemma_part_shown(w, q, p, r, entry_label("body.multipart"@, i as nat), list[i], after[i]);
    }
}

proof fn lemma_authentication_later(w: RequestSurroundings, a: AuthenticationView, p: Progress)
    ensures
        authentication_value(w, a, p) matches Ok((_, q)) ==> later(p, q),
{
    lemma_now(p);
    match a {
        AuthenticationView::Anonymous => {},
        AuthenticationView::Basic { username, password } => {
            lemma_two(w, ("auth.username"@, username), ("auth.password"@, password), p);
        },
        AuthenticationView::Bearer { token } => {
            lemma_field(w, "auth.token"@, token, p);
        },
        AuthenticationView::ApiKey { name, value, .. } => {
            lemma_two(w, ("auth.name"@, name), ("auth.value"@, value), p);
        },
    }
}

proof fn lemma_authentication_shown(
    w: RequestSurroundings,
    a: AuthenticationView,
    start: Progress,
    p: Progress,
    r: ResolvedRequestView,
)
    requires
        authentication_value(w, a, start) matches Ok((_, q)) && later(q, p),
        shows(p, r),
    ensures
        authentication_filled_in(
            w,
            p.templates,
            r,
            a,
            authentication_value(w, a, start)->Ok_0.0,
        ),
{
    let (after, q) = authentication_value(w, a, start)->Ok_0;
    match (a, after) {
        (
            AuthenticationView::Basic { username, password },
            AuthenticationView::Basic { username: b, password: c },
        ) => {
            lemma_two(w, ("auth.username"@, username), ("auth.password"@, password), start);
            lemma_value_shown(w, q, p, r, "auth.username"@, username, b);
            lemma_value_shown(w, q, p, r, "auth.password"@, password, c);
        },
        (AuthenticationView::Bearer { token }, AuthenticationView::Bearer { token: b }) => {
            lemma_field(w, "auth.token"@, token, start);
            let (found, _) = field_value(w, "auth.token"@, token, start)->Ok_0;
            assert(done_as(w, q, "auth.token"@, token, found));
            lemma_value_shown(w, q, p, r, "auth.token"@, token, b);
        },
        (
            AuthenticationView::ApiKey { name, value, .. },
            AuthenticationView::ApiKey { name: b, value: c, .. },
        ) => {
            lemma_two(w, ("auth.name"@, name), ("auth.value"@, value), start);
            lemma_value_shown(w, q, p, r, "auth.name"@, name, b);
            lemma_value_shown(w, q, p, r, "auth.value"@, value, c);
        },
        _ => {},
    }
}

proof fn lemma_one_shown(
    w: RequestSurroundings,
    field: Seq<char>,
    text: Seq<char>,
    start: Progress,
    p: Progress,
    r: ResolvedRequestView,
)
    requires
        field_value(w, field, text, start) matches Ok((_, q)) && later(q, p),
        shows(p, r),
    ensures
        filled_in(
            w,
            p.templates,
            r,
            field,
            text,
            field_value(w, field, text, start)->Ok_0.0.value,
        ),
{
    lemma_field(w, field, text, start);
    let (found, q) = field_value(w, field, text, start)->Ok_0;
    lemma_value_shown(w, q, p, r, field, text, found.value);
}

proof fn lemma_body_shown(
    w: RequestSurroundings,
    body: BodyView,
    start: Progress,
    r: ResolvedRequestView,
)
    requires
        body_value(w, body, start) matches Ok((_, p)) && shows(p, r),
    ensures
        later(start, body_value(w, body, start)->Ok_0.1),
        body_filled_in(
            w,
            body_value(w, body, start)->Ok_0.1.templates,
            r,
            body,
            body_value(w, body, start)->Ok_0.0,
        ),
{
    let (after, p) = body_value(w, body, start)->Ok_0;
    lemma_now(start);
    lemma_now(p);
    match body {
        BodyView::Empty => {},
        BodyView::Text { content_type, text } => {
            lemma_optional(w, "body.content_type"@, content_type, start);
            let (kind, q) = optional_value(w, "body.content_type"@, content_type, start)->Ok_0;
            lemma_field(w, "body.text"@, text, q);
            lemma_later(start, q, p);
            lemma_optional_shown(w, q, p, r, "body.content_type"@, content_type, kind);
            lemma_one_shown(w, "body.text"@, text, q, p, r);
        },
        BodyView::Json(text) => {
            lemma_field(w, "body.text"@, text, start);
            lemma_one_shown(w, "body.text"@, text, start, p, r);
        },
        BodyView::Xml(text) => {
            lemma_field(w, "body.text"@, text, start);
            lemma_one_shown(w, "body.text"@, text, start, p, r);
        },
        BodyView::GraphQl { query, variables_json, operation_name } => {
            let first = ("body.query"@, query);
            let second = ("body.variables_json"@, variables_json);
            lemma_two(w, first, second, start);
            let ((a, b), q) = two_values(w, first, second, start)->Ok_0;
            lemma_optional(w, "body.operation_name"@, operation_name, q);
            let (c, _) = optional_value(w, "body.operation_name"@, operation_name, q)->Ok_0;
            lemma_later(start, q, p);
            lemma_value_shown(w, q, p, r, "body.query"@, query, a);
            lemma_value_shown(w, q, p, r, "body.variables_json"@, variables_json, b);
            lemma_optional_shown(w, p, p, r, "body.operation_name"@, operation_name, c);
        },
        BodyView::FormUrlEncoded(fields) => {
            lemma_entries(w, "body.fields"@, fields, fields.len(), start);
            lemma_entries_shown(w, "body.fields"@, fields, start, p, r);
        },
        BodyView::Multipart(fields) => {
            lemma_parts(w, "body.multipart"@, fields, fields.len(), start);
            lemma_parts_shown(w, fields, start, p, r);
        },
        BodyView::BinaryFile { relative_path } => {
            lemma_field(w, "body.file"@, relative_path, start);
            lemma_one_shown(w, "body.file"@, relative_path, start, p, r);
        },
        BodyView::StreamFile { relative_path } => {
            lemma_field(w, "body.file"@, relative_path, start);
            lemma_one_shown(w, "body.file"@, relative_path, start, p, r);
        },
    }
}

/// In a resolved request every text that can hold a template is what resolving that text
/// gives: the url, the name and the value of every query parameter and header, every
/// credential, and every text of the body. Nothing else of the request is changed.
pub proof fn law_every_text_is_filled_in(w: RequestSurroundings, request: RequestView)
    ensures
        resolved_request(w, request) matches Ok(r) ==> {
            let turns = templates_resolved(w, request);
            &&& filled_in(w, turns, r, "url"@, request.url, r.request.url)
            &&& entries_filled_in(w, turns, r, "query"@, request.query, r.request.query)
            &&& entries_filled_in(w, turns, r, "headers"@, request.headers, r.request.headers)
            &&& authentication_filled_in(
                w,
                turns,
                r,
                request.authentication,
                r.request.authentication,
            )
            &&& body_filled_in(w, turns, r, request.body, r.request.body)
            &&& r.request.id == request.id
            &&& r.request.name == request.name
            &&& r.request.method == request.method
            &&& r.request.settings == request.settings
            &&& r.request.documentation == request.documentation
        },
{
    if let Ok(r) = resolved_request(w, request) {
        let (resolved, p) = request_value(w, request)->Ok_0;
        law_sensitive_values_are_listed_in_order(w, request);
        assert(shows(p, r));
        let start = no_progress();
        let (url, a) = field_value(w, "url"@, request.url, start)->Ok_0;
        let (query, b) = entry_values(w, "query"@, request.query, request.query.len(), a)->Ok_0;
        let (headers, c) = entry_values(
            w,
            "headers"@,
            request.headers,
            request.headers.len(),
            b,
        )->Ok_0;
        let (head, _) = head_value(w, request, start)->Ok_0;
        let (authentication, d) = authentication_value(w, request.authentication, c)->Ok_0;
        lemma_body_shown(w, request.body, d, r);
        lemma_authentication_later(w, request.authentication, c);
        lemma_later(c, d, p);
        lemma_entries(w, "headers"@, request.headers, request.headers.len(), b);
        lemma_later(b, c, p);
        lemma_entries(w, "query"@, request.query, request.query.len(), a);
        lemma_later(a, b, p);
        lemma_one_shown(w, "url"@, request.url, start, p, r);
        lemma_entries_shown(w, "query"@, request.query, a, p, r);
        lemma_entries_shown(w, "headers"@, request.headers, b, p, r);
        lemma_authentication_shown(w, request.authentication, c, p, r);
    }
}

/// Whether a list of named values holds a text under the name of a field.
pub open spec fn entries_hold(
    prefix: Seq<char>,
    list: Seq<FormFieldView>,
    field: Seq<char>,
    text: Seq<char>,
) -> bool {
    exists|i: int|
        0 <= i < list.len() && {
            let f = #[trigger] list[i];
            let label = prefix + "["@ + decimal(i as nat) + "]"@;
            ||| field == label + ".name"@ && text == f.name
            ||| field == label + ".value"@ && text == f.value
        }
}

/// Whether the fields of a multipart body hold a text under the name of a field.
pub open spec fn parts_hold(
    list: Seq<MultipartFieldView>,
    field: Seq<char>,
    text: Seq<char>,
) -> bool {
    exists|i: int|
        0 <= i < list.len() && {
            let f = #[trigger] list[i];
            let label = "body.multipart["@ + decimal(i as nat) + "]"@;
            ||| field == label + ".name"@ && text == f.name
            ||| field == label + ".content_type"@ && Some(text) == f.content_type
            ||| field == label + ".text"@ && f.value == MultipartValueView::Text(text)
            ||| field == label + ".file"@ && f.value == (MultipartValueView::File {
                relative_path: text,
            })
        }
}

/// Whether the sender of a request is identified by a text under the name of a field.
pub open spec fn authentication_holds(
    a: AuthenticationView,
    field: Seq<char>,
    text: Seq<char>,
) -> bool {
    match a {
        AuthenticationView::Anonymous => false,
        AuthenticationView::Basic { username, password } => (field == "auth.username"@ && text
            == username) || (field == "auth.password"@ && text == password),
        AuthenticationView::Bearer { token } => field == "auth.token"@ && text == token,
        AuthenticationView::ApiKey { name, value, .. } => (field == "auth.name"@ && text == name)
            || (field == "auth.value"@ && text == value),
    }
}

/// Whether the body of a request holds a text under the name of a field.
pub open spec fn body_holds(b: BodyView, field: Seq<char>, text: Seq<char>) -> bool {
    match b {
        BodyView::Empty => false,
        BodyView::Text { content_type, text: body } => (field == "body.content_type"@ && Some(text)
            == content_type) || (field == "body.text"@ && text == body),
        BodyView::Json(body) => field == "body.text"@ && text == body,
        BodyView::Xml(body) => field == "body.text"@ && text == body,
        BodyView::GraphQl { query, variables_json, operation_name } => {
            ||| field == "body.query"@ && text == query
            ||| field == "body.variables_json"@ && text == variables_json
            ||| field == "body.operation_name"@ && Some(text) == operation_name
        },
        BodyView::FormUrlEncoded(fields) => entries_hold("body.fields"@, fields, field, text),
        BodyView::Multipart(fields) => parts_hold(fields, field, text),
        BodyView::BinaryFile { relative_path } => field == "body.file"@ && text == relative_path,
        BodyView::StreamFile { relative_path } => field == "body.file"@ && text == relative_path,
    }
}

/// Whether a request holds a text under the name of a field.
pub open spec fn request_holds(request: RequestView, field: Seq<char>, text: Seq<char>) -> bool {
    ||| field == "url"@ && text == request.url
    ||| entries_hold("query"@, request.query, field, text)
    ||| entries_hold("headers"@, request.headers, field, text)
    ||| authentication_holds(request.authentication, field, text)
    ||| body_holds(request.body, field, text)
}

/// Whether resolving stopped at the last of its texts, which cannot be resolved.
spec fn stopped_at_last(w: RequestSurroundings, s: Stopped) -> bool {
    &&& s.templates.len() > 0
    &&& text_at(w, s.templates.len() - 1, s.templates.last()) == Err::<
        ResolvedView,
        VariableErrorView,
    >(s.error.source)
}

proof fn lemma_field_stops(w: RequestSurroundings, field: Seq<char>, input: Seq<char>, p: Progress)
    ensures
        field_value(w, field, input, p) matches Err(s) ==> stopped_at_last(w, s) && s.error.field
            == field && s.templates.last() == input,
{
}

proof fn lemma_entries_stop(
    w: RequestSurroundings,
    prefix: Seq<char>,
    list: Seq<FormFieldView>,
    n: nat,
    p: Progress,
)
    requires
        n <= list.len(),
    ensures
        entry_values(w, prefix, list, n, p) matches Err(s) ==> stopped_at_last(w, s)
            && entries_hold(prefix, list, s.error.field, s.templates.last()),
    decreases n,
{
    if n > 0 {
        lemma_entries_stop(w, prefix, list, (n - 1) as nat, p);
        if let Ok((done, q)) = entry_values(w, prefix, list, (n - 1) as nat, p) {
            let label = entry_label(prefix, (n - 1) as nat);
            let f = list[n - 1];
            lemma_field_stops(w, label + ".name"@, f.name, q);
            if let Ok((name, r)) = field_value(w, label + ".name"@, f.name, q) {
                lemma_field_stops(w, label + ".value"@, f.value, r);
            }
        }
    }
}

proof fn lemma_parts_stop(
    w: RequestSurroundings,
    list: Seq<MultipartFieldView>,
    n: nat,
    p: Progress,
)
    requires
        n <= list.len(),
    ensures
        part_values(w, "body.multipart"@, list, n, p) matches Err(s) ==> stopped_at_last(w, s)
            && parts_hold(list, s.error.field, s.templates.last()),
    decreases n,
{
    if n > 0 {
        lemma_parts_stop(w, list, (n - 1) as nat, p);
        if let Ok((done, q)) = part_values(w, "body.multipart"@, list, (n - 1) as nat, p) {
            let label = entry_label("body.multipart"@, (n - 1) as nat);
            let f = list[n - 1];
            assert(label =~= "body.multipart["@ + decimal((n - 1) as nat) + "]"@) by {
                reveal_strlit("body.multipart");
                reveal_strlit("body.multipart[");
                reveal_strlit("[");
                assert("body.multipart"@ + "["@ =~= "body.multipart["@);
            }
            lemma_field_stops(w, label + ".name"@, f.name, q);
            if let Ok((name, r)) = field_value(w, label + ".name"@, f.name, q) {
                if let Some(content_type) = f.content_type {
                    lemma_field_stops(w, label + ".content_type"@, content_type, r);
                }
                if let Ok((_, t)) = optional_value(w, label + ".content_type"@, f.content_type, r) {
                    lemma_field_stops(
                        w,
                        label + multipart_text(f.value).0,
                        multipart_text(f.value).1,
                        t,
                    );
                }
            }
        }
    }
}

/// A request is refused for a text of its own that cannot be resolved: the error names the field
/// that the text stands in, and gives the reason why that text cannot be resolved.
pub proof fn law_refusals_name_their_field(w: RequestSurroundings, request: RequestView)
    ensures
        resolved_request(w, request) matches Err(e) ==> {
            let turns = templates_resolved(w, request);
            &&& turns.len() > 0
            &&& request_holds(request, e.field, turns.last())
            &&& text_at(w, turns.len() - 1, turns.last()) == Err::<
                ResolvedView,
                VariableErrorView,
            >(e.source)
        },
{
    let start = no_progress();
    lemma_field_stops(w, "url"@, request.url, start);
    if let Ok((url, a)) = field_value(w, "url"@, request.url, start) {
        lemma_entries_stop(w, "query"@, request.query, request.query.len(), a);
        if let Ok((_, b)) = entry_values(w, "query"@, request.query, request.query.len(), a) {
            lemma_entries_stop(w, "headers"@, request.headers, request.headers.len(), b);
        }
    }
    if let Ok((head, c)) = head_value(w, request, start) {
        if let Ok((_, d)) = authentication_value(w, request.authentication, c) {
            match request.body {
                BodyView::FormUrlEncoded(fields) => {
                    lemma_entries_stop(w, "body.fields"@, fields, fields.len(), d);
                },
                BodyView::Multipart(fields) => {
                    lemma_parts_stop(w, fields, fields.len(), d);
                },
                _ => {},
            }
        }
    }
}

} // verus!
