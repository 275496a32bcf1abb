//! Putting the values of variables into a whole request.
use crate::domain::{
    form_views, header_views, multipart_views, strongest, strongest_sensitivity, Authentication,
    AuthenticationView, BodyView, FormField, FormFieldView, HeaderEntry, HttpRequest,
    MultipartField, MultipartFieldView, MultipartValue, MultipartValueView, RequestBody,
    RequestView, ValueSensitivity,
};
use crate::error::outcome;
use crate::lines::find;
use crate::message::{concat2, concat3, concat4};
use crate::number::{decimal, decimal_text};
use crate::order::{
    lemma_sorted_ascend, lemma_sorted_nothing, lemma_sorted_texts, sorted_texts, texts_ascend,
    TextSet,
};
use crate::resolver::{
    answered_by, begins, law_plain_template_is_kept, lemma_begins, questions_asked,
    resolved_template, trace_views, variable_error_message, DynamicVariableProvider,
    ResolvedTemplate, ResolvedView, ResolverOptions, Surroundings, TraceStep, TraceView,
    VariableError, VariableErrorView, VariableResolver, VariableTrace,
};
use crate::scope::{ContextView, VariableContext};
use crate::text::{optional_text, texts};
use crate::value::DefinitionView;
use vstd::prelude::*;

verus! {

/// How the expressions of a field of a request were looked up.
#[derive(Clone, Debug, PartialEq, Eq)]
pub struct FieldResolutionTrace {
    pub field: String,
    pub traces: Vec<VariableTrace>,
}

/// How the expressions of a field were looked up, by its contents.
#[verifier::ext_equal]
pub struct FieldTraceView {
    pub field: Seq<char>,
    pub traces: Seq<TraceView>,
}

impl View for FieldResolutionTrace {
    type V = FieldTraceView;

    open spec fn view(&self) -> FieldTraceView {
        FieldTraceView { field: self.field@, traces: trace_views(self.traces@) }
    }
}

/// The contents of a list of field traces.
pub open spec fn field_trace_views(list: Seq<FieldResolutionTrace>) -> Seq<FieldTraceView> {
    list.map_values(|t: FieldResolutionTrace| t@)
}

/// A request with its variables put in.
#[derive(Clone, Debug, PartialEq, Eq)]
pub struct ResolvedHttpRequest {
    pub request: HttpRequest,
    pub field_traces: Vec<FieldResolutionTrace>,
    pub sensitive_values: Vec<String>,
}

/// A request with its variables put in, by its contents.
#[verifier::ext_equal]
pub struct ResolvedRequestView {
    pub request: RequestView,
    pub field_traces: Seq<FieldTraceView>,
    pub sensitive_values: Seq<Seq<char>>,
}

impl View for ResolvedHttpRequest {
    type V = ResolvedRequestView;

    open spec fn view(&self) -> ResolvedRequestView {
        ResolvedRequestView {
            request: self.request@,
            field_traces: field_trace_views(self.field_traces@),
            sensitive_values: texts(self.sensitive_values@),
        }
    }
}

/// Which field of a request could not be resolved, and why.
#[derive(Clone, Debug, PartialEq, Eq)]
pub struct RequestResolutionError {
    pub field: String,
    pub source: VariableError,
}

/// Which field of a request could not be resolved, by its contents.
#[verifier::ext_equal]
pub struct FieldErrorView {
    pub field: Seq<char>,
    pub source: VariableErrorView,
}

impl View for RequestResolutionError {
    type V = FieldErrorView;

    open spec fn view(&self) -> FieldErrorView {
        FieldErrorView { field: self.field@, source: self.source@ }
    }
}

/// What is said of a request whose variables cannot be put in.
pub open spec fn resolution_message(error: FieldErrorView) -> Seq<char> {
    error.field + ": "@ + variable_error_message(error.source)
}

impl RequestResolutionError {
    /// What the error says.
    pub fn message(&self) -> (r: String)
        ensures
            r@ == resolution_message(self@),
    {
        concat3(self.field.as_str(), ": ", self.source.message().as_str())
    }
}

/// What resolving a request depends on besides the request: the variables, the options,
/// and for each field in turn what the source of dynamic variables answered.
pub struct RequestSurroundings {
    pub context: ContextView,
    pub options: ResolverOptions,
    pub runs: Seq<Seq<Option<DefinitionView>>>,
}

/// How far resolving a request has come: the texts that were resolved, one after the other,
/// and what was gathered.
#[verifier::ext_equal]
pub struct Progress {
    pub templates: Seq<Seq<char>>,
    pub traces: Seq<FieldTraceView>,
    pub sensitive: Set<Seq<char>>,
}

/// Why resolving a request stopped, and the texts that were resolved by then, the last of
/// which could not be.
#[verifier::ext_equal]
pub struct Stopped {
    pub error: FieldErrorView,
    pub templates: Seq<Seq<char>>,
}

/// The outcome of resolving a part of a request.
pub type Step<T> = Result<(T, Progress), Stopped>;

/// A field of a request with its variables put in.
pub open spec fn field_value(
    w: RequestSurroundings,
    field: Seq<char>,
    input: Seq<char>,
    p: Progress,
) -> Step<ResolvedView> {
    let answers = w.runs[p.templates.len() as int];
    match resolved_template(
        Surroundings { context: w.context, options: w.options, answers },
        input,
    ) {
        Err(source) => Err(
            Stopped {
                error: FieldErrorView { field, source },
                templates: p.templates.push(input),
            },
        ),
        Ok(r) => Ok(
            (
                r,
                Progress {
                    templates: p.templates.push(input),
                    traces: if r.traces.len() > 0 {
                        p.traces.push(FieldTraceView { field, traces: r.traces })
                    } else {
                        p.traces
                    },
                    sensitive: p.sensitive.union(r.sensitive_values.to_set()),
                },
            ),
        ),
    }
}

/// The strongest of a sensitivity and those of the steps that were selected.
pub open spec fn step_sensitivity(current: ValueSensitivity, steps: Seq<TraceStep>) -> ValueSensitivity
    decreases steps.len(),
{
    if steps.len() == 0 {
        current
    } else {
        let front = step_sensitivity(current, steps.drop_last());
        match steps.last().sensitivity {
            Some(s) if steps.last().selected => strongest(front, s),
            _ => front,
        }
    }
}

/// The strongest of a sensitivity and those of the variables that were used.
pub open spec fn used_sensitivity(current: ValueSensitivity, traces: Seq<TraceView>) -> ValueSensitivity
    decreases traces.len(),
{
    if traces.len() == 0 {
        current
    } else {
        step_sensitivity(used_sensitivity(current, traces.drop_last()), traces.last().steps)
    }
}

fn sensitivity_with(current: ValueSensitivity, traces: &[VariableTrace]) -> (r: ValueSensitivity)
    ensures
        r == used_sensitivity(current, trace_views(traces@)),
{
    let mut r = current;
    let ghost all = trace_views(traces@);
    for i in 0..traces.len()
        invariant
            all == trace_views(traces@),
            r == used_sensitivity(current, all.take(i as int)),
    {
        let ghost before = r;
        let steps = &traces[i].steps;
        for j in 0..steps.len()
            invariant
                r == step_sensitivity(before, steps@.take(j as int)),
        {
            let step = steps[j];
            proof {
                let next = steps@.take(j + 1);
                assert(next.drop_last() =~= steps@.take(j as int));
                assert(next.last() == step);
            }
            if step.selected {
                if let Some(s) = step.sensitivity {
                    r = strongest_sensitivity(r, s);
                }
            }
        }
        proof {
            assert(steps@.take(steps@.len() as int) =~= steps@);
            let next = all.take(i + 1);
            assert(next.drop_last() =~= all.take(i as int));
            assert(next.last() == traces@[i as int]@);
        }
    }
    assert(all.take(all.len() as int) =~= all);
    r
}

proof fn lemma_used_twice(current: ValueSensitivity, a: Seq<TraceView>, b: Seq<TraceView>)
    ensures
        used_sensitivity(used_sensitivity(current, a), b) == used_sensitivity(current, a + b),
    decreases b.len(),
{
    if b.len() == 0 {
        assert(a + b =~= a);
    } else {
        assert((a + b).drop_last() =~= a + b.drop_last());
        lemma_used_twice(current, a, b.drop_last());
    }
}

/// The sensitivity of a field once two of its texts were resolved.
fn combined_sensitivity(
    current: ValueSensitivity,
    first: &ResolvedTemplate,
    second: &ResolvedTemplate,
) -> (r: ValueSensitivity)
    ensures
        r == used_sensitivity(current, first@.traces + second@.traces),
{
    let middle = sensitivity_with(current, first.traces.as_slice());
    proof {
        lemma_used_twice(current, first@.traces, second@.traces);
    }
    sensitivity_with(middle, second.traces.as_slice())
}

/// The name of an entry of a list: that of the list, and the position.
pub open spec fn entry_label(prefix: Seq<char>, index: nat) -> Seq<char> {
    prefix + "["@ + decimal(index) + "]"@
}

fn label_of(prefix: &str, index: usize) -> (r: String)
    ensures
        r@ == entry_label(prefix@, index as nat),
{
    concat4(prefix, "[", decimal_text(index as u64).as_str(), "]")
}

/// A named value with its variables put in.
pub open spec fn entry_value(
    w: RequestSurroundings,
    label: Seq<char>,
    f: FormFieldView,
    p: Progress,
) -> Step<FormFieldView> {
    match field_value(w, label + ".name"@, f.name, p) {
        Err(e) => Err(e),
        Ok((name, q)) => match field_value(w, label + ".value"@, f.value, q) {
            Err(e) => Err(e),
            Ok((value, r)) => Ok(
                (
                    FormFieldView {
                        name: name.value,
                        value: value.value,
                        enabled: f.enabled,
                        sensitivity: used_sensitivity(
                            f.sensitivity,
                            name.traces + value.traces,
                        ),
                    },
                    r,
                ),
            ),
        },
    }
}

/// The first named values of a list with their variables put in.
pub open spec fn entry_values(
    w: RequestSurroundings,
    prefix: Seq<char>,
    list: Seq<FormFieldView>,
    n: nat,
    p: Progress,
) -> Step<Seq<FormFieldView>>
    decreases n,
{
    if n == 0 {
        Ok((seq![], p))
    } else {
        match entry_values(w, prefix, list, (n - 1) as nat, p) {
            Err(e) => Err(e),
            Ok((done, q)) => match entry_value(
                w,
                entry_label(prefix, (n - 1) as nat),
                list[n - 1],
                q,
            ) {
                Err(e) => Err(e),
                Ok((f, r)) => Ok((done.push(f), r)),
            },
        }
    }
}

/// An optional text of a request with its variables put in.
pub open spec fn optional_value(
    w: RequestSurroundings,
    field: Seq<char>,
    input: Option<Seq<char>>,
    p: Progress,
) -> Step<Option<Seq<char>>> {
    match input {
        None => Ok((None, p)),
        Some(text) => match field_value(w, field, text, p) {
            Err(e) => Err(e),
            Ok((r, q)) => Ok((Some(r.value), q)),
        },
    }
}

/// The text that a field of a multipart body holds, and what it is called.
pub open spec fn multipart_text(v: MultipartValueView) -> (Seq<char>, Seq<char>) {
    match v {
        MultipartValueView::Text(text) => (".text"@, text),
        MultipartValueView::File { relative_path } => (".file"@, relative_path),
    }
}

/// The same kind of value with another text.
pub open spec fn with_text(v: MultipartValueView, text: Seq<char>) -> MultipartValueView {
    match v {
        MultipartValueView::Text(_) => MultipartValueView::Text(text),
        MultipartValueView::File { .. } => MultipartValueView::File { relative_path: text },
    }
}

/// A field of a multipart body with its variables put in.
pub open spec fn part_value(
    w: RequestSurroundings,
    label: Seq<char>,
    f: MultipartFieldView,
    p: Progress,
) -> Step<MultipartFieldView> {
    match field_value(w, label + ".name"@, f.name, p) {
        Err(e) => Err(e),
        Ok((name, q)) => match optional_value(w, label + ".content_type"@, f.content_type, q) {
            Err(e) => Err(e),
            Ok((content_type, r)) => match field_value(
                w,
                label + multipart_text(f.value).0,
                multipart_text(f.value).1,
                r,
            ) {
                Err(e) => Err(e),
                Ok((value, s)) => Ok(
                    (
                        MultipartFieldView {
                            name: f.name,
                            value: with_text(f.value, value.value),
                            content_type,
                            enabled: f.enabled,
                            sensitivity: used_sensitivity(
                                f.sensitivity,
                                name.traces + value.traces,
                            ),
                        },
                        s,
                    ),
                ),
            },
        },
    }
}

/// The first fields of a multipart body with their variables put in.
pub open spec fn part_values(
    w: RequestSurroundings,
    prefix: Seq<char>,
    list: Seq<MultipartFieldView>,
    n: nat,
    p: Progress,
) -> Step<Seq<MultipartFieldView>>
    decreases n,
{
    if n == 0 {
        Ok((seq![], p))
    } else {
        match part_values(w, prefix, list, (n - 1) as nat, p) {
            Err(e) => Err(e),
            Ok((done, q)) => match part_value(
                w,
                entry_label(prefix, (n - 1) as nat),
                list[n - 1],
                q,
            ) {
                Err(e) => Err(e),
                Ok((f, r)) => Ok((done.push(f), r)),
            },
        }
    }
}

/// Two texts of a request with their variables put in.
pub open spec fn two_values(
    w: RequestSurroundings,
    first: (Seq<char>, Seq<char>),
    second: (Seq<char>, Seq<char>),
    p: Progress,
) -> Step<(Seq<char>, Seq<char>)> {
    match field_value(w, first.0, first.1, p) {
        Err(e) => Err(e),
        Ok((a, q)) => match field_value(w, second.0, second.1, q) {
            Err(e) => Err(e),
            Ok((b, r)) => Ok(((a.value, b.value), r)),
        },
    }
}

/// How a request identifies its sender, with the variables put in.
pub open spec fn authentication_value(
    w: RequestSurroundings,
    a: AuthenticationView,
    p: Progress,
) -> Step<AuthenticationView> {
    match a {
        AuthenticationView::Anonymous => Ok((a, p)),
        AuthenticationView::Basic { username, password } => match two_values(
            w,
            ("auth.username"@, username),
            ("auth.password"@, password),
            p,
        ) {
            Err(e) => Err(e),
            Ok(((username, password), q)) => Ok(
                (AuthenticationView::Basic { username, password }, q),
            ),
        },
        AuthenticationView::Bearer { token } => match field_value(w, "auth.token"@, token, p) {
            Err(e) => Err(e),
            Ok((token, q)) => Ok((AuthenticationView::Bearer { token: token.value }, q)),
        },
        AuthenticationView::ApiKey { name, value, placement } => match two_values(
            w,
            ("auth.name"@, name),
            ("auth.value"@, value),
            p,
        ) {
            Err(e) => Err(e),
            Ok(((name, value), q)) => Ok(
                (AuthenticationView::ApiKey { name, value, placement }, q),
            ),
        },
    }
}

/// What a request sends, with the variables put in.
pub open spec fn body_value(w: RequestSurroundings, b: BodyView, p: Progress) -> Step<BodyView> {
    match b {
        BodyView::Empty => Ok((b, p)),
        BodyView::Text { content_type, text } => match optional_value(
            w,
            "body.content_type"@,
            content_type,
            p,
        ) {
            Err(e) => Err(e),
            Ok((content_type, q)) => match field_value(w, "body.text"@, text, q) {
                Err(e) => Err(e),
                Ok((text, r)) => Ok((BodyView::Text { content_type, text: text.value }, r)),
            },
        },
        BodyView::Json(text) => match field_value(w, "body.text"@, text, p) {
            Err(e) => Err(e),
            Ok((text, q)) => Ok((BodyView::Json(text.value), q)),
        },
        BodyView::Xml(text) => match field_value(w, "body.text"@, text, p) {
            Err(e) => Err(e),
            Ok((text, q)) => Ok((BodyView::Xml(text.value), q)),
        },
        BodyView::GraphQl { query, variables_json, operation_name } => match two_values(
            w,
            ("body.query"@, query),
            ("body.variables_json"@, variables_json),
            p,
        ) {
            Err(e) => Err(e),
            Ok(((query, variables_json), q)) => match optional_value(
                w,
                "body.operation_name"@,
                operation_name,
                q,
            ) {
                Err(e) => Err(e),
                Ok((operation_name, r)) => Ok(
                    (BodyView::GraphQl { query, variables_json, operation_name }, r),
                ),
            },
        },
        BodyView::FormUrlEncoded(fields) => match entry_values(
            w,
            "body.fields"@,
            fields,
            fields.len(),
            p,
        ) {
            Err(e) => Err(e),
            Ok((fields, q)) => Ok((BodyView::FormUrlEncoded(fields), q)),
        },
        BodyView::Multipart(fields) => match part_values(
            w,
            "body.multipart"@,
            fields,
            fields.len(),
            p,
        ) {
            Err(e) => Err(e),
            Ok((fields, q)) => Ok((BodyView::Multipart(fields), q)),
        },
        BodyView::BinaryFile { relative_path } => match field_value(
            w,
            "body.file"@,
            relative_path,
            p,
        ) {
            Err(e) => Err(e),
            Ok((path, q)) => Ok((BodyView::BinaryFile { relative_path: path.value }, q)),
        },
        BodyView::StreamFile { relative_path } => match field_value(
            w,
            "body.file"@,
            relative_path,
            p,
        ) {
            Err(e) => Err(e),
            Ok((path, q)) => Ok((BodyView::StreamFile { relative_path: path.value }, q)),
        },
    }
}

/// Nothing resolved yet.
pub open spec fn no_progress() -> Progress {
    Progress { templates: seq![], traces: seq![], sensitive: Set::empty() }
}

/// The url, the query and the headers of a request with their variables put in.
pub open spec fn head_value(w: RequestSurroundings, request: RequestView, p: Progress) -> Step<
    RequestView,
> {
    match field_value(w, "url"@, request.url, p) {
        Err(e) => Err(e),
        Ok((url, q)) => match entry_values(w, "query"@, request.query, request.query.len(), q) {
            Err(e) => Err(e),
            Ok((query, r)) => match entry_values(
                w,
                "headers"@,
                request.headers,
                request.headers.len(),
                r,
            ) {
                Err(e) => Err(e),
                Ok((headers, s)) => Ok(
                    (RequestView { url: url.value, query, headers, ..request }, s),
                ),
            },
        },
    }
}

/// A request with its variables put in, and how far resolving it came.
pub open spec fn request_value(w: RequestSurroundings, request: RequestView) -> Step<RequestView> {
    match head_value(w, request, no_progress()) {
        Err(e) => Err(e),
        Ok((head, q)) => match authentication_value(w, request.authentication, q) {
            Err(e) => Err(e),
            Ok((authentication, r)) => match body_value(w, request.body, r) {
                Err(e) => Err(e),
                Ok((body, s)) => Ok((RequestView { authentication, body, ..head }, s)),
            },
        },
    }
}

/// A request with its variables put in.
pub open spec fn resolved_request(w: RequestSurroundings, request: RequestView) -> Result<
    ResolvedRequestView,
    FieldErrorView,
> {
    match request_value(w, request) {
        Err(s) => Err(s.error),
        Ok((resolved, p)) => Ok(
            ResolvedRequestView {
                request: resolved,
                field_traces: p.traces,
                sensitive_values: sorted_texts(p.sensitive),
            },
        ),
    }
}

/// The texts of a request that are resolved, one after the other.
pub open spec fn templates_resolved(w: RequestSurroundings, request: RequestView) -> Seq<Seq<char>> {
    match request_value(w, request) {
        Err(s) => s.templates,
        Ok((_, p)) => p.templates,
    }
}

/// Whether, for each text in turn, the answers are those that a source of dynamic variables
/// gave to the names that the text leads to.
pub open spec fn runs_heard<P: DynamicVariableProvider>(
    dynamic: &P,
    w: RequestSurroundings,
    templates: Seq<Seq<char>>,
) -> bool {
    &&& templates.len() == w.runs.len()
    &&& forall|k: int|
        0 <= k < w.runs.len() ==> answered_by(
            dynamic,
            questions_asked(
                Surroundings { context: w.context, options: w.options, answers: w.runs[k] },
                templates[k],
            ),
            #[trigger] w.runs[k],
        )
}

/// Whether the answers under which a request is resolved are those that a source of dynamic
/// variables gave, text by text and name by name.
pub open spec fn request_heard<P: DynamicVariableProvider>(
    dynamic: &P,
    w: RequestSurroundings,
    request: RequestView,
) -> bool {
    runs_heard(dynamic, w, templates_resolved(w, request))
}

/// Resolves the fields of a request one after the other.
struct FieldResolver<'a, P: DynamicVariableProvider> {
    resolver: VariableResolver<'a, P>,
    context: Ghost<ContextView>,
    options: Ghost<ResolverOptions>,
    traces: Vec<FieldResolutionTrace>,
    sensitive: TextSet,
    templates: Ghost<Seq<Seq<char>>>,
    runs: Ghost<Seq<Seq<Option<DefinitionView>>>>,
}

impl<'a, P: DynamicVariableProvider> FieldResolver<'a, P> {
    spec fn wf(&self) -> bool {
        &&& self.resolver.wf()
        &&& self.sensitive.wf()
        &&& runs_heard(&self.resolver.provider(), self.world(self.runs@), self.templates@)
        &&& forall|answers: Seq<Option<DefinitionView>>| #[trigger]
            self.resolver.surroundings(answers) == (Surroundings {
                context: self.context@,
                options: self.options@,
                answers,
            })
    }

    spec fn progress(&self) -> Progress {
        Progress {
            templates: self.templates@,
            traces: field_trace_views(self.traces@),
            sensitive: self.sensitive@,
        }
    }

    spec fn world(&self, runs: Seq<Seq<Option<DefinitionView>>>) -> RequestSurroundings {
        RequestSurroundings { context: self.context@, options: self.options@, runs }
    }

    /// Whether one state comes after another.
    spec fn follows(self, before: Self) -> bool {
        &&& self.wf()
        &&& self.context == before.context
        &&& self.options == before.options
        &&& self.resolver.provider() == before.resolver.provider()
        &&& begins(before.runs@, self.runs@)
    }

    fn resolve(&mut self, field: String, input: &str) -> (result: Result<
        ResolvedTemplate,
        RequestResolutionError,
    >)
        requires
            old(self).wf(),
        ensures
            final(self).follows(*old(self)),
            forall|all: Seq<Seq<Option<DefinitionView>>>| #[trigger]
                begins(final(self).runs@, all) ==> field_value(
                    final(self).world(all),
                    field@,
                    input@,
                    old(self).progress(),
                ) == (match result {
                    Ok(r) => Ok((r@, final(self).progress())),
                    Err(e) => Err(Stopped { error: e@, templates: final(self).templates@ }),
                }),
    {
        let ghost before = *self;
        let result = self.resolver.resolve(input);
        let ghost answers = choose|answers: Seq<Option<DefinitionView>>|
            answered_by(
                &self.resolver.provider(),
                questions_asked(#[trigger] self.resolver.surroundings(answers), input@),
                answers,
            ) && outcome(result) == resolved_template(self.resolver.surroundings(answers), input@);
        proof {
            self.runs@ = self.runs@.push(answers);
            self.templates@ = self.templates@.push(input@);
            let provider = self.resolver.provider();
            let w = self.world(self.runs@);
            assert forall|k: int| 0 <= k < w.runs.len() implies answered_by(
                &provider,
                questions_asked(
                    Surroundings { context: w.context, options: w.options, answers: w.runs[k] },
                    self.templates@[k],
                ),
                #[trigger] w.runs[k],
            ) by {
                if k < before.runs@.len() {
                    assert(w.runs[k] == before.world(before.runs@).runs[k]);
                    assert(self.templates@[k] == before.templates@[k]);
                } else {
                    assert(self.resolver.surroundings(answers) == (Surroundings {
                        context: w.context,
                        options: w.options,
                        answers,
                    }));
                }
            }
            assert(self.runs@.take(before.runs@.len() as int) =~= before.runs@);
            assert forall|all: Seq<Seq<Option<DefinitionView>>>| #[trigger]
                begins(self.runs@, all) implies all[before.runs@.len() as int] == answers by {
                assert(all.take(self.runs@.len() as int)[before.runs@.len() as int] == answers);
            }
        }
        match result {
            Err(source) => Err(RequestResolutionError { field, source }),
            Ok(resolved) => {
                let ghost listed = texts(resolved.sensitive_values@);
                let ghost start = self.sensitive@;
                let ghost runs = self.runs@;
                let ghost templates = self.templates@;
                for i in 0..resolved.sensitive_values.len()
                    invariant
                        self.resolver == before.resolver,
                        self.context == before.context,
                        self.options == before.options,
                        self.traces == before.traces,
                        self.runs@ == runs,
                        self.templates@ == templates,
                        self.sensitive.wf(),
                        start == before.sensitive@,
                        listed == texts(resolved.sensitive_values@),
                        self.sensitive@ == start.union(listed.take(i as int).to_set()),
                {
                    let ghost old_set = self.sensitive@;
                    self.sensitive.insert(resolved.sensitive_values[i].clone());
                    proof {
                        let next = listed.take(i + 1);
                        assert(next =~= listed.take(i as int).push(listed[i as int]));
                        assert(next.to_set() =~= listed.take(i as int).to_set().insert(
                            listed[i as int],
                        )) by {
                            assert forall|t: Seq<char>| next.contains(t) <==> listed.take(
                                i as int,
                            ).contains(t) || t == listed[i as int] by {
                                if listed.take(i as int).contains(t) {
                                    let k = choose|k: int|
                                        0 <= k < i && listed.take(i as int)[k] == t;
                                    assert(next[k] == t);
                                }
                                if t == listed[i as int] {
                                    assert(next[i as int] == t);
                                }
                                if next.contains(t) {
                                    let k = choose|k: int| 0 <= k <= i && next[k] == t;
                                    if k < i {
                                        assert(listed.take(i as int)[k] == t);
                                    }
                                }
                            }
                        }
                        assert(self.sensitive@ =~= start.union(next.to_set()));
                    }
                }
                assert(start.union(listed.take(0).to_set()) =~= start) by {
                    assert(listed.take(0).to_set() =~= Set::<Seq<char>>::empty());
                }
                assert(listed.take(listed.len() as int) =~= listed);
                if resolved.traces.len() > 0 {
                    let ghost earlier = self.traces@;
                    let entry = FieldResolutionTrace { field, traces: copy_traces(resolved.traces.as_slice()) };
                    self.traces.push(entry);
                    assert(field_trace_views(self.traces@) =~= field_trace_views(earlier).push(
                        entry@,
                    ));
                }
                Ok(resolved)
            },
        }
    }

    fn resolve_optional(&mut self, field: String, input: &Option<String>) -> (result: Result<
        Option<String>,
        RequestResolutionError,
    >)
        requires
            old(self).wf(),
        ensures
            final(self).follows(*old(self)),
            forall|all: Seq<Seq<Option<DefinitionView>>>| #[trigger]
                begins(final(self).runs@, all) ==> optional_value(final(self).world(all), field@, optional_text(*input), old(self).progress()) == (match result {
                    Ok(r) => Ok((optional_text(r), final(self).progress())),
                    Err(e) => Err(Stopped { error: e@, templates: final(self).templates@ }),
                }),
    {
        match input {
            None => {
                assert(self.runs@.take(self.runs@.len() as int) =~= self.runs@);
                Ok(None)
            },
            Some(text) => match self.resolve(field, text.as_str()) {
                Err(e) => Err(e),
                Ok(r) => Ok(Some(r.value)),
            },
        }
    }

    fn resolve_two(&mut self, first: &str, a: &str, second: &str, b: &str) -> (result: Result<
        (String, String),
        RequestResolutionError,
    >)
        requires
            old(self).wf(),
        ensures
            final(self).follows(*old(self)),
            forall|all: Seq<Seq<Option<DefinitionView>>>| #[trigger]
                begins(final(self).runs@, all) ==> two_values(final(self).world(all), (first@, a@), (second@, b@), old(self).progress()) == (match result {
                    Ok(r) => Ok(((r.0@, r.1@), final(self).progress())),
                    Err(e) => Err(Stopped { error: e@, templates: final(self).templates@ }),
                }),
    {
        let ghost before = *self;
        let x = match self.resolve(first.to_owned(), a) {
            Err(e) => return Err(e),
            Ok(r) => r,
        };
        let ghost middle = *self;
        let y = match self.resolve(second.to_owned(), b) {
            Err(e) => {
                proof {
                    lemma_begins(before.runs@, middle.runs@, self.runs@);
                    assert forall|all: Seq<Seq<Option<DefinitionView>>>| #[trigger]
                        begins(self.runs@, all) implies two_values(
                        self.world(all),
                        (first@, a@),
                        (second@, b@),
                        before.progress(),
                    ) == Err::<((Seq<char>, Seq<char>), Progress), Stopped>(Stopped { error: e@, templates: self.templates@ }) by {
                        lemma_begins(middle.runs@, self.runs@, all);
                    }
                }
                return Err(e);
            },
            Ok(r) => r,
        };
        proof {
            lemma_begins(before.runs@, middle.runs@, self.runs@);
            assert forall|all: Seq<Seq<Option<DefinitionView>>>| #[trigger]
                begins(self.runs@, all) implies two_values(
                self.world(all),
                (first@, a@),
                (second@, b@),
                before.progress(),
            ) == Ok::<((Seq<char>, Seq<char>), Progress), Stopped>(
                ((x.value@, y.value@), self.progress()),
            ) by {
                lemma_begins(middle.runs@, self.runs@, all);
            }
        }
        Ok((x.value, y.value))
    }

    fn resolve_form_field(&mut self, label: &str, field: &FormField) -> (result: Result<
        FormField,
        RequestResolutionError,
    >)
        requires
            old(self).wf(),
        ensures
            final(self).follows(*old(self)),
            forall|all: Seq<Seq<Option<DefinitionView>>>| #[trigger]
                begins(final(self).runs@, all) ==> entry_value(final(self).world(all), label@, field@, old(self).progress()) == (match result {
                    Ok(r) => Ok((r@, final(self).progress())),
                    Err(e) => Err(Stopped { error: e@, templates: final(self).templates@ }),
                }),
    {
        let ghost before = *self;
        let name = match self.resolve(concat2(label, ".name"), field.name.as_str()) {
            Err(e) => return Err(e),
            Ok(r) => r,
        };
        let ghost middle = *self;
        let value = match self.resolve(concat2(label, ".value"), field.value.as_str()) {
            Err(e) => {
                proof {
                    lemma_begins(before.runs@, middle.runs@, self.runs@);
                    assert forall|all: Seq<Seq<Option<DefinitionView>>>| #[trigger]
                        begins(self.runs@, all) implies entry_value(
                        self.world(all),
                        label@,
                        field@,
                        before.progress(),
                    ) == Err::<(FormFieldView, Progress), Stopped>(Stopped { error: e@, templates: self.templates@ }) by {
                        lemma_begins(middle.runs@, self.runs@, all);
                    }
                }
                return Err(e);
            },
            Ok(r) => r,
        };
        let sensitivity = combined_sensitivity(field.sensitivity, &name, &value);
        let r = FormField {
            name: name.value,
            value: value.value,
            enabled: field.enabled,
            sensitivity,
        };
        proof {
            lemma_begins(before.runs@, middle.runs@, self.runs@);
            assert forall|all: Seq<Seq<Option<DefinitionView>>>| #[trigger]
                begins(self.runs@, all) implies entry_value(
                self.world(all),
                label@,
                field@,
                before.progress(),
            ) == Ok::<(FormFieldView, Progress), Stopped>((r@, self.progress())) by {
                lemma_begins(middle.runs@, self.runs@, all);
            }
        }
        Ok(r)
    }

    fn resolve_header(&mut self, label: &str, field: &HeaderEntry) -> (result: Result<
        HeaderEntry,
        RequestResolutionError,
    >)
        requires
            old(self).wf(),
        ensures
            final(self).follows(*old(self)),
            forall|all: Seq<Seq<Option<DefinitionView>>>| #[trigger]
                begins(final(self).runs@, all) ==> entry_value(final(self).world(all), label@, field@, old(self).progress()) == (match result {
                    Ok(r) => Ok((r@, final(self).progress())),
                    Err(e) => Err(Stopped { error: e@, templates: final(self).templates@ }),
                }),
    {
        let ghost before = *self;
        let name = match self.resolve(concat2(label, ".name"), field.name.as_str()) {
            Err(e) => return Err(e),
            Ok(r) => r,
        };
        let ghost middle = *self;
        let value = match self.resolve(concat2(label, ".value"), field.value.as_str()) {
            Err(e) => {
                proof {
                    lemma_begins(before.runs@, middle.runs@, self.runs@);
                    assert forall|all: Seq<Seq<Option<DefinitionView>>>| #[trigger]
                        begins(self.runs@, all) implies entry_value(
                        self.world(all),
                        label@,
                        field@,
                        before.progress(),
                    ) == Err::<(FormFieldView, Progress), Stopped>(Stopped { error: e@, templates: self.templates@ }) by {
                        lemma_begins(middle.runs@, self.runs@, all);
                    }
                }
                return Err(e);
            },
            Ok(r) => r,
        };
        let sensitivity = combined_sensitivity(field.sensitivity, &name, &value);
        let r = HeaderEntry {
            name: name.value,
            value: value.value,
            enabled: field.enabled,
            sensitivity,
        };
        proof {
            lemma_begins(before.runs@, middle.runs@, self.runs@);
            assert forall|all: Seq<Seq<Option<DefinitionView>>>| #[trigger]
                begins(self.runs@, all) implies entry_value(
                self.world(all),
                label@,
                field@,
                before.progress(),
            ) == Ok::<(FormFieldView, Progress), Stopped>((r@, self.progress())) by {
                lemma_begins(middle.runs@, self.runs@, all);
            }
        }
        Ok(r)
    }

    fn resolve_form_fields(&mut self, prefix: &str, list: &[FormField]) -> (result: Result<
        Vec<FormField>,
        RequestResolutionError,
    >)
        requires
            old(self).wf(),
        ensures
            final(self).follows(*old(self)),
            forall|all: Seq<Seq<Option<DefinitionView>>>| #[trigger]
                begins(final(self).runs@, all) ==> entry_values(final(self).world(all), prefix@, form_views(list@), list@.len(), old(self).progress()) == (match result {
                    Ok(r) => Ok((form_views(r@), final(self).progress())),
                    Err(e) => Err(Stopped { error: e@, templates: final(self).templates@ }),
                }),
    {
        let ghost before = *self;
        let ghost all_fields = form_views(list@);
        let mut done: Vec<FormField> = Vec::new();
        assert(self.runs@.take(self.runs@.len() as int) =~= self.runs@);
        assert(form_views(done@) =~= seq![]);
        for i in 0..list.len()
            invariant
                before == *old(self),
                self.follows(before),
                all_fields == form_views(list@),
                forall|all: Seq<Seq<Option<DefinitionView>>>| #[trigger]
                    begins(self.runs@, all) ==> entry_values(
                        self.world(all),
                        prefix@,
                        all_fields,
                        i as nat,
                        before.progress(),
                    ) == Ok::<(Seq<FormFieldView>, Progress), Stopped>(
                        (form_views(done@), self.progress()),
                    ),
        {
            let ghost middle = *self;
            let ghost so_far = form_views(done@);
            let label = label_of(prefix, i);
            assert(all_fields[i as int] == list@[i as int]@);
            match self.resolve_form_field(label.as_str(), &list[i]) {
                Err(e) => {
                    proof {
                        lemma_begins(before.runs@, middle.runs@, self.runs@);
                        assert forall|all: Seq<Seq<Option<DefinitionView>>>| #[trigger]
                            begins(self.runs@, all) implies entry_values(
                            self.world(all),
                            prefix@,
                            all_fields,
                            list@.len(),
                            before.progress(),
                        ) == Err::<(Seq<FormFieldView>, Progress), Stopped>(Stopped { error: e@, templates: self.templates@ }) by {
                            lemma_begins(middle.runs@, self.runs@, all);
                            lemma_entries_fail(
                                self.world(all),
                                prefix@,
                                all_fields,
                                (i + 1) as nat,
                                list@.len(),
                                before.progress(),
                            );
                        }
                    }
                    return Err(e);
                },
                Ok(field) => {
                    proof {
                        lemma_begins(before.runs@, middle.runs@, self.runs@);
                        assert forall|all: Seq<Seq<Option<DefinitionView>>>| #[trigger]
                            begins(self.runs@, all) implies entry_values(
                            self.world(all),
                            prefix@,
                            all_fields,
                            (i + 1) as nat,
                            before.progress(),
                        ) == Ok::<(Seq<FormFieldView>, Progress), Stopped>(
                            (so_far.push(field@), self.progress()),
                        ) by {
                            lemma_begins(middle.runs@, self.runs@, all);
                        }
                    }
                    done.push(field);
                    assert(form_views(done@) =~= so_far.push(field@));
                },
            }
        }
        Ok(done)
    }

    fn resolve_headers(&mut self, prefix: &str, list: &[HeaderEntry]) -> (result: Result<
        Vec<HeaderEntry>,
        RequestResolutionError,
    >)
        requires
            old(self).wf(),
        ensures
            final(self).follows(*old(self)),
            forall|all: Seq<Seq<Option<DefinitionView>>>| #[trigger]
                begins(final(self).runs@, all) ==> entry_values(final(self).world(all), prefix@, header_views(list@), list@.len(), old(self).progress()) == (match result {
                    Ok(r) => Ok((header_views(r@), final(self).progress())),
                    Err(e) => Err(Stopped { error: e@, templates: final(self).templates@ }),
                }),
    {
        let ghost before = *self;
        let ghost all_fields = header_views(list@);
        let mut done: Vec<HeaderEntry> = Vec::new();
        assert(self.runs@.take(self.runs@.len() as int) =~= self.runs@);
        assert(header_views(done@) =~= seq![]);
        for i in 0..list.len()
            invariant
                before == *old(self),
                self.follows(before),
                all_fields == header_views(list@),
                forall|all: Seq<Seq<Option<DefinitionView>>>| #[trigger]
                    begins(self.runs@, all) ==> entry_values(
                        self.world(all),
                        prefix@,
                        all_fields,
                        i as nat,
                        before.progress(),
                    ) == Ok::<(Seq<FormFieldView>, Progress), Stopped>(
                        (header_views(done@), self.progress()),
                    ),
        {
            let ghost middle = *self;
            let ghost so_far = header_views(done@);
            let label = label_of(prefix, i);
            assert(all_fields[i as int] == list@[i as int]@);
            match self.resolve_header(label.as_str(), &list[i]) {
                Err(e) => {
                    proof {
                        lemma_begins(before.runs@, middle.runs@, self.runs@);
                        assert forall|all: Seq<Seq<Option<DefinitionView>>>| #[trigger]
                            begins(self.runs@, all) implies entry_values(
                            self.world(all),
                            prefix@,
                            all_fields,
                            list@.len(),
                            before.progress(),
                        ) == Err::<(Seq<FormFieldView>, Progress), Stopped>(Stopped { error: e@, templates: self.templates@ }) by {
                            lemma_begins(middle.runs@, self.runs@, all);
                            lemma_entries_fail(
                                self.world(all),
                                prefix@,
                                all_fields,
                                (i + 1) as nat,
                                list@.len(),
                                before.progress(),
                            );
                        }
                    }
                    return Err(e);
                },
                Ok(field) => {
                    proof {
                        lemma_begins(before.runs@, middle.runs@, self.runs@);
                        assert forall|all: Seq<Seq<Option<DefinitionView>>>| #[trigger]
                            begins(self.runs@, all) implies entry_values(
                            self.world(all),
                            prefix@,
                            all_fields,
                            (i + 1) as nat,
                            before.progress(),
                        ) == Ok::<(Seq<FormFieldView>, Progress), Stopped>(
                            (so_far.push(field@), self.progress()),
                        ) by {
                            lemma_begins(middle.runs@, self.runs@, all);
                        }
                    }
                    done.push(field);
                    assert(header_views(done@) =~= so_far.push(field@));
                },
            }
        }
        Ok(done)
    }

    fn resolve_part(&mut self, label: &str, field: &MultipartField) -> (result: Result<
        MultipartField,
        RequestResolutionError,
    >)
        requires
            old(self).wf(),
        ensures
            final(self).follows(*old(self)),
            forall|all: Seq<Seq<Option<DefinitionView>>>| #[trigger]
                begins(final(self).runs@, all) ==> part_value(final(self).world(all), label@, field@, old(self).progress()) == (match result {
                    Ok(r) => Ok((r@, final(self).progress())),
                    Err(e) => Err(Stopped { error: e@, templates: final(self).templates@ }),
                }),
    {
        let ghost before = *self;
        let name = match self.resolve(concat2(label, ".name"), field.name.as_str()) {
            Err(e) => return Err(e),
            Ok(r) => r,
        };
        let ghost one = *self;
        let content_type = match self.resolve_optional(
            concat2(label, ".content_type"),
            &field.content_type,
        ) {
            Err(e) => {
                proof {
                    lemma_begins(before.runs@, one.runs@, self.runs@);
                    assert forall|all: Seq<Seq<Option<DefinitionView>>>| #[trigger]
                        begins(self.runs@, all) implies part_value(self.world(all), label@, field@, before.progress()) == Err::<(MultipartFieldView, Progress), Stopped>(Stopped { error: e@, templates: self.templates@ }) by {
                        lemma_begins(one.runs@, self.runs@, all);
                    }
                }
                return Err(e);
            },
            Ok(r) => r,
        };
        let ghost two = *self;
        proof {
            lemma_begins(before.runs@, one.runs@, two.runs@);
        }
        let (ending, text) = match &field.value {
            MultipartValue::Text(text) => (".text", text),
            MultipartValue::File { relative_path } => (".file", relative_path),
        };
        let value = match self.resolve(concat2(label, ending), text.as_str()) {
            Err(e) => {
                proof {
                    lemma_begins(before.runs@, two.runs@, self.runs@);
                    assert forall|all: Seq<Seq<Option<DefinitionView>>>| #[trigger]
                        begins(self.runs@, all) implies part_value(self.world(all), label@, field@, before.progress()) == Err::<(MultipartFieldView, Progress), Stopped>(Stopped { error: e@, templates: self.templates@ }) by {
                        lemma_begins(two.runs@, self.runs@, all);
                        lemma_begins(one.runs@, two.runs@, all);
                    }
                }
                return Err(e);
            },
            Ok(r) => r,
        };
        let sensitivity = combined_sensitivity(field.sensitivity, &name, &value);
        let held = match &field.value {
            MultipartValue::Text(_) => MultipartValue::Text(value.value),
            MultipartValue::File { .. } => MultipartValue::File { relative_path: value.value },
        };
        let r = MultipartField {
            name: field.name.clone(),
            value: held,
            content_type,
            enabled: field.enabled,
            sensitivity,
        };
        proof {
            lemma_begins(before.runs@, two.runs@, self.runs@);
            assert forall|all: Seq<Seq<Option<DefinitionView>>>| #[trigger]
                begins(self.runs@, all) implies part_value(self.world(all), label@, field@, before.progress()) == Ok::<(MultipartFieldView, Progress), Stopped>((r@, self.progress())) by {
                lemma_begins(two.runs@, self.runs@, all);
                lemma_begins(one.runs@, two.runs@, all);
            }
        }
        Ok(r)
    }

    fn resolve_parts(&mut self, prefix: &str, list: &[MultipartField]) -> (result: Result<
        Vec<MultipartField>,
        RequestResolutionError,
    >)
        requires
            old(self).wf(),
        ensures
            final(self).follows(*old(self)),
            forall|all: Seq<Seq<Option<DefinitionView>>>| #[trigger]
                begins(final(self).runs@, all) ==> part_values(final(self).world(all), prefix@, multipart_views(list@), list@.len(), old(self).progress()) == (match result {
                    Ok(r) => Ok((multipart_views(r@), final(self).progress())),
                    Err(e) => Err(Stopped { error: e@, templates: final(self).templates@ }),
                }),
    {
        let ghost before = *self;
        let ghost all_fields = multipart_views(list@);
        let mut done: Vec<MultipartField> = Vec::new();
        assert(self.runs@.take(self.runs@.len() as int) =~= self.runs@);
        assert(multipart_views(done@) =~= seq![]);
        for i in 0..list.len()
            invariant
                before == *old(self),
                self.follows(before),
                all_fields == multipart_views(list@),
                forall|all: Seq<Seq<Option<DefinitionView>>>| #[trigger]
                    begins(self.runs@, all) ==> part_values(
                        self.world(all),
                        prefix@,
                        all_fields,
                        i as nat,
                        before.progress(),
                    ) == Ok::<(Seq<MultipartFieldView>, Progress), Stopped>(
                        (multipart_views(done@), self.progress()),
                    ),
        {
            let ghost middle = *self;
            let ghost so_far = multipart_views(done@);
            let label = label_of(prefix, i);
            assert(all_fields[i as int] == list@[i as int]@);
            match self.resolve_part(label.as_str(), &list[i]) {
                Err(e) => {
                    proof {
                        lemma_begins(before.runs@, middle.runs@, self.runs@);
                        assert forall|all: Seq<Seq<Option<DefinitionView>>>| #[trigger]
                            begins(self.runs@, all) implies part_values(
                            self.world(all),
                            prefix@,
                            all_fields,
                            list@.len(),
                            before.progress(),
                        ) == Err::<(Seq<MultipartFieldView>, Progress), Stopped>(Stopped { error: e@, templates: self.templates@ }) by {
                            lemma_begins(middle.runs@, self.runs@, all);
                            lemma_parts_fail(
                                self.world(all),
                                prefix@,
                                all_fields,
                                (i + 1) as nat,
                                list@.len(),
                                before.progress(),
                            );
                        }
                    }
                    return Err(e);
                },
                Ok(field) => {
                    proof {
                        lemma_begins(before.runs@, middle.runs@, self.runs@);
                        assert forall|all: Seq<Seq<Option<DefinitionView>>>| #[trigger]
                            begins(self.runs@, all) implies part_values(
                            self.world(all),
                            prefix@,
                            all_fields,
                            (i + 1) as nat,
                            before.progress(),
                        ) == Ok::<(Seq<MultipartFieldView>, Progress), Stopped>(
                            (so_far.push(field@), self.progress()),
                        ) by {
                            lemma_begins(middle.runs@, self.runs@, all);
                        }
                    }
                    done.push(field);
                    assert(multipart_views(done@) =~= so_far.push(field@));
                },
            }
        }
        Ok(done)
    }

    fn resolve_authentication(&mut self, a: &Authentication) -> (result: Result<
        Authentication,
        RequestResolutionError,
    >)
        requires
            old(self).wf(),
        ensures
            final(self).follows(*old(self)),
            forall|all: Seq<Seq<Option<DefinitionView>>>| #[trigger]
                begins(final(self).runs@, all) ==> authentication_value(final(self).world(all), a@, old(self).progress()) == (match result {
                    Ok(r) => Ok((r@, final(self).progress())),
                    Err(e) => Err(Stopped { error: e@, templates: final(self).templates@ }),
                }),
    {
        assert(self.runs@.take(self.runs@.len() as int) =~= self.runs@);
        match a {
            Authentication::Anonymous => Ok(Authentication::Anonymous),
            Authentication::Basic { username, password } => match self.resolve_two(
                "auth.username",
                username.as_str(),
                "auth.password",
                password.as_str(),
            ) {
                Err(e) => Err(e),
                Ok((username, password)) => Ok(Authentication::Basic { username, password }),
            },
            Authentication::Bearer { token } => match self.resolve(
                "auth.token".to_owned(),
                token.as_str(),
            ) {
                Err(e) => Err(e),
                Ok(r) => Ok(Authentication::Bearer { token: r.value }),
            },
            Authentication::ApiKey { name, value, placement } => match self.resolve_two(
                "auth.name",
                name.as_str(),
                "auth.value",
                value.as_str(),
            ) {
                Err(e) => Err(e),
                Ok((name, value)) => Ok(
                    Authentication::ApiKey { name, value, placement: *placement },
                ),
            },
        }
    }

    fn resolve_text_body(&mut self, content_type: &Option<String>, text: &str) -> (result: Result<
        RequestBody,
        RequestResolutionError,
    >)
        requires
            old(self).wf(),
        ensures
            final(self).follows(*old(self)),
            forall|all: Seq<Seq<Option<DefinitionView>>>| #[trigger]
                begins(final(self).runs@, all) ==> body_value(final(self).world(all), (BodyView::Text { content_type: optional_text(*content_type), text: text@ }), old(self).progress()) == (match result {
                    Ok(r) => Ok((r@, final(self).progress())),
                    Err(e) => Err(Stopped { error: e@, templates: final(self).templates@ }),
                }),
    {
        let ghost before = *self;
        let kind = match self.resolve_optional("body.content_type".to_owned(), content_type) {
            Err(e) => return Err(e),
            Ok(r) => r,
        };
        let ghost middle = *self;
        let text_value = match self.resolve("body.text".to_owned(), text) {
            Err(e) => {
                proof {
                    lemma_begins(before.runs@, middle.runs@, self.runs@);
                    assert forall|all: Seq<Seq<Option<DefinitionView>>>| #[trigger]
                        begins(self.runs@, all) implies body_value(self.world(all), (BodyView::Text { content_type: optional_text(*content_type), text: text@ }), before.progress()) == Err::<(BodyView, Progress), Stopped>(Stopped { error: e@, templates: self.templates@ }) by {
                        lemma_begins(middle.runs@, self.runs@, all);
                    }
                }
                return Err(e);
            },
            Ok(r) => r,
        };
        let r = RequestBody::Text { content_type: kind, text: text_value.value };
        proof {
            lemma_begins(before.runs@, middle.runs@, self.runs@);
            assert forall|all: Seq<Seq<Option<DefinitionView>>>| #[trigger]
                begins(self.runs@, all) implies body_value(self.world(all), (BodyView::Text { content_type: optional_text(*content_type), text: text@ }), before.progress()) == Ok::<(BodyView, Progress), Stopped>((r@, self.progress())) by {
                lemma_begins(middle.runs@, self.runs@, all);
            }
        }
        Ok(r)
    }

    fn resolve_graph_ql(&mut self, query: &str, variables_json: &str, operation_name: &Option<String>) -> (result: Result<
        RequestBody,
        RequestResolutionError,
    >)
        requires
            old(self).wf(),
        ensures
            final(self).follows(*old(self)),
            forall|all: Seq<Seq<Option<DefinitionView>>>| #[trigger]
                begins(final(self).runs@, all) ==> body_value(final(self).world(all), (BodyView::GraphQl { query: query@, variables_json: variables_json@, operation_name: optional_text(*operation_name) }), old(self).progress()) == (match result {
                    Ok(r) => Ok((r@, final(self).progress())),
                    Err(e) => Err(Stopped { error: e@, templates: final(self).templates@ }),
                }),
    {
        let ghost before = *self;
        let (query_value, variables_value) = match self.resolve_two(
            "body.query",
            query,
            "body.variables_json",
            variables_json,
        ) {
            Err(e) => return Err(e),
            Ok(r) => r,
        };
        let ghost middle = *self;
        let operation = match self.resolve_optional(
            "body.operation_name".to_owned(),
            operation_name,
        ) {
            Err(e) => {
                proof {
                    lemma_begins(before.runs@, middle.runs@, self.runs@);
                    assert forall|all: Seq<Seq<Option<DefinitionView>>>| #[trigger]
                        begins(self.runs@, all) implies body_value(self.world(all), (BodyView::GraphQl { query: query@, variables_json: variables_json@, operation_name: optional_text(*operation_name) }), before.progress()) == Err::<(BodyView, Progress), Stopped>(Stopped { error: e@, templates: self.templates@ }) by {
                        lemma_begins(middle.runs@, self.runs@, all);
                    }
                }
                return Err(e);
            },
            Ok(r) => r,
        };
        let r = RequestBody::GraphQl {
            query: query_value,
            variables_json: variables_value,
            operation_name: operation,
        };
        proof {
            lemma_begins(before.runs@, middle.runs@, self.runs@);
            assert forall|all: Seq<Seq<Option<DefinitionView>>>| #[trigger]
                begins(self.runs@, all) implies body_value(self.world(all), (BodyView::GraphQl { query: query@, variables_json: variables_json@, operation_name: optional_text(*operation_name) }), before.progress()) == Ok::<(BodyView, Progress), Stopped>((r@, self.progress())) by {
                lemma_begins(middle.runs@, self.runs@, all);
            }
        }
        Ok(r)
    }

    fn resolve_body(&mut self, body: &RequestBody) -> (result: Result<
        RequestBody,
        RequestResolutionError,
    >)
        requires
            old(self).wf(),
        ensures
            final(self).follows(*old(self)),
            forall|all: Seq<Seq<Option<DefinitionView>>>| #[trigger]
                begins(final(self).runs@, all) ==> body_value(final(self).world(all), body@, old(self).progress()) == (match result {
                    Ok(r) => Ok((r@, final(self).progress())),
                    Err(e) => Err(Stopped { error: e@, templates: final(self).templates@ }),
                }),
    {
        assert(self.runs@.take(self.runs@.len() as int) =~= self.runs@);
        match body {
            RequestBody::Empty => Ok(RequestBody::Empty),
            RequestBody::Text { content_type, text } => self.resolve_text_body(
                content_type,
                text.as_str(),
            ),
            RequestBody::Json(text) => match self.resolve("body.text".to_owned(), text.as_str()) {
                Err(e) => Err(e),
                Ok(r) => Ok(RequestBody::Json(r.value)),
            },
            RequestBody::Xml(text) => match self.resolve("body.text".to_owned(), text.as_str()) {
                Err(e) => Err(e),
                Ok(r) => Ok(RequestBody::Xml(r.value)),
            },
            RequestBody::GraphQl { query, variables_json, operation_name } =>
                self.resolve_graph_ql(query.as_str(), variables_json.as_str(), operation_name),
            RequestBody::FormUrlEncoded(fields) => match self.resolve_form_fields(
                "body.fields",
                fields.as_slice(),
            ) {
                Err(e) => Err(e),
                Ok(fields) => Ok(RequestBody::FormUrlEncoded(fields)),
            },
            RequestBody::Multipart(fields) => match self.resolve_parts(
                "body.multipart",
                fields.as_slice(),
            ) {
                Err(e) => Err(e),
                Ok(fields) => Ok(RequestBody::Multipart(fields)),
            },
            RequestBody::BinaryFile { relative_path } => match self.resolve("body.file".to_owned(), relative_path.as_str()) {
                Err(e) => Err(e),
                Ok(r) => Ok(RequestBody::BinaryFile { relative_path: r.value }),
            },
            RequestBody::StreamFile { relative_path } => match self.resolve("body.file".to_owned(), relative_path.as_str()) {
                Err(e) => Err(e),
                Ok(r) => Ok(RequestBody::StreamFile { relative_path: r.value }),
            },
        }
    }

    fn resolve_head(&mut self, request: &HttpRequest) -> (result: Result<
        HttpRequest,
        RequestResolutionError,
    >)
        requires
            old(self).wf(),
        ensures
            final(self).follows(*old(self)),
            forall|all: Seq<Seq<Option<DefinitionView>>>| #[trigger]
                begins(final(self).runs@, all) ==> head_value(final(self).world(all), request@, old(self).progress()) == (match result {
                    Ok(r) => Ok((r@, final(self).progress())),
                    Err(e) => Err(Stopped { error: e@, templates: final(self).templates@ }),
                }),
    {
        let ghost before = *self;
        let url = match self.resolve("url".to_owned(), request.url.as_str()) {
            Err(e) => return Err(e),
            Ok(r) => r,
        };
        let ghost one = *self;
        let query = match self.resolve_form_fields("query", request.query.as_slice()) {
            Err(e) => {
                proof {
                    lemma_begins(before.runs@, one.runs@, self.runs@);
                    assert forall|all: Seq<Seq<Option<DefinitionView>>>| #[trigger]
                        begins(self.runs@, all) implies head_value(self.world(all), request@, before.progress()) == Err::<(RequestView, Progress), Stopped>(Stopped { error: e@, templates: self.templates@ }) by {
                        lemma_begins(one.runs@, self.runs@, all);
                    }
                }
                return Err(e);
            },
            Ok(r) => r,
        };
        let ghost two = *self;
        proof {
            lemma_begins(before.runs@, one.runs@, two.runs@);
        }
        let headers = match self.resolve_headers("headers", request.headers.as_slice()) {
            Err(e) => {
                proof {
                    lemma_begins(before.runs@, two.runs@, self.runs@);
                    assert forall|all: Seq<Seq<Option<DefinitionView>>>| #[trigger]
                        begins(self.runs@, all) implies head_value(self.world(all), request@, before.progress()) == Err::<(RequestView, Progress), Stopped>(Stopped { error: e@, templates: self.templates@ }) by {
                        lemma_begins(two.runs@, self.runs@, all);
                        lemma_begins(one.runs@, two.runs@, all);
                    }
                }
                return Err(e);
            },
            Ok(r) => r,
        };
        let r = HttpRequest {
            id: request.id.copy(),
            name: request.name.clone(),
            method: request.method.copy(),
            url: url.value,
            query,
            headers,
            authentication: request.authentication.copy(),
            body: request.body.copy(),
            settings: request.settings,
            documentation: request.documentation.clone(),
        };
        proof {
            lemma_begins(before.runs@, two.runs@, self.runs@);
            assert forall|all: Seq<Seq<Option<DefinitionView>>>| #[trigger]
                begins(self.runs@, all) implies head_value(self.world(all), request@, before.progress()) == Ok::<(RequestView, Progress), Stopped>((r@, self.progress())) by {
                lemma_begins(two.runs@, self.runs@, all);
                lemma_begins(one.runs@, two.runs@, all);
                assert(r@ =~= (RequestView {
                    url: url.value@,
                    query: form_views(query@),
                    headers: header_views(headers@),
                    ..request@
                }));
            }
        }
        Ok(r)
    }

}

/// A list of which an entry cannot be resolved cannot be resolved.
proof fn lemma_entries_fail(
    w: RequestSurroundings,
    prefix: Seq<char>,
    list: Seq<FormFieldView>,
    n: nat,
    m: nat,
    p: Progress,
)
    requires
        n <= m,
        entry_values(w, prefix, list, n, p) is Err,
    ensures
        entry_values(w, prefix, list, m, p) == entry_values(w, prefix, list, n, p),
    decreases m,
{
    if n < m {
        lemma_entries_fail(w, prefix, list, n, (m - 1) as nat, p);
    }
}

/// A multipart body of which a field cannot be resolved cannot be resolved.
proof fn lemma_parts_fail(
    w: RequestSurroundings,
    prefix: Seq<char>,
    list: Seq<MultipartFieldView>,
    n: nat,
    m: nat,
    p: Progress,
)
    requires
        n <= m,
        part_values(w, prefix, list, n, p) is Err,
    ensures
        part_values(w, prefix, list, m, p) == part_values(w, prefix, list, n, p),
    decreases m,
{
    if n < m {
        lemma_parts_fail(w, prefix, list, n, (m - 1) as nat, p);
    }
}

fn copy_traces(list: &[VariableTrace]) -> (r: Vec<VariableTrace>)
    ensures
        trace_views(r@) == trace_views(list@),
{
    let mut r: Vec<VariableTrace> = Vec::new();
    for i in 0..list.len()
        invariant
            r@.len() == i,
            forall|k: int| 0 <= k < i ==> (#[trigger] r@[k])@ == list@[k]@,
    {
        let t = &list[i];
        let mut steps: Vec<TraceStep> = Vec::new();
        for j in 0..t.steps.len()
            invariant
                steps@ == t.steps@.take(j as int),
        {
            steps.push(t.steps[j]);
            assert(steps@ =~= t.steps@.take(j + 1));
        }
        assert(steps@ =~= t.steps@);
        r.push(
            VariableTrace {
                expression: t.expression.clone(),
                root_name: t.root_name.clone(),
                selected_scope: t.selected_scope,
                steps,
                used_default: t.used_default,
                dynamic: t.dynamic,
            },
        );
    }
    assert(trace_views(r@) =~= trace_views(list@));
    r
}

/// Puts the values of variables into every text of a request. What comes back is what the
/// request stands for under the answers that the source of dynamic variables gave: for each
/// text in turn it is asked for the names that the text leads to, and for nothing else.
pub fn resolve_http_request<P: DynamicVariableProvider>(
    request: &HttpRequest,
    context: &VariableContext,
    dynamic: &P,
    options: ResolverOptions,
) -> (result: Result<ResolvedHttpRequest, RequestResolutionError>)
    requires
        context.wf(),
    ensures
        exists|w: RequestSurroundings|
            w.context == context@ && w.options == options && request_heard(dynamic, w, request@)
                && outcome(result) == #[trigger] resolved_request(w, request@),
{
    let mut fields = FieldResolver {
        resolver: VariableResolver::new(context, dynamic, options),
        context: Ghost(context@),
        options: Ghost(options),
        traces: Vec::new(),
        sensitive: TextSet::new(),
        templates: Ghost(Seq::empty()),
        runs: Ghost(Seq::empty()),
    };
    assert(field_trace_views(fields.traces@) =~= seq![]);
    assert(fields.progress() =~= no_progress());
    let head = match fields.resolve_head(request) {
        Err(e) => {
            proof {
                let all = fields.runs@;
                assert(all.take(all.len() as int) =~= all);
                assert(begins(all, all));
                let w = fields.world(all);
                assert(resolved_request(w, request@) == Err::<ResolvedRequestView, FieldErrorView>(e@));
            }
            return Err(e);
        },
        Ok(r) => r,
    };
    let ghost one = fields;
    let authentication = match fields.resolve_authentication(&request.authentication) {
        Err(e) => {
            proof {
                let all = fields.runs@;
                assert(all.take(all.len() as int) =~= all);
                assert(begins(all, all));
                let w = fields.world(all);
                assert(resolved_request(w, request@) == Err::<ResolvedRequestView, FieldErrorView>(e@));
            }
            return Err(e);
        },
        Ok(r) => r,
    };
    let ghost two = fields;
    let body = match fields.resolve_body(&request.body) {
        Err(e) => {
            proof {
                let all = fields.runs@;
                assert(all.take(all.len() as int) =~= all);
                assert(begins(all, all));
                lemma_begins(one.runs@, two.runs@, all);
                let w = fields.world(all);
                assert(resolved_request(w, request@) == Err::<ResolvedRequestView, FieldErrorView>(e@));
            }
            return Err(e);
        },
        Ok(r) => r,
    };
    let sensitive_values = fields.sensitive.to_texts();
    let resolved = HttpRequest { authentication, body, ..head };
    proof {
        let all = fields.runs@;
        assert(all.take(all.len() as int) =~= all);
        assert(begins(all, all));
        lemma_begins(one.runs@, two.runs@, all);
        let w = fields.world(all);
        assert(resolved_request(w, request@) == Ok::<ResolvedRequestView, FieldErrorView>(
            ResolvedRequestView {
                request: resolved@,
                field_traces: field_trace_views(fields.traces@),
                sensitive_values: texts(sensitive_values@),
            },
        ));
    }
    Ok(ResolvedHttpRequest { request: resolved, field_traces: fields.traces, sensitive_values })
}

/// Whether a text holds no placeholder.
pub open spec fn plain(text: Seq<char>) -> bool {
    find(text, "{{"@) is None
}

/// Whether an optional text holds no placeholder.
pub open spec fn plain_optional(text: Option<Seq<char>>) -> bool {
    text matches Some(t) ==> plain(t)
}

/// Whether no named value of a list holds a placeholder.
pub open spec fn plain_entries(list: Seq<FormFieldView>) -> bool {
    forall|i: int| 0 <= i < list.len() ==> plain(#[trigger] list[i].name) && plain(list[i].value)
}

/// Whether no field of a multipart body holds a placeholder.
pub open spec fn plain_parts(list: Seq<MultipartFieldView>) -> bool {
    forall|i: int|
        0 <= i < list.len() ==> plain(#[trigger] list[i].name) && plain_optional(
            list[i].content_type,
        ) && plain(multipart_text(list[i].value).1)
}

/// Whether no text of a request that is resolved holds a placeholder.
pub open spec fn plain_request(r: RequestView) -> bool {
    &&& plain(r.url)
    &&& plain_entries(r.query)
    &&& plain_entries(r.headers)
    &&& match r.authentication {
        AuthenticationView::Anonymous => true,
        AuthenticationView::Basic { username, password } => plain(username) && plain(password),
        AuthenticationView::Bearer { token } => plain(token),
        AuthenticationView::ApiKey { name, value, .. } => plain(name) && plain(value),
    }
    &&& match r.body {
        BodyView::Empty => true,
        BodyView::Text { content_type, text } => plain_optional(content_type) && plain(text),
        BodyView::Json(text) => plain(text),
        BodyView::Xml(text) => plain(text),
        BodyView::GraphQl { query, variables_json, operation_name } => plain(query) && plain(
            variables_json,
        ) && plain_optional(operation_name),
        BodyView::FormUrlEncoded(fields) => plain_entries(fields),
        BodyView::Multipart(fields) => plain_parts(fields),
        BodyView::BinaryFile { relative_path } => plain(relative_path),
        BodyView::StreamFile { relative_path } => plain(relative_path),
    }
}

/// Progress that gathered nothing.
spec fn idle(p: Progress) -> bool {
    p.traces.len() == 0 && p.sensitive == Set::<Seq<char>>::empty()
}

proof fn lemma_plain_field(w: RequestSurroundings, field: Seq<char>, input: Seq<char>, p: Progress)
    requires
        plain(input),
        idle(p),
    ensures
        field_value(w, field, input, p) matches Ok((r, q)) && r.value == input && r.traces.len()
            == 0 && idle(q),
{
    let answers = w.runs[p.templates.len() as int];
    law_plain_template_is_kept(
        Surroundings { context: w.context, options: w.options, answers },
        input,
    );
    assert(Seq::<Seq<char>>::empty().to_set() =~= Set::<Seq<char>>::empty());
    assert(p.sensitive.union(Set::<Seq<char>>::empty()) =~= Set::<Seq<char>>::empty());
}

proof fn lemma_plain_entries(
    w: RequestSurroundings,
    prefix: Seq<char>,
    list: Seq<FormFieldView>,
    n: nat,
    p: Progress,
)
    requires
        n <= list.len(),
        plain_entries(list),
        idle(p),
    ensures
        entry_values(w, prefix, list, n, p) matches Ok((done, q)) && done == list.take(n as int)
            && idle(q),
    decreases n,
{
    if n == 0 {
        assert(list.take(0) =~= seq![]);
    } else {
        lemma_plain_entries(w, prefix, list, (n - 1) as nat, p);
        let (done, q) = entry_values(w, prefix, list, (n - 1) as nat, p)->Ok_0;
        let f = list[n - 1];
        let label = entry_label(prefix, (n - 1) as nat);
        lemma_plain_field(w, label + ".name"@, f.name, q);
        let (name, r) = field_value(w, label + ".name"@, f.name, q)->Ok_0;
        lemma_plain_field(w, label + ".value"@, f.value, r);
        let (value, s) = field_value(w, label + ".value"@, f.value, r)->Ok_0;
        assert((name.traces + value.traces).len() == 0);
        assert(done.push(f) =~= list.take(n as int));
    }
}

proof fn lemma_plain_optional(
    w: RequestSurroundings,
    field: Seq<char>,
    input: Option<Seq<char>>,
    p: Progress,
)
    requires
        plain_optional(input),
        idle(p),
    ensures
        optional_value(w, field, input, p) matches Ok((r, q)) && r == input && idle(q),
{
    if let Some(text) = input {
        lemma_plain_field(w, field, text, p);
    }
}

proof fn lemma_plain_parts(
    w: RequestSurroundings,
    prefix: Seq<char>,
    list: Seq<MultipartFieldView>,
    n: nat,
    p: Progress,
)
    requires
        n <= list.len(),
        plain_parts(list),
        idle(p),
    ensures
        part_values(w, prefix, list, n, p) matches Ok((done, q)) && done == list.take(n as int)
            && idle(q),
    decreases n,
{
    if n == 0 {
        assert(list.take(0) =~= seq![]);
    } else {
        lemma_plain_parts(w, prefix, list, (n - 1) as nat, p);
        let (done, q) = part_values(w, prefix, list, (n - 1) as nat, p)->Ok_0;
        let f = list[n - 1];
        let label = entry_label(prefix, (n - 1) as nat);
        lemma_plain_field(w, label + ".name"@, f.name, q);
        let (name, r) = field_value(w, label + ".name"@, f.name, q)->Ok_0;
        lemma_plain_optional(w, label + ".content_type"@, f.content_type, r);
        let (kind, s) = optional_value(w, label + ".content_type"@, f.content_type, r)->Ok_0;
        let (ending, text) = multipart_text(f.value);
        lemma_plain_field(w, label + ending, text, s);
        let (value, t) = field_value(w, label + ending, text, s)->Ok_0;
        assert((name.traces + value.traces).len() == 0);
        assert(done.push(f) =~= list.take(n as int));
    }
}

proof fn lemma_plain_two(
    w: RequestSurroundings,
    first: (Seq<char>, Seq<char>),
    second: (Seq<char>, Seq<char>),
    p: Progress,
)
    requires
        plain(first.1),
        plain(second.1),
        idle(p),
    ensures
        two_values(w, first, second, p) matches Ok((r, q)) && r == (first.1, second.1) && idle(q),
{
    lemma_plain_field(w, first.0, first.1, p);
    let (a, q) = field_value(w, first.0, first.1, p)->Ok_0;
    lemma_plain_field(w, second.0, second.1, q);
}

proof fn lemma_plain_body(w: RequestSurroundings, b: BodyView, p: Progress, r: RequestView)
    requires
        idle(p),
        plain_request(r),
        r.body == b,
    ensures
        body_value(w, b, p) matches Ok((c, q)) && c == b && idle(q),
{
    match b {
        BodyView::Empty => {},
        BodyView::Text { content_type, text } => {
            lemma_plain_optional(w, "body.content_type"@, content_type, p);
            let (k, q) = optional_value(w, "body.content_type"@, content_type, p)->Ok_0;
            lemma_plain_field(w, "body.text"@, text, q);
        },
        BodyView::Json(text) => {
            lemma_plain_field(w, "body.text"@, text, p);
        },
        BodyView::Xml(text) => {
            lemma_plain_field(w, "body.text"@, text, p);
        },
        BodyView::GraphQl { query, variables_json, operation_name } => {
            let first = ("body.query"@, query);
            let second = ("body.variables_json"@, variables_json);
            lemma_plain_two(w, first, second, p);
            let (k, q) = two_values(w, first, second, p)->Ok_0;
            lemma_plain_optional(w, "body.operation_name"@, operation_name, q);
        },
        BodyView::FormUrlEncoded(fields) => {
            lemma_plain_entries(w, "body.fields"@, fields, fields.len(), p);
            assert(fields.take(fields.len() as int) =~= fields);
        },
        BodyView::Multipart(fields) => {
            lemma_plain_parts(w, "body.multipart"@, fields, fields.len(), p);
            assert(fields.take(fields.len() as int) =~= fields);
        },
        BodyView::BinaryFile { relative_path } => {
            lemma_plain_field(w, "body.file"@, relative_path, p);
        },
        BodyView::StreamFile { relative_path } => {
            lemma_plain_field(w, "body.file"@, relative_path, p);
        },
    }
}

/// A request without placeholders stands for itself, whatever the variables are.
pub proof fn law_plain_request_is_kept(w: RequestSurroundings, request: RequestView)
    requires
        plain_request(request),
    ensures
        resolved_request(w, request) == Ok::<ResolvedRequestView, FieldErrorView>(
            ResolvedRequestView { request, field_traces: seq![], sensitive_values: seq![] },
        ),
{
    let p = no_progress();
    lemma_plain_field(w, "url"@, request.url, p);
    let (url, q) = field_value(w, "url"@, request.url, p)->Ok_0;
    lemma_plain_entries(w, "query"@, request.query, request.query.len(), q);
    let (query, r) = entry_values(w, "query"@, request.query, request.query.len(), q)->Ok_0;
    lemma_plain_entries(w, "headers"@, request.headers, request.headers.len(), r);
    let (headers, s) = entry_values(
        w,
        "headers"@,
        request.headers,
        request.headers.len(),
        r,
    )->Ok_0;
    assert(request.query.take(request.query.len() as int) =~= request.query);
    assert(request.headers.take(request.headers.len() as int) =~= request.headers);
    match request.authentication {
        AuthenticationView::Anonymous => {},
        AuthenticationView::Basic { username, password } => {
            lemma_plain_two(w, ("auth.username"@, username), ("auth.password"@, password), s);
        },
        AuthenticationView::Bearer { token } => {
            lemma_plain_field(w, "auth.token"@, token, s);
        },
        AuthenticationView::ApiKey { name, value, placement } => {
            lemma_plain_two(w, ("auth.name"@, name), ("auth.value"@, value), s);
        },
    }
    let (a, t) = authentication_value(w, request.authentication, s)->Ok_0;
    assert(a == request.authentication);
    lemma_plain_body(w, request.body, t, request);
    let (b, u) = body_value(w, request.body, t)->Ok_0;
    lemma_sorted_nothing();
    assert(u.traces =~= seq![]);
}

/// How far a value is to be kept from view.
pub open spec fn secrecy(s: ValueSensitivity) -> int {
    match s {
        ValueSensitivity::Public => 0,
        ValueSensitivity::Sensitive => 1,
        ValueSensitivity::Secret => 2,
    }
}

/// Whether named values have the shape of others: as many, enabled alike, and none less secret.
pub open spec fn entries_alike(before: Seq<FormFieldView>, after: Seq<FormFieldView>) -> bool {
    &&& after.len() == before.len()
    &&& forall|i: int|
        0 <= i < before.len() ==> (#[trigger] after[i]).enabled == before[i].enabled && secrecy(
            after[i].sensitivity,
        ) >= secrecy(before[i].sensitivity)
}

/// Whether the fields of a multipart body have the shape of others.
pub open spec fn parts_alike(
    before: Seq<MultipartFieldView>,
    after: Seq<MultipartFieldView>,
) -> bool {
    &&& after.len() == before.len()
    &&& forall|i: int|
        0 <= i < before.len() ==> {
            &&& (#[trigger] after[i]).name == before[i].name
            &&& after[i].enabled == before[i].enabled
            &&& (after[i].content_type is Some) == (before[i].content_type is Some)
            &&& (after[i].value is File) == (before[i].value is File)
            &&& secrecy(after[i].sensitivity) >= secrecy(before[i].sensitivity)
        }
}

/// Whether a body has the shape of another.
pub open spec fn bodies_alike(before: BodyView, after: BodyView) -> bool {
    match (before, after) {
        (BodyView::Empty, BodyView::Empty) => true,
        (
            BodyView::Text { content_type: a, .. },
            BodyView::Text { content_type: b, .. },
        ) => (a is Some) == (b is Some),
        (BodyView::Json(_), BodyView::Json(_)) => true,
        (BodyView::Xml(_), BodyView::Xml(_)) => true,
        (
            BodyView::GraphQl { operation_name: a, .. },
            BodyView::GraphQl { operation_name: b, .. },
        ) => (a is Some) == (b is Some),
        (BodyView::FormUrlEncoded(a), BodyView::FormUrlEncoded(b)) => entries_alike(a, b),
        (BodyView::Multipart(a), BodyView::Multipart(b)) => parts_alike(a, b),
        (BodyView::BinaryFile { .. }, BodyView::BinaryFile { .. }) => true,
        (BodyView::StreamFile { .. }, BodyView::StreamFile { .. }) => true,
        _ => false,
    }
}

/// Whether a sender is identified in the way of another.
pub open spec fn authentication_alike(
    before: AuthenticationView,
    after: AuthenticationView,
) -> bool {
    match (before, after) {
        (AuthenticationView::Anonymous, AuthenticationView::Anonymous) => true,
        (AuthenticationView::Basic { .. }, AuthenticationView::Basic { .. }) => true,
        (AuthenticationView::Bearer { .. }, AuthenticationView::Bearer { .. }) => true,
        (
            AuthenticationView::ApiKey { placement: a, .. },
            AuthenticationView::ApiKey { placement: b, .. },
        ) => a == b,
        _ => false,
    }
}

/// Resolving a request leaves its identity, its method, its settings, the kind of its body and
/// the way its sender is identified alone, and so the number of its named values and of the
/// fields of its body. No field becomes less secret.
pub proof fn law_resolution_keeps_the_shape(w: RequestSurroundings, request: RequestView)
    ensures
        resolved_request(w, request) matches Ok(r) ==> {
            &&& r.request.id == request.id
            &&& r.request.name == request.name
            &&& r.request.method == request.method
            &&& r.request.settings == request.settings
            &&& r.request.documentation == request.documentation
            &&& entries_alike(request.query, r.request.query)
            &&& entries_alike(request.headers, r.request.headers)
            &&& authentication_alike(request.authentication, r.request.authentication)
            &&& bodies_alike(request.body, r.request.body)
        },
{
    let p = no_progress();
    if let Ok((url, q)) = field_value(w, "url"@, request.url, p) {
        lemma_entries_shape(w, "query"@, request.query, request.query.len(), q);
        if let Ok((query, r)) = entry_values(w, "query"@, request.query, request.query.len(), q) {
            lemma_entries_shape(w, "headers"@, request.headers, request.headers.len(), r);
            if let Ok((headers, s)) = entry_values(
                w,
                "headers"@,
                request.headers,
                request.headers.len(),
                r,
            ) {
                if let Ok((authentication, t)) = authentication_value(
                    w,
                    request.authentication,
                    s,
                ) {
                    lemma_body_shape(w, request.body, t);
                }
            }
        }
    }
}

proof fn lemma_steps_keep_secrets(current: ValueSensitivity, steps: Seq<TraceStep>)
    ensures
        secrecy(step_sensitivity(current, steps)) >= secrecy(current),
    decreases steps.len(),
{
    if steps.len() > 0 {
        lemma_steps_keep_secrets(current, steps.drop_last());
    }
}

proof fn lemma_traces_keep_secrets(current: ValueSensitivity, traces: Seq<TraceView>)
    ensures
        secrecy(used_sensitivity(current, traces)) >= secrecy(current),
    decreases traces.len(),
{
    if traces.len() > 0 {
        lemma_traces_keep_secrets(current, traces.drop_last());
        lemma_steps_keep_secrets(
            used_sensitivity(current, traces.drop_last()),
            traces.last().steps,
        );
    }
}

proof fn lemma_entries_shape(
    w: RequestSurroundings,
    prefix: Seq<char>,
    list: Seq<FormFieldView>,
    n: nat,
    p: Progress,
)
    requires
        n <= list.len(),
    ensures
        entry_values(w, prefix, list, n, p) matches Ok((done, q)) ==> entries_alike(
            list.take(n as int),
            done,
        ),
        list.take(list.len() as int) == list,
    decreases n,
{
    assert(list.take(list.len() as int) =~= list);
    if n > 0 {
        lemma_entries_shape(w, prefix, list, (n - 1) as nat, p);
        if let Ok((done, q)) = entry_values(w, prefix, list, (n - 1) as nat, p) {
            let f = list[n - 1];
            let label = entry_label(prefix, (n - 1) as nat);
            if let Ok((name, r)) = field_value(w, label + ".name"@, f.name, q) {
                if let Ok((value, s)) = field_value(w, label + ".value"@, f.value, r) {
                    lemma_traces_keep_secrets(f.sensitivity, name.traces + value.traces);
                }
            }
        }
    }
}

proof fn lemma_parts_shape(
    w: RequestSurroundings,
    prefix: Seq<char>,
    list: Seq<MultipartFieldView>,
    n: nat,
    p: Progress,
)
    requires
        n <= list.len(),
    ensures
        part_values(w, prefix, list, n, p) matches Ok((done, q)) ==> parts_alike(
            list.take(n as int),
            done,
        ),
        list.take(list.len() as int) == list,
    decreases n,
{
    assert(list.take(list.len() as int) =~= list);
    if n > 0 {
        lemma_parts_shape(w, prefix, list, (n - 1) as nat, p);
        if let Ok((done, q)) = part_values(w, prefix, list, (n - 1) as nat, p) {
            let f = list[n - 1];
            let label = entry_label(prefix, (n - 1) as nat);
            if let Ok((name, r)) = field_value(w, label + ".name"@, f.name, q) {
                if let Ok((content_type, s)) = optional_value(
                    w,
                    label + ".content_type"@,
                    f.content_type,
                    r,
                ) {
                    if let Ok((value, t)) = field_value(
                        w,
                        label + multipart_text(f.value).0,
                        multipart_text(f.value).1,
                        s,
                    ) {
                        lemma_traces_keep_secrets(f.sensitivity, name.traces + value.traces);
                    }
                }
            }
        }
    }
}

proof fn lemma_body_shape(w: RequestSurroundings, body: BodyView, p: Progress)
    ensures
        body_value(w, body, p) matches Ok((done, q)) ==> bodies_alike(body, done),
{
    match body {
        BodyView::FormUrlEncoded(fields) => {
            lemma_entries_shape(w, "body.fields"@, fields, fields.len(), p);
        },
        BodyView::Multipart(fields) => {
            lemma_parts_shape(w, "body.multipart"@, fields, fields.len(), p);
        },
        _ => {},
    }
}

proof fn lemma_field_finite(
    w: RequestSurroundings,
    field: Seq<char>,
    input: Seq<char>,
    p: Progress,
)
    requires
        p.sensitive.finite(),
    ensures
        field_value(w, field, input, p) matches Ok((_, q)) ==> q.sensitive.finite(),
{
    if let Ok((r, q)) = field_value(w, field, input, p) {
        vstd::seq_lib::seq_to_set_is_finite(r.sensitive_values);
    }
}

proof fn lemma_optional_finite(
    w: RequestSurroundings,
    field: Seq<char>,
    input: Option<Seq<char>>,
    p: Progress,
)
    requires
        p.sensitive.finite(),
    ensures
        optional_value(w, field, input, p) matches Ok((_, q)) ==> q.sensitive.finite(),
{
    if let Some(text) = input {
        lemma_field_finite(w, field, text, p);
    }
}

proof fn lemma_two_finite(
    w: RequestSurroundings,
    first: (Seq<char>, Seq<char>),
    second: (Seq<char>, Seq<char>),
    p: Progress,
)
    requires
        p.sensitive.finite(),
    ensures
        two_values(w, first, second, p) matches Ok((_, q)) ==> q.sensitive.finite(),
{
    lemma_field_finite(w, first.0, first.1, p);
    if let Ok((a, q)) = field_value(w, first.0, first.1, p) {
        lemma_field_finite(w, second.0, second.1, q);
    }
}

proof fn lemma_entries_finite(
    w: RequestSurroundings,
    prefix: Seq<char>,
    list: Seq<FormFieldView>,
    n: nat,
    p: Progress,
)
    requires
        p.sensitive.finite(),
    ensures
        entry_values(w, prefix, list, n, p) matches Ok((_, q)) ==> q.sensitive.finite(),
    decreases n,
{
    if n > 0 {
        lemma_entries_finite(w, prefix, list, (n - 1) as nat, p);
        if let Ok((done, q)) = entry_values(w, prefix, list, (n - 1) as nat, p) {
            let f = list[n - 1];
            let label = entry_label(prefix, (n - 1) as nat);
            lemma_two_finite(w, (label + ".name"@, f.name), (label + ".value"@, f.value), q);
        }
    }
}

proof fn lemma_parts_finite(
    w: RequestSurroundings,
    prefix: Seq<char>,
    list: Seq<MultipartFieldView>,
    n: nat,
    p: Progress,
)
    requires
        p.sensitive.finite(),
    ensures
        part_values(w, prefix, list, n, p) matches Ok((_, q)) ==> q.sensitive.finite(),
    decreases n,
{
    if n > 0 {
        lemma_parts_finite(w, prefix, list, (n - 1) as nat, p);
        if let Ok((done, q)) = part_values(w, prefix, list, (n - 1) as nat, p) {
            let f = list[n - 1];
            let label = entry_label(prefix, (n - 1) as nat);
            lemma_field_finite(w, label + ".name"@, f.name, q);
            if let Ok((name, r)) = field_value(w, label + ".name"@, f.name, q) {
                lemma_optional_finite(w, label + ".content_type"@, f.content_type, r);
                if let Ok((content_type, s)) = optional_value(
                    w,
                    label + ".content_type"@,
                    f.content_type,
                    r,
                ) {
                    lemma_field_finite(
                        w,
                        label + multipart_text(f.value).0,
                        multipart_text(f.value).1,
                        s,
                    );
                }
            }
        }
    }
}

proof fn lemma_authentication_finite(
    w: RequestSurroundings,
    a: AuthenticationView,
    p: Progress,
)
    requires
        p.sensitive.finite(),
    ensures
        authentication_value(w, a, p) matches Ok((_, q)) ==> q.sensitive.finite(),
{
    match a {
        AuthenticationView::Anonymous => {},
        AuthenticationView::Basic { username, password } => {
            lemma_two_finite(w, ("auth.username"@, username), ("auth.password"@, password), p);
        },
        AuthenticationView::Bearer { token } => {
            lemma_field_finite(w, "auth.token"@, token, p);
        },
        AuthenticationView::ApiKey { name, value, .. } => {
            lemma_two_finite(w, ("auth.name"@, name), ("auth.value"@, value), p);
        },
    }
}

proof fn lemma_body_finite(w: RequestSurroundings, b: BodyView, p: Progress)
    requires
        p.sensitive.finite(),
    ensures
        body_value(w, b, p) matches Ok((_, q)) ==> q.sensitive.finite(),
{
    assert forall|field: Seq<char>, text: Seq<char>| (#[trigger] field_value(
        w,
        field,
        text,
        p,
    )) matches Ok((_, q)) ==> q.sensitive.finite() by {
        lemma_field_finite(w, field, text, p);
    }
    match b {
        BodyView::Text { content_type, text } => {
            lemma_optional_finite(w, "body.content_type"@, content_type, p);
            if let Ok((_, q)) = optional_value(w, "body.content_type"@, content_type, p) {
                lemma_field_finite(w, "body.text"@, text, q);
            }
        },
        BodyView::GraphQl { query, variables_json, operation_name } => {
            let first = ("body.query"@, query);
            let second = ("body.variables_json"@, variables_json);
            lemma_two_finite(w, first, second, p);
            if let Ok((_, q)) = two_values(w, first, second, p) {
                lemma_optional_finite(w, "body.operation_name"@, operation_name, q);
            }
        },
        BodyView::FormUrlEncoded(fields) => {
            lemma_entries_finite(w, "body.fields"@, fields, fields.len(), p);
        },
        BodyView::Multipart(fields) => {
            lemma_parts_finite(w, "body.multipart"@, fields, fields.len(), p);
        },
        _ => {},
    }
}

/// What resolving a request finds to be not public is finite: it is listed in ascending order,
/// each value but once, and none is left out.
pub proof fn law_sensitive_values_are_listed_in_order(
    w: RequestSurroundings,
    request: RequestView,
)
    ensures
        request_value(w, request) matches Ok((_, p)) ==> {
            &&& p.sensitive.finite()
            &&& forall|t: Seq<char>|
                sorted_texts(p.sensitive).contains(t) <==> #[trigger] p.sensitive.contains(t)
        },
        resolved_request(w, request) matches Ok(r) ==> texts_ascend(r.sensitive_values),
{
    let p = no_progress();
    lemma_field_finite(w, "url"@, request.url, p);
    if let Ok((url, q)) = field_value(w, "url"@, request.url, p) {
        lemma_entries_finite(w, "query"@, request.query, request.query.len(), q);
        if let Ok((query, r)) = entry_values(w, "query"@, request.query, request.query.len(), q) {
            lemma_entries_finite(w, "headers"@, request.headers, request.headers.len(), r);
            if let Ok((headers, s)) = entry_values(
                w,
                "headers"@,
                request.headers,
                request.headers.len(),
                r,
            ) {
                lemma_authentication_finite(w, request.authentication, s);
                if let Ok((authentication, t)) = authentication_value(
                    w,
                    request.authentication,
                    s,
                ) {
                    lemma_body_finite(w, request.body, t);
                }
            }
        }
    }
    if let Ok((_, p)) = request_value(w, request) {
        lemma_sorted_texts(p.sensitive);
        lemma_sorted_ascend(p.sensitive);
    }
}

} // verus!
