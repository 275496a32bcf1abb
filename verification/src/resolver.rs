//! Putting the values of variables into templates.
use crate::domain::ValueSensitivity;
use crate::error::outcome;
use crate::lines::{find, find_piece, join, join_texts, lemma_find};
use crate::message::concat2;
use crate::number::{byte_length, bytes_in, decimal, decimal_text};
use crate::order::{
    lemma_sorted_ascend, lemma_sorted_nothing, lemma_sorted_texts, sorted_texts, texts_ascend,
    TextSet,
};
use crate::scope::{
    definition_in, effective, precedence, ContextView, VariableContext, VariableScope,
};
use crate::text::{
    chars_of, copy_texts, slices, split_all, split_at_char, split_every, split_once, string_of,
    texts, trim, trim_chars,
};
use crate::value::{display_text, path_value, DefinitionView, VariableDefinition};
use vstd::prelude::*;
use vstd::slice::slice_subrange;
use vstd::string::*;

verus! {

/// How a scope took part in looking a variable up.
#[derive(Clone, Copy, Debug, PartialEq, Eq)]
pub struct TraceStep {
    pub scope: VariableScope,
    pub found: bool,
    pub enabled: bool,
    pub selected: bool,
    pub sensitivity: Option<ValueSensitivity>,
}

/// How an expression was looked up.
#[derive(Clone, Debug, PartialEq, Eq)]
pub struct VariableTrace {
    pub expression: String,
    pub root_name: String,
    pub selected_scope: Option<VariableScope>,
    pub steps: Vec<TraceStep>,
    pub used_default: bool,
    pub dynamic: bool,
}

/// How an expression was looked up, by its contents.
#[verifier::ext_equal]
pub struct TraceView {
    pub expression: Seq<char>,
    pub root_name: Seq<char>,
    pub selected_scope: Option<VariableScope>,
    pub steps: Seq<TraceStep>,
    pub used_default: bool,
    pub dynamic: bool,
}

impl View for VariableTrace {
    type V = TraceView;

    open spec fn view(&self) -> TraceView {
        TraceView {
            expression: self.expression@,
            root_name: self.root_name@,
            selected_scope: self.selected_scope,
            steps: self.steps@,
            used_default: self.used_default,
            dynamic: self.dynamic,
        }
    }
}

/// The contents of a list of traces.
pub open spec fn trace_views(list: Seq<VariableTrace>) -> Seq<TraceView> {
    list.map_values(|t: VariableTrace| t@)
}

/// A template with its variables put in.
#[derive(Clone, Debug, PartialEq, Eq)]
pub struct ResolvedTemplate {
    pub value: String,
    pub traces: Vec<VariableTrace>,
    pub sensitive_values: Vec<String>,
    pub unresolved: Vec<String>,
}

/// A template with its variables put in, by its contents.
#[verifier::ext_equal]
pub struct ResolvedView {
    pub value: Seq<char>,
    pub traces: Seq<TraceView>,
    pub sensitive_values: Seq<Seq<char>>,
    pub unresolved: Seq<Seq<char>>,
}

impl View for ResolvedTemplate {
    type V = ResolvedView;

    open spec fn view(&self) -> ResolvedView {
        ResolvedView {
            value: self.value@,
            traces: trace_views(self.traces@),
            sensitive_values: texts(self.sensitive_values@),
            unresolved: texts(self.unresolved@),
        }
    }
}

/// Why a template could not be resolved.
#[derive(Clone, Debug, PartialEq, Eq)]
pub enum VariableError {
    UnclosedPlaceholder { byte_offset: usize },
    EmptyPlaceholder { byte_offset: usize },
    InvalidExpression(String),
    Unresolved(Vec<String>),
    Cycle(Vec<String>),
    MaximumDepth(usize),
}

/// Why a template could not be resolved, by its contents.
#[verifier::ext_equal]
pub enum VariableErrorView {
    UnclosedPlaceholder { byte_offset: nat },
    EmptyPlaceholder { byte_offset: nat },
    InvalidExpression(Seq<char>),
    Unresolved(Seq<Seq<char>>),
    Cycle(Seq<Seq<char>>),
    MaximumDepth(nat),
}

impl View for VariableError {
    type V = VariableErrorView;

    open spec fn view(&self) -> VariableErrorView {
        match self {
            VariableError::UnclosedPlaceholder { byte_offset } =>
                VariableErrorView::UnclosedPlaceholder { byte_offset: *byte_offset as nat },
            VariableError::EmptyPlaceholder { byte_offset } => VariableErrorView::EmptyPlaceholder {
                byte_offset: *byte_offset as nat,
            },
            VariableError::InvalidExpression(t) => VariableErrorView::InvalidExpression(t@),
            VariableError::Unresolved(names) => VariableErrorView::Unresolved(texts(names@)),
            VariableError::Cycle(path) => VariableErrorView::Cycle(texts(path@)),
            VariableError::MaximumDepth(depth) => VariableErrorView::MaximumDepth(*depth as nat),
        }
    }
}

/// What an error says.
pub open spec fn variable_error_message(e: VariableErrorView) -> Seq<char> {
    match e {
        VariableErrorView::UnclosedPlaceholder { byte_offset } =>
            "unclosed variable placeholder at byte "@ + decimal(byte_offset),
        VariableErrorView::EmptyPlaceholder { byte_offset } =>
            "empty variable placeholder at byte "@ + decimal(byte_offset),
        VariableErrorView::InvalidExpression(t) => "invalid variable expression: "@ + t,
        VariableErrorView::Unresolved(names) => "unresolved variables: "@ + join(names, ", "@),
        VariableErrorView::Cycle(path) => "cyclic variable reference: "@ + join(path, " -> "@),
        VariableErrorView::MaximumDepth(depth) => "variable resolution exceeded depth "@ + decimal(
            depth,
        ),
    }
}

impl VariableError {
    /// What the error says.
    pub fn message(&self) -> (r: String)
        ensures
            r@ == variable_error_message(self@),
    {
        match self {
            VariableError::UnclosedPlaceholder { byte_offset } => concat2(
                "unclosed variable placeholder at byte ",
                decimal_text(*byte_offset as u64).as_str(),
            ),
            VariableError::EmptyPlaceholder { byte_offset } => concat2(
                "empty variable placeholder at byte ",
                decimal_text(*byte_offset as u64).as_str(),
            ),
            VariableError::InvalidExpression(t) => concat2(
                "invalid variable expression: ",
                t.as_str(),
            ),
            VariableError::Unresolved(names) => concat2(
                "unresolved variables: ",
                join_texts(names.as_slice(), ", ").as_str(),
            ),
            VariableError::Cycle(path) => concat2(
                "cyclic variable reference: ",
                join_texts(path.as_slice(), " -> ").as_str(),
            ),
            VariableError::MaximumDepth(depth) => concat2(
                "variable resolution exceeded depth ",
                decimal_text(*depth as u64).as_str(),
            ),
        }
    }
}

/// A source of variables whose names begin with a dollar sign. It may answer the same
/// question differently each time.
pub trait DynamicVariableProvider {
    /// The variable of a name, if there is one.
    fn resolve(&self, name: &str) -> Option<VariableDefinition>;
}

/// How templates are resolved.
#[derive(Clone, Copy, Debug, PartialEq, Eq, Structural)]
pub struct ResolverOptions {
    pub strict_unresolved: bool,
    pub preserve_unresolved: bool,
    pub maximum_depth: usize,
}

impl Default for ResolverOptions {
    fn default() -> (r: ResolverOptions)
        ensures
            r == (ResolverOptions {
                strict_unresolved: true,
                preserve_unresolved: false,
                maximum_depth: 32,
            }),
    {
        ResolverOptions { strict_unresolved: true, preserve_unresolved: false, maximum_depth: 32 }
    }
}

/// What an expression is split into: a path, and what stands in for it.
pub open spec fn split_default_parts(expression: Seq<char>) -> (Seq<char>, Option<Seq<char>>) {
    match split_once(expression, '|') {
        Some((name, default)) => (trim(name), Some(trim(default))),
        None => (trim(expression), None),
    }
}

/// Splits an expression into a path and what stands in for it.
pub fn split_default<'a>(expression: &'a [char]) -> (r: (&'a [char], Option<&'a [char]>))
    ensures
        split_default_parts(expression@) == (
            r.0@,
            match r.1 {
                Some(d) => Some(d@),
                None => None,
            },
        ),
{
    match split_at_char(expression, '|') {
        Some((name, default)) => (trim_chars(name), Some(trim_chars(default))),
        None => (trim_chars(expression), None),
    }
}

/// Whether a name is that of a dynamic variable.
pub open spec fn is_dynamic(name: Seq<char>) -> bool {
    name.len() > 0 && name[0] == '$'
}

/// The definition that a scope gives a name, for a trace.
pub open spec fn traced_definition(
    context: ContextView,
    scope: VariableScope,
    name: Seq<char>,
) -> Option<DefinitionView> {
    if scope == VariableScope::BuiltInDynamic && is_dynamic(name) {
        None
    } else {
        definition_in(context, scope, name)
    }
}

/// How a scope takes part in looking a name up, before one is selected.
pub open spec fn trace_step(context: ContextView, scope: VariableScope, name: Seq<char>) -> TraceStep {
    let d = traced_definition(context, scope, name);
    TraceStep {
        scope,
        found: d is Some,
        enabled: d matches Some(x) && x.enabled,
        selected: false,
        sensitivity: match d {
            Some(x) => Some(x.sensitivity),
            None => None,
        },
    }
}

/// How an expression is looked up, before a definition is selected.
pub open spec fn start_trace(context: ContextView, expression: Seq<char>, root: Seq<char>) -> TraceView {
    TraceView {
        expression,
        root_name: root,
        selected_scope: None,
        steps: precedence().map_values(|s: VariableScope| trace_step(context, s, root)),
        used_default: false,
        dynamic: false,
    }
}

/// The same step, selected where it is that of the scope and can be used.
pub open spec fn select_step(step: TraceStep, scope: VariableScope) -> TraceStep {
    TraceStep { selected: step.scope == scope && step.found && step.enabled, ..step }
}

/// The trace once the definition of a scope is selected.
pub open spec fn select_trace(trace: TraceView, scope: VariableScope) -> TraceView {
    TraceView {
        selected_scope: Some(scope),
        dynamic: is_dynamic(trace.root_name),
        steps: trace.steps.map_values(|s: TraceStep| select_step(s, scope)),
        ..trace
    }
}

/// What resolving has gathered so far; `asked` holds the names that the source of dynamic
/// variables was asked for, in the order of asking.
#[verifier::ext_equal]
pub struct Gathered {
    pub traces: Seq<TraceView>,
    pub sensitive: Set<Seq<char>>,
    pub unresolved: Set<Seq<char>>,
    pub asked: Seq<Seq<char>>,
}

/// Why resolving stopped, and the names that the source of dynamic variables had been asked
/// for by then.
#[verifier::ext_equal]
pub struct Failure {
    pub error: VariableErrorView,
    pub asked: Seq<Seq<char>>,
}

/// What resolving depends on besides the template: the variables, the options, and
/// what the source of dynamic variables answers, question by question.
pub struct Surroundings {
    pub context: ContextView,
    pub options: ResolverOptions,
    pub answers: Seq<Option<DefinitionView>>,
}

/// The definition of an expression's variable that counts.
pub open spec fn selected_definition(w: Surroundings, root: Seq<char>, asked: nat) -> Option<
    (VariableScope, DefinitionView),
> {
    if is_dynamic(root) && w.answers[asked as int] is Some {
        Some((VariableScope::BuiltInDynamic, w.answers[asked as int]->Some_0))
    } else {
        effective(w.context, root)
    }
}

/// What stands for an expression that has no value: its default, or nothing.
pub open spec fn missing_value(
    g: Gathered,
    trace: TraceView,
    default: Option<Seq<char>>,
    name: Seq<char>,
) -> (Option<Seq<char>>, Gathered) {
    match default {
        Some(text) => (
            Some(text),
            Gathered {
                traces: g.traces.push(TraceView { used_default: true, ..trace }),
                ..g
            },
        ),
        None => (
            None,
            Gathered {
                traces: g.traces.push(trace),
                unresolved: g.unresolved.insert(name),
                ..g
            },
        ),
    }
}

/// What an expression stands for, `depth` expressions deep inside those of `stack`.
pub open spec fn expression_value(
    w: Surroundings,
    raw: Seq<char>,
    stack: Seq<Seq<char>>,
    g: Gathered,
    depth: nat,
) -> Result<(Option<Seq<char>>, Gathered), Failure>
    decreases w.options.maximum_depth + 1 - depth, 1int, 0int,
{
    let (path_text, default) = split_default_parts(raw);
    let path = split_all(path_text, '.');
    let root = path[0];
    if stack.contains(root) {
        Err(Failure { error: VariableErrorView::Cycle(stack.push(root)), asked: g.asked })
    } else {
        let start = start_trace(w.context, raw, root);
        let after = Gathered {
            asked: if is_dynamic(root) {
                g.asked.push(root)
            } else {
                g.asked
            },
            ..g
        };
        match selected_definition(w, root, g.asked.len()) {
            None => Ok(missing_value(after, start, default, root)),
            Some((scope, definition)) => {
                let trace = select_trace(start, scope);
                match path_value(definition.value, path.drop_first()) {
                    None => Ok(missing_value(after, trace, default, path_text)),
                    Some(value) => match template_value(
                        w,
                        display_text(value),
                        0,
                        stack.push(root),
                        after,
                        depth,
                    ) {
                        Err(e) => Err(e),
                        Ok((text, inner)) => Ok(
                            (
                                Some(text),
                                Gathered {
                                    traces: inner.traces.push(trace),
                                    sensitive: if definition.sensitivity
                                        != ValueSensitivity::Public && text.len() > 0 {
                                        inner.sensitive.insert(text)
                                    } else {
                                        inner.sensitive
                                    },
                                    ..inner
                                },
                            ),
                        ),
                    },
                }
            },
        }
    }
}

/// The part of a template from a position on, with its variables put in.
pub open spec fn template_value(
    w: Surroundings,
    template: Seq<char>,
    cursor: int,
    stack: Seq<Seq<char>>,
    g: Gathered,
    depth: nat,
) -> Result<(Seq<char>, Gathered), Failure>
    decreases w.options.maximum_depth + 1 - depth, 0int, template.len() - cursor,
{
    if depth > w.options.maximum_depth {
        Err(
            Failure {
                error: VariableErrorView::MaximumDepth(w.options.maximum_depth as nat),
                asked: g.asked,
            },
        )
    } else if cursor < 0 || cursor > template.len() {
        Ok((seq![], g))
    } else {
        match find(template.skip(cursor), "{{"@) {
            None => Ok((template.skip(cursor), g)),
            Some(k) => {
                let start = cursor + k;
                match find(template.skip(start + 2), "}}"@) {
                    None => Err(
                        Failure {
                            error: VariableErrorView::UnclosedPlaceholder {
                                byte_offset: byte_length(template.take(start)),
                            },
                            asked: g.asked,
                        },
                    ),
                    Some(j) => {
                        let end = start + 2 + j;
                        let raw = trim(template.subrange(start + 2, end));
                        if raw.len() == 0 {
                            Err(
                                Failure {
                                    error: VariableErrorView::EmptyPlaceholder {
                                        byte_offset: byte_length(template.take(start)),
                                    },
                                    asked: g.asked,
                                },
                            )
                        } else {
                            match expression_value(w, raw, stack, g, depth + 1) {
                                Err(e) => Err(e),
                                Ok((value, next)) => {
                                    let shown = match value {
                                        Some(text) => text,
                                        None => if w.options.preserve_unresolved {
                                            template.subrange(start, end + 2)
                                        } else {
                                            seq![]
                                        },
                                    };
                                    proof {
                                        lemma_placeholder(template, cursor);
                                    }
                                    match template_value(w, template, end + 2, stack, next, depth) {
                                        Err(e) => Err(e),
                                        Ok((rest, last)) => Ok(
                                            (
                                                template.subrange(cursor, start) + shown + rest,
                                                last,
                                            ),
                                        ),
                                    }
                                },
                            }
                        }
                    },
                }
            },
        }
    }
}

/// A placeholder that was found lies inside the template, after the cursor.
pub proof fn lemma_placeholder(template: Seq<char>, cursor: int)
    requires
        0 <= cursor <= template.len(),
    ensures
        find(template.skip(cursor), "{{"@) matches Some(k) ==> {
            &&& 0 <= k
            &&& cursor + k + 2 <= template.len()
            &&& find(template.skip(cursor + k + 2), "}}"@) matches Some(j) ==> {
                &&& 0 <= j
                &&& cursor + k + 2 + j + 2 <= template.len()
            }
        },
{
    reveal_strlit("{{");
    reveal_strlit("}}");
    lemma_find(template.skip(cursor), "{{"@);
    if let Some(k) = find(template.skip(cursor), "{{"@) {
        lemma_find(template.skip(cursor + k + 2), "}}"@);
    }
}

/// Nothing gathered yet.
pub open spec fn nothing_gathered() -> Gathered {
    Gathered { traces: seq![], sensitive: Set::empty(), unresolved: Set::empty(), asked: seq![] }
}

/// A template with its variables put in.
pub open spec fn resolved_template(w: Surroundings, template: Seq<char>) -> Result<
    ResolvedView,
    VariableErrorView,
> {
    match template_value(w, template, 0, seq![], nothing_gathered(), 0) {
        Err(f) => Err(f.error),
        Ok((value, g)) => if w.options.strict_unresolved && g.unresolved != Set::<
            Seq<char>,
        >::empty() {
            Err(VariableErrorView::Unresolved(sorted_texts(g.unresolved)))
        } else {
            Ok(
                ResolvedView {
                    value,
                    traces: g.traces,
                    sensitive_values: sorted_texts(g.sensitive),
                    unresolved: sorted_texts(g.unresolved),
                },
            )
        },
    }
}

/// The names that the source of dynamic variables is asked for while a template is resolved,
/// in the order of asking.
pub open spec fn questions_asked(w: Surroundings, template: Seq<char>) -> Seq<Seq<char>> {
    match template_value(w, template, 0, seq![], nothing_gathered(), 0) {
        Err(f) => f.asked,
        Ok((_, g)) => g.asked,
    }
}

/// Whether some answers are the first of others.
pub open spec fn begins<T>(a: Seq<T>, all: Seq<T>) -> bool {
    a.len() <= all.len() && all.take(a.len() as int) == a
}

/// What begins the beginning of a list begins the list.
pub proof fn lemma_begins<T>(a: Seq<T>, b: Seq<T>, all: Seq<T>)
    requires
        begins(a, b),
        begins(b, all),
    ensures
        begins(a, all),
{
    assert(all.take(a.len() as int) =~= b.take(a.len() as int)) by {
        assert forall|i: int| 0 <= i < a.len() implies all.take(a.len() as int)[i] == b[i] by {
            assert(all.take(b.len() as int)[i] == all[i]);
        }
    }
}

/// The contents of an answer.
pub open spec fn answer_view(answer: Option<VariableDefinition>) -> Option<DefinitionView> {
    match answer {
        Some(d) => Some(d@),
        None => None,
    }
}

/// Whether a source of dynamic variables gave an answer when it was asked for a name.
pub open spec fn answer_of<P: DynamicVariableProvider>(
    dynamic: &P,
    name: Seq<char>,
    answer: Option<DefinitionView>,
) -> bool {
    exists|asked: &str, given: Option<VariableDefinition>| #[trigger]
        call_ensures(P::resolve, (dynamic, asked), given) && asked@ == name && answer_view(given)
            == answer
}

/// Whether answers are those that a source of dynamic variables gave to names, one to each.
pub open spec fn answered_by<P: DynamicVariableProvider>(
    dynamic: &P,
    names: Seq<Seq<char>>,
    answers: Seq<Option<DefinitionView>>,
) -> bool {
    &&& names.len() == answers.len()
    &&& forall|k: int|
        0 <= k < answers.len() ==> answer_of(dynamic, names[k], #[trigger] answers[k])
}

/// What resolving has gathered so far, and the variables it is inside of.
struct Resolution {
    stack: Vec<String>,
    traces: Vec<VariableTrace>,
    sensitive: TextSet,
    unresolved: TextSet,
    asked: Ghost<Seq<Seq<char>>>,
    answers: Ghost<Seq<Option<DefinitionView>>>,
}

impl Resolution {
    spec fn wf(&self) -> bool {
        self.sensitive.wf() && self.unresolved.wf()
    }

    spec fn gathered(&self) -> Gathered {
        Gathered {
            traces: trace_views(self.traces@),
            sensitive: self.sensitive@,
            unresolved: self.unresolved@,
            asked: self.asked@,
        }
    }

    fn push_trace(&mut self, trace: VariableTrace)
        requires
            old(self).wf(),
        ensures
            final(self).wf(),
            final(self).stack == old(self).stack,
            final(self).asked == old(self).asked,
            final(self).answers == old(self).answers,
            final(self).gathered() == (Gathered {
                traces: old(self).gathered().traces.push(trace@),
                ..old(self).gathered()
            }),
    {
        let ghost before = self.traces@;
        self.traces.push(trace);
        assert(trace_views(self.traces@) =~= trace_views(before).push(trace@));
    }

    fn miss(&mut self, trace: VariableTrace, default: Option<&[char]>, name: &[char]) -> (r: Option<
        String,
    >)
        requires
            old(self).wf(),
        ensures
            final(self).wf(),
            final(self).stack == old(self).stack,
            final(self).asked == old(self).asked,
            final(self).answers == old(self).answers,
            missing_value(
                old(self).gathered(),
                trace@,
                match default {
                    Some(d) => Some(d@),
                    None => None,
                },
                name@,
            ) == (crate::text::optional_text(r), final(self).gathered()),
    {
        let mut trace = trace;
        match default {
            Some(d) => {
                trace.used_default = true;
                self.push_trace(trace);
                Some(string_of(d))
            },
            None => {
                let ghost g = self.gathered();
                self.unresolved.insert(string_of(name));
                assert(self.gathered() =~= (Gathered {
                    unresolved: g.unresolved.insert(name@),
                    ..g
                }));
                self.push_trace(trace);
                None
            },
        }
    }
}

/// A text put before the part of a template that was resolved.
spec fn continued(front: Seq<char>, rest: Result<(Seq<char>, Gathered), Failure>) -> Result<
    (Seq<char>, Gathered),
    Failure,
> {
    match rest {
        Ok((text, g)) => Ok((front + text, g)),
        Err(e) => Err(e),
    }
}

/// Whether a list holds a text.
pub fn holds_text(list: &[String], text: &[char]) -> (r: bool)
    ensures
        r == texts(list@).contains(text@),
{
    let ghost all = texts(list@);
    for i in 0..list.len()
        invariant
            all == texts(list@),
            forall|k: int| 0 <= k < i ==> all[k] != text@,
    {
        let own = chars_of(list[i].as_str());
        if crate::text::same_chars(own.as_slice(), text) {
            assert(all[i as int] == text@);
            return true;
        }
        assert(all[i as int] == list@[i as int]@);
    }
    false
}

/// Puts the values of variables into templates.
pub struct VariableResolver<'a, P: DynamicVariableProvider> {
    context: &'a VariableContext,
    dynamic: &'a P,
    options: ResolverOptions,
}

impl<'a, P: DynamicVariableProvider> VariableResolver<'a, P> {
    /// Whether the variables are in order.
    pub closed spec fn wf(&self) -> bool {
        self.context.wf()
    }

    /// What resolving depends on, for given answers.
    pub closed spec fn surroundings(&self, answers: Seq<Option<DefinitionView>>) -> Surroundings {
        Surroundings { context: self.context@, options: self.options, answers }
    }

    /// The source of dynamic variables.
    pub closed spec fn provider(&self) -> P {
        *self.dynamic
    }

    /// Whether all that was heard from the source of dynamic variables is its own answers.
    spec fn heard(&self, r: Resolution) -> bool {
        answered_by(self.dynamic, r.asked@, r.answers@)
    }

    /// A resolver of the given variables.
    pub fn new(context: &'a VariableContext, dynamic: &'a P, options: ResolverOptions) -> (r: Self)
        requires
            context.wf(),
        ensures
            r.wf(),
            r.provider() == *dynamic,
            forall|answers: Seq<Option<DefinitionView>>| #[trigger]
                r.surroundings(answers) == (Surroundings { context: context@, options, answers }),
    {
        VariableResolver { context, dynamic, options }
    }

    fn layer_definition(&self, scope: VariableScope, root: &str) -> (r: Option<&VariableDefinition>)
        requires
            self.wf(),
        ensures
            match r {
                Some(d) => traced_definition(self.context@, scope, root@) == Some(d@),
                None => traced_definition(self.context@, scope, root@) is None,
            },
    {
        let name = chars_of(root);
        if scope == VariableScope::BuiltInDynamic && name.len() > 0 && name[0] == '$' {
            return None;
        }
        self.context.definition(scope, root)
    }

    fn trace_for(&self, expression: &[char], root: &str) -> (r: VariableTrace)
        requires
            self.wf(),
        ensures
            r@ == start_trace(self.context@, expression@, root@),
    {
        let scopes = VariableScope::in_precedence();
        let mut steps: Vec<TraceStep> = Vec::new();
        for i in 0..10usize
            invariant
                self.wf(),
                scopes@ == precedence(),
                precedence().len() == 10,
                steps@.len() == i,
                forall|k: int|
                    0 <= k < i ==> steps@[k] == trace_step(self.context@, #[trigger] scopes@[k], root@),
        {
            let scope = scopes[i];
            let definition = self.layer_definition(scope, root);
            let step = match definition {
                Some(d) => TraceStep {
                    scope,
                    found: true,
                    enabled: d.enabled,
                    selected: false,
                    sensitivity: Some(d.sensitivity),
                },
                None => TraceStep {
                    scope,
                    found: false,
                    enabled: false,
                    selected: false,
                    sensitivity: None,
                },
            };
            assert(step == trace_step(self.context@, scope, root@));
            steps.push(step);
        }
        let r = VariableTrace {
            expression: string_of(expression),
            root_name: root.to_owned(),
            selected_scope: None,
            steps,
            used_default: false,
            dynamic: false,
        };
        assert(r@.steps =~= start_trace(self.context@, expression@, root@).steps);
        r
    }

    fn select(&self, trace: VariableTrace, scope: VariableScope, dynamic: bool) -> (r: VariableTrace)
        requires
            dynamic == is_dynamic(trace.root_name@),
        ensures
            r@ == select_trace(trace@, scope),
    {
        let mut steps: Vec<TraceStep> = Vec::new();
        for i in 0..trace.steps.len()
            invariant
                steps@.len() == i,
                forall|k: int| 0 <= k < i ==> #[trigger] steps@[k] == select_step(trace.steps@[k], scope),
        {
            let s = trace.steps[i];
            let mut t = s;
            t.selected = s.scope == scope && s.found && s.enabled;
            steps.push(t);
        }
        let r = VariableTrace {
            expression: trace.expression,
            root_name: trace.root_name,
            selected_scope: Some(scope),
            steps,
            used_default: trace.used_default,
            dynamic,
        };
        assert(r@.steps =~= select_trace(trace@, scope).steps);
        r
    }

    fn resolve_template(&self, template: &[char], r: &mut Resolution, depth: usize) -> (result: Result<
        String,
        VariableError,
    >)
        requires
            self.wf(),
            old(r).wf(),
            self.heard(*old(r)),
            depth <= self.options.maximum_depth + 1,
            depth == old(r).stack@.len(),
        ensures
            self.heard(*final(r)),
            begins(old(r).answers@, final(r).answers@),
            match result {
                Ok(text) => final(r).wf() && texts(final(r).stack@) == texts(old(r).stack@)
                    && forall|all: Seq<Option<DefinitionView>>| #[trigger]
                    begins(final(r).answers@, all) ==> template_value(
                        self.surroundings(all),
                        template@,
                        0,
                        texts(old(r).stack@),
                        old(r).gathered(),
                        depth as nat,
                    ) == Ok::<(Seq<char>, Gathered), Failure>(
                        (text@, final(r).gathered()),
                    ),
                Err(e) => forall|all: Seq<Option<DefinitionView>>| #[trigger]
                    begins(final(r).answers@, all) ==> template_value(
                        self.surroundings(all),
                        template@,
                        0,
                        texts(old(r).stack@),
                        old(r).gathered(),
                        depth as nat,
                    ) == Err::<(Seq<char>, Gathered), Failure>(Failure { error: e@, asked: final(r).asked@ }),
            },
        decreases self.options.maximum_depth + 1 - depth, 0int,
    {
        let ghost stack = texts(r.stack@);
        let ghost g0 = r.gathered();
        let ghost a0 = r.answers@;
        assert(a0.take(a0.len() as int) =~= a0);
        if depth > self.options.maximum_depth {
            return Err(VariableError::MaximumDepth(self.options.maximum_depth));
        }
        let open = chars_of("{{");
        let close = chars_of("}}");
        proof {
            reveal_strlit("{{");
            reveal_strlit("}}");
        }
        let mut out = String::new();
        let length: usize = template.len();
        let mut cursor: usize = 0;
        proof {
            assert forall|all: Seq<Option<DefinitionView>>| #[trigger] begins(a0, all) implies continued(
                Seq::empty(),
                template_value(self.surroundings(all), template@, 0, stack, g0, depth as nat),
            ) == template_value(self.surroundings(all), template@, 0, stack, g0, depth as nat) by {
                let v = template_value(self.surroundings(all), template@, 0, stack, g0, depth as nat);
                if let Ok((text, g)) = v {
                    assert(Seq::<char>::empty() + text =~= text);
                }
            }
        }
        loop
            invariant
                stack == texts(old(r).stack@),
                g0 == old(r).gathered(),
                length == template@.len(),
                a0 == old(r).answers@,
                self.wf(),
                r.wf(),
                self.heard(*r),
                open@ == "{{"@,
                close@ == "}}"@,
                "{{"@.len() == 2,
                "}}"@.len() == 2,
                depth <= self.options.maximum_depth,
                depth == stack.len(),
                cursor <= template@.len(),
                texts(r.stack@) == stack,
                begins(a0, r.answers@),
                forall|all: Seq<Option<DefinitionView>>| #[trigger]
                    begins(r.answers@, all) ==> template_value(
                        self.surroundings(all),
                        template@,
                        0,
                        stack,
                        g0,
                        depth as nat,
                    ) == continued(
                        out@,
                        template_value(
                            self.surroundings(all),
                            template@,
                            cursor as int,
                            stack,
                            r.gathered(),
                            depth as nat,
                        ),
                    ),
            decreases template@.len() - cursor,
        {
            let ghost here = template@.skip(cursor as int);
            let start = match find_piece(template, cursor, open.as_slice()) {
                Some(k) => k,
                None => {
                    let rest = slice_subrange(template, cursor, length);
                    let tail = string_of(rest);
                    out.append(tail.as_str());
                    assert(rest@ =~= here);
                    assert forall|all: Seq<Option<DefinitionView>>| #[trigger]
                        begins(r.answers@, all) implies template_value(
                        self.surroundings(all),
                        template@,
                        0,
                        stack,
                        g0,
                        depth as nat,
                    ) == Ok::<(Seq<char>, Gathered), Failure>((out@, r.gathered())) by {}
                    return Ok(out);
                },
            };
            proof {
                lemma_placeholder(template@, cursor as int);
            }
            let lead = slice_subrange(template, 0, start);
            assert(lead@ =~= template@.take(start as int));
            let end = match find_piece(template, start + 2, close.as_slice()) {
                Some(k) => k,
                None => {
                    let offset = bytes_in(string_of(lead).as_str());
                    return Err(VariableError::UnclosedPlaceholder { byte_offset: offset });
                },
            };
            let inside = slice_subrange(template, start + 2, end);
            let raw = trim_chars(inside);
            assert(inside@ =~= template@.subrange(start + 2, end as int));
            if raw.len() == 0 {
                let offset = bytes_in(string_of(lead).as_str());
                return Err(VariableError::EmptyPlaceholder { byte_offset: offset });
            }
            let ghost g1 = r.gathered();
            let ghost a1 = r.answers@;
            let ghost out1 = out@;
            let between = slice_subrange(template, cursor, start);
            assert(between@ =~= template@.subrange(cursor as int, start as int));
            let value = match self.resolve_expression(raw, r, depth) {
                Ok(v) => v,
                Err(e) => {
                    proof {
                        assert forall|all: Seq<Option<DefinitionView>>| #[trigger]
                            begins(r.answers@, all) implies template_value(
                            self.surroundings(all),
                            template@,
                            0,
                            stack,
                            g0,
                            depth as nat,
                        ) == Err::<(Seq<char>, Gathered), Failure>(Failure { error: e@, asked: r.asked@ }) by {
                            lemma_begins(a1, r.answers@, all);
                        }
                        lemma_begins(a0, a1, r.answers@);
                    }
                    return Err(e);
                },
            };
            out.append(string_of(between).as_str());
            let ghost shown = match crate::text::optional_text(value) {
                Some(text) => text,
                None => if self.options.preserve_unresolved {
                    template@.subrange(start as int, end + 2)
                } else {
                    seq![]
                },
            };
            match value {
                Some(text) => {
                    out.append(text.as_str());
                },
                None => {
                    if self.options.preserve_unresolved {
                        let kept = slice_subrange(template, start, end + 2);
                        out.append(string_of(kept).as_str());
                        assert(kept@ =~= template@.subrange(start as int, end + 2));
                    }
                },
            }
            proof {
                assert(out@ =~= out1 + (template@.subrange(cursor as int, start as int) + shown));
                lemma_begins(a0, a1, r.answers@);
                assert forall|all: Seq<Option<DefinitionView>>| #[trigger]
                    begins(r.answers@, all) implies template_value(
                    self.surroundings(all),
                    template@,
                    0,
                    stack,
                    g0,
                    depth as nat,
                ) == continued(
                    out@,
                    template_value(
                        self.surroundings(all),
                        template@,
                        end + 2,
                        stack,
                        r.gathered(),
                        depth as nat,
                    ),
                ) by {
                    lemma_begins(a1, r.answers@, all);
                    let rest = template_value(
                        self.surroundings(all),
                        template@,
                        end + 2,
                        stack,
                        r.gathered(),
                        depth as nat,
                    );
                    if let Ok((text, g)) = rest {
                        let mid = template@.subrange(cursor as int, start as int) + shown;
                        assert(out1 + (mid + text) =~= out@ + text);
                    }
                }
            }
            cursor = end + 2;
        }
    }

    fn resolve_expression(&self, raw: &[char], r: &mut Resolution, depth: usize) -> (result: Result<
        Option<String>,
        VariableError,
    >)
        requires
            self.wf(),
            old(r).wf(),
            self.heard(*old(r)),
            depth <= self.options.maximum_depth,
            depth == old(r).stack@.len(),
        ensures
            self.heard(*final(r)),
            begins(old(r).answers@, final(r).answers@),
            match result {
                Ok(text) => final(r).wf() && texts(final(r).stack@) == texts(old(r).stack@)
                    && forall|all: Seq<Option<DefinitionView>>| #[trigger]
                    begins(final(r).answers@, all) ==> expression_value(
                        self.surroundings(all),
                        raw@,
                        texts(old(r).stack@),
                        old(r).gathered(),
                        depth as nat + 1,
                    ) == Ok::<(Option<Seq<char>>, Gathered), Failure>(
                        (crate::text::optional_text(text), final(r).gathered()),
                    ),
                Err(e) => forall|all: Seq<Option<DefinitionView>>| #[trigger]
                    begins(final(r).answers@, all) ==> expression_value(
                        self.surroundings(all),
                        raw@,
                        texts(old(r).stack@),
                        old(r).gathered(),
                        depth as nat + 1,
                    ) == Err::<(Option<Seq<char>>, Gathered), Failure>(Failure { error: e@, asked: final(r).asked@ }),
            },
        decreases self.options.maximum_depth - depth, 1int,
    {
        let ghost stack = texts(r.stack@);
        let ghost g0 = r.gathered();
        let ghost a0 = r.answers@;
        assert(a0.take(a0.len() as int) =~= a0);
        let (path_text, default) = split_default(raw);
        let path = split_every(path_text, '.');
        let ghost pieces = slices(path@);
        assert(pieces[0] == path@[0]@);
        let root = path[0];
        let root_name = string_of(root);
        if holds_text(r.stack.as_slice(), root) {
            let mut cycle = copy_texts(r.stack.as_slice());
            cycle.push(root_name);
            assert(texts(cycle@) =~= stack.push(root@));
            return Err(VariableError::Cycle(cycle));
        }
        let trace = self.trace_for(raw, root_name.as_str());
        let dynamic = root.len() > 0 && root[0] == '$';
        let answer: Option<VariableDefinition> = if dynamic {
            let asked = root_name.as_str();
            let answer = self.dynamic.resolve(asked);
            proof {
                let names = r.asked@;
                let answers = r.answers@;
                r.asked@ = names.push(root@);
                r.answers@ = answers.push(answer_view(answer));
                assert(call_ensures(P::resolve, (self.dynamic, asked), answer));
                assert(answer_of(self.dynamic, root@, answer_view(answer)));
                assert forall|k: int| 0 <= k < r.answers@.len() implies answer_of(
                    self.dynamic,
                    r.asked@[k],
                    #[trigger] r.answers@[k],
                ) by {
                    if k < answers.len() {
                        assert(r.answers@[k] == answers[k]);
                        assert(r.asked@[k] == names[k]);
                    }
                }
            }
            answer
        } else {
            None
        };
        let ghost a1 = r.answers@;
        let ghost g1 = r.gathered();
        assert(a1.take(a0.len() as int) =~= a0);
        proof {
            assert forall|all: Seq<Option<DefinitionView>>| #[trigger] begins(a1, all) implies
                selected_definition(self.surroundings(all), root@, g0.asked.len()) == (match answer {
                Some(d) => Some((VariableScope::BuiltInDynamic, d@)),
                None => effective(self.context@, root@),
            }) by {
                if dynamic {
                    assert(all.take(a1.len() as int)[a0.len() as int] == all[a0.len() as int]);
                }
            }
        }
        let selected: Option<(VariableScope, &VariableDefinition)> = match &answer {
            Some(d) => Some((VariableScope::BuiltInDynamic, d)),
            None => self.context.effective_definition(root_name.as_str()),
        };
        let (scope, definition) = match selected {
            Some(pair) => pair,
            None => {
                let text = r.miss(trace, default, root);
                return Ok(text);
            },
        };
        let trace = self.select(trace, scope, dynamic);
        let mut rest: Vec<&[char]> = Vec::new();
        for i in 1..path.len()
            invariant
                path@.len() > 0,
                rest@.len() == i - 1,
                forall|k: int| 0 <= k < rest@.len() ==> #[trigger] rest@[k] == path@[k + 1],
        {
            rest.push(path[i]);
        }
        assert(slices(rest@) =~= pieces.drop_first());
        let value = match definition.value.get_path(rest.as_slice()) {
            Some(v) => v,
            None => {
                let text = r.miss(trace, default, path_text);
                return Ok(text);
            },
        };
        let shown = value.display_value();
        let shown_chars = chars_of(shown.as_str());
        let ghost before = r.stack@;
        r.stack.push(root_name);
        assert(texts(r.stack@) =~= stack.push(root@));
        assert(r.gathered() =~= g1);
        let deeper: usize = r.stack.len();
        let rendered = match self.resolve_template(shown_chars.as_slice(), r, deeper) {
            Ok(text) => text,
            Err(e) => {
                proof {
                    lemma_begins(a0, a1, r.answers@);
                    assert forall|all: Seq<Option<DefinitionView>>| #[trigger]
                        begins(r.answers@, all) implies expression_value(
                        self.surroundings(all),
                        raw@,
                        stack,
                        g0,
                        depth as nat + 1,
                    ) == Err::<(Option<Seq<char>>, Gathered), Failure>(Failure { error: e@, asked: r.asked@ }) by {
                        lemma_begins(a1, r.answers@, all);
                    }
                }
                return Err(e);
            },
        };
        let ghost g2 = r.gathered();
        let ghost a2 = r.answers@;
        let ghost with_root = texts(r.stack@);
        assert(with_root == stack.push(root@));
        assert(r.stack@.len() == with_root.len());
        let _ = r.stack.pop();
        assert(texts(r.stack@) =~= with_root.drop_last());
        assert(stack.push(root@).drop_last() =~= stack);
        let exposed = match definition.sensitivity {
            ValueSensitivity::Public => false,
            _ => !rendered.as_str().is_empty(),
        };
        if exposed {
            r.sensitive.insert(rendered.clone());
        }
        r.push_trace(trace);
        proof {
            lemma_begins(a0, a1, a2);
            let last = Gathered {
                traces: g2.traces.push(trace@),
                sensitive: if definition.sensitivity != ValueSensitivity::Public && rendered@.len()
                    > 0 {
                    g2.sensitive.insert(rendered@)
                } else {
                    g2.sensitive
                },
                ..g2
            };
            assert(r.gathered() =~= last);
            assert forall|all: Seq<Option<DefinitionView>>| #[trigger] begins(r.answers@, all) implies
                expression_value(self.surroundings(all), raw@, stack, g0, depth as nat + 1) == Ok::<
                (Option<Seq<char>>, Gathered),
                Failure,
            >((Some(rendered@), r.gathered())) by {
                lemma_begins(a1, a2, all);
            }
        }
        Ok(Some(rendered))
    }

    /// Puts the values of variables into a template. What comes back is what the template
    /// stands for under the answers that the source of dynamic variables gave: it is asked for
    /// each name that the template leads to, in that order and for nothing else, and each of
    /// its answers is used for the name that it was asked for.
    pub fn resolve(&self, template: &str) -> (result: Result<ResolvedTemplate, VariableError>)
        requires
            self.wf(),
        ensures
            exists|answers: Seq<Option<DefinitionView>>|
                answered_by(
                    &self.provider(),
                    questions_asked(#[trigger] self.surroundings(answers), template@),
                    answers,
                ) && outcome(result) == resolved_template(self.surroundings(answers), template@),
    {
        let mut r = Resolution {
            stack: Vec::new(),
            traces: Vec::new(),
            sensitive: TextSet::new(),
            unresolved: TextSet::new(),
            asked: Ghost(Seq::empty()),
            answers: Ghost(Seq::empty()),
        };
        let ghost g0 = r.gathered();
        proof {
            assert(texts(r.stack@) =~= seq![]);
            assert(g0 =~= nothing_gathered());
        }
        let chars = chars_of(template);
        match self.resolve_template(chars.as_slice(), &mut r, 0) {
            Err(e) => {
                proof {
                    let all = r.answers@;
                    assert(all.take(all.len() as int) =~= all);
                    assert(begins(all, all));
                    let w = self.surroundings(all);
                    assert(resolved_template(w, template@) == Err::<
                        ResolvedView,
                        VariableErrorView,
                    >(e@));
                }
                Err(e)
            },
            Ok(value) => {
                proof {
                    let all = r.answers@;
                    assert(all.take(all.len() as int) =~= all);
                    assert(begins(all, all));
                }
                let ghost w = self.surroundings(r.answers@);
                if self.options.strict_unresolved && !r.unresolved.is_empty() {
                    let names = r.unresolved.to_texts();
                    let result = Err(VariableError::Unresolved(names));
                    assert(outcome(result) == resolved_template(w, template@));
                    return result;
                }
                let result = Ok(
                    ResolvedTemplate {
                        value,
                        traces: r.traces,
                        sensitive_values: r.sensitive.to_texts(),
                        unresolved: r.unresolved.to_texts(),
                    },
                );
                assert(outcome(result) == resolved_template(w, template@));
                result
            },
        }
    }
}

/// A template without placeholders stands for itself, whatever the variables are.
pub proof fn law_plain_template_is_kept(w: Surroundings, template: Seq<char>)
    requires
        find(template, "{{"@) is None,
    ensures
        resolved_template(w, template) == Ok::<ResolvedView, VariableErrorView>(
            ResolvedView {
                value: template,
                traces: seq![],
                sensitive_values: seq![],
                unresolved: seq![],
            },
        ),
{
    assert(template.skip(0) =~= template);
    lemma_sorted_nothing();
}

/// Whether one gathering holds what another does and perhaps more.
pub open spec fn grows(g: Gathered, h: Gathered) -> bool {
    &&& begins(g.traces, h.traces)
    &&& g.sensitive.subset_of(h.sensitive)
    &&& g.unresolved.subset_of(h.unresolved)
    &&& begins(g.asked, h.asked)
    &&& g.sensitive.finite() ==> h.sensitive.finite()
    &&& g.unresolved.finite() ==> h.unresolved.finite()
}

proof fn lemma_grows(a: Gathered, b: Gathered, c: Gathered)
    requires
        grows(a, b),
        grows(b, c),
    ensures
        grows(a, c),
{
    lemma_begins(a.traces, b.traces, c.traces);
    lemma_begins(a.asked, b.asked, c.asked);
}

proof fn lemma_grows_by_trace(g: Gathered, trace: TraceView)
    ensures
        begins(g.traces, g.traces.push(trace)),
{
    assert(g.traces.push(trace).take(g.traces.len() as int) =~= g.traces);
}

/// Resolving an expression forgets nothing that was gathered before.
pub proof fn law_expression_keeps_what_was_gathered(
    w: Surroundings,
    raw: Seq<char>,
    stack: Seq<Seq<char>>,
    g: Gathered,
    depth: nat,
)
    ensures
        expression_value(w, raw, stack, g, depth) matches Ok((value, h)) ==> grows(g, h),
    decreases w.options.maximum_depth + 1 - depth, 1int, 0int,
{
    let (path_text, default) = split_default_parts(raw);
    let path = split_all(path_text, '.');
    let root = path[0];
    let start = start_trace(w.context, raw, root);
    let after = Gathered {
        asked: if is_dynamic(root) {
            g.asked.push(root)
        } else {
            g.asked
        },
        ..g
    };
    assert(g.traces.take(g.traces.len() as int) =~= g.traces);
    assert(after.asked.take(g.asked.len() as int) =~= g.asked);
    assert(grows(g, after));
    assert forall|trace: TraceView, name: Seq<char>| grows(
        g,
        (#[trigger] missing_value(after, trace, default, name)).1,
    ) by {
        lemma_grows_by_trace(g, TraceView { used_default: true, ..trace });
        lemma_grows_by_trace(g, trace);
    }
    if !stack.contains(root) {
        if let Some((scope, definition)) = selected_definition(w, root, g.asked.len()) {
            let trace = select_trace(start, scope);
            if let Some(value) = path_value(definition.value, path.drop_first()) {
                law_template_keeps_what_was_gathered(
                    w,
                    display_text(value),
                    0,
                    stack.push(root),
                    after,
                    depth,
                );
                if let Ok((text, inner)) = template_value(
                    w,
                    display_text(value),
                    0,
                    stack.push(root),
                    after,
                    depth,
                ) {
                    lemma_grows(g, after, inner);
                    lemma_grows_by_trace(inner, trace);
                    lemma_begins(g.traces, inner.traces, inner.traces.push(trace));
                }
            }
        }
    }
}

/// Resolving a template forgets nothing that was gathered before.
pub proof fn law_template_keeps_what_was_gathered(
    w: Surroundings,
    template: Seq<char>,
    cursor: int,
    stack: Seq<Seq<char>>,
    g: Gathered,
    depth: nat,
)
    ensures
        template_value(w, template, cursor, stack, g, depth) matches Ok((text, h)) ==> grows(g, h),
    decreases w.options.maximum_depth + 1 - depth, 0int, template.len() - cursor,
{
    assert(g.traces.take(g.traces.len() as int) =~= g.traces);
    assert(g.asked.take(g.asked.len() as int) =~= g.asked);
    if depth <= w.options.maximum_depth && 0 <= cursor <= template.len() {
        lemma_placeholder(template, cursor);
        if let Some(k) = find(template.skip(cursor), "{{"@) {
            let start = cursor + k;
            if let Some(j) = find(template.skip(start + 2), "}}"@) {
                let end = start + 2 + j;
                let raw = trim(template.subrange(start + 2, end));
                if raw.len() > 0 {
                    law_expression_keeps_what_was_gathered(w, raw, stack, g, depth + 1);
                    if let Ok((value, next)) = expression_value(w, raw, stack, g, depth + 1) {
                        law_template_keeps_what_was_gathered(
                            w,
                            template,
                            end + 2,
                            stack,
                            next,
                            depth,
                        );
                        if let Ok((rest, last)) = template_value(
                            w,
                            template,
                            end + 2,
                            stack,
                            next,
                            depth,
                        ) {
                            lemma_grows(g, next, last);
                        }
                    }
                }
            }
        }
    }
}

/// The text that stands in a template for a variable that is not public is listed
/// among the sensitive values, whatever follows in the template.
pub proof fn law_sensitive_value_is_listed(
    w: Surroundings,
    template: Seq<char>,
    cursor: int,
    stack: Seq<Seq<char>>,
    g: Gathered,
    depth: nat,
)
    requires
        0 <= cursor <= template.len(),
        template_value(w, template, cursor, stack, g, depth) is Ok,
        find(template.skip(cursor), "{{"@) is Some,
    ensures
        ({
            let start = cursor + find(template.skip(cursor), "{{"@)->Some_0;
            let end = start + 2 + find(template.skip(start + 2), "}}"@)->Some_0;
            let raw = trim(template.subrange(start + 2, end));
            let path = split_all(split_default_parts(raw).0, '.');
            let shown = expression_value(w, raw, stack, g, depth + 1)->Ok_0.0;
            let last = template_value(w, template, cursor, stack, g, depth)->Ok_0.1;
            selected_definition(w, path[0], g.asked.len()) matches Some((scope, definition)) ==> {
                definition.sensitivity != ValueSensitivity::Public && path_value(
                    definition.value,
                    path.drop_first(),
                ) is Some && shown->Some_0.len() > 0 ==> shown is Some && last.sensitive.contains(
                    shown->Some_0,
                )
            }
        }),
{
    lemma_placeholder(template, cursor);
    let start = cursor + find(template.skip(cursor), "{{"@)->Some_0;
    let end = start + 2 + find(template.skip(start + 2), "}}"@)->Some_0;
    let raw = trim(template.subrange(start + 2, end));
    let (value, next) = expression_value(w, raw, stack, g, depth + 1)->Ok_0;
    law_template_keeps_what_was_gathered(w, template, end + 2, stack, next, depth);
}

/// A variable that its own value leads back to is refused, and the error names the
/// way there.
pub proof fn law_cycles_are_refused(
    w: Surroundings,
    raw: Seq<char>,
    stack: Seq<Seq<char>>,
    g: Gathered,
    depth: nat,
)
    requires
        stack.contains(split_all(split_default_parts(raw).0, '.')[0]),
    ensures
        expression_value(w, raw, stack, g, depth) == Err::<
            (Option<Seq<char>>, Gathered),
            Failure,
        >(
            Failure {
                error: VariableErrorView::Cycle(
                    stack.push(split_all(split_default_parts(raw).0, '.')[0]),
                ),
                asked: g.asked,
            },
        ),
{
}

/// A template that was resolved strictly left no variable without a value.
pub proof fn law_strict_leaves_nothing_unresolved(w: Surroundings, template: Seq<char>)
    requires
        w.options.strict_unresolved,
    ensures
        resolved_template(w, template) matches Ok(r) ==> r.unresolved.len() == 0,
{
    lemma_sorted_nothing();
}

/// What resolving a template gathers is finite: the values that are not public and the names
/// that stand for nothing are listed in ascending order, each but once, and none is left out.
pub proof fn law_gathered_values_are_listed_in_order(w: Surroundings, template: Seq<char>)
    ensures
        template_value(w, template, 0, seq![], nothing_gathered(), 0) matches Ok((text, g)) ==> {
            &&& g.sensitive.finite() && g.unresolved.finite()
            &&& texts_ascend(sorted_texts(g.sensitive))
            &&& texts_ascend(sorted_texts(g.unresolved))
            &&& forall|t: Seq<char>|
                sorted_texts(g.sensitive).contains(t) <==> #[trigger] g.sensitive.contains(t)
            &&& forall|t: Seq<char>|
                sorted_texts(g.unresolved).contains(t) <==> #[trigger] g.unresolved.contains(t)
        },
        resolved_template(w, template) matches Ok(r) ==> texts_ascend(r.sensitive_values)
            && texts_ascend(r.unresolved),
        resolved_template(w, template) matches Err(VariableErrorView::Unresolved(names)) ==> (
        template_value(w, template, 0, seq![], nothing_gathered(), 0) is Ok ==> texts_ascend(names)),
{
    law_template_keeps_what_was_gathered(w, template, 0, seq![], nothing_gathered(), 0);
    if let Ok((text, g)) = template_value(w, template, 0, seq![], nothing_gathered(), 0) {
        lemma_sorted_ascend(g.sensitive);
        lemma_sorted_ascend(g.unresolved);
        lemma_sorted_texts(g.sensitive);
        lemma_sorted_texts(g.unresolved);
    }
}

} // verus!
