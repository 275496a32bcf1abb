//! What putting the values of variables into a template promises.
use crate::domain::ValueSensitivity;
use crate::lines::{find, lemma_find};
use crate::order::{lemma_sorted_texts, sorted_texts};
use crate::resolver::{
    expression_value, is_dynamic, law_template_keeps_what_was_gathered, lemma_placeholder,
    missing_value, nothing_gathered, questions_asked, resolved_template, select_trace,
    selected_definition, split_default_parts, start_trace, template_value, Failure, Gathered,
    ResolvedView, Surroundings, TraceView, VariableErrorView,
};
use crate::scope::{
    definition_in, effective, law_highest_precedence_wins, scope_rank, ContextView, VariableScope,
};
use crate::text::{
    index_of, is_white_space, lemma_index_of, lemma_trim, split_all, split_once, trim, trimmed,
};
use crate::value::{display_text, member_of, path_value, DefinitionView, ValueView};
use vstd::prelude::*;

verus! {

/// Whether two outcomes agree: both fail, or both give the same.
spec fn alike(
    a: Result<(Seq<char>, Gathered), Failure>,
    b: Result<(Seq<char>, Gathered), Failure>,
) -> bool {
    (a is Err <==> b is Err) && (a is Ok ==> a->Ok_0 == b->Ok_0)
}

/// What stands before the cursor does not matter to the rest of a template.
proof fn lemma_rest_alone(
    w: Surroundings,
    front: Seq<char>,
    rest: Seq<char>,
    cursor: int,
    stack: Seq<Seq<char>>,
    g: Gathered,
    depth: nat,
)
    requires
        0 <= cursor <= rest.len(),
    ensures
        alike(
            template_value(w, front + rest, front.len() + cursor, stack, g, depth),
            template_value(w, rest, cursor, stack, g, depth),
        ),
    decreases rest.len() - cursor,
{
    let whole = front + rest;
    let n = front.len() as int;
    assert(whole.skip(n + cursor) =~= rest.skip(cursor));
    lemma_placeholder(rest, cursor);
    if depth <= w.options.maximum_depth {
        if let Some(k) = find(rest.skip(cursor), "{{"@) {
            let start = cursor + k;
            assert(whole.skip(n + start + 2) =~= rest.skip(start + 2));
            if let Some(j) = find(rest.skip(start + 2), "}}"@) {
                let end = start + 2 + j;
                assert(whole.subrange(n + start + 2, n + end) =~= rest.subrange(start + 2, end));
                assert(whole.subrange(n + start, n + end + 2) =~= rest.subrange(start, end + 2));
                assert(whole.subrange(n + cursor, n + start) =~= rest.subrange(cursor, start));
                let raw = trim(rest.subrange(start + 2, end));
                if raw.len() > 0 {
                    if let Ok((value, next)) = expression_value(w, raw, stack, g, depth + 1) {
                        lemma_rest_alone(w, front, rest, end + 2, stack, next, depth);
                    }
                }
            }
        }
    }
}

/// Whether one gathering is another with some more at its beginning.
spec fn ahead(more: Gathered, g: Gathered, h: Gathered) -> bool {
    &&& g.traces == more.traces + h.traces
    &&& g.sensitive == more.sensitive.union(h.sensitive)
    &&& g.unresolved == more.unresolved.union(h.unresolved)
    &&& g.asked == h.asked
}

/// What was gathered before does not matter to an expression, but for the names asked for.
proof fn lemma_expression_ahead(
    w: Surroundings,
    raw: Seq<char>,
    stack: Seq<Seq<char>>,
    more: Gathered,
    g: Gathered,
    h: Gathered,
    depth: nat,
)
    requires
        ahead(more, g, h),
    ensures
        match (
            expression_value(w, raw, stack, g, depth),
            expression_value(w, raw, stack, h, depth),
        ) {
            (Ok((a, p)), Ok((b, q))) => a == b && ahead(more, p, q),
            (Err(_), Err(_)) => true,
            _ => false,
        },
    decreases w.options.maximum_depth + 1 - depth, 1int, 0int,
{
    let (path_text, default) = split_default_parts(raw);
    let path = split_all(path_text, '.');
    let root = path[0];
    if !stack.contains(root) {
        let start = start_trace(w.context, raw, root);
        let asked = if is_dynamic(root) {
            g.asked.push(root)
        } else {
            g.asked
        };
        let a = Gathered { asked, ..g };
        let b = Gathered { asked, ..h };
        assert(ahead(more, a, b));
        assert forall|trace: TraceView, name: Seq<char>|
            ({
                let x = #[trigger] missing_value(a, trace, default, name);
                let y = missing_value(b, trace, default, name);
                x.0 == y.0 && ahead(more, x.1, y.1)
            }) by {
            lemma_one_more(more, a, b, trace, name);
        }
        if let Some((scope, definition)) = selected_definition(w, root, g.asked.len()) {
            let trace = select_trace(start, scope);
            if let Some(value) = path_value(definition.value, path.drop_first()) {
                lemma_template_ahead(
                    w,
                    display_text(value),
                    0,
                    stack.push(root),
                    more,
                    a,
                    b,
                    depth,
                );
                if let Ok((text, p)) = template_value(
                    w,
                    display_text(value),
                    0,
                    stack.push(root),
                    a,
                    depth,
                ) {
                    let q = template_value(
                        w,
                        display_text(value),
                        0,
                        stack.push(root),
                        b,
                        depth,
                    )->Ok_0.1;
                    lemma_one_more(more, p, q, trace, text);
                }
            }
        }
    }
}

proof fn lemma_one_more(more: Gathered, g: Gathered, h: Gathered, trace: TraceView, text: Seq<char>)
    requires
        ahead(more, g, h),
    ensures
        forall|t: TraceView| g.traces.push(t) == more.traces + #[trigger] h.traces.push(t),
        g.sensitive.insert(text) == more.sensitive.union(h.sensitive.insert(text)),
        g.unresolved.insert(text) == more.unresolved.union(h.unresolved.insert(text)),
{
    assert forall|t: TraceView| g.traces.push(t) == more.traces + #[trigger] h.traces.push(t) by {
        assert(g.traces.push(t) =~= more.traces + h.traces.push(t));
    }
    assert(g.sensitive.insert(text) =~= more.sensitive.union(h.sensitive.insert(text)));
    assert(g.unresolved.insert(text) =~= more.unresolved.union(h.unresolved.insert(text)));
}

/// What was gathered before does not matter to a template, but for the names asked for.
proof fn lemma_template_ahead(
    w: Surroundings,
    template: Seq<char>,
    cursor: int,
    stack: Seq<Seq<char>>,
    more: Gathered,
    g: Gathered,
    h: Gathered,
    depth: nat,
)
    requires
        ahead(more, g, h),
    ensures
        match (
            template_value(w, template, cursor, stack, g, depth),
            template_value(w, template, cursor, stack, h, depth),
        ) {
            (Ok((a, p)), Ok((b, q))) => a == b && ahead(more, p, q),
            (Err(_), Err(_)) => true,
            _ => false,
        },
    decreases w.options.maximum_depth + 1 - depth, 0int, template.len() - cursor,
{
    if depth <= w.options.maximum_depth && 0 <= cursor <= template.len() {
        lemma_placeholder(template, cursor);
        if let Some(k) = find(template.skip(cursor), "{{"@) {
            let start = cursor + k;
            if let Some(j) = find(template.skip(start + 2), "}}"@) {
                let end = start + 2 + j;
                let raw = trim(template.subrange(start + 2, end));
                if raw.len() > 0 {
                    lemma_expression_ahead(w, raw, stack, more, g, h, depth + 1);
                    if let Ok((value, p)) = expression_value(w, raw, stack, g, depth + 1) {
                        let q = expression_value(w, raw, stack, h, depth + 1)->Ok_0.1;
                        lemma_template_ahead(w, template, end + 2, stack, more, p, q, depth);
                    }
                }
            }
        }
    }
}

/// Whether no placeholder begins in a text, nor with its end.
pub open spec fn begins_no_placeholder(text: Seq<char>) -> bool {
    find(text, "{{"@) is None && (text.len() > 0 ==> text.last() != '{')
}

/// Whether a text can stand between the braces of a placeholder.
pub open spec fn fits_in_braces(inner: Seq<char>) -> bool {
    !inner.contains('{') && !inner.contains('}')
}

/// A template with a placeholder after some text and before the rest.
pub open spec fn template_with(
    before: Seq<char>,
    inner: Seq<char>,
    after: Seq<char>,
) -> Seq<char> {
    before + "{{"@ + inner + "}}"@ + after
}

/// The first placeholder is where it was put.
proof fn lemma_first_placeholder(before: Seq<char>, inner: Seq<char>, after: Seq<char>)
    requires
        begins_no_placeholder(before),
        fits_in_braces(inner),
    ensures
        ({
            let t = template_with(before, inner, after);
            let n = before.len() as int;
            let m = inner.len() as int;
            &&& find(t.skip(0), "{{"@) == Some(n)
            &&& find(t.skip(n + 2), "}}"@) == Some(m)
            &&& t.subrange(n + 2, n + 2 + m) == inner
            &&& t.subrange(0, n) == before
            &&& t.subrange(n, n + 2 + m + 2) == "{{"@ + inner + "}}"@
            &&& t == (before + "{{"@ + inner + "}}"@) + after
            &&& t.len() == n + m + 4 + after.len()
        }),
{
    reveal_strlit("{{");
    reveal_strlit("}}");
    let t = template_with(before, inner, after);
    let n = before.len() as int;
    let m = inner.len() as int;
    assert(t.skip(0) =~= t);
    lemma_find(t, "{{"@);
    lemma_find(before, "{{"@);
    assert(t.subrange(n, n + 2) =~= "{{"@);
    assert forall|j: int| 0 <= j < n implies #[trigger] t.subrange(j, j + 2) != "{{"@ by {
        if j + 2 <= n {
            assert(t.subrange(j, j + 2) =~= before.subrange(j, j + 2));
        } else {
            assert(t.subrange(j, j + 2)[0] == before.last());
            assert("{{"@[0] == '{');
        }
    }
    assert(find(t, "{{"@) is Some);
    let k = find(t, "{{"@)->Some_0;
    if k > n {
        assert(t.subrange(n, n + 2) != "{{"@);
    }
    if k < n {
        assert(t.subrange(k, k + 2) != "{{"@);
    }
    let rest = t.skip(n + 2);
    assert(rest =~= inner + "}}"@ + after);
    lemma_find(rest, "}}"@);
    assert(rest.subrange(m, m + 2) =~= "}}"@);
    assert forall|j: int| 0 <= j < m implies #[trigger] rest.subrange(j, j + 2) != "}}"@ by {
        assert(rest.subrange(j, j + 2)[0] == inner[j]);
        assert("}}"@[0] == '}');
        assert(inner.contains(inner[j]));
    }
    assert(find(rest, "}}"@) is Some);
    let l = find(rest, "}}"@)->Some_0;
    if l > m {
        assert(rest.subrange(m, m + 2) != "}}"@);
    }
    if l < m {
        assert(rest.subrange(l, l + 2) != "}}"@);
    }
    assert(t.subrange(n + 2, n + 2 + m) =~= inner);
    assert(t.subrange(0, n) =~= before);
    assert(t.subrange(n, n + 2 + m + 2) =~= "{{"@ + inner + "}}"@);
    assert(t =~= (before + "{{"@ + inner + "}}"@) + after);
}

/// A template is resolved placeholder by placeholder, however far it is nested.
proof fn lemma_by_placeholder_within(
    w: Surroundings,
    before: Seq<char>,
    inner: Seq<char>,
    after: Seq<char>,
    stack: Seq<Seq<char>>,
    g: Gathered,
    depth: nat,
)
    requires
        begins_no_placeholder(before),
        fits_in_braces(inner),
        trim(inner).len() > 0,
        depth <= w.options.maximum_depth,
        find(after, "{{"@) is None,
    ensures
        ({
            let t = template_with(before, inner, after);
            let whole = template_value(w, t, 0, stack, g, depth);
            match expression_value(w, trim(inner), stack, g, depth + 1) {
                Err(e) => whole == Err::<(Seq<char>, Gathered), Failure>(e),
                Ok((Some(text), next)) => whole == Ok::<(Seq<char>, Gathered), Failure>(
                    (before + text + after, next),
                ),
                Ok((None, _)) => true,
            }
        }),
{
    lemma_first_placeholder(before, inner, after);
    let front = before + "{{"@ + inner + "}}"@;
    reveal_strlit("{{");
    reveal_strlit("}}");
    assert(front.len() == before.len() + inner.len() + 4);
    assert(after.skip(0) =~= after);
    if let Ok((value, next)) = expression_value(w, trim(inner), stack, g, depth + 1) {
        lemma_rest_alone(w, front, after, 0, stack, next, depth);
    }
}

/// A template is resolved placeholder by placeholder: what stands before the first is kept,
/// then comes what the placeholder stands for, and then the rest as if it stood alone.
proof fn lemma_by_placeholder(w: Surroundings, before: Seq<char>, inner: Seq<char>, after: Seq<char>)
    requires
        begins_no_placeholder(before),
        fits_in_braces(inner),
        trim(inner).len() > 0,
    ensures
        ({
            let t = template_with(before, inner, after);
            let g = nothing_gathered();
            let whole = template_value(w, t, 0, seq![], g, 0);
            match expression_value(w, trim(inner), seq![], g, 1) {
                Err(_) => whole is Err,
                Ok((value, next)) => {
                    let shown = match value {
                        Some(text) => text,
                        None => if w.options.preserve_unresolved {
                            "{{"@ + inner + "}}"@
                        } else {
                            seq![]
                        },
                    };
                    match template_value(w, after, 0, seq![], next, 0) {
                        Err(_) => whole is Err,
                        Ok((rest, last)) => whole == Ok::<(Seq<char>, Gathered), Failure>(
                            (before + shown + rest, last),
                        ),
                    }
                },
            }
        }),
{
    let t = template_with(before, inner, after);
    let g = nothing_gathered();
    let n = before.len() as int;
    let m = inner.len() as int;
    lemma_first_placeholder(before, inner, after);
    let front = before + "{{"@ + inner + "}}"@;
    reveal_strlit("{{");
    reveal_strlit("}}");
    assert(front.len() == n + m + 4);
    if let Ok((value, next)) = expression_value(w, trim(inner), seq![], g, 1) {
        lemma_rest_alone(w, front, after, 0, seq![], next, 0);
    }
}

/// Whether a definition counts for a name: its scope has it enabled, and no stronger scope has
/// one that is enabled.
pub open spec fn counts(
    context: ContextView,
    name: Seq<char>,
    scope: VariableScope,
    d: DefinitionView,
) -> bool {
    &&& context.dom().contains(scope)
    &&& context[scope].dom().contains(name)
    &&& context[scope][name] == d
    &&& d.enabled
    &&& forall|other: VariableScope|
        scope_rank(other) > #[trigger] scope_rank(scope) && context.dom().contains(other)
            && context[other].dom().contains(name) ==> !(#[trigger] context[other])[name].enabled
}

/// Whether no scope has a name enabled.
pub open spec fn counts_nowhere(context: ContextView, name: Seq<char>) -> bool {
    forall|other: VariableScope|
        context.dom().contains(other) && context[other].dom().contains(name)
            ==> !(#[trigger] context[other])[name].enabled
}

pub proof fn lemma_effective(context: ContextView, name: Seq<char>, scope: VariableScope, d: DefinitionView)
    requires
        counts(context, name, scope, d),
    ensures
        effective(context, name) == Some((scope, d)),
{
    law_highest_precedence_wins(context, name, scope);
    assert(definition_in(context, scope, name) == Some(d));
    if let Some((found, e)) = effective(context, name) {
        law_highest_precedence_wins(context, name, scope);
        crate::scope::lemma_precedence();
        if scope_rank(found) > scope_rank(scope) {
            assert(!context[found][name].enabled);
        }
        assert(scope_rank(found) == scope_rank(scope));
        assert(crate::scope::precedence()[scope_rank(found)] == found);
        assert(crate::scope::precedence()[scope_rank(scope)] == scope);
    }
}

pub proof fn lemma_effective_nowhere(context: ContextView, name: Seq<char>)
    requires
        counts_nowhere(context, name),
    ensures
        effective(context, name) is None,
{
    if let Some((found, e)) = effective(context, name) {
        law_highest_precedence_wins(context, name, found);
        assert(!context[found][name].enabled);
    }
}

/// Whether a trace tells of every scope what it says of a name, and which of them counts.
pub open spec fn traced_as(
    trace: TraceView,
    context: ContextView,
    name: Seq<char>,
    chosen: Option<VariableScope>,
) -> bool {
    &&& trace.expression == name
    &&& trace.root_name == name
    &&& trace.selected_scope == chosen
    &&& !trace.used_default
    &&& !trace.dynamic
    &&& trace.steps.len() == 10
    &&& forall|i: int|
        0 <= i < 10 ==> {
            let step = #[trigger] trace.steps[i];
            let there = context.dom().contains(step.scope) && context[step.scope].dom().contains(
                name,
            );
            &&& scope_rank(step.scope) == i
            &&& step.found == there
            &&& step.enabled == (there && context[step.scope][name].enabled)
            &&& step.selected == (chosen == Some(step.scope))
            &&& step.sensitivity == (if there {
                Some(context[step.scope][name].sensitivity)
            } else {
                None
            })
        }
}

proof fn lemma_traced(
    context: ContextView,
    name: Seq<char>,
    scope: VariableScope,
    d: DefinitionView,
)
    requires
        !is_dynamic(name),
    ensures
        traced_as(start_trace(context, name, name), context, name, None),
        counts(context, name, scope, d) ==> traced_as(
            select_trace(start_trace(context, name, name), scope),
            context,
            name,
            Some(scope),
        ),
{
    crate::scope::lemma_precedence();
}

/// Whether a text is the name of a variable: neither a path nor an expression with a default.
pub open spec fn plain_variable(name: Seq<char>) -> bool {
    &&& name.len() > 0
    &&& trimmed(name)
    &&& !name.contains('|')
    &&& !name.contains('.')
    &&& name[0] != '$'
}

proof fn lemma_never(text: Seq<char>, c: char)
    requires
        !text.contains(c),
    ensures
        index_of(text, c) >= text.len(),
        split_once(text, c) is None,
        split_all(text, c) == seq![text],
{
    lemma_index_of(text, c);
    if index_of(text, c) < text.len() {
        assert(text.contains(text[index_of(text, c)]));
    }
}

proof fn lemma_plain_variable(name: Seq<char>)
    requires
        plain_variable(name),
    ensures
        split_default_parts(name) == (name, None::<Seq<char>>),
        split_all(name, '.') == seq![name],
        !is_dynamic(name),
{
    lemma_never(name, '|');
    lemma_never(name, '.');
    lemma_trim(name);
}

/// What resolving the rest of a template gives once something was gathered before it.
proof fn lemma_then_the_rest(w: Surroundings, after: Seq<char>, more: Gathered)
    requires
        more.asked == Seq::<Seq<char>>::empty(),
    ensures
        match (
            template_value(w, after, 0, seq![], more, 0),
            template_value(w, after, 0, seq![], nothing_gathered(), 0),
        ) {
            (Ok((a, p)), Ok((b, q))) => {
                &&& a == b
                &&& p.traces == more.traces + q.traces
                &&& p.sensitive == more.sensitive.union(q.sensitive)
                &&& p.unresolved == more.unresolved.union(q.unresolved)
                &&& q.sensitive.finite()
                &&& q.unresolved.finite()
            },
            (Err(_), Err(_)) => true,
            _ => false,
        },
{
    let nothing = nothing_gathered();
    assert(more.traces + nothing.traces =~= more.traces);
    assert(more.sensitive.union(nothing.sensitive) =~= more.sensitive);
    assert(more.unresolved.union(nothing.unresolved) =~= more.unresolved);
    lemma_template_ahead(w, after, 0, seq![], more, more, nothing, 0);
    law_template_keeps_what_was_gathered(w, after, 0, seq![], nothing, 0);
}

/// A placeholder of a variable that is defined by plain text is replaced by that text, whatever
/// stands before it, and the rest of the template is resolved as if it stood alone. A text that
/// is not public is listed.
pub proof fn law_placeholders_are_replaced(
    w: Surroundings,
    before: Seq<char>,
    inner: Seq<char>,
    after: Seq<char>,
    scope: VariableScope,
    d: DefinitionView,
    text: Seq<char>,
)
    requires
        begins_no_placeholder(before),
        fits_in_braces(inner),
        plain_variable(trim(inner)),
        counts(w.context, trim(inner), scope, d),
        d.value == ValueView::String(text),
        find(text, "{{"@) is None,
        w.options.maximum_depth >= 1,
    ensures
        match (
            resolved_template(w, template_with(before, inner, after)),
            resolved_template(w, after),
        ) {
            (Ok(whole), Ok(rest)) => {
                &&& whole.value == before + text + rest.value
                &&& whole.traces.len() == 1 + rest.traces.len()
                &&& traced_as(whole.traces[0], w.context, trim(inner), Some(scope))
                &&& whole.traces.skip(1) == rest.traces
                &&& forall|t: Seq<char>|
                    whole.sensitive_values.contains(t) <==> (#[trigger] rest.sensitive_values.contains(
                        t,
                    ) || (t == text && text.len() > 0 && d.sensitivity
                        != ValueSensitivity::Public))
                &&& whole.unresolved == rest.unresolved
            },
            (Err(_), Err(_)) => true,
            _ => false,
        },
{
    let name = trim(inner);
    let g = nothing_gathered();
    lemma_by_placeholder(w, before, inner, after);
    lemma_plain_variable(name);
    lemma_effective(w.context, name, scope, d);
    let path = split_all(name, '.');
    assert(path[0] == name);
    assert(path.drop_first() =~= seq![]);
    assert(path_value(d.value, path.drop_first()) == Some(d.value));
    let trace = select_trace(start_trace(w.context, name, name), scope);
    lemma_traced(w.context, name, scope, d);
    assert(text.skip(0) =~= text);
    assert(!Seq::<Seq<char>>::empty().contains(name));
    let listed = if d.sensitivity != ValueSensitivity::Public && text.len() > 0 {
        g.sensitive.insert(text)
    } else {
        g.sensitive
    };
    let next = Gathered { traces: g.traces.push(trace), sensitive: listed, ..g };
    assert(expression_value(w, name, seq![], g, 1) == Ok::<
        (Option<Seq<char>>, Gathered),
        Failure,
    >((Some(text), next)));
    lemma_then_the_rest(w, after, next);
    if let Ok((rest, q)) = template_value(w, after, 0, seq![], g, 0) {
        let p = template_value(w, after, 0, seq![], next, 0)->Ok_0.1;
        assert(p.unresolved =~= q.unresolved);
        lemma_sorted_texts(q.sensitive);
        assert(listed.finite());
        lemma_sorted_texts(p.sensitive);
        assert forall|t: Seq<char>|
            sorted_texts(p.sensitive).contains(t) <==> (#[trigger] sorted_texts(
                q.sensitive,
            ).contains(t) || (t == text && text.len() > 0 && d.sensitivity
                != ValueSensitivity::Public)) by {
            assert(p.sensitive.contains(t) <==> (q.sensitive.contains(t) || listed.contains(t)));
        }
        assert(p.traces.skip(1) =~= q.traces);
        assert(p.traces[0] == trace);
    }
}

/// A placeholder of a variable that nothing defines is left out, or kept as it stands where
/// that is asked for, and the variable is named as unresolved. Where all variables have to be
/// resolved, the template is refused.
pub proof fn law_unknown_variables_are_named(
    w: Surroundings,
    before: Seq<char>,
    inner: Seq<char>,
    after: Seq<char>,
)
    requires
        begins_no_placeholder(before),
        fits_in_braces(inner),
        plain_variable(trim(inner)),
        counts_nowhere(w.context, trim(inner)),
        w.options.maximum_depth >= 1,
    ensures
        w.options.strict_unresolved ==> resolved_template(
            w,
            template_with(before, inner, after),
        ) is Err,
        resolved_template(w, template_with(before, inner, after)) matches Err(
            VariableErrorView::Unresolved(names),
        ) ==> names.contains(trim(inner)),
        !w.options.strict_unresolved ==> match (
            resolved_template(w, template_with(before, inner, after)),
            resolved_template(w, after),
        ) {
            (Ok(whole), Ok(rest)) => {
                &&& whole.value == before + (if w.options.preserve_unresolved {
                    "{{"@ + inner + "}}"@
                } else {
                    seq![]
                }) + rest.value
                &&& whole.unresolved.contains(trim(inner))
                &&& traced_as(whole.traces[0], w.context, trim(inner), None)
                &&& forall|t: Seq<char>| #[trigger]
                    rest.unresolved.contains(t) ==> whole.unresolved.contains(t)
            },
            (Err(_), Err(_)) => true,
            _ => false,
        },
{
    let name = trim(inner);
    let g = nothing_gathered();
    lemma_by_placeholder(w, before, inner, after);
    lemma_plain_variable(name);
    lemma_effective_nowhere(w.context, name);
    let path = split_all(name, '.');
    assert(path[0] == name);
    assert(!Seq::<Seq<char>>::empty().contains(name));
    let trace = start_trace(w.context, name, name);
    lemma_traced(
        w.context,
        name,
        VariableScope::Global,
        DefinitionView {
            value: ValueView::Null,
            sensitivity: ValueSensitivity::Public,
            enabled: true,
            description: None,
        },
    );
    let next = Gathered {
        traces: g.traces.push(trace),
        unresolved: g.unresolved.insert(name),
        ..g
    };
    assert(expression_value(w, name, seq![], g, 1) == Ok::<
        (Option<Seq<char>>, Gathered),
        Failure,
    >((None, next)));
    lemma_then_the_rest(w, after, next);
    if let Ok((rest, q)) = template_value(w, after, 0, seq![], g, 0) {
        let p = template_value(w, after, 0, seq![], next, 0)->Ok_0.1;
        lemma_sorted_texts(q.unresolved);
        assert(next.unresolved.finite());
        lemma_sorted_texts(p.unresolved);
        assert(p.unresolved.contains(name));
        assert forall|t: Seq<char>| #[trigger]
            sorted_texts(q.unresolved).contains(t) implies sorted_texts(p.unresolved).contains(t) by {
            assert(q.unresolved.contains(t));
            assert(p.unresolved.contains(t));
        }
        assert(p.traces[0] == trace);
    } else {
        lemma_error_is_no_list(w, template_with(before, inner, after));
    }
}

/// A template that stops with an error is not refused for unresolved variables.
proof fn lemma_error_is_no_list(w: Surroundings, template: Seq<char>)
    ensures
        template_value(w, template, 0, seq![], nothing_gathered(), 0) matches Err(f) ==> !(
        f.error is Unresolved),
{
    lemma_failures(w, template, 0, seq![], nothing_gathered(), 0);
}

proof fn lemma_failures(
    w: Surroundings,
    template: Seq<char>,
    cursor: int,
    stack: Seq<Seq<char>>,
    g: Gathered,
    depth: nat,
)
    ensures
        template_value(w, template, cursor, stack, g, depth) matches Err(f) ==> !(
        f.error is Unresolved),
    decreases w.options.maximum_depth + 1 - depth, 0int, template.len() - cursor,
{
    if depth <= w.options.maximum_depth && 0 <= cursor <= template.len() {
        lemma_placeholder(template, cursor);
        if let Some(k) = find(template.skip(cursor), "{{"@) {
            let start = cursor + k;
            if let Some(j) = find(template.skip(start + 2), "}}"@) {
                let end = start + 2 + j;
                let raw = trim(template.subrange(start + 2, end));
                if raw.len() > 0 {
                    lemma_expression_failures(w, raw, stack, g, depth + 1);
                    if let Ok((value, p)) = expression_value(w, raw, stack, g, depth + 1) {
                        lemma_failures(w, template, end + 2, stack, p, depth);
                    }
                }
            }
        }
    }
}

proof fn lemma_expression_failures(
    w: Surroundings,
    raw: Seq<char>,
    stack: Seq<Seq<char>>,
    g: Gathered,
    depth: nat,
)
    ensures
        expression_value(w, raw, stack, g, depth) matches Err(f) ==> !(f.error is Unresolved),
    decreases w.options.maximum_depth + 1 - depth, 1int, 0int,
{
    let (path_text, default) = split_default_parts(raw);
    let path = split_all(path_text, '.');
    let root = path[0];
    if !stack.contains(root) {
        let asked = if is_dynamic(root) {
            g.asked.push(root)
        } else {
            g.asked
        };
        if let Some((scope, definition)) = selected_definition(w, root, g.asked.len()) {
            if let Some(value) = path_value(definition.value, path.drop_first()) {
                lemma_failures(
                    w,
                    display_text(value),
                    0,
                    stack.push(root),
                    Gathered { asked, ..g },
                    depth,
                );
            }
        }
    }
}

/// A placeholder with a default stands for the default where nothing defines the variable, and
/// nothing is named as unresolved for it.
pub proof fn law_defaults_stand_in(
    w: Surroundings,
    before: Seq<char>,
    name: Seq<char>,
    default: Seq<char>,
    after: Seq<char>,
)
    requires
        begins_no_placeholder(before),
        fits_in_braces(name),
        fits_in_braces(default),
        plain_variable(name),
        trimmed(default),
        counts_nowhere(w.context, name),
        w.options.maximum_depth >= 1,
    ensures
        match (
            resolved_template(w, template_with(before, name + seq!['|'] + default, after)),
            resolved_template(w, after),
        ) {
            (Ok(whole), Ok(rest)) => {
                &&& whole.value == before + default + rest.value
                &&& whole.traces.len() == 1 + rest.traces.len()
                &&& whole.traces[0].used_default
                &&& whole.unresolved == rest.unresolved
            },
            (Err(_), Err(_)) => true,
            _ => false,
        },
{
    let inner = name + seq!['|'] + default;
    let g = nothing_gathered();
    assert(fits_in_braces(inner)) by {
        assert forall|c: char| inner.contains(c) implies name.contains(c) || default.contains(c)
            || c == '|' by {
            let i = choose|i: int| 0 <= i < inner.len() && inner[i] == c;
            if i < name.len() {
                assert(name.contains(name[i]));
            } else if i > name.len() {
                assert(default.contains(default[i - name.len() - 1]));
            }
        }
    }
    assert(trimmed(inner)) by {
        assert(inner[0] == name[0]);
        if default.len() == 0 {
            assert(inner.last() == '|');
            assert(!is_white_space('|'));
        } else {
            assert(inner.last() == default.last());
        }
    }
    lemma_trim(inner);
    lemma_by_placeholder(w, before, inner, after);
    lemma_plain_variable(name);
    lemma_effective_nowhere(w.context, name);
    assert(split_once(inner, '|') == Some((name, default))) by {
        assert forall|i: int| 0 <= i < name.len() implies inner[i] != '|' by {
            assert(name.contains(name[i]));
        }
        crate::text::lemma_index_of_is(inner, '|', name.len() as int);
        assert(inner.take(name.len() as int) =~= name);
        assert(inner.skip(name.len() as int + 1) =~= default);
    }
    lemma_trim(name);
    lemma_trim(default);
    assert(split_default_parts(inner) == (name, Some(default)));
    let path = split_all(name, '.');
    assert(path[0] == name);
    assert(!Seq::<Seq<char>>::empty().contains(name));
    let trace = TraceView { used_default: true, ..start_trace(w.context, inner, name) };
    let next = Gathered { traces: g.traces.push(trace), ..g };
    assert(expression_value(w, inner, seq![], g, 1) == Ok::<
        (Option<Seq<char>>, Gathered),
        Failure,
    >((Some(default), next)));
    lemma_then_the_rest(w, after, next);
    if let Ok((rest, q)) = template_value(w, after, 0, seq![], g, 0) {
        let p = template_value(w, after, 0, seq![], next, 0)->Ok_0.1;
        assert(p.unresolved =~= q.unresolved);
        assert(p.traces[0] == trace);
    }
}

/// The strength of scopes, from the weakest to the strongest: dynamic values, global values,
/// the workspace, the collection, the folder, the environment, local values, the request, what
/// scripts create, and the data of a run.
pub proof fn law_scopes_are_ranked()
    ensures
        scope_rank(VariableScope::BuiltInDynamic) < scope_rank(VariableScope::Global),
        scope_rank(VariableScope::Global) < scope_rank(VariableScope::Workspace),
        scope_rank(VariableScope::Workspace) < scope_rank(VariableScope::Collection),
        scope_rank(VariableScope::Collection) < scope_rank(VariableScope::Folder),
        scope_rank(VariableScope::Folder) < scope_rank(VariableScope::Environment),
        scope_rank(VariableScope::Environment) < scope_rank(
            VariableScope::LocalEnvironmentOverride,
        ),
        scope_rank(VariableScope::LocalEnvironmentOverride) < scope_rank(VariableScope::Request),
        scope_rank(VariableScope::Request) < scope_rank(VariableScope::ScriptCreated),
        scope_rank(VariableScope::ScriptCreated) < scope_rank(
            VariableScope::RunnerIterationData,
        ),
{
}

/// What an expression that is defined stands for: the value, with the variables in it put in.
proof fn lemma_defined(
    w: Surroundings,
    name: Seq<char>,
    scope: VariableScope,
    d: DefinitionView,
    stack: Seq<Seq<char>>,
    g: Gathered,
    depth: nat,
)
    requires
        plain_variable(name),
        counts(w.context, name, scope, d),
        d.value is String,
        !stack.contains(name),
    ensures
        match template_value(w, d.value->String_0, 0, stack.push(name), g, depth) {
            Err(e) => expression_value(w, name, stack, g, depth) == Err::<
                (Option<Seq<char>>, Gathered),
                Failure,
            >(e),
            Ok((text, inner)) => expression_value(w, name, stack, g, depth) matches Ok(
                (Some(t), next),
            ) && t == text && next.unresolved == inner.unresolved,
        },
{
    lemma_plain_variable(name);
    lemma_effective(w.context, name, scope, d);
    let path = split_all(name, '.');
    assert(path[0] == name);
    assert(path.drop_first() =~= seq![]);
}

/// A variable may stand for text with a placeholder of its own, which is put in as well.
pub proof fn law_values_are_resolved_in_turn(
    w: Surroundings,
    before: Seq<char>,
    name: Seq<char>,
    after: Seq<char>,
    scope: VariableScope,
    d: DefinitionView,
    left: Seq<char>,
    other: Seq<char>,
    right: Seq<char>,
    other_scope: VariableScope,
    e: DefinitionView,
    text: Seq<char>,
)
    requires
        begins_no_placeholder(before),
        fits_in_braces(name),
        plain_variable(name),
        find(after, "{{"@) is None,
        counts(w.context, name, scope, d),
        d.value == ValueView::String(template_with(left, other, right)),
        begins_no_placeholder(left),
        fits_in_braces(other),
        plain_variable(other),
        find(right, "{{"@) is None,
        counts(w.context, other, other_scope, e),
        e.value == ValueView::String(text),
        find(text, "{{"@) is None,
        w.options.maximum_depth >= 2,
    ensures
        other != name ==> match resolved_template(w, template_with(before, name, after)) {
            Ok(whole) => whole.value == before + (left + text + right) + after,
            Err(error) => false,
        },
        other == name ==> resolved_template(w, template_with(before, name, after)) == Err::<
            ResolvedView,
            VariableErrorView,
        >(VariableErrorView::Cycle(seq![name, name])),
{
    let g = nothing_gathered();
    let stack = seq![name];
    let nobody = Seq::<Seq<char>>::empty();
    lemma_trim(name);
    lemma_trim(other);
    assert(nobody.push(name) =~= stack);
    assert(!nobody.contains(name));
    lemma_by_placeholder_within(w, before, name, after, nobody, g, 0);
    lemma_defined(w, name, scope, d, nobody, g, 1);
    lemma_by_placeholder_within(w, left, other, right, stack, g, 1);
    if other == name {
        lemma_plain_variable(name);
        assert(split_all(name, '.')[0] == name);
        assert(stack.contains(name)) by {
            assert(stack[0] == name);
        }
        assert(stack.push(name) =~= seq![name, name]);
    } else {
        assert(!stack.contains(other));
        lemma_defined(w, other, other_scope, e, stack, g, 2);
        assert(text.skip(0) =~= text);
    }
}

proof fn lemma_reached(list: Seq<(Seq<char>, ValueView)>, member: Seq<char>, k: int)
    requires
        0 <= k < list.len(),
        list[k].0 == member,
        forall|j: int| 0 <= j < k ==> (#[trigger] list[j]).0 != member,
    ensures
        member_of(list, member) == Some(list[k].1),
    decreases k,
{
    if k > 0 {
        assert(list[0].0 != member);
        let rest = list.drop_first();
        assert forall|j: int| 0 <= j < k - 1 implies (#[trigger] rest[j]).0 != member by {
            assert(rest[j] == list[j + 1]);
        }
        lemma_reached(rest, member, k - 1);
    }
}

/// A path leads through an object to its member: the placeholder is replaced by the text of the
/// member.
pub proof fn law_members_are_reached(
    w: Surroundings,
    before: Seq<char>,
    name: Seq<char>,
    member: Seq<char>,
    after: Seq<char>,
    scope: VariableScope,
    d: DefinitionView,
    list: Seq<(Seq<char>, ValueView)>,
    k: int,
    text: Seq<char>,
)
    requires
        begins_no_placeholder(before),
        fits_in_braces(name),
        fits_in_braces(member),
        plain_variable(name),
        plain_variable(member),
        find(after, "{{"@) is None,
        counts(w.context, name, scope, d),
        d.value == ValueView::Object(list),
        0 <= k < list.len(),
        list[k] == (member, ValueView::String(text)),
        forall|j: int| 0 <= j < k ==> (#[trigger] list[j]).0 != member,
        find(text, "{{"@) is None,
        w.options.maximum_depth >= 1,
    ensures
        resolved_template(w, template_with(before, name + seq!['.'] + member, after)) matches Ok(
            whole,
        ) && whole.value == before + text + after && whole.traces.len() == 1
            && whole.traces[0].root_name == name && whole.traces[0].selected_scope == Some(scope)
            && (text.len() > 0 && d.sensitivity != ValueSensitivity::Public
            ==> whole.sensitive_values.contains(text)),
{
    let inner = name + seq!['.'] + member;
    let g = nothing_gathered();
    let nobody = Seq::<Seq<char>>::empty();
    assert forall|c: char| inner.contains(c) implies name.contains(c) || member.contains(c) || c
        == '.' by {
        let i = choose|i: int| 0 <= i < inner.len() && inner[i] == c;
        if i < name.len() {
            assert(name.contains(name[i]));
        } else if i > name.len() {
            assert(member.contains(member[i - name.len() - 1]));
        }
    }
    assert(fits_in_braces(inner));
    assert(trimmed(inner)) by {
        assert(inner[0] == name[0]);
        assert(inner.last() == member.last());
    }
    lemma_trim(inner);
    lemma_never(inner, '|');
    lemma_never(member, '.');
    lemma_never(name, '.');
    lemma_index_of(inner, '.');
    assert(inner[name.len() as int] == '.');
    assert(index_of(inner, '.') == name.len()) by {
        let i = index_of(inner, '.');
        if i < name.len() {
            assert(name.contains(name[i]));
        }
    }
    let path = split_all(inner, '.');
    assert(inner.take(name.len() as int) =~= name);
    assert(inner.skip(name.len() as int + 1) =~= member);
    assert(path =~= seq![name, member]);
    assert(path.drop_first() =~= seq![member]);
    lemma_effective(w.context, name, scope, d);
    lemma_reached(list, member, k);
    assert(seq![member].drop_first() =~= seq![]);
    assert(path_value(list[k].1, seq![member].drop_first()) == Some(list[k].1));
    assert(path_value(d.value, path.drop_first()) == Some(ValueView::String(text)));
    assert(text.skip(0) =~= text);
    assert(!nobody.contains(name));
    lemma_by_placeholder_within(w, before, inner, after, nobody, g, 0);
    let listed = if d.sensitivity != ValueSensitivity::Public && text.len() > 0 {
        g.sensitive.insert(text)
    } else {
        g.sensitive
    };
    let trace = select_trace(start_trace(w.context, inner, name), scope);
    let next = Gathered { traces: g.traces.push(trace), sensitive: listed, ..g };
    assert(split_default_parts(inner) == (inner, None::<Seq<char>>));
    assert(!is_dynamic(name));
    assert(expression_value(w, inner, nobody, g, 1) == Ok::<
        (Option<Seq<char>>, Gathered),
        Failure,
    >((Some(text), next)));
    assert(listed.finite());
    lemma_sorted_texts(listed);
    assert(text.len() > 0 && d.sensitivity != ValueSensitivity::Public ==> listed.contains(text));
}

/// A dynamic variable is replaced by what its source answers, and traced as dynamic.
pub proof fn law_dynamic_variables_are_answered(
    w: Surroundings,
    before: Seq<char>,
    name: Seq<char>,
    after: Seq<char>,
    d: DefinitionView,
    text: Seq<char>,
)
    requires
        begins_no_placeholder(before),
        fits_in_braces(name),
        name.len() > 0,
        name[0] == '$',
        trimmed(name),
        !name.contains('|'),
        !name.contains('.'),
        find(after, "{{"@) is None,
        w.answers.len() > 0,
        w.answers[0] == Some(d),
        d.value == ValueView::String(text),
        find(text, "{{"@) is None,
        w.options.maximum_depth >= 1,
    ensures
        questions_asked(w, template_with(before, name, after)) == seq![name],
        resolved_template(w, template_with(before, name, after)) matches Ok(whole) && whole.value
            == before + text + after && whole.traces.len() == 1 && whole.traces[0].dynamic
            && whole.traces[0].selected_scope == Some(VariableScope::BuiltInDynamic) && (text.len()
            > 0 && d.sensitivity != ValueSensitivity::Public ==> whole.sensitive_values.contains(
            text,
        )),
{
    let g = nothing_gathered();
    let nobody = Seq::<Seq<char>>::empty();
    lemma_trim(name);
    lemma_never(name, '|');
    lemma_never(name, '.');
    let path = split_all(name, '.');
    assert(path[0] == name);
    assert(path.drop_first() =~= seq![]);
    assert(path_value(d.value, path.drop_first()) == Some(d.value));
    assert(text.skip(0) =~= text);
    assert(!nobody.contains(name));
    lemma_by_placeholder_within(w, before, name, after, nobody, g, 0);
    assert(g.asked.push(name) =~= seq![name]);
    let listed = if d.sensitivity != ValueSensitivity::Public && text.len() > 0 {
        g.sensitive.insert(text)
    } else {
        g.sensitive
    };
    let trace = select_trace(
        start_trace(w.context, name, name),
        VariableScope::BuiltInDynamic,
    );
    let next = Gathered {
        traces: g.traces.push(trace),
        sensitive: listed,
        asked: seq![name],
        ..g
    };
    assert(expression_value(w, name, nobody, g, 1) == Ok::<
        (Option<Seq<char>>, Gathered),
        Failure,
    >((Some(text), next)));
    assert(listed.finite());
    lemma_sorted_texts(listed);
    assert(text.len() > 0 && d.sensitivity != ValueSensitivity::Public ==> listed.contains(text));
}

} // verus!
