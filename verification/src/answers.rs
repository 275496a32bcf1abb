//! Answers to dynamic variables that stand ready, and how far answers decide what a template
//! stands for.
use crate::error::outcome;
use crate::lines::find;
use crate::resolver::{
    answer_of, answer_view, answered_by, begins, expression_value, is_dynamic,
    law_expression_keeps_what_was_gathered, lemma_begins, lemma_placeholder, nothing_gathered,
    questions_asked, resolved_template, selected_definition, split_default_parts, template_value,
    DynamicVariableProvider, Failure, Gathered, ResolvedTemplate, ResolverOptions, Surroundings,
    VariableError, VariableResolver,
};
use crate::scope::VariableContext;
use crate::text::{same_text, split_all, trim};
use crate::value::{display_text, path_value, DefinitionView, VariableDefinition};
use vstd::prelude::*;

verus! {

/// The names that were asked for, however resolving ended.
pub open spec fn asked_in<T>(r: Result<(T, Gathered), Failure>) -> Seq<Seq<char>> {
    match r {
        Err(f) => f.asked,
        Ok((_, g)) => g.asked,
    }
}

proof fn lemma_expression_asks_on(
    w: Surroundings,
    raw: Seq<char>,
    stack: Seq<Seq<char>>,
    g: Gathered,
    depth: nat,
)
    ensures
        begins(g.asked, asked_in(expression_value(w, raw, stack, g, depth))),
    decreases w.options.maximum_depth + 1 - depth, 1int, 0int,
{
    law_expression_keeps_what_was_gathered(w, raw, stack, g, depth);
    let (path_text, default) = split_default_parts(raw);
    let path = split_all(path_text, '.');
    let root = path[0];
    let after = Gathered {
        asked: if is_dynamic(root) {
            g.asked.push(root)
        } else {
            g.asked
        },
        ..g
    };
    assert(g.asked.take(g.asked.len() as int) =~= g.asked);
    assert(after.asked.take(g.asked.len() as int) =~= g.asked);
    if !stack.contains(root) {
        if let Some((scope, definition)) = selected_definition(w, root, g.asked.len()) {
            if let Some(value) = path_value(definition.value, path.drop_first()) {
                let inner = stack.push(root);
                lemma_template_asks_on(w, display_text(value), 0, inner, after, depth);
                lemma_begins(
                    g.asked,
                    after.asked,
                    asked_in(template_value(w, display_text(value), 0, inner, after, depth)),
                );
            }
        }
    }
}

proof fn lemma_template_asks_on(
    w: Surroundings,
    template: Seq<char>,
    cursor: int,
    stack: Seq<Seq<char>>,
    g: Gathered,
    depth: nat,
)
    ensures
        begins(g.asked, asked_in(template_value(w, template, cursor, stack, g, depth))),
    decreases w.options.maximum_depth + 1 - depth, 0int, template.len() - cursor,
{
    assert(g.asked.take(g.asked.len() as int) =~= g.asked);
    if depth <= w.options.maximum_depth && 0 <= cursor <= template.len() {
        lemma_placeholder(template, cursor);
        if let Some(k) = find(template.skip(cursor), "{{"@) {
            let start = cursor + k;
            if let Some(j) = find(template.skip(start + 2), "}}"@) {
                let end = start + 2 + j;
                let raw = trim(template.subrange(start + 2, end));
                if raw.len() > 0 {
                    lemma_expression_asks_on(w, raw, stack, g, depth + 1);
                    if let Ok((value, next)) = expression_value(w, raw, stack, g, depth + 1) {
                        lemma_template_asks_on(w, template, end + 2, stack, next, depth);
                        lemma_begins(
                            g.asked,
                            next.asked,
                            asked_in(template_value(w, template, end + 2, stack, next, depth)),
                        );
                    }
                }
            }
        }
    }
}

/// Whether the first answers of two surroundings are the same, and all else about them.
pub open spec fn answer_alike(a: Surroundings, b: Surroundings, n: nat) -> bool {
    &&& a.context == b.context
    &&& a.options == b.options
    &&& n <= a.answers.len()
    &&& n <= b.answers.len()
    &&& forall|k: int| 0 <= k < n ==> #[trigger] a.answers[k] == b.answers[k]
}

/// Whether two ways of resolving are the same, or go apart only after as many questions and
/// one more.
pub open spec fn alike_for<T>(
    a: Result<(T, Gathered), Failure>,
    b: Result<(T, Gathered), Failure>,
    n: nat,
) -> bool {
    if asked_in(a).len() <= n {
        a == b
    } else {
        asked_in(b).len() > n && asked_in(a).take(n as int + 1) == asked_in(b).take(n as int + 1)
    }
}

proof fn lemma_beginnings(
    a: Seq<Seq<char>>,
    b: Seq<Seq<char>>,
    x: Seq<Seq<char>>,
    y: Seq<Seq<char>>,
    n: nat,
)
    requires
        begins(a, x),
        begins(b, y),
        a.len() > n,
        b.len() > n,
        a.take(n as int + 1) == b.take(n as int + 1),
    ensures
        x.len() > n,
        y.len() > n,
        x.take(n as int + 1) == y.take(n as int + 1),
{
    assert forall|i: int| 0 <= i < n + 1 implies #[trigger] x[i] == a[i] && y[i] == b[i] by {
        assert(x.take(a.len() as int)[i] == a[i]);
        assert(y.take(b.len() as int)[i] == b[i]);
    }
    assert(x.take(n as int + 1) =~= a.take(n as int + 1));
    assert(y.take(n as int + 1) =~= b.take(n as int + 1));
}

proof fn lemma_expressions_alike(
    a: Surroundings,
    b: Surroundings,
    raw: Seq<char>,
    stack: Seq<Seq<char>>,
    g: Gathered,
    depth: nat,
    n: nat,
)
    requires
        answer_alike(a, b, n),
        g.asked.len() <= n,
    ensures
        alike_for(
            expression_value(a, raw, stack, g, depth),
            expression_value(b, raw, stack, g, depth),
            n,
        ),
    decreases a.options.maximum_depth + 1 - depth, 1int, 0int,
{
    let (path_text, default) = split_default_parts(raw);
    let path = split_all(path_text, '.');
    let root = path[0];
    let after = Gathered {
        asked: if is_dynamic(root) {
            g.asked.push(root)
        } else {
            g.asked
        },
        ..g
    };
    if !stack.contains(root) {
        if after.asked.len() <= n {
            if is_dynamic(root) {
                assert(a.answers[g.asked.len() as int] == b.answers[g.asked.len() as int]);
            }
            if let Some((scope, definition)) = selected_definition(a, root, g.asked.len()) {
                if let Some(value) = path_value(definition.value, path.drop_first()) {
                    lemma_templates_alike(
                        a,
                        b,
                        display_text(value),
                        0,
                        stack.push(root),
                        after,
                        depth,
                        n,
                    );
                }
            }
        } else {
            lemma_asked_first(a, raw, stack, g, depth);
            lemma_asked_first(b, raw, stack, g, depth);
            lemma_beginnings(
                after.asked,
                after.asked,
                asked_in(expression_value(a, raw, stack, g, depth)),
                asked_in(expression_value(b, raw, stack, g, depth)),
                n,
            );
        }
    }
}

proof fn lemma_asked_first(
    w: Surroundings,
    raw: Seq<char>,
    stack: Seq<Seq<char>>,
    g: Gathered,
    depth: nat,
)
    requires
        !stack.contains(split_all(split_default_parts(raw).0, '.')[0]),
        is_dynamic(split_all(split_default_parts(raw).0, '.')[0]),
    ensures
        begins(
            g.asked.push(split_all(split_default_parts(raw).0, '.')[0]),
            asked_in(expression_value(w, raw, stack, g, depth)),
        ),
{
    let path = split_all(split_default_parts(raw).0, '.');
    let root = path[0];
    let after = Gathered { asked: g.asked.push(root), ..g };
    assert(after.asked.take(after.asked.len() as int) =~= after.asked);
    if let Some((scope, definition)) = selected_definition(w, root, g.asked.len()) {
        if let Some(value) = path_value(definition.value, path.drop_first()) {
            lemma_template_asks_on(w, display_text(value), 0, stack.push(root), after, depth);
        }
    }
}

proof fn lemma_templates_alike(
    a: Surroundings,
    b: Surroundings,
    template: Seq<char>,
    cursor: int,
    stack: Seq<Seq<char>>,
    g: Gathered,
    depth: nat,
    n: nat,
)
    requires
        answer_alike(a, b, n),
        g.asked.len() <= n,
    ensures
        alike_for(
            template_value(a, template, cursor, stack, g, depth),
            template_value(b, template, cursor, stack, g, depth),
            n,
        ),
    decreases a.options.maximum_depth + 1 - depth, 0int, template.len() - cursor,
{
    if depth <= a.options.maximum_depth && 0 <= cursor <= template.len() {
        lemma_placeholder(template, cursor);
        if let Some(k) = find(template.skip(cursor), "{{"@) {
            let start = cursor + k;
            if let Some(j) = find(template.skip(start + 2), "}}"@) {
                let end = start + 2 + j;
                let raw = trim(template.subrange(start + 2, end));
                if raw.len() > 0 {
                    let x = expression_value(a, raw, stack, g, depth + 1);
                    let y = expression_value(b, raw, stack, g, depth + 1);
                    lemma_expressions_alike(a, b, raw, stack, g, depth + 1, n);
                    if asked_in(x).len() <= n {
                        if let Ok((value, next)) = x {
                            lemma_templates_alike(
                                a,
                                b,
                                template,
                                end + 2,
                                stack,
                                next,
                                depth,
                                n,
                            );
                        }
                    } else {
                        lemma_goes_on(a, template, cursor, stack, g, depth, end, raw, x);
                        lemma_goes_on(b, template, cursor, stack, g, depth, end, raw, y);
                        lemma_beginnings(
                            asked_in(x),
                            asked_in(y),
                            asked_in(template_value(a, template, cursor, stack, g, depth)),
                            asked_in(template_value(b, template, cursor, stack, g, depth)),
                            n,
                        );
                    }
                }
            }
        }
    }
}

proof fn lemma_goes_on(
    w: Surroundings,
    template: Seq<char>,
    cursor: int,
    stack: Seq<Seq<char>>,
    g: Gathered,
    depth: nat,
    end: int,
    raw: Seq<char>,
    x: Result<(Option<Seq<char>>, Gathered), Failure>,
)
    requires
        depth <= w.options.maximum_depth,
        0 <= cursor <= template.len(),
        find(template.skip(cursor), "{{"@) matches Some(k) && find(
            template.skip(cursor + k + 2),
            "}}"@,
        ) matches Some(j) && end == cursor + k + 2 + j && raw == trim(
            template.subrange(cursor + k + 2, end),
        ),
        raw.len() > 0,
        x == expression_value(w, raw, stack, g, depth + 1),
    ensures
        begins(asked_in(x), asked_in(template_value(w, template, cursor, stack, g, depth))),
{
    assert(asked_in(x).take(asked_in(x).len() as int) =~= asked_in(x));
    if let Ok((value, next)) = x {
        lemma_template_asks_on(w, template, end + 2, stack, next, depth);
    }
}

/// Whether the answers under which a template is resolved are those of a function from names,
/// one to each question.
pub open spec fn answers_by(
    f: spec_fn(Seq<char>) -> Option<DefinitionView>,
    w: Surroundings,
    template: Seq<char>,
) -> bool {
    w.answers == questions_asked(w, template).map_values(f)
}

proof fn lemma_answers_agree(
    f: spec_fn(Seq<char>) -> Option<DefinitionView>,
    a: Surroundings,
    b: Surroundings,
    template: Seq<char>,
    n: nat,
)
    requires
        a.context == b.context,
        a.options == b.options,
        answers_by(f, a, template),
        answers_by(f, b, template),
        n <= a.answers.len(),
        n <= b.answers.len(),
    ensures
        answer_alike(a, b, n),
    decreases n,
{
    if n > 0 {
        let m = (n - 1) as nat;
        lemma_answers_agree(f, a, b, template, m);
        let x = questions_asked(a, template);
        let y = questions_asked(b, template);
        lemma_templates_alike(a, b, template, 0, seq![], nothing_gathered(), 0, m);
        assert(x.take(m as int + 1)[m as int] == y.take(m as int + 1)[m as int]);
        assert(x[m as int] == y[m as int]);
        assert(a.answers[m as int] == f(x[m as int]));
        assert(b.answers[m as int] == f(y[m as int]));
    }
}

/// What each name is answered with decides what a template stands for: there is but one list
/// of answers, question by question.
pub proof fn law_answers_by_name_decide(
    f: spec_fn(Seq<char>) -> Option<DefinitionView>,
    a: Surroundings,
    b: Surroundings,
    template: Seq<char>,
)
    requires
        a.context == b.context,
        a.options == b.options,
        answers_by(f, a, template),
        answers_by(f, b, template),
    ensures
        a.answers == b.answers,
        resolved_template(a, template) == resolved_template(b, template),
{
    if a.answers.len() <= b.answers.len() {
        let n = a.answers.len();
        lemma_answers_agree(f, a, b, template, n);
        lemma_templates_alike(a, b, template, 0, seq![], nothing_gathered(), 0, n);
    } else {
        let n = b.answers.len();
        lemma_answers_agree(f, b, a, template, n);
        lemma_templates_alike(b, a, template, 0, seq![], nothing_gathered(), 0, n);
    }
    assert(questions_asked(a, template) == questions_asked(b, template));
}

/// Answers that stand ready: the first one of a name counts.
#[derive(Debug, PartialEq, Eq)]
pub struct AnswerBook {
    pub answers: Vec<(String, VariableDefinition)>,
}

/// What a list of answers says of a name.
pub open spec fn listed_answer(
    list: Seq<(String, VariableDefinition)>,
    name: Seq<char>,
) -> Option<DefinitionView>
    decreases list.len(),
{
    if list.len() == 0 {
        None
    } else if list[0].0@ == name {
        Some(list[0].1@)
    } else {
        listed_answer(list.skip(1), name)
    }
}

impl AnswerBook {
    /// What the book says of a name.
    pub open spec fn answer(&self, name: Seq<char>) -> Option<DefinitionView> {
        listed_answer(self.answers@, name)
    }

    /// What the book says, name by name.
    pub open spec fn by_name(&self) -> spec_fn(Seq<char>) -> Option<DefinitionView> {
        |name: Seq<char>| self.answer(name)
    }
}

impl DynamicVariableProvider for AnswerBook {
    fn resolve(&self, name: &str) -> (r: Option<VariableDefinition>)
        ensures
            answer_view(r) == self.answer(name@),
    {
        assert(self.answers@.skip(0) =~= self.answers@);
        for i in 0..self.answers.len()
            invariant
                self.answer(name@) == listed_answer(self.answers@.skip(i as int), name@),
        {
            if same_text(self.answers[i].0.as_str(), name) {
                return Some(self.answers[i].1.copy());
            }
            assert(self.answers@.skip(i as int).skip(1) =~= self.answers@.skip(i + 1));
        }
        None
    }
}

/// Puts the values of variables into a template, with answers to dynamic variables that stand
/// ready.
pub fn resolve_with_answers(
    context: &VariableContext,
    options: ResolverOptions,
    book: &AnswerBook,
    template: &str,
) -> (result: Result<ResolvedTemplate, VariableError>)
    requires
        context.wf(),
    ensures
        exists|answers: Seq<Option<DefinitionView>>| #[trigger]
            answers_by(
                book.by_name(),
                Surroundings { context: context@, options, answers },
                template@,
            ),
        forall|answers: Seq<Option<DefinitionView>>| #[trigger]
            answers_by(
                book.by_name(),
                Surroundings { context: context@, options, answers },
                template@,
            ) ==> outcome(result) == resolved_template(
                Surroundings { context: context@, options, answers },
                template@,
            ),
{
    let resolver = VariableResolver::new(context, book, options);
    let result = resolver.resolve(template);
    proof {
        let f = book.by_name();
        let given = choose|answers: Seq<Option<DefinitionView>>|
            answered_by(
                &resolver.provider(),
                questions_asked(#[trigger] resolver.surroundings(answers), template@),
                answers,
            ) && outcome(result) == resolved_template(
                resolver.surroundings(answers),
                template@,
            );
        let w = Surroundings { context: context@, options, answers: given };
        assert(resolver.surroundings(given) == w);
        let names = questions_asked(w, template@);
        assert forall|k: int| 0 <= k < given.len() implies given[k] == f(#[trigger] names[k]) by {
            assert(answer_of(&resolver.provider(), names[k], given[k]));
        }
        assert(given =~= names.map_values(f));
        assert(answers_by(f, w, template@));
        assert forall|answers: Seq<Option<DefinitionView>>| #[trigger]
            answers_by(
                f,
                Surroundings { context: context@, options, answers },
                template@,
            ) implies outcome(result) == resolved_template(
            Surroundings { context: context@, options, answers },
            template@,
        ) by {
            law_answers_by_name_decide(
                f,
                w,
                Surroundings { context: context@, options, answers },
                template@,
            );
        }
    }
    result
}

} // verus!
