//! What loading and showing the variables of a workspace promises.
use crate::environment::{
    secret_shown, stored_definition, stored_definitions, ReadingView, SourceView, StoredView,
    VariableSetView,
};
use crate::environment_laws::law_secrets_stay_secret;
use crate::error::WorkspaceErrorView;
use crate::files::Nodes;
use crate::order::{lemma_sorted_ascend, lemma_sorted_texts, sorted_texts, texts_ascend};
use crate::repository::LoadedView;
use crate::repository_documents::{
    environment_place, optional_set_loaded, override_place, set_loaded,
};
use crate::repository_environments::manifest_loaded;
use crate::resolved_request::secrecy;
use crate::scope::{
    definition_in, lemma_precedence, precedence, scope_label, scope_rank, ContextView,
    VariableScope,
};
use crate::template_laws::{counts, counts_nowhere};
use crate::value::{display_text, DefinitionView, ValueView};
use crate::workspace_variables::{
    candidates_among, inspection, inspections, label_of, names_among, reading_for, reading_of,
    readings_for, with_layer, with_workspace, workspace_variables, BookView, CandidateView,
    VariablesView,
};
use vstd::prelude::*;

verus! {

/// Where variables get their values from is where they are said to: a literal is itself, a
/// secret is what the store gave for its reference, and a process variable is what the process
/// gave. A definition is as secret as the variable is said to be, a secret always is one, and it
/// is in use where the variable is.
pub proof fn law_variables_have_the_values_of_their_sources(v: StoredView, reading: ReadingView)
    ensures
        stored_definition(v, reading) matches Ok(d) ==> {
            &&& d.enabled == v.enabled
            &&& secrecy(v.sensitivity) <= secrecy(d.sensitivity)
            &&& match v.source {
                SourceView::Literal(value) => d.value == value && d.sensitivity == v.sensitivity
                    && !(v.sensitivity is Secret),
                SourceView::Secret(_) => (reading matches ReadingView::Found { text, .. } && d.value
                    == ValueView::String(text)) && d.sensitivity is Secret,
                SourceView::ProcessEnvironment { .. } => (reading matches ReadingView::Found {
                    text,
                    ..
                } && d.value == ValueView::String(text)) && d.sensitivity == v.sensitivity,
            }
        },
        stored_definition(v, reading) is Err <== (v.source is Literal && v.sensitivity is Secret)
            || (!(v.source is Literal) && !(reading is Found)),
{
}

/// A definition tells what the variable is for and where its value comes from.
pub proof fn law_definitions_tell_where_they_come_from(v: StoredView, reading: ReadingView)
    ensures
        stored_definition(v, reading) matches Ok(d) ==> {
            let origin = match v.source {
                SourceView::Literal(_) => "workspace variable file"@,
                SourceView::Secret(secret) => "secret "@ + secret_shown(secret) + " from "@
                    + reading->Found_store,
                SourceView::ProcessEnvironment { name } => "process environment "@ + name,
            };
            &&& v.description is None ==> d.description == Some(origin)
            &&& v.description matches Some(told) ==> d.description == Some(
                told + " ("@ + origin + ")"@,
            )
        },
{
}

/// The variables of a file are defined by name, each by its own source, and nothing else is.
pub proof fn law_files_define_their_variables(list: Seq<StoredView>, readings: Seq<ReadingView>)
    requires
        stored_definitions(list, readings) is Ok,
    ensures
        forall|i: int|
            0 <= i < list.len() ==> {
                &&& stored_definitions(list, readings)->Ok_0.dom().contains(
                    (#[trigger] list[i]).name,
                )
                &&& stored_definition(list[i], readings[i]) == Ok::<
                    DefinitionView,
                    WorkspaceErrorView,
                >(stored_definitions(list, readings)->Ok_0[list[i].name])
            },
        forall|name: Seq<char>| #[trigger]
            stored_definitions(list, readings)->Ok_0.dom().contains(name) ==> exists|i: int|
                0 <= i < list.len() && (#[trigger] list[i]).name == name,
    decreases list.len(),
{
    law_secrets_stay_secret(list, readings);
    if list.len() > 0 {
        let shorter = list.drop_last();
        law_files_define_their_variables(shorter, readings);
        let m = stored_definitions(list, readings)->Ok_0;
        assert forall|name: Seq<char>| #[trigger] m.dom().contains(name) implies exists|i: int|
            0 <= i < list.len() && (#[trigger] list[i]).name == name by {
            if name == list.last().name {
                assert(list[list.len() - 1].name == name);
            } else {
                assert(stored_definitions(shorter, readings)->Ok_0.dom().contains(name));
                let i = choose|i: int| 0 <= i < shorter.len() && (#[trigger] shorter[i]).name
                    == name;
                assert(list[i].name == name);
            }
        }
    }
}

/// What the sources of a variable gave is looked up under its own name: under the reference of
/// a secret, and under the name of a process variable. The first that was read counts.
pub proof fn law_sources_are_read_under_their_names(
    book: BookView,
    v: StoredView,
    name: Seq<char>,
    k: int,
)
    requires
        match v.source {
            SourceView::Literal(_) => false,
            SourceView::Secret(s) => secret_shown(s) == name && 0 <= k < book.secrets.len()
                && book.secrets[k].0 == name && forall|j: int|
                0 <= j < k ==> (#[trigger] book.secrets[j]).0 != name,
            SourceView::ProcessEnvironment { name: n } => n == name && 0 <= k < book.process.len()
                && book.process[k].0 == name && forall|j: int|
                0 <= j < k ==> (#[trigger] book.process[j]).0 != name,
        },
    ensures
        match v.source {
            SourceView::Literal(_) => true,
            SourceView::Secret(_) => reading_for(book, v) == book.secrets[k].1,
            SourceView::ProcessEnvironment { .. } => reading_for(book, v) == book.process[k].1,
        },
{
    match v.source {
        SourceView::Literal(_) => {},
        SourceView::Secret(_) => lemma_reading_of(book.secrets, name, k),
        SourceView::ProcessEnvironment { .. } => lemma_reading_of(book.process, name, k),
    }
}

proof fn lemma_reading_of(list: Seq<(Seq<char>, ReadingView)>, name: Seq<char>, k: int)
    requires
        0 <= k < list.len(),
        list[k].0 == name,
        forall|j: int| 0 <= j < k ==> (#[trigger] list[j]).0 != name,
    ensures
        reading_of(list, name) == list[k].1,
    decreases list.len(),
{
    if k > 0 {
        assert(list[0].0 != name);
        let rest = list.skip(1);
        assert forall|j: int| 0 <= j < k - 1 implies (#[trigger] rest[j]).0 != name by {
            assert(rest[j] == list[j + 1]);
        }
        lemma_reading_of(rest, name, k - 1);
    }
}

/// Whether the variables of a scope are those of a file.
pub open spec fn holds_file(
    context: ContextView,
    scope: VariableScope,
    document: VariableSetView,
    book: BookView,
) -> bool {
    forall|i: int|
        0 <= i < document.variables.len() ==> {
            &&& context.dom().contains(scope)
            &&& context[scope].dom().contains((#[trigger] document.variables[i]).name)
            &&& stored_definition(
                document.variables[i],
                reading_for(book, document.variables[i]),
            ) == Ok::<DefinitionView, WorkspaceErrorView>(
                context[scope][document.variables[i].name],
            )
        }
}

proof fn lemma_layer(
    v: VariablesView,
    scope: VariableScope,
    document: LoadedView<VariableSetView>,
    book: BookView,
)
    requires
        with_layer(v, scope, document, book) is Ok,
    ensures
        ({
            let after = with_layer(v, scope, document, book)->Ok_0;
            &&& holds_file(after.context, scope, document.value, book)
            &&& forall|other: VariableScope|
                other != scope ==> (#[trigger] after.context.dom().contains(other)
                    <==> v.context.dom().contains(other)) && (v.context.dom().contains(other)
                    ==> after.context[other] == v.context[other])
            &&& after.environment == v.environment
            &&& after.sources.len() == v.sources.len() + 1
            &&& after.sources.last().scope == scope
            &&& after.sources.last().label == document.path
            &&& after.sources.last().variable_count == document.value.variables.len()
        }),
{
    let list = document.value.variables;
    let readings = readings_for(book, list);
    law_files_define_their_variables(list, readings);
    let after = with_layer(v, scope, document, book)->Ok_0;
    assert forall|i: int| 0 <= i < list.len() implies after.context.dom().contains(scope)
        && after.context[scope].dom().contains((#[trigger] list[i]).name) && stored_definition(
        list[i],
        reading_for(book, list[i]),
    ) == Ok::<DefinitionView, WorkspaceErrorView>(after.context[scope][list[i].name]) by {
        assert(readings[i] == reading_for(book, list[i]));
    }
}

proof fn lemma_file_stays(
    a: ContextView,
    b: ContextView,
    scope: VariableScope,
    document: VariableSetView,
    book: BookView,
)
    requires
        holds_file(a, scope, document, book),
        a.dom().contains(scope) ==> b.dom().contains(scope) && b[scope] == a[scope],
    ensures
        holds_file(b, scope, document, book),
{
    assert forall|i: int| 0 <= i < document.variables.len() implies b.dom().contains(scope)
        && b[scope].dom().contains((#[trigger] document.variables[i]).name) && stored_definition(
        document.variables[i],
        reading_for(book, document.variables[i]),
    ) == Ok::<DefinitionView, WorkspaceErrorView>(b[scope][document.variables[i].name]) by {
        assert(a.dom().contains(scope));
    }
}

/// The variables of a workspace are those of its own file, those of the environment that was
/// asked for, or else of the one that is used by default, and, where they are asked for, the
/// local values of that environment. Each file has a scope of its own.
pub proof fn law_variables_come_from_their_files(
    nodes: Nodes,
    root: Seq<char>,
    environment: Option<Seq<char>>,
    local: bool,
    book: BookView,
)
    requires
        workspace_variables(nodes, root, environment, local, book) is Ok,
    ensures
        ({
            let v = workspace_variables(nodes, root, environment, local, book)->Ok_0;
            let chosen = match environment {
                Some(e) => Some(e),
                None => manifest_loaded(nodes, root)->Ok_0.value.default_environment,
            };
            &&& manifest_loaded(nodes, root) is Ok
            &&& optional_set_loaded(nodes, root, "variables.toml"@) matches Ok(Some(d))
                ==> holds_file(v.context, VariableScope::Workspace, d.value, book)
            &&& chosen is None ==> v.environment is None && !v.context.dom().contains(
                VariableScope::Environment,
            ) && !v.context.dom().contains(VariableScope::LocalEnvironmentOverride)
            &&& chosen matches Some(id) ==> {
                let found = set_loaded(nodes, root, environment_place(id));
                &&& found is Ok
                &&& holds_file(
                    v.context,
                    VariableScope::Environment,
                    found->Ok_0.value,
                    book,
                )
                &&& v.environment matches Some(s) && s.id == found->Ok_0.value.id && s.name
                    == found->Ok_0.value.name && s.path == found->Ok_0.path && s.variable_count
                    == found->Ok_0.value.variables.len()
                &&& local ==> (optional_set_loaded(nodes, root, override_place(id)) matches Ok(
                    Some(d),
                ) ==> holds_file(
                    v.context,
                    VariableScope::LocalEnvironmentOverride,
                    d.value,
                    book,
                ))
                &&& !local ==> !v.context.dom().contains(VariableScope::LocalEnvironmentOverride)
            }
        }),
{
    let v = workspace_variables(nodes, root, environment, local, book)->Ok_0;
    let manifest = manifest_loaded(nodes, root)->Ok_0;
    let chosen = match environment {
        Some(e) => Some(e),
        None => manifest.value.default_environment,
    };
    let own = with_workspace(nodes, root, book)->Ok_0;
    let empty = crate::workspace_variables::no_variables();
    if let Ok(Some(d)) = optional_set_loaded(nodes, root, "variables.toml"@) {
        lemma_layer(empty, VariableScope::Workspace, d, book);
    }
    assert(!own.context.dom().contains(VariableScope::Environment));
    assert(!own.context.dom().contains(VariableScope::LocalEnvironmentOverride));
    if let Some(id) = chosen {
        let found = set_loaded(nodes, root, environment_place(id))->Ok_0;
        lemma_layer(own, VariableScope::Environment, found, book);
        let layered = with_layer(own, VariableScope::Environment, found, book)->Ok_0;
        if let Ok(Some(d)) = optional_set_loaded(nodes, root, "variables.toml"@) {
            lemma_file_stays(
                own.context,
                layered.context,
                VariableScope::Workspace,
                d.value,
                book,
            );
        }
        assert(!layered.context.dom().contains(VariableScope::LocalEnvironmentOverride));
        if local {
            if let Ok(Some(over)) = optional_set_loaded(nodes, root, override_place(id)) {
                let named = VariablesView { environment: v.environment, ..layered };
                lemma_layer(named, VariableScope::LocalEnvironmentOverride, over, book);
                lemma_file_stays(
                    layered.context,
                    v.context,
                    VariableScope::Environment,
                    found.value,
                    book,
                );
                if let Ok(Some(d)) = optional_set_loaded(nodes, root, "variables.toml"@) {
                    lemma_file_stays(
                        layered.context,
                        v.context,
                        VariableScope::Workspace,
                        d.value,
                        book,
                    );
                }
            }
        }
    }
}

/// What is shown of a variable is what counts for it: its value where it is public, that it is
/// hidden where it is not, and that there is none where no scope has it in use.
pub proof fn law_what_counts_is_shown(
    v: VariablesView,
    name: Seq<char>,
    scope: VariableScope,
    d: DefinitionView,
)
    ensures
        inspection(v, name).name == name,
        counts(v.context, name, scope, d) ==> inspection(v, name).selected_scope == Some(scope) && (
        inspection(v, name).displayed_value == if d.sensitivity is Public {
            display_text(d.value)
        } else {
            "[REDACTED]"@
        }),
        counts_nowhere(v.context, name) ==> inspection(v, name).selected_scope is None
            && inspection(v, name).displayed_value == "[UNRESOLVED]"@,
{
    if counts(v.context, name, scope, d) {
        crate::template_laws::lemma_effective(v.context, name, scope, d);
    }
    if counts_nowhere(v.context, name) {
        crate::template_laws::lemma_effective_nowhere(v.context, name);
    }
}

proof fn lemma_candidates(v: VariablesView, name: Seq<char>, n: nat, scope: VariableScope)
    requires
        n <= 10,
    ensures
        scope_rank(scope) < n && definition_in(v.context, scope, name) is Some ==> exists|i: int|
            0 <= i < candidates_among(v, name, n).len() && is_candidate(
                v,
                name,
                scope,
                #[trigger] candidates_among(v, name, n)[i],
            ),
        forall|i: int|
            0 <= i < candidates_among(v, name, n).len() ==> is_candidate(
                v,
                name,
                (#[trigger] candidates_among(v, name, n)[i]).scope,
                candidates_among(v, name, n)[i],
            ),
    decreases n,
{
    lemma_precedence();
    if n > 0 {
        lemma_candidates(v, name, (n - 1) as nat, scope);
        let last = precedence()[n - 1];
        assert(scope_rank(last) == n - 1);
        let front = candidates_among(v, name, (n - 1) as nat);
        let all = candidates_among(v, name, n);
        assert forall|i: int| 0 <= i < all.len() implies is_candidate(
            v,
            name,
            (#[trigger] all[i]).scope,
            all[i],
        ) by {
            if i < front.len() {
                assert(all[i] == front[i]);
            }
        }
        if scope_rank(scope) < n && definition_in(v.context, scope, name) is Some {
            if scope_rank(scope) == n - 1 {
                assert(precedence()[scope_rank(scope)] == scope);
                assert(is_candidate(v, name, scope, all[all.len() - 1]));
            } else {
                let i = choose|i: int|
                    0 <= i < front.len() && is_candidate(v, name, scope, #[trigger] front[i]);
                assert(all[i] == front[i]);
            }
        }
    }
}

/// Whether what is said of a definition is what the scope defines.
pub open spec fn is_candidate(
    v: VariablesView,
    name: Seq<char>,
    scope: VariableScope,
    c: CandidateView,
) -> bool {
    &&& c.scope == scope
    &&& v.context.dom().contains(scope)
    &&& v.context[scope].dom().contains(name)
    &&& c.enabled == v.context[scope][name].enabled
    &&& c.sensitivity == v.context[scope][name].sensitivity
    &&& c.description == v.context[scope][name].description
    &&& c.source_label == label_of(v.sources, scope)
}

/// Every definition of a variable is told of, as its scope has it, and nothing else is.
pub proof fn law_every_definition_is_told_of(v: VariablesView, name: Seq<char>, scope: VariableScope)
    ensures
        v.context.dom().contains(scope) && v.context[scope].dom().contains(name) ==> exists|i: int|
            0 <= i < inspection(v, name).candidates.len() && is_candidate(
                v,
                name,
                scope,
                #[trigger] inspection(v, name).candidates[i],
            ),
        forall|i: int|
            0 <= i < inspection(v, name).candidates.len() ==> is_candidate(
                v,
                name,
                (#[trigger] inspection(v, name).candidates[i]).scope,
                inspection(v, name).candidates[i],
            ),
{
    lemma_precedence();
    assert(0 <= scope_rank(scope) < 10);
    lemma_candidates(v, name, 10, scope);
}

/// Definitions are told of under the path of the file that they come from, and under the name
/// of the scope where they come from none.
pub proof fn law_definitions_are_labelled(v: VariablesView, scope: VariableScope, k: int)
    ensures
        0 <= k < v.sources.len() && v.sources[k].scope == scope && (forall|j: int|
            0 <= j < k ==> (#[trigger] v.sources[j]).scope != scope) ==> label_of(v.sources, scope)
            == v.sources[k].label,
        (forall|j: int| 0 <= j < v.sources.len() ==> (#[trigger] v.sources[j]).scope != scope)
            ==> label_of(v.sources, scope) == scope_label(scope),
    decreases v.sources.len(),
{
    if v.sources.len() > 0 {
        let rest = VariablesView { sources: v.sources.skip(1), ..v };
        law_definitions_are_labelled(rest, scope, k - 1);
        assert forall|j: int| 0 <= j < rest.sources.len() implies #[trigger] rest.sources[j]
            == v.sources[j + 1] by {}
        assert(v.sources[0].scope == scope || v.sources[0].scope != scope);
    }
}

proof fn lemma_names_among(context: ContextView, n: nat, name: Seq<char>)
    requires
        n <= 10,
    ensures
        names_among(context, n).contains(name) <==> exists|s: VariableScope|
            scope_rank(s) < n && #[trigger] context.dom().contains(s) && context[s].dom().contains(
                name,
            ),
    decreases n,
{
    lemma_precedence();
    if n > 0 {
        lemma_names_among(context, (n - 1) as nat, name);
        let last = precedence()[n - 1];
        assert(scope_rank(last) == n - 1);
        if exists|s: VariableScope|
            scope_rank(s) < n && #[trigger] context.dom().contains(s) && context[s].dom().contains(
                name,
            ) {
            let s = choose|s: VariableScope|
                scope_rank(s) < n && #[trigger] context.dom().contains(s)
                    && context[s].dom().contains(name);
            if scope_rank(s) == n - 1 {
                assert(precedence()[scope_rank(s)] == s);
                assert(s == last);
            } else {
                assert(names_among(context, (n - 1) as nat).contains(name));
            }
        }
        if names_among(context, n).contains(name) {
            if names_among(context, (n - 1) as nat).contains(name) {
                let s = choose|s: VariableScope|
                    scope_rank(s) < n - 1 && #[trigger] context.dom().contains(s)
                        && context[s].dom().contains(name);
                assert(context.dom().contains(s));
            } else {
                assert(context.dom().contains(last));
            }
        }
    }
}

/// Every variable that some scope defines is told of once, in the order of the names.
pub proof fn law_every_variable_is_told_of(v: VariablesView)
    requires
        names_among(v.context, 10).finite(),
    ensures
        texts_ascend(inspections(v).map_values(|i: crate::workspace_variables::InspectionView| i.name)),
        forall|k: int| #![trigger inspections(v)[k]]
            0 <= k < inspections(v).len() ==> inspections(v)[k] == inspection(
                v,
                inspections(v)[k].name,
            ),
        forall|name: Seq<char>, s: VariableScope| #[trigger]
            v.context.dom().contains(s) && #[trigger] v.context[s].dom().contains(name)
                ==> exists|k: int|
                0 <= k < inspections(v).len() && (#[trigger] inspections(v)[k]).name == name,
{
    let names = names_among(v.context, 10);
    let list = sorted_texts(names);
    lemma_sorted_texts(names);
    lemma_sorted_ascend(names);
    let all = inspections(v);
    assert(all.map_values(|i: crate::workspace_variables::InspectionView| i.name) =~= list);
    assert forall|name: Seq<char>, s: VariableScope| #[trigger]
        v.context.dom().contains(s) && #[trigger] v.context[s].dom().contains(name) implies exists|
        k: int,
    | 0 <= k < all.len() && (#[trigger] all[k]).name == name by {
        lemma_precedence();
        assert(scope_rank(s) < 10);
        lemma_names_among(v.context, 10, name);
        assert(list.contains(name));
        let k = choose|k: int| 0 <= k < list.len() && list[k] == name;
        assert(all[k].name == name);
    }
}

} // verus!
