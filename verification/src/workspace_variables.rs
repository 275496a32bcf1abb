//! The variables that a workspace gives a request, and where each comes from.
use crate::domain::{domain_message, parse_id, StableId, ValueSensitivity};
use crate::environment::{
    secret_shown, stored_definitions, stored_views, ReadingView, SourceReading, SourceView,
    StoredVariable, StoredVariableSource, StoredView, VariableSetDocument, VariableSetView,
};
use crate::error::{error_message, outcome, WorkspaceError, WorkspaceErrorView};
use crate::files::{is_there, FileTree, Nodes};
use crate::manifest::manifest_value;
use crate::message::concat2;
use crate::order::{sorted_texts, TextSet};
use crate::repository::{
    loaded, LoadedDocument, LoadedView, WorkspaceRepository, MAXIMUM_METADATA_BYTES,
};
use crate::repository_documents::{
    environment_place, optional_set_loaded, override_place, place_of_override, set_loaded,
};
use crate::repository_environments::{EnvironmentSummary, SummaryView};
use crate::scope::{
    definition_in, effective, law_highest_precedence_wins, lemma_precedence, precedence,
    scope_label, scope_rank, ContextView, VariableContext, VariableLayer, VariableScope,
};
use crate::text::{copy_optional_text, optional_text, same_text, texts};
use crate::value::{display_text, DefinitionView};
use vstd::prelude::*;

verus! {

/// Which variables of a workspace are asked for.
#[derive(Clone, Debug, PartialEq, Eq, Default)]
pub struct WorkspaceVariableSelection {
    /// The environment; the default one of the workspace where it is left open.
    pub environment: Option<String>,
    pub include_local_override: bool,
}

/// Where the variables of a scope come from.
#[derive(Clone, Debug, PartialEq, Eq)]
pub struct VariableLayerSource {
    pub scope: VariableScope,
    pub label: String,
    pub variable_count: usize,
}

/// Where the variables of a scope come from, by its contents.
#[verifier::ext_equal]
pub struct LayerSourceView {
    pub scope: VariableScope,
    pub label: Seq<char>,
    pub variable_count: nat,
}

impl View for VariableLayerSource {
    type V = LayerSourceView;

    open spec fn view(&self) -> LayerSourceView {
        LayerSourceView {
            scope: self.scope,
            label: self.label@,
            variable_count: self.variable_count as nat,
        }
    }
}

/// The contents of a list of sources.
pub open spec fn layer_source_views(list: Seq<VariableLayerSource>) -> Seq<LayerSourceView> {
    list.map_values(|s: VariableLayerSource| s@)
}

/// The variables of a workspace, the environment they are for, and where they come from.
#[derive(Debug)]
pub struct LoadedWorkspaceVariables {
    pub context: VariableContext,
    pub environment: Option<EnvironmentSummary>,
    pub sources: Vec<VariableLayerSource>,
}

/// The variables of a workspace, by their contents.
#[verifier::ext_equal]
pub struct VariablesView {
    pub context: ContextView,
    pub environment: Option<SummaryView>,
    pub sources: Seq<LayerSourceView>,
}

impl View for LoadedWorkspaceVariables {
    type V = VariablesView;

    open spec fn view(&self) -> VariablesView {
        VariablesView {
            context: self.context@,
            environment: match self.environment {
                Some(e) => Some(e@),
                None => None,
            },
            sources: layer_source_views(self.sources@),
        }
    }
}

/// No variables.
pub open spec fn no_variables() -> VariablesView {
    VariablesView { context: ContextView::empty(), environment: None, sources: seq![] }
}

impl LoadedWorkspaceVariables {
    /// Whether the variables are in order.
    pub open spec fn wf(&self) -> bool {
        self.context.wf()
    }

    /// No variables.
    pub fn new() -> (r: LoadedWorkspaceVariables)
        ensures
            r.wf(),
            r@ == no_variables(),
    {
        let r = LoadedWorkspaceVariables {
            context: VariableContext::new(),
            environment: None,
            sources: Vec::new(),
        };
        assert(r@ =~= no_variables());
        r
    }
}

/// What is said of one definition of a variable.
#[derive(Clone, Debug, PartialEq, Eq)]
pub struct VariableCandidateInspection {
    pub scope: VariableScope,
    pub source_label: String,
    pub enabled: bool,
    pub sensitivity: ValueSensitivity,
    pub selected: bool,
    pub description: Option<String>,
}

/// What is said of one definition of a variable, by its contents.
#[verifier::ext_equal]
pub struct CandidateView {
    pub scope: VariableScope,
    pub source_label: Seq<char>,
    pub enabled: bool,
    pub sensitivity: ValueSensitivity,
    pub selected: bool,
    pub description: Option<Seq<char>>,
}

impl View for VariableCandidateInspection {
    type V = CandidateView;

    open spec fn view(&self) -> CandidateView {
        CandidateView {
            scope: self.scope,
            source_label: self.source_label@,
            enabled: self.enabled,
            sensitivity: self.sensitivity,
            selected: self.selected,
            description: optional_text(self.description),
        }
    }
}

/// The contents of a list of candidates.
pub open spec fn candidate_views(list: Seq<VariableCandidateInspection>) -> Seq<CandidateView> {
    list.map_values(|c: VariableCandidateInspection| c@)
}

/// What is said of a variable: the value that counts, as far as it may be shown, and every
/// definition of it.
#[derive(Clone, Debug, PartialEq, Eq)]
pub struct EffectiveVariableInspection {
    pub name: String,
    pub selected_scope: Option<VariableScope>,
    pub displayed_value: String,
    pub candidates: Vec<VariableCandidateInspection>,
}

/// What is said of a variable, by its contents.
#[verifier::ext_equal]
pub struct InspectionView {
    pub name: Seq<char>,
    pub selected_scope: Option<VariableScope>,
    pub displayed_value: Seq<char>,
    pub candidates: Seq<CandidateView>,
}

impl View for EffectiveVariableInspection {
    type V = InspectionView;

    open spec fn view(&self) -> InspectionView {
        InspectionView {
            name: self.name@,
            selected_scope: self.selected_scope,
            displayed_value: self.displayed_value@,
            candidates: candidate_views(self.candidates@),
        }
    }
}

/// The contents of a list of inspections.
pub open spec fn inspection_views(list: Seq<EffectiveVariableInspection>) -> Seq<InspectionView> {
    list.map_values(|i: EffectiveVariableInspection| i@)
}

/// The names that the variables of the `n` weakest scopes have.
pub open spec fn names_among(context: ContextView, n: nat) -> Set<Seq<char>>
    decreases n,
{
    if n == 0 {
        Set::empty()
    } else {
        let scope = precedence()[n - 1];
        let before = names_among(context, (n - 1) as nat);
        if context.dom().contains(scope) {
            before.union(context[scope].dom())
        } else {
            before
        }
    }
}

/// What is said of the first source of a scope among the first sources; the name of the scope
/// where it has none.
pub open spec fn label_of(sources: Seq<LayerSourceView>, scope: VariableScope) -> Seq<char>
    decreases sources.len(),
{
    if sources.len() == 0 {
        scope_label(scope)
    } else if sources[0].scope == scope {
        sources[0].label
    } else {
        label_of(sources.skip(1), scope)
    }
}

/// The value that is shown of the definition that counts: one that is not public is hidden.
pub open spec fn displayed(selected: Option<(VariableScope, DefinitionView)>) -> Seq<char> {
    match selected {
        None => "[UNRESOLVED]"@,
        Some((_, d)) => if d.sensitivity == ValueSensitivity::Public {
            display_text(d.value)
        } else {
            "[REDACTED]"@
        },
    }
}

/// The scope of the definition that counts.
pub open spec fn selected_scope(selected: Option<(VariableScope, DefinitionView)>) -> Option<
    VariableScope,
> {
    match selected {
        Some((scope, _)) => Some(scope),
        None => None,
    }
}

/// What is said of a definition of a variable.
pub open spec fn candidate(v: VariablesView, name: Seq<char>, scope: VariableScope, d: DefinitionView) -> CandidateView {
    CandidateView {
        scope,
        source_label: label_of(v.sources, scope),
        enabled: d.enabled,
        sensitivity: d.sensitivity,
        selected: selected_scope(effective(v.context, name)) == Some(scope) && d.enabled,
        description: d.description,
    }
}

/// What is said of the definitions of a variable in the `n` weakest scopes.
pub open spec fn candidates_among(v: VariablesView, name: Seq<char>, n: nat) -> Seq<CandidateView>
    decreases n,
{
    if n == 0 {
        seq![]
    } else {
        let scope = precedence()[n - 1];
        let before = candidates_among(v, name, (n - 1) as nat);
        match definition_in(v.context, scope, name) {
            Some(d) => before.push(candidate(v, name, scope, d)),
            None => before,
        }
    }
}

/// What is said of a variable.
pub open spec fn inspection(v: VariablesView, name: Seq<char>) -> InspectionView {
    let selected = effective(v.context, name);
    InspectionView {
        name,
        selected_scope: selected_scope(selected),
        displayed_value: displayed(selected),
        candidates: candidates_among(v, name, 10),
    }
}

/// What is said of all variables, by name.
pub open spec fn inspections(v: VariablesView) -> Seq<InspectionView> {
    sorted_texts(names_among(v.context, 10)).map_values(|name: Seq<char>| inspection(v, name))
}

fn source_label(sources: &[VariableLayerSource], scope: VariableScope) -> (r: String)
    ensures
        r@ == label_of(layer_source_views(sources@), scope),
{
    let ghost all = layer_source_views(sources@);
    assert(all.skip(0) =~= all);
    for i in 0..sources.len()
        invariant
            all == layer_source_views(sources@),
            label_of(all, scope) == label_of(all.skip(i as int), scope),
    {
        assert(all.skip(i as int)[0] == sources@[i as int]@);
        assert(all.skip(i as int).skip(1) =~= all.skip(i + 1));
        if sources[i].scope == scope {
            return sources[i].label.clone();
        }
    }
    assert(all.skip(sources@.len() as int) =~= seq![]);
    scope.label().to_owned()
}

fn candidates_of(
    loaded: &LoadedWorkspaceVariables,
    name: &str,
    selected: Option<VariableScope>,
) -> (r: Vec<VariableCandidateInspection>)
    requires
        loaded.wf(),
        selected == selected_scope(effective(loaded@.context, name@)),
    ensures
        candidate_views(r@) == candidates_among(loaded@, name@, 10),
{
    let scopes = VariableScope::in_precedence();
    let mut r: Vec<VariableCandidateInspection> = Vec::new();
    assert(candidate_views(r@) =~= seq![]);
    for i in 0..10usize
        invariant
            loaded.wf(),
            scopes@ == precedence(),
            selected == selected_scope(effective(loaded@.context, name@)),
            candidate_views(r@) == candidates_among(loaded@, name@, i as nat),
    {
        let scope = scopes[i];
        assert(scope == precedence()[i as int]);
        let ghost before = candidate_views(r@);
        if let Some(d) = loaded.context.definition(scope, name) {
            let chosen = match selected {
                Some(s) => s == scope,
                None => false,
            };
            let entry = VariableCandidateInspection {
                scope,
                source_label: source_label(loaded.sources.as_slice(), scope),
                enabled: d.enabled,
                sensitivity: d.sensitivity,
                selected: chosen && d.enabled,
                description: copy_optional_text(&d.description),
            };
            let ghost e = entry@;
            r.push(entry);
            proof {
                assert(candidate_views(r@) =~= before.push(e));
                assert(e =~= candidate(loaded@, name@, scope, d@));
            }
        }
    }
    r
}

/// Says of every variable which value counts, as far as it may be shown, and what defines it.
pub fn inspect_effective_variables(loaded: &LoadedWorkspaceVariables) -> (r: Vec<
    EffectiveVariableInspection,
>)
    requires
        loaded.wf(),
    ensures
        inspection_views(r@) == inspections(loaded@),
{
    let scopes = VariableScope::in_precedence();
    let mut names = TextSet::new();
    for i in 0..10usize
        invariant
            loaded.wf(),
            scopes@ == precedence(),
            names.wf(),
            names@ == names_among(loaded@.context, i as nat),
    {
        let scope = scopes[i];
        assert(scope == precedence()[i as int]);
        if let Some(layer) = loaded.context.layer(scope) {
            let ghost before = names@;
            let count: usize = layer.len();
            for k in 0..count
                invariant
                    layer.wf(),
                    names.wf(),
                    count == layer.names().len(),
                    forall|n: Seq<char>| #[trigger]
                        names@.contains(n) <==> before.contains(n) || exists|j: int|
                            0 <= j < k && (#[trigger] layer.names()[j]) == n,
            {
                let (name, _) = layer.entry(k);
                let ghost now = names@;
                let ghost added = name@;
                names.insert(name.clone());
                proof {
                    assert forall|n: Seq<char>| #[trigger] names@.contains(n) <==> before.contains(n)
                        || exists|j: int| 0 <= j < k + 1 && (#[trigger] layer.names()[j]) == n by {
                        if names@.contains(n) {
                            if now.contains(n) {
                                if !before.contains(n) {
                                    let j = choose|j: int|
                                        0 <= j < k && (#[trigger] layer.names()[j]) == n;
                                    assert(layer.names()[j] == n);
                                }
                            } else {
                                assert(layer.names()[k as int] == n);
                            }
                        }
                        if exists|j: int| 0 <= j < k + 1 && (#[trigger] layer.names()[j]) == n {
                            let j = choose|j: int|
                                0 <= j < k + 1 && (#[trigger] layer.names()[j]) == n;
                            if j < k {
                                assert(now.contains(n));
                            }
                        }
                    }
                }
            }
            proof {
                layer.lemma_names();
                assert forall|n: Seq<char>| names@.contains(n) <==> before.contains(n)
                    || layer@.dom().contains(n) by {
                    if layer@.dom().contains(n) {
                        assert(layer.names().contains(n));
                        let j = choose|j: int|
                            0 <= j < layer.names().len() && layer.names()[j] == n;
                        assert(layer.names()[j] == n);
                    }
                    if exists|j: int| 0 <= j < count && (#[trigger] layer.names()[j]) == n {
                        let j = choose|j: int| 0 <= j < count && (#[trigger] layer.names()[j]) == n;
                        assert(layer.names().contains(n));
                    }
                }
                assert(names@ =~= before.union(layer@.dom()));
            }
        }
    }
    let list = names.to_texts();
    let ghost all = texts(list@);
    let mut r: Vec<EffectiveVariableInspection> = Vec::new();
    for i in 0..list.len()
        invariant
            loaded.wf(),
            all == texts(list@),
            r@.len() == i,
            forall|k: int| 0 <= k < i ==> (#[trigger] r@[k])@ == inspection(loaded@, all[k]),
    {
        let name = &list[i];
        assert(all[i as int] == name@);
        let selected = loaded.context.effective_definition(name.as_str());
        let scope = match selected {
            Some((scope, _)) => Some(scope),
            None => None,
        };
        let displayed_value = match selected {
            None => "[UNRESOLVED]".to_owned(),
            Some((_, d)) => if d.sensitivity == ValueSensitivity::Public {
                d.value.display_value()
            } else {
                "[REDACTED]".to_owned()
            },
        };
        let candidates = candidates_of(loaded, name.as_str(), scope);
        r.push(
            EffectiveVariableInspection {
                name: name.clone(),
                selected_scope: scope,
                displayed_value,
                candidates,
            },
        );
    }
    assert(inspection_views(r@) =~= inspections(loaded@));
    r
}

/// What the sources of variables outside the workspace gave, by the names of the secrets and
/// of the variables of the process.
#[derive(Clone, Debug, PartialEq, Eq)]
pub struct SourceBook {
    pub secrets: Vec<(String, SourceReading)>,
    pub process: Vec<(String, SourceReading)>,
}

/// What the sources of variables gave, by its contents.
#[verifier::ext_equal]
pub struct BookView {
    pub secrets: Seq<(Seq<char>, ReadingView)>,
    pub process: Seq<(Seq<char>, ReadingView)>,
}

/// The contents of a list of readings by name.
pub open spec fn named_readings(list: Seq<(String, SourceReading)>) -> Seq<
    (Seq<char>, ReadingView),
> {
    list.map_values(|p: (String, SourceReading)| (p.0@, p.1@))
}

impl View for SourceBook {
    type V = BookView;

    open spec fn view(&self) -> BookView {
        BookView {
            secrets: named_readings(self.secrets@),
            process: named_readings(self.process@),
        }
    }
}

/// The first reading of a name; a name that was not read has none.
pub open spec fn reading_of(list: Seq<(Seq<char>, ReadingView)>, name: Seq<char>) -> ReadingView
    decreases list.len(),
{
    if list.len() == 0 {
        ReadingView::Unavailable
    } else if list[0].0 == name {
        list[0].1
    } else {
        reading_of(list.skip(1), name)
    }
}

/// What the source of a variable gave.
pub open spec fn reading_for(book: BookView, v: StoredView) -> ReadingView {
    match v.source {
        SourceView::Literal(_) => ReadingView::Unavailable,
        SourceView::Secret(secret) => reading_of(book.secrets, secret_shown(secret)),
        SourceView::ProcessEnvironment { name } => reading_of(book.process, name),
    }
}

/// What the sources of variables gave.
pub open spec fn readings_for(book: BookView, list: Seq<StoredView>) -> Seq<ReadingView> {
    list.map_values(|v: StoredView| reading_for(book, v))
}

fn find_reading(list: &[(String, SourceReading)], name: &str) -> (r: SourceReading)
    ensures
        r@ == reading_of(named_readings(list@), name@),
{
    let ghost all = named_readings(list@);
    assert(all.skip(0) =~= all);
    for i in 0..list.len()
        invariant
            all == named_readings(list@),
            reading_of(all, name@) == reading_of(all.skip(i as int), name@),
    {
        assert(all.skip(i as int)[0] == (list@[i as int].0@, list@[i as int].1@));
        assert(all.skip(i as int).skip(1) =~= all.skip(i + 1));
        if same_text(list[i].0.as_str(), name) {
            return match &list[i].1 {
                SourceReading::Unavailable => SourceReading::Unavailable,
                SourceReading::Failed(reason) => SourceReading::Failed(reason.clone()),
                SourceReading::Found { text, store } => SourceReading::Found {
                    text: text.clone(),
                    store: store.clone(),
                },
            };
        }
    }
    assert(all.skip(list@.len() as int) =~= seq![]);
    SourceReading::Unavailable
}

impl SourceBook {
    /// What the sources of variables gave.
    pub fn readings(&self, list: &[StoredVariable]) -> (r: Vec<SourceReading>)
        ensures
            crate::environment::reading_views(r@) == readings_for(self@, stored_views(list@)),
    {
        let ghost all = stored_views(list@);
        let mut r: Vec<SourceReading> = Vec::new();
        for i in 0..list.len()
            invariant
                all == stored_views(list@),
                r@.len() == i,
                forall|k: int| 0 <= k < i ==> (#[trigger] r@[k])@ == reading_for(self@, all[k]),
        {
            assert(all[i as int] == list@[i as int]@);
            let reading = match &list[i].source {
                StoredVariableSource::Literal(_) => SourceReading::Unavailable,
                StoredVariableSource::Secret(secret) => find_reading(
                    self.secrets.as_slice(),
                    secret.display_name().as_str(),
                ),
                StoredVariableSource::ProcessEnvironment { name } => find_reading(
                    self.process.as_slice(),
                    name.as_str(),
                ),
            };
            r.push(reading);
        }
        assert(crate::environment::reading_views(r@) =~= readings_for(self@, all));
        r
    }
}

/// Why the variables of a workspace cannot be loaded.
#[derive(Clone, Debug, PartialEq, Eq)]
pub enum WorkspaceVariableError {
    Workspace(WorkspaceError),
    InvalidEnvironment(String),
}

/// Why the variables of a workspace cannot be loaded, by its contents.
pub enum VariableErrorView {
    Workspace(WorkspaceErrorView),
    InvalidEnvironment(Seq<char>),
}

/// What is said where the variables of a workspace cannot be read.
pub open spec fn variables_message(e: VariableErrorView) -> Seq<char> {
    match e {
        VariableErrorView::Workspace(e) => error_message(e),
        VariableErrorView::InvalidEnvironment(t) => "invalid environment selection: "@ + t,
    }
}

impl View for WorkspaceVariableError {
    type V = VariableErrorView;

    open spec fn view(&self) -> VariableErrorView {
        match self {
            WorkspaceVariableError::Workspace(e) => VariableErrorView::Workspace(e@),
            WorkspaceVariableError::InvalidEnvironment(t) => VariableErrorView::InvalidEnvironment(
                t@,
            ),
        }
    }
}

impl WorkspaceVariableError {
    /// What the error says.
    pub fn message(&self) -> (r: String)
        ensures
            r@ == variables_message(self@),
    {
        match self {
            WorkspaceVariableError::Workspace(e) => e.message(),
            WorkspaceVariableError::InvalidEnvironment(t) => concat2(
                "invalid environment selection: ",
                t.as_str(),
            ),
        }
    }
}

/// The variables with those of a file in a scope of their own.
pub open spec fn with_layer(
    v: VariablesView,
    scope: VariableScope,
    document: LoadedView<VariableSetView>,
    book: BookView,
) -> Result<VariablesView, VariableErrorView> {
    match stored_definitions(
        document.value.variables,
        readings_for(book, document.value.variables),
    ) {
        Err(e) => Err(VariableErrorView::Workspace(e)),
        Ok(m) => Ok(
            VariablesView {
                context: if document.value.variables.len() == 0 {
                    v.context
                } else {
                    v.context.insert(scope, m)
                },
                sources: v.sources.push(
                    LayerSourceView {
                        scope,
                        label: document.path,
                        variable_count: document.value.variables.len(),
                    },
                ),
                ..v
            },
        ),
    }
}

/// The variables of the workspace itself.
pub open spec fn with_workspace(nodes: Nodes, root: Seq<char>, book: BookView) -> Result<
    VariablesView,
    VariableErrorView,
> {
    match optional_set_loaded(nodes, root, "variables.toml"@) {
        Err(e) => Err(VariableErrorView::Workspace(e)),
        Ok(None) => Ok(no_variables()),
        Ok(Some(document)) => with_layer(
            no_variables(),
            VariableScope::Workspace,
            document,
            book,
        ),
    }
}

/// The variables with those of an environment, and its local values where they are asked for.
pub open spec fn with_environment(
    v: VariablesView,
    nodes: Nodes,
    root: Seq<char>,
    id: Seq<char>,
    local: bool,
    book: BookView,
) -> Result<VariablesView, VariableErrorView> {
    match set_loaded(nodes, root, environment_place(id)) {
        Err(e) => Err(VariableErrorView::Workspace(e)),
        Ok(document) => match with_layer(v, VariableScope::Environment, document, book) {
            Err(e) => Err(e),
            Ok(layered) => {
                let named = VariablesView {
                    environment: Some(
                        SummaryView {
                            id: document.value.id,
                            name: document.value.name,
                            path: document.path,
                            variable_count: document.value.variables.len(),
                            has_local_override: is_there(
                                nodes,
                                override_place(document.value.id),
                            ),
                        },
                    ),
                    ..layered
                };
                if !local {
                    Ok(named)
                } else {
                    match optional_set_loaded(nodes, root, override_place(id)) {
                        Err(e) => Err(VariableErrorView::Workspace(e)),
                        Ok(None) => Ok(named),
                        Ok(Some(overriding)) => with_layer(
                            named,
                            VariableScope::LocalEnvironmentOverride,
                            overriding,
                            book,
                        ),
                    }
                }
            },
        },
    }
}

/// The environment that is asked for.
pub open spec fn selected_environment(asked: Option<Seq<char>>, default: Option<Seq<char>>) -> Option<
    Seq<char>,
> {
    match asked {
        Some(e) => Some(e),
        None => default,
    }
}

/// The variables of a workspace.
pub open spec fn workspace_variables(
    nodes: Nodes,
    root: Seq<char>,
    environment: Option<Seq<char>>,
    local: bool,
    book: BookView,
) -> Result<VariablesView, VariableErrorView> {
    match loaded(
        nodes,
        root,
        "apex.toml"@,
        MAXIMUM_METADATA_BYTES,
        |text: Seq<char>| manifest_value(text),
    ) {
        Err(e) => Err(VariableErrorView::Workspace(e)),
        Ok(manifest) => match with_workspace(nodes, root, book) {
            Err(e) => Err(e),
            Ok(v) => match selected_environment(environment, manifest.value.default_environment) {
                None => Ok(v),
                Some(text) => match parse_id(text) {
                    Err(e) => Err(VariableErrorView::InvalidEnvironment(domain_message(e))),
                    Ok(id) => with_environment(v, nodes, root, id, local, book),
                },
            },
        },
    }
}

fn add_layer(
    loaded: &mut LoadedWorkspaceVariables,
    scope: VariableScope,
    document: &LoadedDocument<VariableSetDocument>,
    book: &SourceBook,
) -> (r: Result<(), WorkspaceVariableError>)
    requires
        old(loaded).wf(),
    ensures
        final(loaded).wf(),
        match r {
            Ok(_) => with_layer(old(loaded)@, scope, document@, book@) == Ok::<
                VariablesView,
                VariableErrorView,
            >(final(loaded)@),
            Err(e) => with_layer(old(loaded)@, scope, document@, book@) == Err::<
                VariablesView,
                VariableErrorView,
            >(e@),
        },
{
    let ghost start = loaded@;
    let readings = book.readings(document.value.variables.as_slice());
    assert(crate::environment::reading_views(readings@).len() == readings@.len());
    let definitions = match document.value.resolve(readings.as_slice()) {
        Ok(m) => m,
        Err(e) => {
            return Err(WorkspaceVariableError::Workspace(e));
        },
    };
    let count: usize = document.value.variables.len();
    if count > 0 {
        let layer = VariableLayer::of(definitions);
        *loaded.context.layer_mut(scope) = layer;
    }
    let ghost before = loaded.sources@;
    loaded.sources.push(
        VariableLayerSource {
            scope,
            label: document.path.as_text().to_owned(),
            variable_count: count,
        },
    );
    proof {
        let v = with_layer(start, scope, document@, book@)->Ok_0;
        assert(loaded@.sources =~= v.sources);
        assert(loaded@.context =~= v.context);
        assert(loaded@ =~= v);
    }
    Ok(())
}

/// Loads the variables of a workspace: its own, those of the environment that is asked for,
/// and the local values of that environment.
pub fn load_workspace_variables(
    repository: &WorkspaceRepository,
    files: &FileTree,
    selection: &WorkspaceVariableSelection,
    book: &SourceBook,
) -> (r: Result<LoadedWorkspaceVariables, WorkspaceVariableError>)
    requires
        files.wf(),
    ensures
        r matches Ok(v) ==> v.wf(),
        outcome(r) == workspace_variables(
            files@.nodes,
            repository@,
            optional_text(selection.environment),
            selection.include_local_override,
            book@,
        ),
{
    let manifest = match repository.load_manifest(files) {
        Ok(m) => m.value,
        Err(e) => {
            return Err(WorkspaceVariableError::Workspace(e));
        },
    };
    let mut loaded = LoadedWorkspaceVariables::new();
    match repository.load_workspace_variables(files) {
        Ok(Some(document)) => match add_layer(
            &mut loaded,
            VariableScope::Workspace,
            &document,
            book,
        ) {
            Ok(_) => {},
            Err(e) => {
                return Err(e);
            },
        },
        Ok(None) => {},
        Err(e) => {
            return Err(WorkspaceVariableError::Workspace(e));
        },
    }
    let asked = match &selection.environment {
        Some(e) => Some(e.as_str()),
        None => match &manifest.default_environment {
            Some(e) => Some(e.as_str()),
            None => None,
        },
    };
    let text = match asked {
        Some(t) => t,
        None => {
            return Ok(loaded);
        },
    };
    let id = match StableId::parse(text) {
        Ok(id) => id,
        Err(e) => {
            return Err(WorkspaceVariableError::InvalidEnvironment(e.message()));
        },
    };
    let environment = match repository.load_environment(files, &id) {
        Ok(d) => d,
        Err(e) => {
            return Err(WorkspaceVariableError::Workspace(e));
        },
    };
    match add_layer(&mut loaded, VariableScope::Environment, &environment, book) {
        Ok(_) => {},
        Err(e) => {
            return Err(e);
        },
    }
    let has_local_override = files.is_there(place_of_override(&environment.value.id).as_str());
    loaded.environment = Some(
        EnvironmentSummary {
            id: environment.value.id.copy(),
            name: environment.value.name.clone(),
            path: environment.path.copy(),
            variable_count: environment.value.variables.len(),
            has_local_override,
        },
    );
    if selection.include_local_override {
        match repository.load_local_environment_override(files, &id) {
            Ok(Some(local)) => match add_layer(
                &mut loaded,
                VariableScope::LocalEnvironmentOverride,
                &local,
                book,
            ) {
                Ok(_) => {},
                Err(e) => {
                    return Err(e);
                },
            },
            Ok(None) => {},
            Err(e) => {
                return Err(WorkspaceVariableError::Workspace(e));
            },
        }
    }
    Ok(loaded)
}

/// The value of a variable is shown only where the definition that counts is public.
pub proof fn law_only_public_values_are_shown(v: VariablesView, name: Seq<char>)
    ensures
        effective(v.context, name) matches Some((_, d)) ==> d.sensitivity
            != ValueSensitivity::Public ==> inspection(v, name).displayed_value == "[REDACTED]"@,
{
}

proof fn lemma_candidates(v: VariablesView, name: Seq<char>, n: nat)
    requires
        n <= 10,
    ensures
        forall|i: int|
            0 <= i < candidates_among(v, name, n).len() ==> scope_rank(
                (#[trigger] candidates_among(v, name, n)[i]).scope,
            ) < n && candidates_among(v, name, n)[i].selected == (effective(v.context, name) matches Some(
                (scope, _),
            ) && scope == candidates_among(v, name, n)[i].scope),
        forall|i: int, j: int|
            0 <= i < j < candidates_among(v, name, n).len() ==> scope_rank(
                (#[trigger] candidates_among(v, name, n)[i]).scope,
            ) < scope_rank((#[trigger] candidates_among(v, name, n)[j]).scope),
    decreases n,
{
    lemma_precedence();
    if n > 0 {
        lemma_candidates(v, name, (n - 1) as nat);
        let scope = precedence()[n - 1];
        law_highest_precedence_wins(v.context, name, scope);
        assert(scope_rank(scope) == n - 1);
    }
}

/// The candidates of a variable stand from the weakest scope to the strongest, and the one that
/// is marked as selected, of which there is at most one, is the one whose value counts.
pub proof fn law_selected_candidate_counts(v: VariablesView, name: Seq<char>, i: int, j: int)
    requires
        0 <= i < j < inspection(v, name).candidates.len(),
    ensures
        ({
            let list = inspection(v, name).candidates;
            &&& scope_rank(list[i].scope) < scope_rank(list[j].scope)
            &&& !(list[i].selected && list[j].selected)
            &&& list[i].selected == (inspection(v, name).selected_scope == Some(list[i].scope))
            &&& list[j].selected == (inspection(v, name).selected_scope == Some(list[j].scope))
        }),
{
    lemma_candidates(v, name, 10);
}

/// The local values of an environment win over the environment and the workspace, and the
/// environment wins over the workspace: of the variables that were loaded, the enabled one of
/// the strongest file counts.
pub proof fn law_local_values_win(
    nodes: Nodes,
    root: Seq<char>,
    environment: Option<Seq<char>>,
    local: bool,
    book: BookView,
    name: Seq<char>,
)
    requires
        workspace_variables(nodes, root, environment, local, book) is Ok,
    ensures
        ({
            let context = workspace_variables(nodes, root, environment, local, book)->Ok_0.context;
            let own = definition_in(context, VariableScope::LocalEnvironmentOverride, name);
            let shared = definition_in(context, VariableScope::Environment, name);
            let general = definition_in(context, VariableScope::Workspace, name);
            effective(context, name) == (if own is Some && own->Some_0.enabled {
                Some((VariableScope::LocalEnvironmentOverride, own->Some_0))
            } else if shared is Some && shared->Some_0.enabled {
                Some((VariableScope::Environment, shared->Some_0))
            } else if general is Some && general->Some_0.enabled {
                Some((VariableScope::Workspace, general->Some_0))
            } else {
                None
            })
        }),
{
    let context = workspace_variables(nodes, root, environment, local, book)->Ok_0.context;
    assert forall|s: VariableScope| #[trigger] context.dom().contains(s) implies s
        == VariableScope::Workspace || s == VariableScope::Environment || s
        == VariableScope::LocalEnvironmentOverride by {}
    law_highest_precedence_wins(context, name, VariableScope::LocalEnvironmentOverride);
    law_highest_precedence_wins(context, name, VariableScope::Environment);
    law_highest_precedence_wins(context, name, VariableScope::Workspace);
}

} // verus!
