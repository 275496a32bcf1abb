//! Where variables are defined, and which definition counts.
use crate::order::TextMap;
use crate::value::{DefinitionView, VariableDefinition};
use vstd::prelude::*;

verus! {

/// A place where variables are defined, from the weakest to the strongest.
#[derive(Clone, Copy, Debug, PartialEq, Eq, Structural, Hash, PartialOrd, Ord)]
pub enum VariableScope {
    BuiltInDynamic,
    Global,
    Workspace,
    Collection,
    Folder,
    Environment,
    LocalEnvironmentOverride,
    Request,
    ScriptCreated,
    RunnerIterationData,
}

/// The scopes from the weakest to the strongest.
pub open spec fn precedence() -> Seq<VariableScope> {
    seq![
        VariableScope::BuiltInDynamic,
        VariableScope::Global,
        VariableScope::Workspace,
        VariableScope::Collection,
        VariableScope::Folder,
        VariableScope::Environment,
        VariableScope::LocalEnvironmentOverride,
        VariableScope::Request,
        VariableScope::ScriptCreated,
        VariableScope::RunnerIterationData,
    ]
}

/// How strong a scope is.
pub open spec fn scope_rank(scope: VariableScope) -> int {
    match scope {
        VariableScope::BuiltInDynamic => 0,
        VariableScope::Global => 1,
        VariableScope::Workspace => 2,
        VariableScope::Collection => 3,
        VariableScope::Folder => 4,
        VariableScope::Environment => 5,
        VariableScope::LocalEnvironmentOverride => 6,
        VariableScope::Request => 7,
        VariableScope::ScriptCreated => 8,
        VariableScope::RunnerIterationData => 9,
    }
}

/// The name of a scope.
pub open spec fn scope_label(scope: VariableScope) -> Seq<char> {
    match scope {
        VariableScope::BuiltInDynamic => "built-in dynamic"@,
        VariableScope::Global => "global"@,
        VariableScope::Workspace => "workspace"@,
        VariableScope::Collection => "collection"@,
        VariableScope::Folder => "folder"@,
        VariableScope::Environment => "environment"@,
        VariableScope::LocalEnvironmentOverride => "local environment override"@,
        VariableScope::Request => "request"@,
        VariableScope::ScriptCreated => "script-created"@,
        VariableScope::RunnerIterationData => "runner iteration data"@,
    }
}

/// The list of scopes and the rank of a scope agree.
pub proof fn lemma_precedence()
    ensures
        precedence().len() == 10,
        forall|i: int| 0 <= i < 10 ==> scope_rank(#[trigger] precedence()[i]) == i,
        forall|s: VariableScope|
            0 <= #[trigger] scope_rank(s) < 10 && precedence()[scope_rank(s)] == s,
{
    let p = precedence();
    assert forall|i: int| 0 <= i < 10 implies scope_rank(#[trigger] p[i]) == i by {
        assert(i == 0 || i == 1 || i == 2 || i == 3 || i == 4 || i == 5 || i == 6 || i == 7 || i == 8
            || i == 9);
    }
}

impl VariableScope {
    /// The scopes from the weakest to the strongest.
    pub fn in_precedence() -> (r: [VariableScope; 10])
        ensures
            r@ == precedence(),
    {
        let r = [
            VariableScope::BuiltInDynamic,
            VariableScope::Global,
            VariableScope::Workspace,
            VariableScope::Collection,
            VariableScope::Folder,
            VariableScope::Environment,
            VariableScope::LocalEnvironmentOverride,
            VariableScope::Request,
            VariableScope::ScriptCreated,
            VariableScope::RunnerIterationData,
        ];
        assert(r@ =~= precedence());
        r
    }

    /// The name of the scope.
    pub fn label(self) -> (r: &'static str)
        ensures
            r@ == scope_label(self),
    {
        match self {
            VariableScope::BuiltInDynamic => "built-in dynamic",
            VariableScope::Global => "global",
            VariableScope::Workspace => "workspace",
            VariableScope::Collection => "collection",
            VariableScope::Folder => "folder",
            VariableScope::Environment => "environment",
            VariableScope::LocalEnvironmentOverride => "local environment override",
            VariableScope::Request => "request",
            VariableScope::ScriptCreated => "script-created",
            VariableScope::RunnerIterationData => "runner iteration data",
        }
    }

    /// How strong the scope is.
    pub fn rank(self) -> (r: usize)
        ensures
            r as int == scope_rank(self),
            r < 10,
    {
        match self {
            VariableScope::BuiltInDynamic => 0,
            VariableScope::Global => 1,
            VariableScope::Workspace => 2,
            VariableScope::Collection => 3,
            VariableScope::Folder => 4,
            VariableScope::Environment => 5,
            VariableScope::LocalEnvironmentOverride => 6,
            VariableScope::Request => 7,
            VariableScope::ScriptCreated => 8,
            VariableScope::RunnerIterationData => 9,
        }
    }
}

/// The variables of a scope: their definitions by name.
pub type LayerView = Map<Seq<char>, DefinitionView>;

/// The variables of every scope that has any.
pub type ContextView = Map<VariableScope, LayerView>;

/// The variables of one scope.
#[derive(Debug)]
pub struct VariableLayer {
    values: TextMap<VariableDefinition>,
}

impl View for VariableLayer {
    type V = LayerView;

    closed spec fn view(&self) -> LayerView {
        self.values@
    }
}

impl VariableLayer {
    /// Whether the variables are in order.
    pub closed spec fn wf(&self) -> bool {
        self.values.wf()
    }

    /// No variables.
    pub fn new() -> (r: VariableLayer)
        ensures
            r.wf(),
            r@ == LayerView::empty(),
    {
        VariableLayer { values: TextMap::new() }
    }

    /// The variables that some definitions give.
    pub fn of(values: TextMap<VariableDefinition>) -> (r: VariableLayer)
        requires
            values.wf(),
        ensures
            r.wf(),
            r@ == values@,
    {
        VariableLayer { values }
    }

    /// Defines a variable, in place of a definition already there.
    pub fn insert(&mut self, name: String, definition: VariableDefinition)
        requires
            old(self).wf(),
        ensures
            final(self).wf(),
            final(self)@ == old(self)@.insert(name@, definition@),
    {
        self.values.insert(name, definition);
    }

    /// The definition of a variable.
    pub fn get(&self, name: &str) -> (r: Option<&VariableDefinition>)
        requires
            self.wf(),
        ensures
            match r {
                Some(d) => self@.dom().contains(name@) && self@[name@] == d@,
                None => !self@.dom().contains(name@),
            },
    {
        self.values.get(name)
    }

    /// The names of the variables, in ascending order.
    pub closed spec fn names(&self) -> Seq<Seq<char>> {
        self.values.pairs().map_values(|p: (Seq<char>, DefinitionView)| p.0)
    }

    /// The number of variables.
    pub fn len(&self) -> (r: usize)
        requires
            self.wf(),
        ensures
            r == self.names().len(),
    {
        self.values.entries.len()
    }

    /// The name and the definition of the variable at a position.
    pub fn entry(&self, i: usize) -> (r: (&String, &VariableDefinition))
        requires
            self.wf(),
            i < self.names().len(),
        ensures
            r.0@ == self.names()[i as int],
            self@.dom().contains(r.0@),
            self@[r.0@] == r.1@,
    {
        proof {
            self.values.lemma_entries();
        }
        let e = &self.values.entries[i];
        (&e.0, &e.1)
    }

    /// Every variable stands among the names, and no other name does.
    pub proof fn lemma_names(&self)
        requires
            self.wf(),
        ensures
            forall|k: Seq<char>| #[trigger] self@.dom().contains(k) <==> self.names().contains(k),
    {
        self.values.lemma_entries();
        assert forall|k: Seq<char>| #[trigger] self@.dom().contains(k) <==> self.names().contains(k) by {
            if self@.dom().contains(k) {
                let i = choose|i: int|
                    0 <= i < self.values.entries@.len() && (#[trigger] self.values.entries@[i]).0@
                        == k;
                assert(self.names()[i] == k);
            }
            if self.names().contains(k) {
                let i = choose|i: int| 0 <= i < self.names().len() && self.names()[i] == k;
                assert(self.values.entries@[i].0@ == k);
            }
        }
    }

    /// Takes over every variable of another layer, in place of one of the same name.
    pub fn extend(&mut self, other: VariableLayer)
        requires
            old(self).wf(),
            other.wf(),
        ensures
            final(self).wf(),
            final(self)@ == old(self)@.union_prefer_right(other@),
    {
        let ghost start = self@;
        let ghost pairs = other.values.pairs();
        assert(start.union_prefer_right(crate::order::map_of(pairs.take(0))) =~= start);
        for entry in it: other.values.entries
            invariant
                self.wf(),
                it.seq().len() == pairs.len(),
                forall|k: int|
                    0 <= k < pairs.len() ==> pairs[k] == ((#[trigger] it.seq()[k]).0@, it.seq()[k].1@),
                self@ == start.union_prefer_right(
                    crate::order::map_of(pairs.take(it.index() as int)),
                ),
        {
            let ghost i = it.index() as int;
            let (name, definition) = entry;
            assert(it.seq()[i] == entry);
            assert(pairs[i] == (name@, definition@));
            self.values.insert(name, definition);
            proof {
                assert(pairs.take(i + 1).drop_last() =~= pairs.take(i));
                assert(pairs.take(i + 1).last() == pairs[i]);
                assert(self@ =~= start.union_prefer_right(
                    crate::order::map_of(pairs.take(i + 1)),
                ));
            }
        }
        assert(pairs.take(pairs.len() as int) =~= pairs);
    }
}

/// The variables of every scope.
#[derive(Debug)]
pub struct VariableContext {
    layers: Vec<VariableLayer>,
    present: Vec<bool>,
}

impl View for VariableContext {
    type V = ContextView;

    closed spec fn view(&self) -> ContextView {
        Map::new(
            |s: VariableScope| self.present@[scope_rank(s)],
            |s: VariableScope| self.layers@[scope_rank(s)]@,
        )
    }
}

/// The definition that a scope gives a variable.
pub open spec fn definition_in(context: ContextView, scope: VariableScope, name: Seq<char>) -> Option<
    DefinitionView,
> {
    if context.dom().contains(scope) && context[scope].dom().contains(name) {
        Some(context[scope][name])
    } else {
        None
    }
}

/// The definition that counts among the `n` weakest scopes: the one of the strongest
/// scope that defines the variable and has it enabled.
pub open spec fn effective_among(context: ContextView, name: Seq<char>, n: nat) -> Option<
    (VariableScope, DefinitionView),
>
    decreases n,
{
    if n == 0 {
        None
    } else {
        let scope = precedence()[n - 1];
        match definition_in(context, scope, name) {
            Some(d) => if d.enabled {
                Some((scope, d))
            } else {
                effective_among(context, name, (n - 1) as nat)
            },
            None => effective_among(context, name, (n - 1) as nat),
        }
    }
}

/// The definition of a variable that counts.
pub open spec fn effective(context: ContextView, name: Seq<char>) -> Option<
    (VariableScope, DefinitionView),
> {
    effective_among(context, name, 10)
}

impl VariableContext {
    /// Whether every layer is in order and a layer that is not there is empty.
    pub closed spec fn wf(&self) -> bool {
        &&& self.layers@.len() == 10
        &&& self.present@.len() == 10
        &&& forall|i: int| 0 <= i < 10 ==> (#[trigger] self.layers@[i]).wf()
        &&& forall|i: int|
            0 <= i < 10 && !(#[trigger] self.present@[i]) ==> self.layers@[i]@ == LayerView::empty()
    }

    /// No variables in any scope.
    pub fn new() -> (r: VariableContext)
        ensures
            r.wf(),
            r@ == ContextView::empty(),
    {
        let mut layers: Vec<VariableLayer> = Vec::new();
        let mut present: Vec<bool> = Vec::new();
        for i in 0..10usize
            invariant
                layers@.len() == i,
                present@.len() == i,
                forall|k: int|
                    0 <= k < i ==> (#[trigger] layers@[k]).wf() && layers@[k]@ == LayerView::empty(),
                forall|k: int| 0 <= k < i ==> !(#[trigger] present@[k]),
        {
            layers.push(VariableLayer::new());
            present.push(false);
        }
        let r = VariableContext { layers, present };
        proof {
            lemma_precedence();
            assert(r@ =~= ContextView::empty());
        }
        r
    }

    /// The variables of a scope, to be changed.
    pub fn layer_mut(&mut self, scope: VariableScope) -> (r: &mut VariableLayer)
        requires
            old(self).wf(),
        ensures
            r.wf(),
            r@ == (if old(self)@.dom().contains(scope) {
                old(self)@[scope]
            } else {
                LayerView::empty()
            }),
            final(r).wf() ==> final(self).wf(),
            final(self)@ == old(self)@.insert(scope, final(r)@),
    {
        let i: usize = scope.rank();
        proof {
            lemma_precedence();
        }
        self.present.set(i, true);
        &mut self.layers[i]
    }

    /// The variables of a scope.
    pub fn layer(&self, scope: VariableScope) -> (r: Option<&VariableLayer>)
        requires
            self.wf(),
        ensures
            match r {
                Some(l) => self@.dom().contains(scope) && l.wf() && self@[scope] == l@,
                None => !self@.dom().contains(scope),
            },
    {
        let i: usize = scope.rank();
        if self.present[i] {
            Some(&self.layers[i])
        } else {
            None
        }
    }

    /// The definition that a scope gives a variable.
    pub fn definition(&self, scope: VariableScope, name: &str) -> (r: Option<&VariableDefinition>)
        requires
            self.wf(),
        ensures
            match r {
                Some(d) => definition_in(self@, scope, name@) == Some(d@),
                None => definition_in(self@, scope, name@) is None,
            },
    {
        match self.layer(scope) {
            Some(layer) => layer.get(name),
            None => None,
        }
    }

    /// The definition of a variable that counts, with the scope that gives it.
    pub fn effective_definition(&self, name: &str) -> (r: Option<
        (VariableScope, &VariableDefinition),
    >)
        requires
            self.wf(),
        ensures
            match r {
                Some((scope, d)) => effective(self@, name@) == Some((scope, d@)),
                None => effective(self@, name@) is None,
            },
    {
        let scopes = VariableScope::in_precedence();
        let mut n: usize = 10;
        while n > 0
            invariant
                n <= 10,
                self.wf(),
                scopes@ == precedence(),
                effective(self@, name@) == effective_among(self@, name@, n as nat),
            decreases n,
        {
            let scope = scopes[n - 1];
            assert(scope == precedence()[n - 1]);
            if let Some(d) = self.definition(scope, name) {
                if d.enabled {
                    return Some((scope, d));
                }
            }
            n -= 1;
        }
        None
    }

    /// Takes over every variable of another context, in place of one of the same name
    /// and scope.
    pub fn merge(&mut self, other: VariableContext)
        requires
            old(self).wf(),
            other.wf(),
        ensures
            final(self).wf(),
            final(self)@ == merged(old(self)@, other@),
    {
        let ghost start = *self;
        let ghost given = other;
        let mut rest = other.layers;
        let present = other.present;
        proof {
            lemma_precedence();
        }
        let mut i: usize = 10;
        while i > 0
            invariant
                i <= 10,
                start.wf(),
                given.wf(),
                self.wf(),
                rest@ == given.layers@.take(i as int),
                present@ == given.present@,
                forall|k: int|
                    0 <= k < i ==> #[trigger] self.layers@[k] == start.layers@[k] && self.present@[k]
                        == start.present@[k],
                forall|k: int|
                    i <= k < 10 ==> self.present@[k] == (start.present@[k] || given.present@[k]),
                forall|k: int|
                    i <= k < 10 && given.present@[k] ==> (#[trigger] self.layers@[k])@
                        == start.layers@[k]@.union_prefer_right(given.layers@[k]@),
                forall|k: int|
                    i <= k < 10 && !given.present@[k] ==> (#[trigger] self.layers@[k])@
                        == start.layers@[k]@,
            decreases i,
        {
            i -= 1;
            let layer = rest.pop().unwrap();
            assert(layer == given.layers@[i as int]);
            if present[i] {
                let mut own = self.layers.remove(i);
                assert(own == start.layers@[i as int]);
                own.extend(layer);
                self.layers.insert(i, own);
                self.present.set(i, true);
            }
            assert(rest@ =~= given.layers@.take(i as int));
        }
        proof {
            assert forall|s: VariableScope| 0 <= #[trigger] scope_rank(s) < 10 by {}
            assert(self@ =~= merged(start@, given@)) by {
                assert forall|s: VariableScope| #[trigger] self@.dom().contains(s) implies self@[s]
                    == merged(start@, given@)[s] by {
                    let k = scope_rank(s);
                    assert(self.layers@[k]@ == self@[s]);
                    assert(start.layers@[k].wf() && given.layers@[k].wf());
                    assert(start.present@[k] || start.layers@[k]@ == LayerView::empty());
                    if !start.present@[k] {
                        assert(LayerView::empty().union_prefer_right(given.layers@[k]@)
                            =~= given.layers@[k]@);
                    }
                }
            }
        }
    }
}

/// Two contexts put together: of two variables of the same name and scope the one of
/// the second counts.
pub open spec fn merged(a: ContextView, b: ContextView) -> ContextView {
    Map::new(
        |s: VariableScope| a.dom().contains(s) || b.dom().contains(s),
        |s: VariableScope|
            if a.dom().contains(s) && b.dom().contains(s) {
                a[s].union_prefer_right(b[s])
            } else if a.dom().contains(s) {
                a[s]
            } else {
                b[s]
            },
    )
}

impl Default for VariableContext {
    fn default() -> (r: VariableContext)
        ensures
            r.wf(),
            r@ == ContextView::empty(),
    {
        VariableContext::new()
    }
}

proof fn lemma_effective_among(context: ContextView, name: Seq<char>, n: nat)
    requires
        n <= 10,
    ensures
        match effective_among(context, name, n) {
            Some((scope, d)) => {
                &&& scope_rank(scope) < n
                &&& definition_in(context, scope, name) == Some(d)
                &&& d.enabled
                &&& forall|s: VariableScope|
                    scope_rank(scope) < #[trigger] scope_rank(s) < n ==> match definition_in(
                        context,
                        s,
                        name,
                    ) {
                        Some(other) => !other.enabled,
                        None => true,
                    }
            },
            None => forall|s: VariableScope|
                (#[trigger] scope_rank(s)) < n ==> match definition_in(context, s, name) {
                    Some(other) => !other.enabled,
                    None => true,
                },
        },
    decreases n,
{
    lemma_precedence();
    if n > 0 {
        lemma_effective_among(context, name, (n - 1) as nat);
        let top = precedence()[n - 1];
        assert(scope_rank(top) == n - 1);
        assert forall|s: VariableScope| #[trigger] scope_rank(s) == n - 1 implies s == top by {}
    }
}

/// The highest precedence wins: the definition that counts is enabled, and every
/// stronger scope either does not define the variable or has it disabled. Where none
/// counts, no scope has the variable enabled.
pub proof fn law_highest_precedence_wins(context: ContextView, name: Seq<char>, other: VariableScope)
    ensures
        match effective(context, name) {
            Some((scope, d)) => {
                &&& definition_in(context, scope, name) == Some(d)
                &&& d.enabled
                &&& scope_rank(other) > scope_rank(scope) ==> (definition_in(context, other, name)
                    matches Some(o) ==> !o.enabled)
            },
            None => definition_in(context, other, name) matches Some(o) ==> !o.enabled,
        },
{
    lemma_effective_among(context, name, 10);
    lemma_precedence();
    assert(0 <= scope_rank(other) < 10);
}

/// Merging keeps every definition: what is given counts where both say something in the same
/// scope, and what only one of them says stays as it is. Nothing else comes in.
pub proof fn law_merging_lets_the_given_count(
    own: ContextView,
    given: ContextView,
    scope: VariableScope,
    name: Seq<char>,
)
    ensures
        definition_in(given, scope, name) is Some ==> definition_in(
            merged(own, given),
            scope,
            name,
        ) == definition_in(given, scope, name),
        definition_in(given, scope, name) is None ==> definition_in(
            merged(own, given),
            scope,
            name,
        ) == definition_in(own, scope, name),
        merged(own, given).dom().contains(scope) <==> (own.dom().contains(scope)
            || given.dom().contains(scope)),
{
}

} // verus!
