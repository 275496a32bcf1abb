//! JSON texts of values, by way of `serde_json`.
use crate::error::{invalid_format, WorkspaceError, WorkspaceErrorView};
use crate::order::{ascending, in_order, lemma_in_order, map_of, text_lt};
use crate::value::{
    lemma_member_views, lemma_value_list_depth, lemma_value_member_depth, lemma_value_views,
    member_views, value_depth, value_list_depth, value_member_depth, value_view, value_views,
    ValueView, VariableValue,
};
use vstd::prelude::*;

verus! {

/// A JSON value of `serde_json`.
#[verifier::external_type_specification]
#[verifier::external_body]
pub struct ExJsonValue(serde_json::Value);

/// A JSON value, by its contents. A number that is written as an integer is kept by
/// its digits, another one by the text that `std` displays it with; the members of
/// an object are in ascending order of their names.
pub enum JsonTree {
    Null,
    Bool(bool),
    Integer(Seq<char>),
    Float(Seq<char>),
    Text(Seq<char>),
    Array(Seq<JsonTree>),
    Object(Seq<(Seq<char>, JsonTree)>),
}

/// The tree that a JSON value of `serde_json` holds.
pub uninterp spec fn json_tree(value: serde_json::Value) -> JsonTree;

/// The compact JSON text of a tree, as `serde_json` writes it.
pub uninterp spec fn json_text(tree: JsonTree) -> Seq<char>;

/// What `serde_json` reads from a JSON text: a tree, or what its error says.
pub uninterp spec fn json_read(text: Seq<char>) -> Result<JsonTree, Seq<char>>;

/// What a decimal text is as a floating-point number.
pub enum NumberReading {
    /// Not a number.
    Invalid,
    /// Not a number that is finite.
    NotFinite,
    /// A finite number, by the text that it is displayed with.
    Finite(Seq<char>),
}

/// What a decimal text is as a floating-point number of 64 bits.
pub uninterp spec fn number_reading(text: Seq<char>) -> NumberReading;

/// Whether a text is the one that a finite number is displayed with.
pub open spec fn is_number_text(text: Seq<char>) -> bool {
    number_reading(text) == NumberReading::Finite(text)
}

/// One level of a JSON value; a number by the text that it is displayed with as a
/// floating-point number.
pub enum JsonNode {
    Null,
    Bool(bool),
    Number(String),
    Text(String),
    Array(Vec<serde_json::Value>),
    Object(Vec<(String, serde_json::Value)>),
}

/// The trees of a list of JSON values.
pub open spec fn json_trees(list: Seq<serde_json::Value>) -> Seq<JsonTree> {
    list.map_values(|v: serde_json::Value| json_tree(v))
}

/// The trees of a list of JSON members.
pub open spec fn json_members(list: Seq<(String, serde_json::Value)>) -> Seq<(Seq<char>, JsonTree)> {
    list.map_values(|m: (String, serde_json::Value)| (m.0@, json_tree(m.1)))
}

/// Whether one level stands for a tree.
pub open spec fn stands_for(node: JsonNode, tree: JsonTree) -> bool {
    match node {
        JsonNode::Null => tree == JsonTree::Null,
        JsonNode::Bool(b) => tree == JsonTree::Bool(b),
        JsonNode::Number(t) => match tree {
            JsonTree::Float(shown) => t@ == shown,
            JsonTree::Integer(digits) => number_reading(digits) == NumberReading::Finite(t@),
            _ => false,
        },
        JsonNode::Text(t) => tree == JsonTree::Text(t@),
        JsonNode::Array(list) => tree == JsonTree::Array(json_trees(list@)),
        JsonNode::Object(list) => tree == JsonTree::Object(json_members(list@)) && ascending(
            json_members(list@),
        ),
    }
}

/// The tree of one level that was put together: of members of the same name the last
/// one counts.
pub open spec fn node_tree(node: JsonNode) -> JsonTree {
    match node {
        JsonNode::Null => JsonTree::Null,
        JsonNode::Bool(b) => JsonTree::Bool(b),
        JsonNode::Number(t) => JsonTree::Float(number_shown(t@)),
        JsonNode::Text(t) => JsonTree::Text(t@),
        JsonNode::Array(list) => JsonTree::Array(json_trees(list@)),
        JsonNode::Object(list) => JsonTree::Object(in_order(map_of(json_members(list@)))),
    }
}

/// Reads a JSON text: `serde_json::from_str`. What it returns, and what its error
/// says, is a function of the text. It refuses a text in which lists and objects stand
/// more than 127 deep.
#[verifier::external_body]
pub(crate) fn parse_json(text: &str) -> (r: Result<serde_json::Value, String>)
    ensures
        match r {
            Ok(value) => json_read(text@) is Ok && json_read(text@)->Ok_0 == json_tree(value)
                && depth(json_tree(value)) <= 127,
            Err(message) => json_read(text@) is Err && json_read(text@)->Err_0 == message@,
        },
{
    serde_json::from_str::<serde_json::Value>(text).map_err(|error| error.to_string())
}

/// Writes a JSON value: `serde_json::to_string`, which never fails on one. The text
/// is a function of the tree. A tree without numbers whose lists and objects stand
/// at most 127 deep is read back from its text: reading refuses a deeper one, and
/// does not promise the exact value of a number.
#[verifier::external_body]
pub(crate) fn write_json(value: &serde_json::Value) -> (text: String)
    ensures
        text@ == json_text(json_tree(*value)),
        has_no_number(json_tree(*value)) && depth(json_tree(*value)) <= 127 ==> json_read(text@) is Ok
            && json_read(text@)->Ok_0 == json_tree(*value),
{
    serde_json::to_string(value).unwrap_or_default()
}

/// Takes one level of a JSON value apart. `serde_json::Number::as_f64` gives a number
/// as the nearest floating-point number, which it does for every number of a JSON
/// value; a map of `serde_json` hands its members out in the order of their names.
#[verifier::external_body]
pub(crate) fn open_json(value: serde_json::Value) -> (node: JsonNode)
    ensures
        stands_for(node, json_tree(value)),
{
    match value {
        serde_json::Value::Null => JsonNode::Null,
        serde_json::Value::Bool(b) => JsonNode::Bool(b),
        serde_json::Value::Number(n) => JsonNode::Number(n.as_f64().unwrap_or_default().to_string()),
        serde_json::Value::String(t) => JsonNode::Text(t),
        serde_json::Value::Array(list) => JsonNode::Array(list),
        serde_json::Value::Object(map) => JsonNode::Object(map.into_iter().collect()),
    }
}

/// Puts one level of a JSON value together. `serde_json::Number::from_f64` makes a
/// number of the floating-point number that a text stands for.
#[verifier::external_body]
pub(crate) fn close_json(node: JsonNode) -> (value: serde_json::Value)
    requires
        node matches JsonNode::Number(t) ==> number_reading(t@) is Finite,
    ensures
        json_tree(value) == node_tree(node),
{
    match node {
        JsonNode::Null => serde_json::Value::Null,
        JsonNode::Bool(b) => serde_json::Value::Bool(b),
        JsonNode::Number(t) => serde_json::Value::from(t.parse().ok().and_then(serde_json::Number::from_f64)),
        JsonNode::Text(t) => serde_json::Value::String(t),
        JsonNode::Array(list) => serde_json::Value::Array(list),
        JsonNode::Object(list) => serde_json::Value::Object(list.into_iter().collect()),
    }
}

/// Reads a decimal text as a floating-point number: `str::parse`, and
/// `serde_json::Number::from_f64`, which refuses what is not finite. What the text
/// stands for is a function of it.
#[verifier::external_body]
pub(crate) fn read_number(text: &str) -> (r: Result<Option<String>, String>)
    ensures
        match r {
            Ok(Some(shown)) => number_reading(text@) == NumberReading::Finite(shown@),
            Ok(None) => number_reading(text@) == NumberReading::NotFinite,
            Err(_) => number_reading(text@) == NumberReading::Invalid,
        },
{
    match text.parse().map(serde_json::Number::from_f64) {
        Ok(number) => Ok(number.and_then(|n| n.as_f64()).map(|value| value.to_string())),
        Err(error) => Err(error.to_string()),
    }
}

/// Whether a tree holds no number.
pub open spec fn has_no_number(tree: JsonTree) -> bool
    decreases tree,
{
    match tree {
        JsonTree::Integer(_) => false,
        JsonTree::Float(_) => false,
        JsonTree::Array(list) => forall|i: int|
            0 <= i < list.len() ==> has_no_number(#[trigger] list[i]),
        JsonTree::Object(list) => forall|i: int|
            0 <= i < list.len() ==> has_no_number((#[trigger] list[i]).1),
        _ => true,
    }
}

/// How deep lists and objects stand inside one another.
pub open spec fn depth(tree: JsonTree) -> nat
    decreases tree,
{
    match tree {
        JsonTree::Array(list) => 1 + list_depth(list),
        JsonTree::Object(list) => 1 + member_depth(list),
        _ => 0,
    }
}

/// The depth of the deepest tree of a list.
pub open spec fn list_depth(list: Seq<JsonTree>) -> nat
    decreases list,
{
    if list.len() == 0 {
        0
    } else {
        let a = list_depth(list.drop_last());
        let b = depth(list.last());
        if a > b {
            a
        } else {
            b
        }
    }
}

/// The depth of the deepest member.
pub open spec fn member_depth(list: Seq<(Seq<char>, JsonTree)>) -> nat
    decreases list,
{
    if list.len() == 0 {
        0
    } else {
        let a = member_depth(list.drop_last());
        let b = depth(list.last().1);
        if a > b {
            a
        } else {
            b
        }
    }
}

proof fn lemma_list_depth(list: Seq<JsonTree>, i: int)
    requires
        0 <= i < list.len(),
    ensures
        depth(list[i]) <= list_depth(list),
    decreases list.len(),
{
    if i < list.len() - 1 {
        lemma_list_depth(list.drop_last(), i);
    }
}

proof fn lemma_member_depth(list: Seq<(Seq<char>, JsonTree)>, i: int)
    requires
        0 <= i < list.len(),
    ensures
        depth(list[i].1) <= member_depth(list),
    decreases list.len(),
{
    if i < list.len() - 1 {
        lemma_member_depth(list.drop_last(), i);
    }
}

/// The text that a number of a tree is displayed with.
pub open spec fn number_shown(digits: Seq<char>) -> Seq<char> {
    match number_reading(digits) {
        NumberReading::Finite(shown) => shown,
        _ => seq![],
    }
}

/// The value that a tree stands for.
pub open spec fn tree_value(tree: JsonTree) -> ValueView
    decreases tree,
{
    match tree {
        JsonTree::Null => ValueView::Null,
        JsonTree::Bool(b) => ValueView::Bool(b),
        JsonTree::Integer(digits) => ValueView::Number(number_shown(digits)),
        JsonTree::Float(shown) => ValueView::Number(shown),
        JsonTree::Text(t) => ValueView::String(t),
        JsonTree::Array(list) => ValueView::Array(tree_values(list)),
        JsonTree::Object(list) => ValueView::Object(tree_members(list)),
    }
}

/// The values that a list of trees stands for.
pub open spec fn tree_values(list: Seq<JsonTree>) -> Seq<ValueView>
    decreases list,
{
    if list.len() == 0 {
        seq![]
    } else {
        tree_values(list.drop_last()).push(tree_value(list.last()))
    }
}

/// The members that a list of trees stands for.
pub open spec fn tree_members(list: Seq<(Seq<char>, JsonTree)>) -> Seq<(Seq<char>, ValueView)>
    decreases list,
{
    if list.len() == 0 {
        seq![]
    } else {
        tree_members(list.drop_last()).push((list.last().0, tree_value(list.last().1)))
    }
}

/// A value is as deep as the tree that it comes from.
pub proof fn lemma_tree_value_depth(tree: JsonTree)
    ensures
        value_depth(tree_value(tree)) == depth(tree),
    decreases tree,
{
    match tree {
        JsonTree::Array(list) => {
            lemma_tree_values(list);
        },
        JsonTree::Object(list) => {
            lemma_tree_members(list);
        },
        _ => {},
    }
}

proof fn lemma_tree_values(list: Seq<JsonTree>)
    ensures
        tree_values(list).len() == list.len(),
        value_list_depth(tree_values(list)) == list_depth(list),
    decreases list,
{
    if list.len() > 0 {
        lemma_tree_values(list.drop_last());
        lemma_tree_value_depth(list.last());
        assert(tree_values(list).drop_last() =~= tree_values(list.drop_last()));
    }
}

proof fn lemma_tree_members(list: Seq<(Seq<char>, JsonTree)>)
    ensures
        tree_members(list).len() == list.len(),
        forall|i: int| 0 <= i < list.len() ==> (#[trigger] tree_members(list)[i]).0 == list[i].0,
        value_member_depth(tree_members(list)) == member_depth(list),
    decreases list,
{
    if list.len() > 0 {
        let front = tree_members(list.drop_last());
        lemma_tree_members(list.drop_last());
        lemma_tree_value_depth(list.last().1);
        assert(tree_members(list).drop_last() =~= front);
        assert forall|i: int| 0 <= i < list.len() implies (#[trigger] tree_members(list)[i]).0
            == list[i].0 by {
            if i < front.len() {
                assert(tree_members(list)[i] == front[i]);
            }
        }
    }
}

/// Converts a JSON value.
pub fn json_to_variable_value(value: serde_json::Value) -> (r: VariableValue)
    ensures
        value_view(r) == tree_value(json_tree(value)),
        value_ordered(value_view(r)),
    decreases depth(json_tree(value)),
{
    let ghost tree = json_tree(value);
    match open_json(value) {
        JsonNode::Null => VariableValue::Null,
        JsonNode::Bool(b) => VariableValue::Bool(b),
        JsonNode::Number(t) => VariableValue::Number(t),
        JsonNode::Text(t) => VariableValue::String(t),
        JsonNode::Array(list) => {
            let ghost trees = json_trees(list@);
            let mut values: Vec<VariableValue> = Vec::new();
            assert(trees.take(0) =~= seq![]);
            for item in it: list
                invariant
                    trees == json_trees(it.seq()),
                    tree == JsonTree::Array(trees),
                    tree == json_tree(value),
                    value_views(values@) == tree_values(trees.take(it.index() as int)),
                    forall|k: int|
                        0 <= k < values@.len() ==> value_ordered(value_view(#[trigger] values@[k])),
                decreases trees.len() - it.index(),
            {
                let ghost i = it.index() as int;
                assert(json_tree(item) == trees[i]);
                proof {
                    lemma_list_depth(trees, i);
                }
                let ghost before = values@;
                let v = json_to_variable_value(item);
                values.push(v);
                assert(values@.drop_last() =~= before);
                assert(trees.take(i + 1).drop_last() =~= trees.take(i));
            }
            assert(trees.take(trees.len() as int) =~= trees);
            proof {
                lemma_value_views(values@);
                assert forall|k: int| 0 <= k < values@.len() implies value_ordered(
                    #[trigger] value_views(values@)[k],
                ) by {
                    assert(value_ordered(value_view(values@[k])));
                }
            }
            VariableValue::Array(values)
        },
        JsonNode::Object(list) => {
            let ghost trees = json_members(list@);
            let mut values: Vec<(String, VariableValue)> = Vec::new();
            assert(trees.take(0) =~= seq![]);
            for item in it: list
                invariant
                    trees == json_members(it.seq()),
                    tree == JsonTree::Object(trees),
                    tree == json_tree(value),
                    ascending(trees),
                    member_views(values@) == tree_members(trees.take(it.index() as int)),
                    forall|k: int|
                        0 <= k < values@.len() ==> value_ordered(
                            value_view((#[trigger] values@[k]).1),
                        ),
                decreases trees.len() - it.index(),
            {
                let ghost i = it.index() as int;
                let (name, child) = item;
                assert(trees[i] == (name@, json_tree(child)));
                proof {
                    lemma_member_depth(trees, i);
                }
                let ghost before = values@;
                let v = json_to_variable_value(child);
                values.push((name, v));
                assert(values@.drop_last() =~= before);
                assert(trees.take(i + 1).drop_last() =~= trees.take(i));
            }
            assert(trees.take(trees.len() as int) =~= trees);
            proof {
                let shown = member_views(values@);
                lemma_member_views(values@);
                lemma_tree_members(trees);
                assert forall|k: int| 0 <= k < shown.len() implies value_ordered(
                    (#[trigger] shown[k]).1,
                ) by {
                    assert(value_ordered(value_view(values@[k].1)));
                }
                assert forall|a: int, b: int| 0 <= a < b < shown.len() implies text_lt(
                    (#[trigger] shown[a]).0,
                    (#[trigger] shown[b]).0,
                ) by {
                    assert(text_lt(trees[a].0, trees[b].0));
                }
            }
            VariableValue::Object(values)
        },
    }
}

/// The error about a number that is not finite.
pub open spec fn not_finite() -> WorkspaceErrorView {
    WorkspaceErrorView::InvalidFormat("variable numbers must be finite"@)
}

/// The tree of a value; an error where one of its numbers is not finite.
pub open spec fn value_tree(value: ValueView) -> Result<JsonTree, WorkspaceErrorView>
    decreases value,
{
    match value {
        ValueView::Null => Ok(JsonTree::Null),
        ValueView::Bool(b) => Ok(JsonTree::Bool(b)),
        ValueView::Number(t) => match number_reading(t) {
            NumberReading::Finite(shown) => Ok(JsonTree::Float(shown)),
            _ => Err(not_finite()),
        },
        ValueView::String(t) => Ok(JsonTree::Text(t)),
        ValueView::Array(list) => match value_trees(list) {
            Ok(trees) => Ok(JsonTree::Array(trees)),
            Err(e) => Err(e),
        },
        ValueView::Object(list) => match member_trees(list) {
            Ok(trees) => Ok(JsonTree::Object(in_order(map_of(trees)))),
            Err(e) => Err(e),
        },
    }
}

/// The trees of a list of values.
pub open spec fn value_trees(list: Seq<ValueView>) -> Result<Seq<JsonTree>, WorkspaceErrorView>
    decreases list,
{
    if list.len() == 0 {
        Ok(seq![])
    } else {
        match value_trees(list.drop_last()) {
            Err(e) => Err(e),
            Ok(front) => match value_tree(list.last()) {
                Err(e) => Err(e),
                Ok(tree) => Ok(front.push(tree)),
            },
        }
    }
}

/// The trees of a list of members.
pub open spec fn member_trees(list: Seq<(Seq<char>, ValueView)>) -> Result<
    Seq<(Seq<char>, JsonTree)>,
    WorkspaceErrorView,
>
    decreases list,
{
    if list.len() == 0 {
        Ok(seq![])
    } else {
        match member_trees(list.drop_last()) {
            Err(e) => Err(e),
            Ok(front) => match value_tree(list.last().1) {
                Err(e) => Err(e),
                Ok(tree) => Ok(front.push((list.last().0, tree))),
            },
        }
    }
}

/// Whether the members of every object in a value are in ascending order.
pub open spec fn value_ordered(value: ValueView) -> bool
    decreases value,
{
    match value {
        ValueView::Array(list) => forall|i: int|
            0 <= i < list.len() ==> value_ordered(#[trigger] list[i]),
        ValueView::Object(list) => ascending(list) && forall|i: int|
            0 <= i < list.len() ==> value_ordered((#[trigger] list[i]).1),
        _ => true,
    }
}

proof fn lemma_trees_error(list: Seq<ValueView>, k: int)
    requires
        0 <= k <= list.len(),
        value_trees(list.take(k)) is Err,
    ensures
        value_trees(list) == value_trees(list.take(k)),
    decreases list.len() - k,
{
    if k < list.len() {
        assert(list.take(k + 1).drop_last() =~= list.take(k));
        lemma_trees_error(list, k + 1);
    } else {
        assert(list.take(k) =~= list);
    }
}

proof fn lemma_member_trees_error(list: Seq<(Seq<char>, ValueView)>, k: int)
    requires
        0 <= k <= list.len(),
        member_trees(list.take(k)) is Err,
    ensures
        member_trees(list) == member_trees(list.take(k)),
    decreases list.len() - k,
{
    if k < list.len() {
        assert(list.take(k + 1).drop_last() =~= list.take(k));
        lemma_member_trees_error(list, k + 1);
    } else {
        assert(list.take(k) =~= list);
    }
}

/// Converts a value to JSON.
pub fn variable_value_to_json(value: &VariableValue) -> (r: Result<serde_json::Value, WorkspaceError>)
    ensures
        match r {
            Ok(json) => value_tree(value_view(*value)) == Ok::<JsonTree, WorkspaceErrorView>(
                json_tree(json),
            ),
            Err(e) => value_tree(value_view(*value)) == Err::<JsonTree, WorkspaceErrorView>(e@),
        },
    decreases value_depth(value_view(*value)),
{
    match value {
        VariableValue::Null => Ok(close_json(JsonNode::Null)),
        VariableValue::Bool(b) => Ok(close_json(JsonNode::Bool(*b))),
        VariableValue::Number(t) => match read_number(t.as_str()) {
            Ok(Some(_)) => Ok(close_json(JsonNode::Number(t.clone()))),
            _ => Err(invalid_format("variable numbers must be finite")),
        },
        VariableValue::String(t) => Ok(close_json(JsonNode::Text(t.clone()))),
        VariableValue::Array(list) => {
            let ghost views = value_views(list@);
            let mut out: Vec<serde_json::Value> = Vec::new();
            proof {
                lemma_value_views(list@);
                assert(views.take(0) =~= seq![]);
                assert(json_trees(out@) =~= seq![]);
            }
            for i in 0..list.len()
                invariant
                    views == value_views(list@),
                    views.len() == list@.len(),
                    forall|k: int| 0 <= k < views.len() ==> views[k] == value_view(#[trigger] list@[k]),
                    value_view(*value) == ValueView::Array(views),
                    value_trees(views.take(i as int)) == Ok::<Seq<JsonTree>, WorkspaceErrorView>(
                        json_trees(out@),
                    ),
            {
                assert(views[i as int] == value_view(list@[i as int]));
                proof {
                    lemma_value_list_depth(views, i as int);
                }
                assert(views.take(i + 1).drop_last() =~= views.take(i as int));
                match variable_value_to_json(&list[i]) {
                    Ok(json) => {
                        let ghost before = out@;
                        out.push(json);
                        assert(json_trees(out@) =~= json_trees(before).push(json_tree(json)));
                    },
                    Err(e) => {
                        proof {
                            lemma_trees_error(views, i + 1);
                        }
                        return Err(e);
                    },
                }
            }
            assert(views.take(views.len() as int) =~= views);
            Ok(close_json(JsonNode::Array(out)))
        },
        VariableValue::Object(list) => {
            let ghost views = member_views(list@);
            let mut out: Vec<(String, serde_json::Value)> = Vec::new();
            proof {
                lemma_member_views(list@);
                assert(views.take(0) =~= seq![]);
                assert(json_members(out@) =~= seq![]);
            }
            for i in 0..list.len()
                invariant
                    views == member_views(list@),
                    views.len() == list@.len(),
                    forall|k: int|
                        0 <= k < views.len() ==> views[k] == ((#[trigger] list@[k]).0@, value_view(
                            list@[k].1,
                        )),
                    value_view(*value) == ValueView::Object(views),
                    member_trees(views.take(i as int)) == Ok::<
                        Seq<(Seq<char>, JsonTree)>,
                        WorkspaceErrorView,
                    >(json_members(out@)),
            {
                assert(views[i as int] == (list@[i as int].0@, value_view(list@[i as int].1)));
                proof {
                    lemma_value_member_depth(views, i as int);
                }
                assert(views.take(i + 1).drop_last() =~= views.take(i as int));
                match variable_value_to_json(&list[i].1) {
                    Ok(json) => {
                        let ghost before = out@;
                        out.push((list[i].0.clone(), json));
                        assert(json_members(out@) =~= json_members(before).push(
                            (list@[i as int].0@, json_tree(json)),
                        ));
                    },
                    Err(e) => {
                        proof {
                            lemma_member_trees_error(views, i + 1);
                        }
                        return Err(e);
                    },
                }
            }
            assert(views.take(views.len() as int) =~= views);
            Ok(close_json(JsonNode::Object(out)))
        },
    }
}

/// Whether a value holds no number.
pub open spec fn value_without_numbers(value: ValueView) -> bool
    decreases value,
{
    match value {
        ValueView::Number(_) => false,
        ValueView::Array(list) => forall|i: int|
            0 <= i < list.len() ==> value_without_numbers(#[trigger] list[i]),
        ValueView::Object(list) => forall|i: int|
            0 <= i < list.len() ==> value_without_numbers((#[trigger] list[i]).1),
        _ => true,
    }
}

/// Tells whether a value holds no number.
pub fn holds_no_number(value: &VariableValue) -> (r: bool)
    ensures
        r == value_without_numbers(value_view(*value)),
    decreases value_depth(value_view(*value)),
{
    match value {
        VariableValue::Number(_) => false,
        VariableValue::Array(list) => {
            let ghost views = value_views(list@);
            proof {
                lemma_value_views(list@);
            }
            for i in 0..list.len()
                invariant
                    views == value_views(list@),
                    views.len() == list@.len(),
                    forall|k: int| 0 <= k < views.len() ==> views[k] == value_view(#[trigger] list@[k]),
                    value_view(*value) == ValueView::Array(views),
                    forall|k: int| 0 <= k < i ==> value_without_numbers(#[trigger] views[k]),
            {
                assert(views[i as int] == value_view(list@[i as int]));
                proof {
                    lemma_value_list_depth(views, i as int);
                }
                if !holds_no_number(&list[i]) {
                    return false;
                }
            }
            true
        },
        VariableValue::Object(list) => {
            let ghost views = member_views(list@);
            proof {
                lemma_member_views(list@);
            }
            for i in 0..list.len()
                invariant
                    views == member_views(list@),
                    views.len() == list@.len(),
                    forall|k: int|
                        0 <= k < views.len() ==> views[k] == ((#[trigger] list@[k]).0@, value_view(
                            list@[k].1,
                        )),
                    value_view(*value) == ValueView::Object(views),
                    forall|k: int| 0 <= k < i ==> value_without_numbers((#[trigger] views[k]).1),
            {
                assert(views[i as int] == (list@[i as int].0@, value_view(list@[i as int].1)));
                proof {
                    lemma_value_member_depth(views, i as int);
                }
                if !holds_no_number(&list[i].1) {
                    return false;
                }
            }
            true
        },
        _ => true,
    }
}

/// A value without numbers has a tree, as deep as the value is, which stands for the
/// value again.
pub proof fn lemma_value_tree(value: ValueView)
    requires
        value_without_numbers(value),
        value_ordered(value),
    ensures
        value_tree(value) is Ok,
        has_no_number(value_tree(value)->Ok_0),
        depth(value_tree(value)->Ok_0) == value_depth(value),
        tree_value(value_tree(value)->Ok_0) == value,
    decreases value,
{
    match value {
        ValueView::Array(list) => {
            lemma_value_trees(list);
        },
        ValueView::Object(list) => {
            lemma_member_trees(list);
            let trees = member_trees(list)->Ok_0;
            assert forall|a: int, b: int| 0 <= a < b < trees.len() implies text_lt(
                (#[trigger] trees[a]).0,
                (#[trigger] trees[b]).0,
            ) by {
                assert(text_lt(list[a].0, list[b].0));
            }
            lemma_in_order(trees);
        },
        _ => {},
    }
}

proof fn lemma_value_trees(list: Seq<ValueView>)
    requires
        forall|i: int|
            0 <= i < list.len() ==> value_without_numbers(#[trigger] list[i]) && value_ordered(
                list[i],
            ),
    ensures
        value_trees(list) is Ok,
        value_trees(list)->Ok_0.len() == list.len(),
        forall|i: int|
            0 <= i < list.len() ==> has_no_number(#[trigger] (value_trees(list)->Ok_0)[i]),
        list_depth(value_trees(list)->Ok_0) == value_list_depth(list),
        tree_values(value_trees(list)->Ok_0) == list,
    decreases list,
{
    if list.len() > 0 {
        let front = list.drop_last();
        assert forall|i: int| 0 <= i < front.len() implies value_without_numbers(
            #[trigger] front[i],
        ) && value_ordered(front[i]) by {
            assert(front[i] == list[i]);
        }
        lemma_value_trees(front);
        assert(value_without_numbers(list[list.len() - 1]));
        lemma_value_tree(list.last());
        let trees = value_trees(list)->Ok_0;
        assert(trees.drop_last() =~= value_trees(front)->Ok_0);
        assert forall|i: int| 0 <= i < list.len() implies has_no_number(#[trigger] trees[i]) by {
            if i < front.len() {
                assert(trees[i] == (value_trees(front)->Ok_0)[i]);
            }
        }
        assert(front.push(list.last()) =~= list);
    } else {
        assert(list =~= seq![]);
    }
}

proof fn lemma_member_trees(list: Seq<(Seq<char>, ValueView)>)
    requires
        forall|i: int|
            0 <= i < list.len() ==> value_without_numbers((#[trigger] list[i]).1) && value_ordered(
                list[i].1,
            ),
    ensures
        member_trees(list) is Ok,
        member_trees(list)->Ok_0.len() == list.len(),
        forall|i: int|
            0 <= i < list.len() ==> has_no_number((#[trigger] (member_trees(list)->Ok_0)[i]).1)
                && (member_trees(list)->Ok_0)[i].0 == list[i].0,
        member_depth(member_trees(list)->Ok_0) == value_member_depth(list),
        tree_members(member_trees(list)->Ok_0) == list,
    decreases list,
{
    if list.len() > 0 {
        let front = list.drop_last();
        assert forall|i: int| 0 <= i < front.len() implies value_without_numbers(
            (#[trigger] front[i]).1,
        ) && value_ordered(front[i].1) by {
            assert(front[i] == list[i]);
        }
        lemma_member_trees(front);
        assert(value_without_numbers(list[list.len() - 1].1));
        lemma_value_tree(list.last().1);
        let trees = member_trees(list)->Ok_0;
        assert(trees.drop_last() =~= member_trees(front)->Ok_0);
        assert forall|i: int| 0 <= i < list.len() implies has_no_number((#[trigger] trees[i]).1)
            && trees[i].0 == list[i].0 by {
            if i < front.len() {
                assert(trees[i] == (member_trees(front)->Ok_0)[i]);
            }
        }
        assert(front.push(list.last()) =~= list);
    } else {
        assert(list =~= seq![]);
    }
}

} // verus!
