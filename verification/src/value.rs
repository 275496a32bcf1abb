//! The values of variables.
use crate::document::{bool_text, show_bool};
use crate::domain::ValueSensitivity;
use crate::json::{json_text, value_tree, variable_value_to_json, write_json};
use crate::number::{parse_unsigned, read_unsigned};
use crate::text::{chars_of, copy_optional_text, optional_text, same_chars, slices};
use vstd::prelude::*;

verus! {

/// The value of a variable.
#[derive(Debug, PartialEq, Eq)]
pub enum VariableValue {
    Null,
    Bool(bool),
    /// A number, by its decimal text.
    Number(String),
    String(String),
    Array(Vec<VariableValue>),
    /// Members in ascending order of their names.
    Object(Vec<(String, VariableValue)>),
}

/// The value of a variable, by its contents.
pub enum ValueView {
    Null,
    Bool(bool),
    Number(Seq<char>),
    String(Seq<char>),
    Array(Seq<ValueView>),
    Object(Seq<(Seq<char>, ValueView)>),
}

/// The contents of a value.
pub open spec fn value_view(v: VariableValue) -> ValueView
    decreases v,
{
    match v {
        VariableValue::Null => ValueView::Null,
        VariableValue::Bool(b) => ValueView::Bool(b),
        VariableValue::Number(t) => ValueView::Number(t@),
        VariableValue::String(t) => ValueView::String(t@),
        VariableValue::Array(list) => ValueView::Array(value_views(list@)),
        VariableValue::Object(list) => ValueView::Object(member_views(list@)),
    }
}

/// The contents of a list of values.
pub open spec fn value_views(s: Seq<VariableValue>) -> Seq<ValueView>
    decreases s,
{
    if s.len() == 0 {
        seq![]
    } else {
        value_views(s.drop_last()).push(value_view(s.last()))
    }
}

/// The contents of a list of members.
pub open spec fn member_views(s: Seq<(String, VariableValue)>) -> Seq<(Seq<char>, ValueView)>
    decreases s,
{
    if s.len() == 0 {
        seq![]
    } else {
        member_views(s.drop_last()).push((s.last().0@, value_view(s.last().1)))
    }
}

/// The contents of a list are those of its values, in order.
pub proof fn lemma_value_views(s: Seq<VariableValue>)
    ensures
        value_views(s).len() == s.len(),
        forall|i: int| 0 <= i < s.len() ==> value_views(s)[i] == value_view(#[trigger] s[i]),
    decreases s.len(),
{
    if s.len() > 0 {
        lemma_value_views(s.drop_last());
        assert forall|i: int| 0 <= i < s.len() implies value_views(s)[i] == value_view(
            #[trigger] s[i],
        ) by {
            if i < s.len() - 1 {
                assert(s.drop_last()[i] == s[i]);
            }
        }
    }
}

/// The contents of a list of members are those of its members, in order.
pub proof fn lemma_member_views(s: Seq<(String, VariableValue)>)
    ensures
        member_views(s).len() == s.len(),
        forall|i: int|
            0 <= i < s.len() ==> member_views(s)[i] == ((#[trigger] s[i]).0@, value_view(s[i].1)),
    decreases s.len(),
{
    if s.len() > 0 {
        lemma_member_views(s.drop_last());
        assert forall|i: int| 0 <= i < s.len() implies member_views(s)[i] == (
            (#[trigger] s[i]).0@,
            value_view(s[i].1),
        ) by {
            if i < s.len() - 1 {
                assert(s.drop_last()[i] == s[i]);
            }
        }
    }
}

/// How deep lists and objects stand inside one another.
pub open spec fn value_depth(value: ValueView) -> nat
    decreases value,
{
    match value {
        ValueView::Array(list) => 1 + value_list_depth(list),
        ValueView::Object(list) => 1 + value_member_depth(list),
        _ => 0,
    }
}

/// The depth of the deepest value of a list.
pub open spec fn value_list_depth(list: Seq<ValueView>) -> nat
    decreases list,
{
    if list.len() == 0 {
        0
    } else {
        let a = value_list_depth(list.drop_last());
        let b = value_depth(list.last());
        if a > b {
            a
        } else {
            b
        }
    }
}

/// The depth of the deepest member.
pub open spec fn value_member_depth(list: Seq<(Seq<char>, ValueView)>) -> nat
    decreases list,
{
    if list.len() == 0 {
        0
    } else {
        let a = value_member_depth(list.drop_last());
        let b = value_depth(list.last().1);
        if a > b {
            a
        } else {
            b
        }
    }
}

pub proof fn lemma_value_list_depth(list: Seq<ValueView>, i: int)
    requires
        0 <= i < list.len(),
    ensures
        value_depth(list[i]) <= value_list_depth(list),
    decreases list.len(),
{
    if i < list.len() - 1 {
        lemma_value_list_depth(list.drop_last(), i);
    }
}

pub proof fn lemma_value_member_depth(list: Seq<(Seq<char>, ValueView)>, i: int)
    requires
        0 <= i < list.len(),
    ensures
        value_depth(list[i].1) <= value_member_depth(list),
    decreases list.len(),
{
    if i < list.len() - 1 {
        lemma_value_member_depth(list.drop_last(), i);
    }
}

/// The value of the first member of a name.
pub open spec fn member_of(list: Seq<(Seq<char>, ValueView)>, name: Seq<char>) -> Option<ValueView>
    decreases list.len(),
{
    if list.len() == 0 {
        None
    } else if list[0].0 == name {
        Some(list[0].1)
    } else {
        member_of(list.drop_first(), name)
    }
}

/// The value at the end of a path of member names and positions.
pub open spec fn path_value(value: ValueView, path: Seq<Seq<char>>) -> Option<ValueView>
    decreases path.len(),
{
    if path.len() == 0 {
        Some(value)
    } else {
        let next = match value {
            ValueView::Object(list) => member_of(list, path[0]),
            ValueView::Array(list) => match parse_unsigned(path[0], usize::MAX as int) {
                Some(k) => if k < list.len() {
                    Some(list[k])
                } else {
                    None
                },
                None => None,
            },
            _ => None,
        };
        match next {
            Some(v) => path_value(v, path.drop_first()),
            None => None,
        }
    }
}

/// The text that a value is put into a template with.
pub open spec fn display_text(value: ValueView) -> Seq<char> {
    match value {
        ValueView::Null => "null"@,
        ValueView::Bool(b) => bool_text(b),
        ValueView::Number(t) => t,
        ValueView::String(t) => t,
        _ => match value_tree(value) {
            Ok(tree) => json_text(tree),
            Err(_) => seq![],
        },
    }
}

impl VariableValue {
    /// One step along a path.
    fn step(&self, name: &[char]) -> (r: Option<&VariableValue>)
        ensures
            match r {
                Some(v) => match value_view(*self) {
                    ValueView::Object(list) => member_of(list, name@) == Some(value_view(*v)),
                    ValueView::Array(list) => parse_unsigned(name@, usize::MAX as int) matches Some(k)
                        && k < list.len() && list[k] == value_view(*v),
                    _ => false,
                },
                None => match value_view(*self) {
                    ValueView::Object(list) => member_of(list, name@) is None,
                    ValueView::Array(list) => match parse_unsigned(name@, usize::MAX as int) {
                        Some(k) => k >= list.len(),
                        None => true,
                    },
                    _ => true,
                },
            },
    {
        match self {
            VariableValue::Object(list) => {
                let ghost views = member_views(list@);
                proof {
                    lemma_member_views(list@);
                }
                assert(views.skip(0) =~= views);
                for i in 0..list.len()
                    invariant
                        views == member_views(list@),
                        views.len() == list@.len(),
                        forall|k: int|
                            0 <= k < views.len() ==> views[k] == (
                                (#[trigger] list@[k]).0@,
                                value_view(list@[k].1),
                            ),
                        value_view(*self) == ValueView::Object(views),
                        member_of(views, name@) == member_of(views.skip(i as int), name@),
                {
                    assert(views[i as int] == (list@[i as int].0@, value_view(list@[i as int].1)));
                    let own = chars_of(list[i].0.as_str());
                    assert(views.skip(i as int)[0] == views[i as int]);
                    if same_chars(own.as_slice(), name) {
                        return Some(&list[i].1);
                    }
                    assert(views.skip(i as int).drop_first() =~= views.skip(i + 1));
                }
                assert(views.skip(views.len() as int) =~= seq![]);
                None
            },
            VariableValue::Array(list) => {
                proof {
                    lemma_value_views(list@);
                }
                match read_unsigned(name, usize::MAX as u64) {
                    Some(k) => if k < list.len() as u64 {
                        assert(value_views(list@)[k as int] == value_view(list@[k as int]));
                        Some(&list[k as usize])
                    } else {
                        None
                    },
                    None => None,
                }
            },
            _ => None,
        }
    }

    /// The value at the end of a path of member names and positions.
    pub fn get_path(&self, path: &[&[char]]) -> (r: Option<&VariableValue>)
        ensures
            match r {
                Some(v) => path_value(value_view(*self), slices(path@)) == Some(value_view(*v)),
                None => path_value(value_view(*self), slices(path@)) is None,
            },
    {
        let ghost all = slices(path@);
        let mut current: &VariableValue = self;
        assert(all.skip(0) =~= all);
        for i in 0..path.len()
            invariant
                all == slices(path@),
                path_value(value_view(*self), all) == path_value(
                    value_view(*current),
                    all.skip(i as int),
                ),
        {
            assert(all.skip(i as int)[0] == path@[i as int]@);
            assert(all.skip(i as int).drop_first() =~= all.skip(i + 1));
            match current.step(path[i]) {
                Some(v) => {
                    current = v;
                },
                None => {
                    return None;
                },
            }
        }
        assert(all.skip(all.len() as int) =~= seq![]);
        Some(current)
    }

    /// The text that the value is put into a template with.
    pub fn display_value(&self) -> (r: String)
        ensures
            r@ == display_text(value_view(*self)),
    {
        match self {
            VariableValue::Null => "null".to_owned(),
            VariableValue::Bool(b) => show_bool(*b).to_owned(),
            VariableValue::Number(t) => t.clone(),
            VariableValue::String(t) => t.clone(),
            _ => match variable_value_to_json(self) {
                Ok(json) => write_json(&json),
                Err(_) => String::new(),
            },
        }
    }

    /// The same value.
    pub fn copy(&self) -> (r: VariableValue)
        ensures
            value_view(r) == value_view(*self),
        decreases value_depth(value_view(*self)),
    {
        match self {
            VariableValue::Null => VariableValue::Null,
            VariableValue::Bool(b) => VariableValue::Bool(*b),
            VariableValue::Number(t) => VariableValue::Number(t.clone()),
            VariableValue::String(t) => VariableValue::String(t.clone()),
            VariableValue::Array(list) => {
                let ghost views = value_views(list@);
                proof {
                    lemma_value_views(list@);
                }
                let mut out: Vec<VariableValue> = Vec::new();
                assert(views.take(0) =~= seq![]);
                for i in 0..list.len()
                    invariant
                        views == value_views(list@),
                        views.len() == list@.len(),
                        forall|k: int|
                            0 <= k < views.len() ==> views[k] == value_view(#[trigger] list@[k]),
                        value_view(*self) == ValueView::Array(views),
                        value_views(out@) == views.take(i as int),
                {
                    assert(views[i as int] == value_view(list@[i as int]));
                    proof {
                        lemma_value_list_depth(views, i as int);
                    }
                    let ghost before = out@;
                    out.push(list[i].copy());
                    assert(out@.drop_last() =~= before);
                    assert(views.take(i + 1) =~= views.take(i as int).push(views[i as int]));
                }
                assert(views.take(views.len() as int) =~= views);
                VariableValue::Array(out)
            },
            VariableValue::Object(list) => {
                let ghost views = member_views(list@);
                proof {
                    lemma_member_views(list@);
                }
                let mut out: Vec<(String, VariableValue)> = Vec::new();
                assert(views.take(0) =~= seq![]);
                for i in 0..list.len()
                    invariant
                        views == member_views(list@),
                        views.len() == list@.len(),
                        forall|k: int|
                            0 <= k < views.len() ==> views[k] == (
                                (#[trigger] list@[k]).0@,
                                value_view(list@[k].1),
                            ),
                        value_view(*self) == ValueView::Object(views),
                        member_views(out@) == views.take(i as int),
                {
                    assert(views[i as int] == (list@[i as int].0@, value_view(list@[i as int].1)));
                    proof {
                        lemma_value_member_depth(views, i as int);
                    }
                    let ghost before = out@;
                    out.push((list[i].0.clone(), list[i].1.copy()));
                    assert(out@.drop_last() =~= before);
                    assert(views.take(i + 1) =~= views.take(i as int).push(views[i as int]));
                }
                assert(views.take(views.len() as int) =~= views);
                VariableValue::Object(out)
            },
        }
    }
}

/// A variable: its value, and how it is used.
#[derive(Debug, PartialEq, Eq)]
pub struct VariableDefinition {
    pub value: VariableValue,
    pub sensitivity: ValueSensitivity,
    pub enabled: bool,
    pub description: Option<String>,
}

/// A variable, by its contents.
#[verifier::ext_equal]
pub struct DefinitionView {
    pub value: ValueView,
    pub sensitivity: ValueSensitivity,
    pub enabled: bool,
    pub description: Option<Seq<char>>,
}

impl View for VariableDefinition {
    type V = DefinitionView;

    open spec fn view(&self) -> DefinitionView {
        DefinitionView {
            value: value_view(self.value),
            sensitivity: self.sensitivity,
            enabled: self.enabled,
            description: optional_text(self.description),
        }
    }
}

impl VariableDefinition {
    /// The same variable.
    pub fn copy(&self) -> (r: VariableDefinition)
        ensures
            r@ == self@,
    {
        VariableDefinition {
            value: self.value.copy(),
            sensitivity: self.sensitivity,
            enabled: self.enabled,
            description: copy_optional_text(&self.description),
        }
    }
}

} // verus!
