//! What files of variables promise.
use crate::document::{
    bool_text, is_ignored_line, is_key, law_quote_round_trip, lemma_decimal_plain, lemma_field_line,
    plain_value, quoted, CURRENT_SCHEMA_VERSION,
};
use crate::domain::{
    is_slug, lemma_sensitivity_named, sensitivity_text, strongest, ValueSensitivity,
};
use crate::environment::{
    all_sections, all_variable_lines, is_process_name, is_set_name, is_variable_name,
    literal_assignments, literal_value, reads_back, secret_check, sensitivity_check, set_head,
    set_keys, set_lines, set_of_fields, set_scan, set_text, set_value, source_assignments,
    source_of_fields, source_regular, stored_definition, stored_definitions, stored_value,
    stored_values, variable_assignments, variable_head, variable_names, ReadingView, SetScan,
    SourceView, StoredView, VariableSetView,
};
use crate::error::WorkspaceErrorView;
use crate::flat::{
    field_lines, lemma_assignment_writable, lemma_field_lines_are_lines, lemma_ignored_lines,
    lemma_in_order_writable, lemma_lines_hold_no_feed, preservable, preserved_comment,
    unknown_lines, without, writable, Assignments, Fields,
};
use crate::json::{
    is_number_text, json_read, json_text, lemma_value_tree, value_ordered, value_tree,
    value_without_numbers, JsonTree,
};
use crate::lines::{field_line, is_line, lemma_lines_of_unlines, lines};
use crate::number::{decimal, lemma_decimal, lemma_parse_decimal};
use crate::order::{distinct_keys, in_order, lemma_in_order_exists, lemma_map_of, map_of};
use crate::request::block;
use crate::text::{lemma_trim, trim};
use crate::value::{value_depth, DefinitionView, ValueView};
use vstd::prelude::*;

verus! {

/// Whether a literal value can be written and read back: its numbers are as they are
/// displayed, and a list or an object holds none, has its members in order, and is not
/// too deep.
pub open spec fn storable_value(value: ValueView) -> bool {
    match value {
        ValueView::Number(t) => is_number_text(t) && plain_value(t),
        ValueView::Array(_) => value_without_numbers(value) && value_ordered(value) && value_depth(
            value,
        ) <= 127,
        ValueView::Object(_) => value_without_numbers(value) && value_ordered(value)
            && value_depth(value) <= 127,
        _ => true,
    }
}

/// Whether a variable can be written and read back.
pub open spec fn storable_variable(v: StoredView) -> bool {
    &&& is_variable_name(v.name)
    &&& sensitivity_check(v) is Ok
    &&& match v.source {
        SourceView::Literal(value) => storable_value(value),
        SourceView::Secret(s) => secret_check(s.namespace, s.name) is None,
        SourceView::ProcessEnvironment { name } => is_process_name(name),
    }
}

/// Whether a file of variables can be written and read back.
pub open spec fn storable_set(d: VariableSetView) -> bool {
    &&& d.schema_version == CURRENT_SCHEMA_VERSION
    &&& is_slug(d.id)
    &&& is_set_name(d.name)
    &&& d.unknown_fields.dom().finite()
    &&& preservable(d.unknown_fields, set_keys())
    &&& forall|i: int| 0 <= i < d.variables.len() ==> storable_variable(#[trigger] d.variables[i])
    &&& forall|i: int, j: int|
        0 <= i < j < d.variables.len() ==> (#[trigger] d.variables[i]).name
            != (#[trigger] d.variables[j]).name
}

/// Whether the JSON text of a compound literal is read back as the literal.
pub open spec fn json_kept(v: StoredView) -> bool {
    v.source matches SourceView::Literal(value) ==> (value is Array || value is Object)
        ==> json_read(json_text(value_tree(value)->Ok_0)) == Ok::<JsonTree, Seq<char>>(
        value_tree(value)->Ok_0,
    )
}

/// Where JSON texts of literals without numbers that are not too deep are read back, that
/// of a variable that can be stored is.
pub proof fn lemma_json_kept(v: StoredView)
    requires
        storable_variable(v),
        reads_back(v.source),
    ensures
        json_kept(v),
{
    if let SourceView::Literal(value) = v.source {
        if value is Array || value is Object {
            lemma_value_tree(value);
        }
    }
}

proof fn lemma_variable_keys()
    ensures
        is_key("name"@),
        is_key("enabled"@),
        is_key("sensitivity"@),
        is_key("description"@),
        is_key("source"@),
        is_key("value_kind"@),
        is_key("value"@),
        is_key("secret_namespace"@),
        is_key("secret_name"@),
        is_key("environment_name"@),
        "name"@.len() == 4,
        "enabled"@.len() == 7,
        "sensitivity"@.len() == 11,
        "description"@.len() == 11,
        "source"@.len() == 6,
        "value_kind"@.len() == 10,
        "value"@.len() == 5,
        "secret_namespace"@.len() == 16,
        "secret_name"@.len() == 11,
        "environment_name"@.len() == 16,
        "sensitivity"@ != "description"@,
        "sensitivity"@ != "secret_name"@,
        "description"@ != "secret_name"@,
        "secret_namespace"@ != "environment_name"@,
{
    reveal_strlit("name");
    reveal_strlit("enabled");
    reveal_strlit("sensitivity");
    reveal_strlit("description");
    reveal_strlit("source");
    reveal_strlit("value_kind");
    reveal_strlit("value");
    reveal_strlit("secret_namespace");
    reveal_strlit("secret_name");
    reveal_strlit("environment_name");
    assert("sensitivity"@[0] == 's' && "description"@[0] == 'd' && "secret_name"@[0] == 's');
    assert("sensitivity"@[2] == 'n' && "secret_name"@[2] == 'c');
    assert("secret_namespace"@[0] == 's' && "environment_name"@[0] == 'e');
}

proof fn lemma_kinds()
    ensures
        "null"@ != "bool"@,
        "null"@ != "json"@,
        "bool"@ != "json"@,
        "null"@.len() == 4,
        "bool"@.len() == 4,
        "json"@.len() == 4,
        "number"@.len() == 6,
        "string"@.len() == 6,
        "number"@ != "string"@,
        "literal"@.len() == 7,
        "secret"@.len() == 6,
        "process_environment"@.len() == 19,
        plain_value("true"@),
        plain_value("false"@),
        "true"@ != "false"@,
{
    reveal_strlit("null");
    reveal_strlit("bool");
    reveal_strlit("json");
    reveal_strlit("number");
    reveal_strlit("string");
    reveal_strlit("literal");
    reveal_strlit("secret");
    reveal_strlit("process_environment");
    reveal_strlit("true");
    reveal_strlit("false");
    assert("null"@[0] == 'n' && "bool"@[0] == 'b' && "json"@[0] == 'j');
    assert("number"@[0] == 'n' && "string"@[0] == 's');
    assert("true"@.len() == 4 && "false"@.len() == 5);
}

/// What the source of a variable assigns can be written, and its keys are not those of
/// the rest of the variable.
proof fn lemma_source_list(v: StoredView)
    requires
        storable_variable(v),
    ensures
        source_assignments(v.source) is Ok,
        writable(source_assignments(v.source)->Ok_0),
        distinct_keys(source_assignments(v.source)->Ok_0),
        forall|i: int|
            0 <= i < source_assignments(v.source)->Ok_0.len() ==> {
                let k = (#[trigger] (source_assignments(v.source)->Ok_0)[i]).0;
                k != "name"@ && k != "enabled"@ && k != "sensitivity"@ && k != "description"@
            },
{
    lemma_variable_keys();
    lemma_kinds();
    law_quote_round_trip("literal"@);
    law_quote_round_trip("secret"@);
    law_quote_round_trip("process_environment"@);
    law_quote_round_trip("null"@);
    law_quote_round_trip("bool"@);
    law_quote_round_trip("number"@);
    law_quote_round_trip("string"@);
    law_quote_round_trip("json"@);
    match v.source {
        SourceView::Literal(value) => {
            match value {
                ValueView::String(t) => {
                    law_quote_round_trip(t);
                },
                ValueView::Array(_) => {
                    lemma_value_tree(value);
                    law_quote_round_trip(json_text(value_tree(value)->Ok_0));
                },
                ValueView::Object(_) => {
                    lemma_value_tree(value);
                    law_quote_round_trip(json_text(value_tree(value)->Ok_0));
                },
                _ => {},
            }
            let rest = literal_assignments(value)->Ok_0;
            let list = source_assignments(v.source)->Ok_0;
            assert(list[0].0 == "source"@);
            assert(list[1] == rest[0]);
            assert(rest.len() > 1 ==> list[2] == rest[1]);
            assert(list.len() == rest.len() + 1);
        },
        SourceView::Secret(s) => {
            law_quote_round_trip(s.namespace);
            law_quote_round_trip(s.name);
        },
        SourceView::ProcessEnvironment { name } => {
            law_quote_round_trip(name);
        },
    }
}

/// What a variable assigns can be written, and reading it gives every value back.
proof fn lemma_variable_list(v: StoredView)
    requires
        storable_variable(v),
    ensures
        variable_assignments(v) is Ok,
        writable(variable_assignments(v)->Ok_0),
        ({
            let m = map_of(variable_assignments(v)->Ok_0);
            let tail = source_assignments(v.source)->Ok_0;
            &&& m.dom().contains("name"@) && m["name"@] == quoted(v.name)
            &&& m.dom().contains("enabled"@) && m["enabled"@] == bool_text(v.enabled)
            &&& m.dom().contains("sensitivity"@) && m["sensitivity"@] == quoted(
                sensitivity_text(v.sensitivity),
            )
            &&& match v.description {
                Some(d) => m.dom().contains("description"@) && m["description"@] == quoted(d),
                None => !m.dom().contains("description"@),
            }
            &&& forall|i: int|
                0 <= i < tail.len() ==> m.dom().contains((#[trigger] tail[i]).0) && m[tail[i].0]
                    == tail[i].1
        }),
{
    lemma_source_list(v);
    lemma_variable_keys();
    lemma_kinds();
    law_quote_round_trip(v.name);
    law_quote_round_trip(sensitivity_text(v.sensitivity));
    if let Some(d) = v.description {
        law_quote_round_trip(d);
    }
    let head = variable_head(v);
    let tail = source_assignments(v.source)->Ok_0;
    let list = head + tail;
    assert(head[0].0 == "name"@ && head[1].0 == "enabled"@ && head[2].0 == "sensitivity"@);
    assert(head.len() > 3 ==> head[3].0 == "description"@);
    assert(writable(head));
    assert forall|i: int| 0 <= i < list.len() implies is_key((#[trigger] list[i]).0)
        && plain_value(list[i].1) by {
        if i < head.len() {
            assert(list[i] == head[i]);
        } else {
            assert(list[i] == tail[i - head.len()]);
        }
    }
    assert(distinct_keys(head));
    assert(distinct_keys(list)) by {
        assert forall|i: int, j: int| 0 <= i < j < list.len() implies (#[trigger] list[i]).0 != (
        #[trigger] list[j]).0 by {
            if j < head.len() {
                assert(list[i] == head[i] && list[j] == head[j]);
            } else if i >= head.len() {
                assert(list[i] == tail[i - head.len()] && list[j] == tail[j - head.len()]);
            } else {
                assert(list[i] == head[i] && list[j] == tail[j - head.len()]);
            }
        }
    }
    lemma_map_of(list);
    let m = map_of(list);
    assert(list[0] == head[0] && list[1] == head[1] && list[2] == head[2]);
    if let Some(d) = v.description {
        assert(list[3] == head[3]);
    } else {
        assert(!m.dom().contains("description"@)) by {
            assert forall|i: int| 0 <= i < list.len() implies (#[trigger] list[i]).0
                != "description"@ by {
                if i < head.len() {
                    assert(list[i] == head[i]);
                } else {
                    assert(list[i] == tail[i - head.len()]);
                }
            }
        }
    }
    assert forall|i: int| 0 <= i < tail.len() implies m.dom().contains((#[trigger] tail[i]).0)
        && m[tail[i].0] == tail[i].1 by {
        assert(list[i + head.len()] == tail[i]);
    }
}

/// The literal that a variable assigns is read back.
proof fn lemma_literal_reads(value: ValueView, m: Fields)
    requires
        storable_value(value),
        literal_assignments(value) is Ok,
        value is Array || value is Object ==> json_read(json_text(value_tree(value)->Ok_0)) == Ok::<
            JsonTree,
            Seq<char>,
        >(value_tree(value)->Ok_0),
        forall|i: int|
            0 <= i < literal_assignments(value)->Ok_0.len() ==> m.dom().contains(
                (#[trigger] (literal_assignments(value)->Ok_0)[i]).0,
            ) && m[(literal_assignments(value)->Ok_0)[i].0] == (literal_assignments(
                value,
            )->Ok_0)[i].1,
    ensures
        literal_value(m) == Ok::<ValueView, WorkspaceErrorView>(value),
{
    lemma_kinds();
    law_quote_round_trip("null"@);
    law_quote_round_trip("bool"@);
    law_quote_round_trip("number"@);
    law_quote_round_trip("string"@);
    law_quote_round_trip("json"@);
    let rest = literal_assignments(value)->Ok_0;
    assert(rest[0].0 == "value_kind"@);
    match value {
        ValueView::Null => {},
        ValueView::Bool(b) => {
            assert(rest[1].0 == "value"@);
        },
        ValueView::Number(t) => {
            assert(rest[1].0 == "value"@);
        },
        ValueView::String(t) => {
            assert(rest[1].0 == "value"@);
            law_quote_round_trip(t);
        },
        ValueView::Array(_) => {
            assert(rest[1].0 == "value"@);
            lemma_value_tree(value);
            law_quote_round_trip(json_text(value_tree(value)->Ok_0));
        },
        ValueView::Object(_) => {
            assert(rest[1].0 == "value"@);
            lemma_value_tree(value);
            law_quote_round_trip(json_text(value_tree(value)->Ok_0));
        },
    }
}

/// The source that a variable assigns is read back.
proof fn lemma_source_reads(v: StoredView, m: Fields)
    requires
        storable_variable(v),
        json_kept(v),
        source_assignments(v.source) is Ok,
        forall|i: int|
            0 <= i < source_assignments(v.source)->Ok_0.len() ==> m.dom().contains(
                (#[trigger] (source_assignments(v.source)->Ok_0)[i]).0,
            ) && m[(source_assignments(v.source)->Ok_0)[i].0] == (source_assignments(
                v.source,
            )->Ok_0)[i].1,
    ensures
        source_of_fields(m, v.name, v.sensitivity) == Ok::<SourceView, WorkspaceErrorView>(v.source),
{
    lemma_kinds();
    law_quote_round_trip("literal"@);
    law_quote_round_trip("secret"@);
    law_quote_round_trip("process_environment"@);
    let tail = source_assignments(v.source)->Ok_0;
    assert(tail[0].0 == "source"@);
    match v.source {
        SourceView::Literal(value) => {
            let rest = literal_assignments(value)->Ok_0;
            assert forall|i: int| 0 <= i < rest.len() implies m.dom().contains(
                (#[trigger] rest[i]).0,
            ) && m[rest[i].0] == rest[i].1 by {
                assert(tail[i + 1] == rest[i]);
            }
            lemma_literal_reads(value, m);
        },
        SourceView::Secret(s) => {
            law_quote_round_trip(s.namespace);
            law_quote_round_trip(s.name);
            assert(tail[1].0 == "secret_namespace"@ && tail[2].0 == "secret_name"@);
        },
        SourceView::ProcessEnvironment { name } => {
            law_quote_round_trip(name);
            assert(tail[1].0 == "environment_name"@);
        },
    }
}

/// The section of a variable is read back as the variable.
proof fn lemma_variable_section(v: StoredView)
    requires
        storable_variable(v),
        json_kept(v),
    ensures
        variable_assignments(v) is Ok,
        writable(variable_assignments(v)->Ok_0),
        stored_value(map_of(variable_assignments(v)->Ok_0)) == Ok::<StoredView, WorkspaceErrorView>(
            v,
        ),
{
    lemma_variable_list(v);
    let m = map_of(variable_assignments(v)->Ok_0);
    lemma_source_reads(v, m);
    lemma_kinds();
    law_quote_round_trip(v.name);
    law_quote_round_trip(sensitivity_text(v.sensitivity));
    lemma_sensitivity_named(v.sensitivity);
    if let Some(d) = v.description {
        law_quote_round_trip(d);
    }
}

/// The fields that assignments of a file go to.
spec fn open_fields(s: SetScan) -> Fields {
    match s.current {
        Some(m) => m,
        None => s.root,
    }
}

/// The same state with other fields there.
spec fn with_open_fields(s: SetScan, m: Fields) -> SetScan {
    match s.current {
        Some(_) => SetScan { current: Some(m), ..s },
        None => SetScan { root: m, ..s },
    }
}

proof fn lemma_opening_line()
    ensures
        trim("[[variables]]"@) == "[[variables]]"@,
        !is_ignored_line("[[variables]]"@),
        "[[variables]]"@.len() > 0 && "[[variables]]"@[0] == '[',
        is_line("[[variables]]"@),
{
    reveal_strlit("[[variables]]");
    let t = "[[variables]]"@;
    assert(t.len() == 13 && t[0] == '[' && t[12] == ']');
    lemma_trim(t);
}

proof fn lemma_set_scan_fields(front: Seq<Seq<char>>, list: Assignments)
    requires
        set_scan(front) is Ok,
        writable(list),
    ensures
        set_scan(front + field_lines(list)) == Ok::<SetScan, WorkspaceErrorView>(
            with_open_fields(
                set_scan(front)->Ok_0,
                open_fields(set_scan(front)->Ok_0).union_prefer_right(map_of(list)),
            ),
        ),
    decreases list.len(),
{
    let s = set_scan(front)->Ok_0;
    let m = open_fields(s);
    if list.len() == 0 {
        assert(front + field_lines(list) =~= front);
        assert(m.union_prefer_right(map_of(list)) =~= m);
        assert(with_open_fields(s, m) =~= s);
    } else {
        let shorter = list.drop_last();
        assert forall|i: int| 0 <= i < shorter.len() implies is_key((#[trigger] shorter[i]).0)
            && plain_value(shorter[i].1) by {
            assert(shorter[i] == list[i]);
        }
        lemma_set_scan_fields(front, shorter);
        let whole = front + field_lines(list);
        let kv = list.last();
        assert(whole.drop_last() =~= front + field_lines(shorter));
        assert(whole.last() == field_line(kv.0, kv.1));
        assert(is_key(list[list.len() - 1].0));
        lemma_field_line(kv.0, kv.1, whole.len());
        lemma_opening_line();
        assert(m.union_prefer_right(map_of(list)) =~= m.union_prefer_right(map_of(shorter)).insert(
            kv.0,
            kv.1,
        ));
        assert(set_scan(whole)->Ok_0 =~= with_open_fields(s, m.union_prefer_right(map_of(list))));
    }
}

proof fn lemma_set_scan_ignored(front: Seq<Seq<char>>, line: Seq<char>)
    requires
        set_scan(front) is Ok,
        is_ignored_line(trim(line)),
    ensures
        set_scan(front.push(line)) == set_scan(front),
{
    assert(front.push(line).drop_last() =~= front);
}

/// The section of a variable is read as one more section.
proof fn lemma_set_scan_block(front: Seq<Seq<char>>, list: Assignments)
    requires
        set_scan(front) is Ok,
        writable(list),
    ensures
        set_scan(front + block("[[variables]]"@, list)) == Ok::<SetScan, WorkspaceErrorView>(
            SetScan {
                root: set_scan(front)->Ok_0.root,
                sections: all_sections(set_scan(front)->Ok_0),
                current: Some(map_of(list)),
            },
        ),
{
    lemma_ignored_lines();
    lemma_opening_line();
    let header = "[[variables]]"@;
    let a = front.push(seq![]);
    let b = a.push(header);
    lemma_set_scan_ignored(front, seq![]);
    assert(b.drop_last() =~= a);
    lemma_set_scan_fields(b, list);
    assert(front + block(header, list) =~= b + field_lines(list));
    assert(Fields::empty().union_prefer_right(map_of(list)) =~= map_of(list));
}

/// The sections that variables are written as.
spec fn variable_maps(list: Seq<StoredView>) -> Seq<Fields> {
    list.map_values(|v: StoredView| map_of(variable_assignments(v)->Ok_0))
}

spec fn names_differ(list: Seq<StoredView>) -> bool {
    forall|i: int, j: int|
        0 <= i < j < list.len() ==> (#[trigger] list[i]).name != (#[trigger] list[j]).name
}

/// The sections of variables are read back, after lines that open none.
proof fn lemma_set_scan_variables(front: Seq<Seq<char>>, list: Seq<StoredView>)
    requires
        set_scan(front) is Ok,
        set_scan(front)->Ok_0.current is None,
        set_scan(front)->Ok_0.sections.len() == 0,
        forall|i: int| 0 <= i < list.len() ==> storable_variable(#[trigger] list[i]),
        forall|i: int| 0 <= i < list.len() ==> json_kept(#[trigger] list[i]),
        names_differ(list),
    ensures
        all_variable_lines(list) is Ok,
        set_scan(front + all_variable_lines(list)->Ok_0) is Ok,
        set_scan(front + all_variable_lines(list)->Ok_0)->Ok_0.root == set_scan(front)->Ok_0.root,
        all_sections(set_scan(front + all_variable_lines(list)->Ok_0)->Ok_0) == variable_maps(list),
        forall|i: int|
            0 <= i < all_variable_lines(list)->Ok_0.len() ==> is_line(
                #[trigger] (all_variable_lines(list)->Ok_0)[i],
            ),
    decreases list.len(),
{
    if list.len() == 0 {
        assert(front + Seq::<Seq<char>>::empty() =~= front);
        assert(all_sections(set_scan(front)->Ok_0) =~= variable_maps(list));
    } else {
        let shorter = list.drop_last();
        let v = list.last();
        assert forall|i: int| 0 <= i < shorter.len() implies storable_variable(
            #[trigger] shorter[i],
        ) by {
            assert(shorter[i] == list[i]);
        }
        assert forall|i: int| 0 <= i < shorter.len() implies json_kept(#[trigger] shorter[i]) by {
            assert(shorter[i] == list[i]);
        }
        assert(names_differ(shorter)) by {
            assert forall|i: int, j: int| 0 <= i < j < shorter.len() implies (
            #[trigger] shorter[i]).name != (#[trigger] shorter[j]).name by {
                assert(shorter[i] == list[i] && shorter[j] == list[j]);
            }
        }
        lemma_set_scan_variables(front, shorter);
        assert(storable_variable(list[list.len() - 1]) && json_kept(list[list.len() - 1]));
        lemma_variable_section(v);
        if variable_names(shorter).contains(v.name) {
            let k = choose|k: int|
                0 <= k < variable_names(shorter).len() && variable_names(shorter)[k] == v.name;
            assert(list[k].name != list[list.len() - 1].name);
        }
        let before = front + all_variable_lines(shorter)->Ok_0;
        let assigned = variable_assignments(v)->Ok_0;
        let last = block("[[variables]]"@, assigned);
        lemma_set_scan_block(before, assigned);
        let whole = all_variable_lines(list)->Ok_0;
        assert(whole == all_variable_lines(shorter)->Ok_0 + last);
        assert(front + whole =~= before + last);
        assert(variable_maps(list) =~= variable_maps(shorter).push(map_of(assigned)));
        lemma_opening_line();
        lemma_ignored_lines();
        lemma_field_lines_are_lines(assigned);
        assert forall|i: int| 0 <= i < whole.len() implies is_line(#[trigger] whole[i]) by {
            let n = all_variable_lines(shorter)->Ok_0.len();
            if i < n {
                assert(whole[i] == (all_variable_lines(shorter)->Ok_0)[i]);
            } else if i >= n + 2 {
                assert(whole[i] == field_lines(assigned)[i - n - 2]);
            } else if i == n {
                assert(whole[i] == last[0]);
            } else {
                assert(whole[i] == last[1]);
            }
        }
    }
}

/// The sections of variables describe the variables.
proof fn lemma_variable_maps(list: Seq<StoredView>)
    requires
        forall|i: int| 0 <= i < list.len() ==> storable_variable(#[trigger] list[i]),
        forall|i: int| 0 <= i < list.len() ==> json_kept(#[trigger] list[i]),
        names_differ(list),
    ensures
        stored_values(variable_maps(list)) == Ok::<Seq<StoredView>, WorkspaceErrorView>(list),
    decreases list.len(),
{
    if list.len() == 0 {
        assert(list =~= seq![]);
    } else {
        let shorter = list.drop_last();
        let v = list.last();
        assert forall|i: int| 0 <= i < shorter.len() implies storable_variable(
            #[trigger] shorter[i],
        ) by {
            assert(shorter[i] == list[i]);
        }
        assert forall|i: int| 0 <= i < shorter.len() implies json_kept(#[trigger] shorter[i]) by {
            assert(shorter[i] == list[i]);
        }
        assert(names_differ(shorter)) by {
            assert forall|i: int, j: int| 0 <= i < j < shorter.len() implies (
            #[trigger] shorter[i]).name != (#[trigger] shorter[j]).name by {
                assert(shorter[i] == list[i] && shorter[j] == list[j]);
            }
        }
        lemma_variable_maps(shorter);
        assert(storable_variable(list[list.len() - 1]) && json_kept(list[list.len() - 1]));
        lemma_variable_section(v);
        if variable_names(shorter).contains(v.name) {
            let k = choose|k: int|
                0 <= k < variable_names(shorter).len() && variable_names(shorter)[k] == v.name;
            assert(list[k].name != list[list.len() - 1].name);
        }
        assert(variable_maps(list).drop_last() =~= variable_maps(shorter));
        assert(shorter.push(v) =~= list);
    }
}

/// The first lines of a file are read as its root fields.
proof fn lemma_set_root(d: VariableSetView)
    requires
        storable_set(d),
    ensures
        ({
            let head = field_lines(set_head(d)) + unknown_lines(d.unknown_fields);
            &&& set_scan(head) == Ok::<SetScan, WorkspaceErrorView>(
                SetScan {
                    root: map_of(set_head(d)).union_prefer_right(d.unknown_fields),
                    sections: seq![],
                    current: None,
                },
            )
            &&& forall|i: int| 0 <= i < head.len() ==> is_line(#[trigger] head[i])
            &&& distinct_keys(set_head(d))
        }),
{
    reveal_strlit("schema_version");
    reveal_strlit("id");
    reveal_strlit("name");
    assert("schema_version"@.len() == 14 && "id"@.len() == 2 && "name"@.len() == 4);
    let list = set_head(d);
    law_quote_round_trip(d.id);
    law_quote_round_trip(d.name);
    lemma_decimal_plain(d.schema_version as nat);
    assert(list[0].0 == "schema_version"@ && list[1].0 == "id"@ && list[2].0 == "name"@);
    assert(writable(list));
    assert(distinct_keys(list));
    let none = Seq::<Seq<char>>::empty();
    lemma_set_scan_fields(none, list);
    assert(none + field_lines(list) =~= field_lines(list));
    assert(Fields::empty().union_prefer_right(map_of(list)) =~= map_of(list));
    lemma_field_lines_are_lines(list);
    let m = d.unknown_fields;
    let head = field_lines(list) + unknown_lines(m);
    if m == Fields::empty() {
        assert(head =~= field_lines(list));
        assert(map_of(list).union_prefer_right(m) =~= map_of(list));
    } else {
        lemma_in_order_exists(m);
        let pairs = in_order(m);
        lemma_in_order_writable(m, set_keys(), pairs);
        lemma_ignored_lines();
        let a = field_lines(list).push(seq![]);
        let b = a.push(preserved_comment());
        lemma_set_scan_ignored(field_lines(list), seq![]);
        lemma_set_scan_ignored(a, preserved_comment());
        lemma_set_scan_fields(b, pairs);
        assert(head =~= b + field_lines(pairs));
        lemma_field_lines_are_lines(pairs);
        assert forall|i: int| 0 <= i < head.len() implies is_line(#[trigger] head[i]) by {
            let n = list.len();
            if i < n {
                assert(head[i] == field_lines(list)[i]);
            } else if i >= n + 2 {
                assert(head[i] == field_lines(pairs)[i - n - 2]);
            } else if i == n {
                assert(head[i] == Seq::<char>::empty());
            } else {
                assert(head[i] == preserved_comment());
            }
        }
    }
}

proof fn lemma_storable_lines(list: Seq<StoredView>)
    requires
        forall|i: int| 0 <= i < list.len() ==> storable_variable(#[trigger] list[i]),
        names_differ(list),
    ensures
        all_variable_lines(list) is Ok,
    decreases list.len(),
{
    if list.len() > 0 {
        let shorter = list.drop_last();
        let v = list.last();
        assert forall|i: int| 0 <= i < shorter.len() implies storable_variable(
            #[trigger] shorter[i],
        ) by {
            assert(shorter[i] == list[i]);
        }
        assert(names_differ(shorter)) by {
            assert forall|i: int, j: int| 0 <= i < j < shorter.len() implies (
            #[trigger] shorter[i]).name != (#[trigger] shorter[j]).name by {
                assert(shorter[i] == list[i] && shorter[j] == list[j]);
            }
        }
        lemma_storable_lines(shorter);
        assert(storable_variable(list[list.len() - 1]));
        lemma_source_list(v);
        if variable_names(shorter).contains(v.name) {
            let k = choose|k: int|
                0 <= k < variable_names(shorter).len() && variable_names(shorter)[k] == v.name;
            assert(list[k].name != list[list.len() - 1].name);
        }
    }
}

/// A file of variables that can be stored has a text.
pub proof fn lemma_storable_text(d: VariableSetView)
    requires
        storable_set(d),
    ensures
        set_text(d) is Ok,
{
    assert(names_differ(d.variables));
    lemma_storable_lines(d.variables);
}

/// A file of variables is read back from its own text, so long as the JSON text of
/// every compound literal is read back.
pub proof fn law_variable_set_round_trip(d: VariableSetView)
    requires
        storable_set(d),
        forall|i: int| 0 <= i < d.variables.len() ==> json_kept(#[trigger] d.variables[i]),
    ensures
        set_text(d) is Ok,
        set_value(set_text(d)->Ok_0) == Ok::<VariableSetView, WorkspaceErrorView>(d),
{
    lemma_set_root(d);
    let head = field_lines(set_head(d)) + unknown_lines(d.unknown_fields);
    assert(names_differ(d.variables));
    lemma_set_scan_variables(head, d.variables);
    lemma_variable_maps(d.variables);
    let whole = head + all_variable_lines(d.variables)->Ok_0;
    assert(set_lines(d) == Ok::<Seq<Seq<char>>, WorkspaceErrorView>(whole));
    assert forall|i: int| 0 <= i < whole.len() implies is_line(#[trigger] whole[i]) by {
        if i < head.len() {
            assert(whole[i] == head[i]);
        } else {
            assert(whole[i] == (all_variable_lines(d.variables)->Ok_0)[i - head.len()]);
        }
    }
    lemma_lines_of_unlines(whole);
    let s = set_scan(whole)->Ok_0;
    let list = set_head(d);
    let f = map_of(list).union_prefer_right(d.unknown_fields);
    assert(s.root == f);
    let keys = set_keys();
    lemma_map_of(list);
    law_quote_round_trip(d.id);
    law_quote_round_trip(d.name);
    lemma_decimal(d.schema_version as nat);
    lemma_parse_decimal(d.schema_version as nat, u32::MAX as int);
    assert(keys.contains(keys[0]) && keys.contains(keys[1]) && keys.contains(keys[2]));
    assert(list[0].0 == keys[0] && list[1].0 == keys[1] && list[2].0 == keys[2]);
    assert(f[keys[0]] == decimal(d.schema_version as nat));
    assert(f[keys[1]] == quoted(d.id));
    assert(f[keys[2]] == quoted(d.name));
    assert(without(f, keys) =~= d.unknown_fields) by {
        assert forall|k: Seq<char>| map_of(list).dom().contains(k) implies keys.contains(k) by {
            let i = choose|i: int| 0 <= i < list.len() && (#[trigger] list[i]).0 == k;
            assert(i == 0 || i == 1 || i == 2);
        }
    }
    assert(set_of_fields(s.root, all_sections(s))->Ok_0 =~= d);
}

/// In a file that was read, a secret is always a reference: no variable that is marked
/// secret holds its value, and no reference to a secret is unmarked.
pub proof fn law_read_secrets_are_references(text: Seq<char>)
    ensures
        set_value(text) matches Ok(d) ==> forall|i: int|
            0 <= i < d.variables.len() ==> ((#[trigger] d.variables[i]).source is Literal
                ==> d.variables[i].sensitivity != ValueSensitivity::Secret) && (
            d.variables[i].source is Secret ==> d.variables[i].sensitivity
                == ValueSensitivity::Secret),
{
    if let Ok(s) = set_scan(lines(text)) {
        lemma_values_are_references(all_sections(s));
    }
}

proof fn lemma_values_are_references(list: Seq<Fields>)
    ensures
        stored_values(list) matches Ok(r) ==> forall|i: int|
            0 <= i < r.len() ==> ((#[trigger] r[i]).source is Literal ==> r[i].sensitivity
                != ValueSensitivity::Secret) && (r[i].source is Secret ==> r[i].sensitivity
                == ValueSensitivity::Secret),
    decreases list.len(),
{
    if list.len() > 0 {
        lemma_values_are_references(list.drop_last());
    }
}

/// Variables that were read or resolved together have different names, each variable
/// has its definition, and one whose value is a secret is defined as a secret.
pub proof fn law_secrets_stay_secret(list: Seq<StoredView>, readings: Seq<ReadingView>)
    ensures
        stored_definitions(list, readings) matches Ok(m) ==> forall|i: int|
            0 <= i < list.len() ==> {
                let v = #[trigger] list[i];
                &&& m.dom().contains(v.name)
                &&& stored_definition(v, readings[i]) == Ok::<DefinitionView, WorkspaceErrorView>(
                    m[v.name],
                )
                &&& v.source is Secret ==> m[v.name].sensitivity == ValueSensitivity::Secret
                &&& m[v.name].sensitivity == strongest(m[v.name].sensitivity, v.sensitivity)
            },
    decreases list.len(),
{
    if list.len() > 0 {
        let shorter = list.drop_last();
        law_secrets_stay_secret(shorter, readings);
        if let Ok(m) = stored_definitions(list, readings) {
            assert forall|i: int| 0 <= i < list.len() implies {
                let v = #[trigger] list[i];
                &&& m.dom().contains(v.name)
                &&& stored_definition(v, readings[i]) == Ok::<DefinitionView, WorkspaceErrorView>(
                    m[v.name],
                )
                &&& v.source is Secret ==> m[v.name].sensitivity == ValueSensitivity::Secret
                &&& m[v.name].sensitivity == strongest(m[v.name].sensitivity, v.sensitivity)
            } by {
                if i < shorter.len() {
                    assert(shorter[i] == list[i]);
                }
            }
        }
    }
}

/// Whether the numbers of a value are kept when it is written: it is a number that is as it is
/// displayed, or none stands in it.
pub open spec fn number_kept(value: ValueView) -> bool {
    match value {
        ValueView::Number(t) => is_number_text(t) && plain_value(t),
        _ => value_without_numbers(value),
    }
}

/// Whether the numbers of a file of variables are kept when it is written: each is as it is
/// displayed, and none stands inside a list or an object.
pub open spec fn numbers_kept(d: VariableSetView) -> bool {
    forall|i: int|
        0 <= i < d.variables.len() ==> ((#[trigger] d.variables[i]).source matches
            SourceView::Literal(value) ==> number_kept(value))
}

/// What the lines of a file of variables give can be written again.
spec fn set_scan_writable(s: SetScan) -> bool {
    &&& s.root.dom().finite()
    &&& forall|k: Seq<char>| #[trigger]
        s.root.dom().contains(k) ==> is_key(k) && plain_value(s.root[k])
}

proof fn lemma_set_scan_writable(list: Seq<Seq<char>>)
    requires
        set_scan(list) is Ok,
        forall|i: int| 0 <= i < list.len() ==> !(#[trigger] list[i]).contains('\n'),
    ensures
        set_scan_writable(set_scan(list)->Ok_0),
    decreases list.len(),
{
    if list.len() > 0 {
        let front = list.drop_last();
        assert forall|i: int| 0 <= i < front.len() implies !(#[trigger] front[i]).contains('\n') by {
            assert(front[i] == list[i]);
        }
        lemma_set_scan_writable(front);
        let line = trim(list.last());
        assert(!list[list.len() - 1].contains('\n'));
        if !is_ignored_line(line) && line != "[[variables]]"@ && line[0] != '[' {
            lemma_assignment_writable(list.last(), list.len());
        }
    }
}

proof fn lemma_read_variables(sections: Seq<Fields>)
    requires
        stored_values(sections) is Ok,
    ensures
        names_differ(stored_values(sections)->Ok_0),
        forall|i: int|
            0 <= i < stored_values(sections)->Ok_0.len() ==> {
                let v = #[trigger] (stored_values(sections)->Ok_0)[i];
                &&& is_variable_name(v.name)
                &&& sensitivity_check(v) is Ok
                &&& match v.source {
                    SourceView::Literal(_) => true,
                    SourceView::Secret(s) => secret_check(s.namespace, s.name) is None,
                    SourceView::ProcessEnvironment { name } => is_process_name(name),
                }
            },
    decreases sections.len(),
{
    if sections.len() > 0 {
        lemma_read_variables(sections.drop_last());
        let front = stored_values(sections.drop_last())->Ok_0;
        let all = stored_values(sections)->Ok_0;
        assert forall|i: int, j: int| 0 <= i < j < all.len() implies (#[trigger] all[i]).name != (
        #[trigger] all[j]).name by {
            if j < front.len() {
                assert(all[i] == front[i] && all[j] == front[j]);
            } else {
                assert(all[i] == front[i]);
                assert(variable_names(front)[i] == front[i].name);
            }
        }
        assert forall|i: int| 0 <= i < all.len() implies {
            let v = #[trigger] all[i];
            &&& is_variable_name(v.name)
            &&& sensitivity_check(v) is Ok
            &&& match v.source {
                SourceView::Literal(_) => true,
                SourceView::Secret(s) => secret_check(s.namespace, s.name) is None,
                SourceView::ProcessEnvironment { name } => is_process_name(name),
            }
        } by {
            if i < front.len() {
                assert(all[i] == front[i]);
            }
        }
    }
}

/// Whatever file of variables can be read can be written again, and what is written is read as
/// the same file: nested values, secret references, descriptions, flags, the order of the
/// variables and the fields that are kept for a later version survive. Its numbers are to be as
/// they are displayed and none may stand inside a list or an object; and the literals are to be
/// such as JSON is read as, with the JSON text of each read back.
pub proof fn law_variable_set_rewrite_is_stable(text: Seq<char>)
    requires
        set_value(text) is Ok,
        numbers_kept(set_value(text)->Ok_0),
        forall|i: int|
            0 <= i < (set_value(text)->Ok_0).variables.len() ==> source_regular(
                (#[trigger] (set_value(text)->Ok_0).variables[i]).source,
            ),
    ensures
        storable_set(set_value(text)->Ok_0),
        set_text(set_value(text)->Ok_0) is Ok,
        (forall|i: int|
            0 <= i < (set_value(text)->Ok_0).variables.len() ==> json_kept(
                #[trigger] (set_value(text)->Ok_0).variables[i],
            )) ==> set_value(set_text(set_value(text)->Ok_0)->Ok_0) == set_value(text),
{
    let d = set_value(text)->Ok_0;
    let s = set_scan(lines(text))->Ok_0;
    lemma_lines_hold_no_feed(text);
    lemma_set_scan_writable(lines(text));
    lemma_read_variables(all_sections(s));
    let known = |k: Seq<char>| !set_keys().contains(k);
    assert(d.unknown_fields.dom() =~= s.root.dom().filter(known));
    s.root.dom().lemma_len_filter(known);
    assert forall|i: int| 0 <= i < d.variables.len() implies storable_variable(
        #[trigger] d.variables[i],
    ) by {
        assert(source_regular(d.variables[i].source));
    }
    assert(storable_set(d));
    lemma_storable_text(d);
    if forall|i: int| 0 <= i < d.variables.len() ==> json_kept(#[trigger] d.variables[i]) {
        law_variable_set_round_trip(d);
    }
}

} // verus!
