//! What writing and reading the document of a request promise together.
use crate::document::{
    bool_text, is_ignored_line, is_key, law_quote_round_trip, lemma_decimal_plain, lemma_field_line,
    plain_value, quoted, required_string, schema_version_of, unsigned_value, CURRENT_SCHEMA_VERSION,
};
use crate::domain::{
    authentication_kind, body_kind, header_check, interval_of_millis, is_slug,
    lemma_sensitivity_named, method_text, method_valid, sensitivity_text, AuthenticationView,
    BodyView, FormFieldView, Interval, MethodView, MultipartFieldView, MultipartValueView,
    RequestSettings, RequestView,
};
use crate::error::WorkspaceErrorView;
use crate::flat::{
    field_lines, lemma_assignment_writable, lemma_field_lines_are_lines, lemma_ignored_lines,
    lemma_in_order_writable, lemma_lines_hold_no_feed,
    preservable, preserved_comment, unknown_lines, without, writable, Assignments, Fields,
};
use crate::lines::{contains_piece, field_line, is_line, lemma_lines_of_unlines, lines};
use crate::manifest::id_value;
use crate::number::{decimal, lemma_parse_decimal};
use crate::order::{
    distinct_keys, in_order, lemma_in_order_exists, lemma_map_of, map_of,
};
use crate::paths::{climbs, components};
use crate::request::{
    authentication_assignments, authentication_value, block, body_assignments, body_blocks,
    body_value, form_assignments, form_blocks, form_field_value, form_field_values, header_value,
    multipart_assignments, multipart_blocks, multipart_field_value, multipart_field_values,
    placement_text, request_keys, request_lines, request_text, root_assignments, string_or,
    RequestDocumentView,
};
use crate::request_reader::{
    close_all, duration_value, limits_value, method_value, open_section, opened_section,
    request_of_scan, request_value, scan, scan_start, settings_value, switches_value, ScanView,
    Section,
};
use crate::text::{lemma_trim, trim};
use vstd::prelude::*;

verus! {

/// Whether the section that is open can take assignments.
spec fn live(s: ScanView) -> bool {
    match s.section {
        Section::Query => s.current_query is Some,
        Section::Header => s.current_header is Some,
        Section::BodyField => s.current_body_field is Some,
        _ => true,
    }
}

/// The fields of the section that is open.
spec fn section_fields(s: ScanView) -> Fields {
    match s.section {
        Section::Root => s.root,
        Section::Query => s.current_query->Some_0,
        Section::Header => s.current_header->Some_0,
        Section::Auth => s.auth,
        Section::Body => s.body,
        Section::BodyField => s.current_body_field->Some_0,
    }
}

/// The same state with other fields in the section that is open.
spec fn with_fields(s: ScanView, m: Fields) -> ScanView {
    match s.section {
        Section::Root => ScanView { root: m, ..s },
        Section::Query => ScanView { current_query: Some(m), ..s },
        Section::Header => ScanView { current_header: Some(m), ..s },
        Section::Auth => ScanView { auth: m, ..s },
        Section::Body => ScanView { body: m, ..s },
        Section::BodyField => ScanView { current_body_field: Some(m), ..s },
    }
}

proof fn lemma_section_lines()
    ensures
        forall|line: Seq<char>|
            line.len() > 0 && line[0] != '[' ==> (#[trigger] opened_section(line)) is None,
        opened_section(trim("[[query]]"@)) == Some(Section::Query),
        opened_section(trim("[[headers]]"@)) == Some(Section::Header),
        opened_section(trim("[auth]"@)) == Some(Section::Auth),
        opened_section(trim("[body]"@)) == Some(Section::Body),
        opened_section(trim("[[body.fields]]"@)) == Some(Section::BodyField),
        !is_ignored_line(trim("[[query]]"@)),
        !is_ignored_line(trim("[[headers]]"@)),
        !is_ignored_line(trim("[auth]"@)),
        !is_ignored_line(trim("[body]"@)),
        !is_ignored_line(trim("[[body.fields]]"@)),
        is_line("[[query]]"@),
        is_line("[[headers]]"@),
        is_line("[auth]"@),
        is_line("[body]"@),
        is_line("[[body.fields]]"@),
{
    reveal_strlit("[[query]]");
    reveal_strlit("[[headers]]");
    reveal_strlit("[auth]");
    reveal_strlit("[body]");
    reveal_strlit("[[body.fields]]");
    assert("[[query]]"@.len() == 9 && "[[query]]"@[0] == '[' && "[[query]]"@[8] == ']');
    assert("[[headers]]"@.len() == 11 && "[[headers]]"@[0] == '[' && "[[headers]]"@[10] == ']');
    assert("[auth]"@.len() == 6 && "[auth]"@[0] == '[' && "[auth]"@[5] == ']' && "[auth]"@[1] == 'a');
    assert("[body]"@.len() == 6 && "[body]"@[0] == '[' && "[body]"@[5] == ']' && "[body]"@[1] == 'b');
    assert("[[body.fields]]"@.len() == 15 && "[[body.fields]]"@[0] == '[' && "[[body.fields]]"@[14]
        == ']');
    lemma_trim("[[query]]"@);
    lemma_trim("[[headers]]"@);
    lemma_trim("[auth]"@);
    lemma_trim("[body]"@);
    lemma_trim("[[body.fields]]"@);
}

proof fn lemma_scan_fields(front: Seq<Seq<char>>, list: Assignments)
    requires
        scan(front) is Ok,
        live(scan(front)->Ok_0),
        writable(list),
    ensures
        scan(front + field_lines(list)) == Ok::<ScanView, WorkspaceErrorView>(
            with_fields(
                scan(front)->Ok_0,
                section_fields(scan(front)->Ok_0).union_prefer_right(map_of(list)),
            ),
        ),
    decreases list.len(),
{
    let s = scan(front)->Ok_0;
    let m = section_fields(s);
    if list.len() == 0 {
        assert(front + field_lines(list) =~= front);
        assert(m.union_prefer_right(map_of(list)) =~= m);
        assert(with_fields(s, m) =~= s);
    } else {
        let shorter = list.drop_last();
        assert forall|i: int| 0 <= i < shorter.len() implies is_key((#[trigger] shorter[i]).0)
            && plain_value(shorter[i].1) by {
            assert(shorter[i] == list[i]);
        }
        lemma_scan_fields(front, shorter);
        let whole = front + field_lines(list);
        let kv = list.last();
        assert(whole.drop_last() =~= front + field_lines(shorter));
        assert(whole.last() == field_line(kv.0, kv.1));
        assert(is_key(list[list.len() - 1].0));
        lemma_field_line(kv.0, kv.1, whole.len());
        lemma_section_lines();
        assert(m.union_prefer_right(map_of(list)) =~= m.union_prefer_right(map_of(shorter)).insert(
            kv.0,
            kv.1,
        ));
        assert(scan(whole)->Ok_0 =~= with_fields(s, m.union_prefer_right(map_of(list))));
    }
}

proof fn lemma_scan_ignored(front: Seq<Seq<char>>, line: Seq<char>)
    requires
        scan(front) is Ok,
        is_ignored_line(trim(line)),
    ensures
        scan(front.push(line)) == scan(front),
{
    assert(front.push(line).drop_last() =~= front);
}

/// A section with its assignments is read as the section opened and filled.
proof fn lemma_scan_block(front: Seq<Seq<char>>, header: Seq<char>, section: Section, list: Assignments)
    requires
        scan(front) is Ok,
        opened_section(trim(header)) == Some(section),
        !is_ignored_line(trim(header)),
        writable(list),
        open_section(scan(front)->Ok_0, section) is Ok,
    ensures
        scan(front + block(header, list)) == Ok::<ScanView, WorkspaceErrorView>(
            with_fields(
                open_section(scan(front)->Ok_0, section)->Ok_0,
                section_fields(
                    open_section(scan(front)->Ok_0, section)->Ok_0,
                ).union_prefer_right(map_of(list)),
            ),
        ),
{
    lemma_ignored_lines();
    let a = front.push(seq![]);
    let b = a.push(header);
    lemma_scan_ignored(front, seq![]);
    assert(b.drop_last() =~= a);
    lemma_scan_fields(b, list);
    assert(front + block(header, list) =~= b + field_lines(list));
}

proof fn lemma_block_lines(header: Seq<char>, list: Assignments)
    requires
        is_line(header),
        writable(list),
    ensures
        forall|i: int|
            0 <= i < block(header, list).len() ==> is_line(#[trigger] block(header, list)[i]),
{
    lemma_field_lines_are_lines(list);
    lemma_ignored_lines();
    let b = block(header, list);
    assert forall|i: int| 0 <= i < b.len() implies is_line(#[trigger] b[i]) by {
        if i >= 2 {
            assert(b[i] == field_lines(list)[i - 2]);
        }
    }
}

proof fn lemma_no_such_key(list: Assignments, key: Seq<char>)
    requires
        distinct_keys(list),
        forall|i: int| 0 <= i < list.len() ==> (#[trigger] list[i]).0 != key,
    ensures
        !map_of(list).dom().contains(key),
{
    lemma_map_of(list);
}

proof fn lemma_bools()
    ensures
        plain_value("true"@),
        plain_value("false"@),
        "true"@ != "false"@,
{
    reveal_strlit("true");
    reveal_strlit("false");
    assert("true"@.len() == 4 && "false"@.len() == 5);
}

/// The section of a named value is read back as that value.
proof fn lemma_form_section(f: FormFieldView)
    ensures
        writable(form_assignments(f)),
        form_field_value(map_of(form_assignments(f))) == Ok::<FormFieldView, WorkspaceErrorView>(f),
        header_check(f.name, f.value) is None ==> header_value(map_of(form_assignments(f))) == Ok::<
            FormFieldView,
            WorkspaceErrorView,
        >(f),
{
    reveal_strlit("name");
    reveal_strlit("value");
    reveal_strlit("enabled");
    reveal_strlit("sensitivity");
    assert("name"@.len() == 4 && "value"@.len() == 5 && "enabled"@.len() == 7 && "sensitivity"@.len()
        == 11);
    lemma_bools();
    law_quote_round_trip(f.name);
    law_quote_round_trip(f.value);
    law_quote_round_trip(sensitivity_text(f.sensitivity));
    lemma_sensitivity_named(f.sensitivity);
    let list = form_assignments(f);
    assert(is_key("name"@) && is_key("value"@) && is_key("enabled"@) && is_key("sensitivity"@));
    assert(list[0].0 == "name"@ && list[1].0 == "value"@ && list[2].0 == "enabled"@ && list[3].0
        == "sensitivity"@);
    assert(writable(list));
    assert(distinct_keys(list));
    lemma_map_of(list);
}

/// The state after some sections of query parameters or headers.
spec fn after_forms(s: ScanView, section: Section, list: Seq<FormFieldView>) -> ScanView {
    if list.len() == 0 {
        s
    } else {
        let c = close_all(s)->Ok_0;
        let last = Some(map_of(form_assignments(list.last())));
        if section == Section::Query {
            ScanView { query: c.query + list.drop_last(), current_query: last, section, ..c }
        } else {
            ScanView { headers: c.headers + list.drop_last(), current_header: last, section, ..c }
        }
    }
}

/// The state after those sections are complete.
spec fn closed_forms(s: ScanView, section: Section, list: Seq<FormFieldView>) -> ScanView {
    let c = close_all(s)->Ok_0;
    if list.len() == 0 {
        c
    } else if section == Section::Query {
        ScanView { query: c.query + list, section, ..c }
    } else {
        ScanView { headers: c.headers + list, section, ..c }
    }
}

proof fn lemma_close_forms(s: ScanView, section: Section, list: Seq<FormFieldView>)
    requires
        section == Section::Query || section == Section::Header,
        close_all(s) is Ok,
        section == Section::Header ==> forall|i: int|
            0 <= i < list.len() ==> header_check((#[trigger] list[i]).name, list[i].value) is None,
    ensures
        close_all(after_forms(s, section, list)) == Ok::<ScanView, WorkspaceErrorView>(
            closed_forms(s, section, list),
        ),
{
    if list.len() > 0 {
        lemma_form_section(list.last());
        assert(header_check(list[list.len() - 1].name, list[list.len() - 1].value) is None
            || section == Section::Query);
        let c = close_all(s)->Ok_0;
        assert(c.query + list =~= (c.query + list.drop_last()).push(list.last()));
        assert(c.headers + list =~= (c.headers + list.drop_last()).push(list.last()));
        assert(close_all(after_forms(s, section, list))->Ok_0 =~= closed_forms(s, section, list));
    }
}

proof fn lemma_scan_forms(
    front: Seq<Seq<char>>,
    header: Seq<char>,
    section: Section,
    list: Seq<FormFieldView>,
)
    requires
        section == Section::Query && header == "[[query]]"@ || section == Section::Header && header
            == "[[headers]]"@,
        scan(front) is Ok,
        close_all(scan(front)->Ok_0) is Ok,
        section == Section::Header ==> forall|i: int|
            0 <= i < list.len() ==> header_check((#[trigger] list[i]).name, list[i].value) is None,
    ensures
        scan(front + form_blocks(header, list)) == Ok::<ScanView, WorkspaceErrorView>(
            after_forms(scan(front)->Ok_0, section, list),
        ),
        forall|i: int|
            0 <= i < form_blocks(header, list).len() ==> is_line(
                #[trigger] form_blocks(header, list)[i],
            ),
    decreases list.len(),
{
    let s = scan(front)->Ok_0;
    if list.len() == 0 {
        assert(front + form_blocks(header, list) =~= front);
    } else {
        let shorter = list.drop_last();
        assert forall|i: int| section == Section::Header && 0 <= i < shorter.len() implies header_check(
            (#[trigger] shorter[i]).name,
            shorter[i].value,
        ) is None by {
            assert(shorter[i] == list[i]);
        }
        lemma_scan_forms(front, header, section, shorter);
        lemma_close_forms(s, section, shorter);
        lemma_form_section(list.last());
        lemma_section_lines();
        let before = front + form_blocks(header, shorter);
        let assignments = form_assignments(list.last());
        lemma_scan_block(before, header, section, assignments);
        assert(front + form_blocks(header, list) =~= before + block(header, assignments));
        assert(Fields::empty().union_prefer_right(map_of(assignments)) =~= map_of(assignments));
        let c = close_all(s)->Ok_0;
        assert(c.query + Seq::<FormFieldView>::empty() =~= c.query);
        assert(c.headers + Seq::<FormFieldView>::empty() =~= c.headers);
        assert(shorter.len() == 0 ==> shorter =~= Seq::<FormFieldView>::empty());
        assert(scan(front + form_blocks(header, list))->Ok_0 =~= after_forms(s, section, list));
        lemma_block_lines(header, assignments);
        let all = form_blocks(header, list);
        assert forall|i: int| 0 <= i < all.len() implies is_line(#[trigger] all[i]) by {
            let n = form_blocks(header, shorter).len();
            if i < n {
                assert(all[i] == form_blocks(header, shorter)[i]);
            } else {
                assert(all[i] == block(header, assignments)[i - n]);
            }
        }
    }
}

/// The sections of the fields of a body, by what they assign.
spec fn field_blocks(lists: Seq<Assignments>) -> Seq<Seq<char>>
    decreases lists.len(),
{
    if lists.len() == 0 {
        seq![]
    } else {
        field_blocks(lists.drop_last()) + block("[[body.fields]]"@, lists.last())
    }
}

spec fn list_maps(lists: Seq<Assignments>) -> Seq<Fields> {
    lists.map_values(|l: Assignments| map_of(l))
}

/// The state after some sections of body fields.
spec fn after_fields(s: ScanView, lists: Seq<Assignments>) -> ScanView {
    if lists.len() == 0 {
        s
    } else {
        ScanView {
            body_fields: s.body_fields + list_maps(lists.drop_last()),
            current_body_field: Some(map_of(lists.last())),
            section: Section::BodyField,
            ..s
        }
    }
}

proof fn lemma_scan_body_fields(front: Seq<Seq<char>>, lists: Seq<Assignments>)
    requires
        scan(front) is Ok,
        scan(front)->Ok_0.current_body_field is None,
        forall|i: int| 0 <= i < lists.len() ==> writable(#[trigger] lists[i]),
    ensures
        scan(front + field_blocks(lists)) == Ok::<ScanView, WorkspaceErrorView>(
            after_fields(scan(front)->Ok_0, lists),
        ),
        forall|i: int|
            0 <= i < field_blocks(lists).len() ==> is_line(#[trigger] field_blocks(lists)[i]),
    decreases lists.len(),
{
    let s = scan(front)->Ok_0;
    let header = "[[body.fields]]"@;
    if lists.len() == 0 {
        assert(front + field_blocks(lists) =~= front);
    } else {
        let shorter = lists.drop_last();
        assert forall|i: int| 0 <= i < shorter.len() implies writable(#[trigger] shorter[i]) by {
            assert(shorter[i] == lists[i]);
        }
        lemma_scan_body_fields(front, shorter);
        lemma_section_lines();
        let before = front + field_blocks(shorter);
        let list = lists.last();
        assert(writable(lists[lists.len() - 1]));
        lemma_scan_block(before, header, Section::BodyField, list);
        assert(front + field_blocks(lists) =~= before + block(header, list));
        assert(Fields::empty().union_prefer_right(map_of(list)) =~= map_of(list));
        if shorter.len() > 0 {
            assert(s.body_fields + list_maps(shorter) =~= (s.body_fields + list_maps(
                shorter.drop_last(),
            )).push(map_of(shorter.last())));
        } else {
            assert(s.body_fields + list_maps(shorter) =~= s.body_fields);
        }
        assert(scan(front + field_blocks(lists))->Ok_0 =~= after_fields(s, lists));
        lemma_block_lines(header, list);
        let all = field_blocks(lists);
        assert forall|i: int| 0 <= i < all.len() implies is_line(#[trigger] all[i]) by {
            let n = field_blocks(shorter).len();
            if i < n {
                assert(all[i] == field_blocks(shorter)[i]);
            } else {
                assert(all[i] == block(header, list)[i - n]);
            }
        }
    }
}

/// Whether the credentials of an authentication refer to variables.
pub open spec fn authentication_writable(a: AuthenticationView) -> bool {
    match a {
        AuthenticationView::Anonymous => true,
        AuthenticationView::Basic { password, .. } => is_template(password),
        AuthenticationView::Bearer { token } => is_template(token),
        AuthenticationView::ApiKey { value, .. } => is_template(value),
    }
}

/// Whether a text can refer to a variable.
pub open spec fn is_template(s: Seq<char>) -> bool {
    contains_piece(s, "{{"@) && contains_piece(s, "}}"@)
}

proof fn lemma_authentication_section(a: AuthenticationView)
    requires
        authentication_writable(a),
    ensures
        writable(authentication_assignments(a)),
        authentication_value(map_of(authentication_assignments(a))) == Ok::<
            AuthenticationView,
            WorkspaceErrorView,
        >(a),
{
    reveal_strlit("kind");
    reveal_strlit("username");
    reveal_strlit("password");
    reveal_strlit("token");
    reveal_strlit("name");
    reveal_strlit("value");
    reveal_strlit("placement");
    reveal_strlit("none");
    reveal_strlit("basic");
    reveal_strlit("bearer");
    reveal_strlit("api_key");
    reveal_strlit("header");
    reveal_strlit("query");
    assert("kind"@.len() == 4 && "kind"@[0] == 'k');
    assert("username"@.len() == 8 && "username"@[0] == 'u');
    assert("password"@.len() == 8 && "password"@[0] == 'p');
    assert("token"@.len() == 5);
    assert("name"@.len() == 4 && "name"@[0] == 'n');
    assert("value"@.len() == 5);
    assert("placement"@.len() == 9);
    assert("none"@.len() == 4 && "basic"@.len() == 5 && "bearer"@.len() == 6 && "api_key"@.len()
        == 7);
    assert("header"@.len() == 6 && "query"@.len() == 5);
    law_quote_round_trip(authentication_kind(a));
    let list = authentication_assignments(a);
    assert(is_key("kind"@) && is_key("name"@) && is_key("value"@) && is_key("placement"@));
    assert(is_key("username"@) && is_key("password"@) && is_key("token"@));
    assert(list[0].0 == "kind"@);
    match a {
        AuthenticationView::Anonymous => {
            assert(writable(list));
            assert(distinct_keys(list));
            lemma_map_of(list);
        },
        AuthenticationView::Basic { username, password } => {
            law_quote_round_trip(username);
            law_quote_round_trip(password);
            assert(list[1].0 == "username"@ && list[2].0 == "password"@);
            assert(writable(list));
            assert(distinct_keys(list));
            lemma_map_of(list);
        },
        AuthenticationView::Bearer { token } => {
            law_quote_round_trip(token);
            assert(list[1].0 == "token"@);
            assert(writable(list));
            assert(distinct_keys(list));
            lemma_map_of(list);
        },
        AuthenticationView::ApiKey { name, value, placement } => {
            law_quote_round_trip(name);
            law_quote_round_trip(value);
            law_quote_round_trip(placement_text(placement));
            assert(list[1].0 == "name"@ && list[2].0 == "value"@ && list[3].0 == "placement"@);
            assert(writable(list));
            assert(distinct_keys(list));
            lemma_map_of(list);
        },
    }
}

/// Whether a path stays below the workspace.
pub open spec fn is_resource_path(path: Seq<char>) -> bool {
    !climbs(components(path))
}

/// Whether the files that a body sends are below the workspace.
pub open spec fn body_writable(b: BodyView) -> bool {
    match b {
        BodyView::BinaryFile { relative_path } => is_resource_path(relative_path),
        BodyView::StreamFile { relative_path } => is_resource_path(relative_path),
        BodyView::Multipart(fields) => forall|i: int|
            0 <= i < fields.len() ==> multipart_writable(#[trigger] fields[i]),
        _ => true,
    }
}

/// Whether the file that a field sends, if any, is below the workspace.
pub open spec fn multipart_writable(f: MultipartFieldView) -> bool {
    match f.value {
        MultipartValueView::Text(_) => true,
        MultipartValueView::File { relative_path } => is_resource_path(relative_path),
    }
}

proof fn lemma_multipart_section(f: MultipartFieldView)
    requires
        multipart_writable(f),
    ensures
        writable(multipart_assignments(f)),
        multipart_field_value(map_of(multipart_assignments(f))) == Ok::<
            MultipartFieldView,
            WorkspaceErrorView,
        >(f),
{
    reveal_strlit("name");
    reveal_strlit("value_kind");
    reveal_strlit("value");
    reveal_strlit("relative_path");
    reveal_strlit("content_type");
    reveal_strlit("enabled");
    reveal_strlit("sensitivity");
    assert("name"@.len() == 4);
    assert("value_kind"@.len() == 10);
    assert("value"@.len() == 5);
    assert("relative_path"@.len() == 13);
    assert("content_type"@.len() == 12);
    assert("enabled"@.len() == 7);
    assert("sensitivity"@.len() == 11);
    assert(is_key("name"@) && is_key("value_kind"@) && is_key("value"@));
    assert(is_key("relative_path"@) && is_key("content_type"@));
    assert(is_key("enabled"@) && is_key("sensitivity"@));
    lemma_bools();
    lemma_value_kinds();
    law_quote_round_trip(f.name);
    law_quote_round_trip("text"@);
    law_quote_round_trip("file"@);
    law_quote_round_trip(sensitivity_text(f.sensitivity));
    lemma_sensitivity_named(f.sensitivity);
    if let Some(t) = f.content_type {
        law_quote_round_trip(t);
    }
    match f.value {
        MultipartValueView::Text(text) => {
            law_quote_round_trip(text);
        },
        MultipartValueView::File { relative_path } => {
            law_quote_round_trip(relative_path);
        },
    }
    let list = multipart_assignments(f);
    let n = list.len() as int;
    assert(list[0].0 == "name"@ && list[1].0 == "value_kind"@);
    assert(list[n - 2].0 == "enabled"@ && list[n - 1].0 == "sensitivity"@);
    if f.content_type is Some {
        assert(list[3].0 == "content_type"@);
    }
    if f.value is Text {
        assert(list[2].0 == "value"@);
    } else {
        assert(list[2].0 == "relative_path"@);
    }
    assert(writable(list));
    assert(distinct_keys(list));
    lemma_map_of(list);
    if f.content_type is None {
        lemma_no_such_key(list, "content_type"@);
    }
}

proof fn lemma_value_kinds()
    ensures
        "\"text\""@ == quoted("text"@),
        "\"file\""@ == quoted("file"@),
        "text"@ != "file"@,
{
    reveal_strlit("\"text\"");
    reveal_strlit("\"file\"");
    reveal_strlit("text");
    reveal_strlit("file");
    assert("text"@[0] == 't' && "file"@[0] == 'f');
    reveal_with_fuel(crate::document::escaped, 5);
    let t = "text"@;
    assert(t.drop_last().drop_last().drop_last().drop_last().len() == 0);
    assert("\"text\""@ =~= quoted(t));
    let f = "file"@;
    assert(f.drop_last().drop_last().drop_last().drop_last().len() == 0);
    assert("\"file\""@ =~= quoted(f));
}

/// What the sections of the fields of a body assign.
spec fn body_lists(b: BodyView) -> Seq<Assignments> {
    match b {
        BodyView::FormUrlEncoded(fields) => fields.map_values(|f: FormFieldView| form_assignments(f)),
        BodyView::Multipart(fields) => fields.map_values(
            |f: MultipartFieldView| multipart_assignments(f),
        ),
        _ => seq![],
    }
}

proof fn lemma_form_blocks_are_field_blocks(fields: Seq<FormFieldView>)
    ensures
        form_blocks("[[body.fields]]"@, fields) == field_blocks(
            fields.map_values(|f: FormFieldView| form_assignments(f)),
        ),
    decreases fields.len(),
{
    let lists = fields.map_values(|f: FormFieldView| form_assignments(f));
    if fields.len() > 0 {
        lemma_form_blocks_are_field_blocks(fields.drop_last());
        assert(lists.drop_last() =~= fields.drop_last().map_values(
            |f: FormFieldView| form_assignments(f),
        ));
        assert(lists.last() == form_assignments(fields.last()));
    } else {
        assert(lists =~= seq![]);
    }
}

proof fn lemma_multipart_blocks_are_field_blocks(fields: Seq<MultipartFieldView>)
    ensures
        multipart_blocks(fields) == field_blocks(
            fields.map_values(|f: MultipartFieldView| multipart_assignments(f)),
        ),
    decreases fields.len(),
{
    let lists = fields.map_values(|f: MultipartFieldView| multipart_assignments(f));
    if fields.len() > 0 {
        lemma_multipart_blocks_are_field_blocks(fields.drop_last());
        assert(lists.drop_last() =~= fields.drop_last().map_values(
            |f: MultipartFieldView| multipart_assignments(f),
        ));
        assert(lists.last() == multipart_assignments(fields.last()));
    } else {
        assert(lists =~= seq![]);
    }
}

proof fn lemma_form_list_read(fields: Seq<FormFieldView>)
    ensures
        form_field_values(
            list_maps(fields.map_values(|f: FormFieldView| form_assignments(f))),
        ) == Ok::<Seq<FormFieldView>, WorkspaceErrorView>(fields),
    decreases fields.len(),
{
    let maps = list_maps(fields.map_values(|f: FormFieldView| form_assignments(f)));
    if fields.len() > 0 {
        let shorter = fields.drop_last();
        lemma_form_list_read(shorter);
        lemma_form_section(fields.last());
        assert(maps.drop_last() =~= list_maps(
            shorter.map_values(|f: FormFieldView| form_assignments(f)),
        ));
        assert(maps.last() == map_of(form_assignments(fields.last())));
        assert(shorter.push(fields.last()) =~= fields);
    } else {
        assert(fields =~= seq![]);
    }
}

proof fn lemma_multipart_list_read(fields: Seq<MultipartFieldView>)
    requires
        forall|i: int| 0 <= i < fields.len() ==> multipart_writable(#[trigger] fields[i]),
    ensures
        multipart_field_values(
            list_maps(fields.map_values(|f: MultipartFieldView| multipart_assignments(f))),
        ) == Ok::<Seq<MultipartFieldView>, WorkspaceErrorView>(fields),
    decreases fields.len(),
{
    let maps = list_maps(fields.map_values(|f: MultipartFieldView| multipart_assignments(f)));
    if fields.len() > 0 {
        let shorter = fields.drop_last();
        assert forall|i: int| 0 <= i < shorter.len() implies multipart_writable(
            #[trigger] shorter[i],
        ) by {
            assert(shorter[i] == fields[i]);
        }
        lemma_multipart_list_read(shorter);
        assert(multipart_writable(fields[fields.len() - 1]));
        lemma_multipart_section(fields.last());
        assert(maps.drop_last() =~= list_maps(
            shorter.map_values(|f: MultipartFieldView| multipart_assignments(f)),
        ));
        assert(maps.last() == map_of(multipart_assignments(fields.last())));
        assert(shorter.push(fields.last()) =~= fields);
    } else {
        assert(fields =~= seq![]);
    }
}

proof fn lemma_body_words()
    ensures
        "kind"@.len() == 4 && "kind"@[0] == 'k',
        "content_type"@.len() == 12,
        "text"@.len() == 4 && "text"@[0] == 't',
        "query"@.len() == 5,
        "variables_json"@.len() == 14 && "variables_json"@[0] == 'v',
        "operation_name"@.len() == 14 && "operation_name"@[0] == 'o',
        "relative_path"@.len() == 13,
        "encoding_version"@.len() == 16,
        is_key("kind"@) && is_key("content_type"@) && is_key("text"@) && is_key("query"@),
        is_key("variables_json"@) && is_key("operation_name"@),
        is_key("relative_path"@) && is_key("encoding_version"@),
        plain_value("1"@),
{
    reveal_strlit("kind");
    reveal_strlit("content_type");
    reveal_strlit("text");
    reveal_strlit("query");
    reveal_strlit("variables_json");
    reveal_strlit("operation_name");
    reveal_strlit("relative_path");
    reveal_strlit("encoding_version");
    reveal_strlit("1");
}

proof fn lemma_body_kinds()
    ensures
        "empty"@.len() == 5,
        "text"@.len() == 4 && "text"@[0] == 't',
        "json"@.len() == 4 && "json"@[0] == 'j',
        "xml"@.len() == 3,
        "graphql"@.len() == 7,
        "binary_file"@.len() == 11 && "binary_file"@[0] == 'b',
        "stream_file"@.len() == 11 && "stream_file"@[0] == 's',
        "form_urlencoded"@.len() == 15,
        "multipart"@.len() == 9,
{
    reveal_strlit("empty");
    reveal_strlit("text");
    reveal_strlit("json");
    reveal_strlit("xml");
    reveal_strlit("graphql");
    reveal_strlit("binary_file");
    reveal_strlit("stream_file");
    reveal_strlit("form_urlencoded");
    reveal_strlit("multipart");
}

/// The section of a body without fields of its own is read back as that body.
proof fn lemma_plain_body_section(b: BodyView)
    requires
        body_writable(b),
        !(b is FormUrlEncoded),
        !(b is Multipart),
    ensures
        writable(body_assignments(b)),
        body_value(map_of(body_assignments(b)), seq![]) == Ok::<BodyView, WorkspaceErrorView>(b),
{
    lemma_body_words();
    lemma_body_kinds();
    law_quote_round_trip(body_kind(b));
    let list = body_assignments(b);
    assert(list[0].0 == "kind"@);
    match b {
        BodyView::Text { content_type, text } => {
            law_quote_round_trip(text);
            if let Some(t) = content_type {
                law_quote_round_trip(t);
                assert(list[1].0 == "content_type"@ && list[2].0 == "text"@);
                assert(writable(list));
                assert(distinct_keys(list));
                lemma_map_of(list);
            } else {
                assert(list[1].0 == "text"@);
                assert(writable(list));
                assert(distinct_keys(list));
                lemma_map_of(list);
                lemma_no_such_key(list, "content_type"@);
            }
        },
        BodyView::GraphQl { query, variables_json, operation_name } => {
            law_quote_round_trip(query);
            law_quote_round_trip(variables_json);
            assert(list[1].0 == "query"@ && list[2].0 == "variables_json"@);
            if let Some(t) = operation_name {
                law_quote_round_trip(t);
                assert(list[3].0 == "operation_name"@);
                assert(writable(list));
                assert(distinct_keys(list));
                lemma_map_of(list);
            } else {
                assert(writable(list));
                assert(distinct_keys(list));
                lemma_map_of(list);
                lemma_no_such_key(list, "operation_name"@);
            }
        },
        BodyView::Json(text) => {
            law_quote_round_trip(text);
            assert(list[1].0 == "text"@);
            assert(writable(list));
            assert(distinct_keys(list));
            lemma_map_of(list);
        },
        BodyView::Xml(text) => {
            law_quote_round_trip(text);
            assert(list[1].0 == "text"@);
            assert(writable(list));
            assert(distinct_keys(list));
            lemma_map_of(list);
        },
        BodyView::BinaryFile { relative_path } => {
            law_quote_round_trip(relative_path);
            assert(list[1].0 == "relative_path"@);
            assert(writable(list));
            assert(distinct_keys(list));
            lemma_map_of(list);
        },
        BodyView::StreamFile { relative_path } => {
            law_quote_round_trip(relative_path);
            assert(list[1].0 == "relative_path"@);
            assert(writable(list));
            assert(distinct_keys(list));
            lemma_map_of(list);
        },
        _ => {
            assert(writable(list));
            assert(distinct_keys(list));
            lemma_map_of(list);
        },
    }
}

/// The section of a body, with those of its fields, is read back as that body.
proof fn lemma_body_section(b: BodyView)
    requires
        body_writable(b),
    ensures
        writable(body_assignments(b)),
        body_value(map_of(body_assignments(b)), list_maps(body_lists(b))) == Ok::<
            BodyView,
            WorkspaceErrorView,
        >(b),
        body_blocks(b) == field_blocks(body_lists(b)),
        forall|i: int| 0 <= i < body_lists(b).len() ==> writable(#[trigger] body_lists(b)[i]),
{
    match b {
        BodyView::FormUrlEncoded(fields) => {
            lemma_body_words();
            lemma_body_kinds();
            law_quote_round_trip(body_kind(b));
            let list = body_assignments(b);
            assert(list[0].0 == "kind"@ && list[1].0 == "encoding_version"@);
            assert(writable(list));
            assert(distinct_keys(list));
            lemma_map_of(list);
            lemma_form_list_read(fields);
            lemma_form_blocks_are_field_blocks(fields);
            let lists = body_lists(b);
            assert forall|i: int| 0 <= i < lists.len() implies writable(#[trigger] lists[i]) by {
                lemma_form_section(fields[i]);
            }
        },
        BodyView::Multipart(fields) => {
            lemma_body_words();
            lemma_body_kinds();
            law_quote_round_trip(body_kind(b));
            let list = body_assignments(b);
            assert(list[0].0 == "kind"@ && list[1].0 == "encoding_version"@);
            assert(writable(list));
            assert(distinct_keys(list));
            lemma_map_of(list);
            lemma_multipart_list_read(fields);
            lemma_multipart_blocks_are_field_blocks(fields);
            let lists = body_lists(b);
            assert forall|i: int| 0 <= i < lists.len() implies writable(#[trigger] lists[i]) by {
                assert(multipart_writable(fields[i]));
                lemma_multipart_section(fields[i]);
            }
        },
        _ => {
            lemma_plain_body_section(b);
            assert(list_maps(body_lists(b)) =~= seq![]);
        },
    }
}

/// Where a key stands in the list of the keys of a request.
spec fn key_rank(k: Seq<char>) -> int {
    if k.len() == 14 {
        if k[0] == 's' {
            0
        } else {
            10
        }
    } else if k.len() == 2 {
        1
    } else if k.len() == 4 {
        2
    } else if k.len() == 6 {
        3
    } else if k.len() == 3 {
        4
    } else if k.len() == 10 {
        if k[0] == 't' {
            5
        } else {
            13
        }
    } else if k.len() == 21 {
        6
    } else if k.len() == 15 {
        7
    } else if k.len() == 22 {
        8
    } else if k.len() == 27 {
        9
    } else if k.len() == 16 {
        11
    } else if k.len() == 19 {
        if k[0] == 'v' {
            12
        } else {
            14
        }
    } else {
        15
    }
}

proof fn lemma_keys_0()
    ensures
        key_rank("schema_version"@) == 0 && is_key("schema_version"@),
        key_rank("id"@) == 1 && is_key("id"@),
        key_rank("name"@) == 2 && is_key("name"@),
        key_rank("method"@) == 3 && is_key("method"@),
{
    reveal_strlit("schema_version");
    reveal_strlit("id");
    reveal_strlit("name");
    reveal_strlit("method");
    assert("schema_version"@.len() == 14 && "schema_version"@[0] == 's');
    assert("id"@.len() == 2 && "id"@[0] == 'i');
    assert("name"@.len() == 4 && "name"@[0] == 'n');
    assert("method"@.len() == 6 && "method"@[0] == 'm');
}

proof fn lemma_keys_1()
    ensures
        key_rank("url"@) == 4 && is_key("url"@),
        key_rank("timeout_ms"@) == 5 && is_key("timeout_ms"@),
        key_rank("connection_timeout_ms"@) == 6 && is_key("connection_timeout_ms"@),
        key_rank("idle_timeout_ms"@) == 7 && is_key("idle_timeout_ms"@),
{
    reveal_strlit("url");
    reveal_strlit("timeout_ms");
    reveal_strlit("connection_timeout_ms");
    reveal_strlit("idle_timeout_ms");
    assert("url"@.len() == 3 && "url"@[0] == 'u');
    assert("timeout_ms"@.len() == 10 && "timeout_ms"@[0] == 't');
    assert("connection_timeout_ms"@.len() == 21 && "connection_timeout_ms"@[0] == 'c');
    assert("idle_timeout_ms"@.len() == 15 && "idle_timeout_ms"@[0] == 'i');
}

proof fn lemma_keys_2()
    ensures
        key_rank("maximum_response_bytes"@) == 8 && is_key("maximum_response_bytes"@),
        key_rank("maximum_wire_response_bytes"@) == 9 && is_key("maximum_wire_response_bytes"@),
        key_rank("redirect_limit"@) == 10 && is_key("redirect_limit"@),
        key_rank("follow_redirects"@) == 11 && is_key("follow_redirects"@),
{
    reveal_strlit("maximum_response_bytes");
    reveal_strlit("maximum_wire_response_bytes");
    reveal_strlit("redirect_limit");
    reveal_strlit("follow_redirects");
    assert("maximum_response_bytes"@.len() == 22 && "maximum_response_bytes"@[0] == 'm');
    assert("maximum_wire_response_bytes"@.len() == 27 && "maximum_wire_response_bytes"@[0] == 'm');
    assert("redirect_limit"@.len() == 14 && "redirect_limit"@[0] == 'r');
    assert("follow_redirects"@.len() == 16 && "follow_redirects"@[0] == 'f');
}

proof fn lemma_keys_3()
    ensures
        key_rank("verify_certificates"@) == 12 && is_key("verify_certificates"@),
        key_rank("cookie_jar"@) == 13 && is_key("cookie_jar"@),
        key_rank("decompress_response"@) == 14 && is_key("decompress_response"@),
        key_rank("documentation"@) == 15 && is_key("documentation"@),
{
    reveal_strlit("verify_certificates");
    reveal_strlit("cookie_jar");
    reveal_strlit("decompress_response");
    reveal_strlit("documentation");
    assert("verify_certificates"@.len() == 19 && "verify_certificates"@[0] == 'v');
    assert("cookie_jar"@.len() == 10 && "cookie_jar"@[0] == 'c');
    assert("decompress_response"@.len() == 19 && "decompress_response"@[0] == 'd');
    assert("documentation"@.len() == 13 && "documentation"@[0] == 'd');
}

proof fn lemma_request_keys()
    ensures
        forall|i: int|
            0 <= i < request_keys().len() ==> key_rank(#[trigger] request_keys()[i]) == i && is_key(
                request_keys()[i],
            ),
        request_keys().len() == 16,
{
    lemma_keys_0();
    lemma_keys_1();
    lemma_keys_2();
    lemma_keys_3();
    let keys = request_keys();
    assert(keys[0] == "schema_version"@);
    assert(keys[1] == "id"@);
    assert(keys[2] == "name"@);
    assert(keys[3] == "method"@);
    assert(keys[4] == "url"@);
    assert(keys[5] == "timeout_ms"@);
    assert(keys[6] == "connection_timeout_ms"@);
    assert(keys[7] == "idle_timeout_ms"@);
    assert(keys[8] == "maximum_response_bytes"@);
    assert(keys[9] == "maximum_wire_response_bytes"@);
    assert(keys[10] == "redirect_limit"@);
    assert(keys[11] == "follow_redirects"@);
    assert(keys[12] == "verify_certificates"@);
    assert(keys[13] == "cookie_jar"@);
    assert(keys[14] == "decompress_response"@);
    assert(keys[15] == "documentation"@);
    assert forall|i: int| 0 <= i < keys.len() implies key_rank(#[trigger] keys[i]) == i && is_key(
        keys[i],
    ) by {
        assert(i == 0 || i == 1 || i == 2 || i == 3 || i == 4 || i == 5 || i == 6 || i == 7 || i == 8
            || i == 9 || i == 10 || i == 11 || i == 12 || i == 13 || i == 14 || i == 15);
    }
}

/// Whether a span of time can be written in milliseconds and read back.
pub open spec fn interval_writable(t: Interval) -> bool {
    t.wf() && t.nanoseconds % 1_000_000 == 0 && t.millis() <= u64::MAX
}

proof fn lemma_interval(t: Interval)
    requires
        interval_writable(t),
    ensures
        interval_of_millis(t.millis() as int) == t,
        plain_value(decimal(t.millis())),
        unsigned_value(decimal(t.millis()), u64::MAX as int, seq![]) is Ok,
{
    lemma_decimal_plain(t.millis());
    lemma_parse_decimal(t.millis(), u64::MAX as int);
    let part = t.nanoseconds / 1_000_000;
    assert(part * 1_000_000 == t.nanoseconds);
    assert(part < 1000);
    assert(t.millis() / 1000 == t.seconds);
    assert(t.millis() % 1000 == part);
}

/// Whether settings can be written and read back.
pub open spec fn settings_writable(s: RequestSettings) -> bool {
    interval_writable(s.timeout) && interval_writable(s.connection_timeout) && interval_writable(
        s.idle_timeout,
    )
}

/// Whether a request can be written and read back: it has the current version, an
/// identifier, a method and headers that can be read, spans of whole milliseconds,
/// credentials that refer to variables, files below the workspace, and preserved
/// fields that are none of its own.
pub open spec fn request_writable(d: RequestDocumentView) -> bool {
    &&& d.schema_version == CURRENT_SCHEMA_VERSION
    &&& is_slug(d.request.id)
    &&& method_valid(d.request.method)
    &&& forall|i: int|
        0 <= i < d.request.headers.len() ==> header_check(
            (#[trigger] d.request.headers[i]).name,
            d.request.headers[i].value,
        ) is None
    &&& authentication_writable(d.request.authentication)
    &&& body_writable(d.request.body)
    &&& settings_writable(d.request.settings)
    &&& d.unknown_fields.dom().finite()
    &&& preservable(d.unknown_fields, request_keys())
}

/// The fields before the sections of a request.
spec fn root_fields(d: RequestDocumentView) -> Fields {
    map_of(root_assignments(d)).union_prefer_right(d.unknown_fields)
}

/// The fields of a request hold what its lines assign, and nothing under another
/// key but what is preserved.
proof fn lemma_root_fields(d: RequestDocumentView)
    requires
        request_writable(d),
    ensures
        writable(root_assignments(d)),
        forall|i: int|
            0 <= i < root_assignments(d).len() ==> root_fields(d).dom().contains(
                (#[trigger] root_assignments(d)[i]).0,
            ) && root_fields(d)[root_assignments(d)[i].0] == root_assignments(d)[i].1,
        d.request.documentation.len() == 0 ==> !root_fields(d).dom().contains("documentation"@),
        without(root_fields(d), request_keys()) == d.unknown_fields,
{
    let list = root_assignments(d);
    let keys = request_keys();
    let n = list.len() as int;
    lemma_request_keys();
    lemma_bools();
    law_quote_round_trip(d.request.id);
    law_quote_round_trip(d.request.name);
    law_quote_round_trip(method_text(d.request.method));
    law_quote_round_trip(d.request.url);
    law_quote_round_trip(d.request.documentation);
    let s = d.request.settings;
    lemma_decimal_plain(d.schema_version as nat);
    lemma_decimal_plain(s.timeout.millis());
    lemma_decimal_plain(s.connection_timeout.millis());
    lemma_decimal_plain(s.idle_timeout.millis());
    lemma_decimal_plain(s.maximum_response_bytes as nat);
    lemma_decimal_plain(s.maximum_wire_response_bytes as nat);
    lemma_decimal_plain(s.redirect_limit as nat);
    assert forall|i: int| 0 <= i < n implies (#[trigger] list[i]).0 == keys[i] && plain_value(
        list[i].1,
    ) by {
        assert(i == 0 || i == 1 || i == 2 || i == 3 || i == 4 || i == 5 || i == 6 || i == 7 || i == 8
            || i == 9 || i == 10 || i == 11 || i == 12 || i == 13 || i == 14 || i == 15);
    }
    assert forall|i: int| 0 <= i < n implies is_key((#[trigger] list[i]).0) by {
        assert(is_key(keys[i]));
    }
    assert forall|i: int, j: int| 0 <= i < j < n implies (#[trigger] list[i]).0 != (
    #[trigger] list[j]).0 by {
        assert(key_rank(keys[i]) == i && key_rank(keys[j]) == j);
    }
    lemma_map_of(list);
    let f = root_fields(d);
    assert forall|i: int| 0 <= i < n implies f.dom().contains((#[trigger] list[i]).0)
        && f[list[i].0] == list[i].1 by {
        assert(keys.contains(keys[i]));
        assert(!d.unknown_fields.dom().contains(keys[i]));
    }
    if d.request.documentation.len() == 0 {
        assert(keys[15] == "documentation"@);
        assert(keys.contains(keys[15]));
        if map_of(list).dom().contains(keys[15]) {
            let i = choose|i: int| 0 <= i < list.len() && (#[trigger] list[i]).0 == keys[15];
            assert(key_rank(keys[i]) == i);
            assert(key_rank(keys[15]) == 15);
        }
    }
    assert(without(f, keys) =~= d.unknown_fields) by {
        assert forall|k: Seq<char>| map_of(list).dom().contains(k) implies keys.contains(k) by {
            let i = choose|i: int| 0 <= i < list.len() && (#[trigger] list[i]).0 == k;
            assert(keys[i] == k);
        }
    }
}

proof fn lemma_root_settings(d: RequestDocumentView)
    requires
        request_writable(d),
    ensures
        settings_value(root_fields(d)) == Ok::<RequestSettings, WorkspaceErrorView>(
            d.request.settings,
        ),
{
    lemma_root_fields(d);
    lemma_bools();
    let list = root_assignments(d);
    let f = root_fields(d);
    let s = d.request.settings;
    lemma_interval(s.timeout);
    lemma_interval(s.connection_timeout);
    lemma_interval(s.idle_timeout);
    lemma_parse_decimal(s.timeout.millis(), u64::MAX as int);
    lemma_parse_decimal(s.connection_timeout.millis(), u64::MAX as int);
    lemma_parse_decimal(s.idle_timeout.millis(), u64::MAX as int);
    lemma_parse_decimal(s.maximum_response_bytes as nat, u64::MAX as int);
    lemma_parse_decimal(s.maximum_wire_response_bytes as nat, u64::MAX as int);
    lemma_parse_decimal(s.redirect_limit as nat, u16::MAX as int);
    assert(list[5] == ("timeout_ms"@, decimal(s.timeout.millis())));
    assert(list[6] == ("connection_timeout_ms"@, decimal(s.connection_timeout.millis())));
    assert(list[7] == ("idle_timeout_ms"@, decimal(s.idle_timeout.millis())));
    assert(duration_value(f, "timeout_ms"@, 30_000) == Ok::<Interval, WorkspaceErrorView>(
        s.timeout,
    ));
    assert(duration_value(f, "connection_timeout_ms"@, 10_000) == Ok::<
        Interval,
        WorkspaceErrorView,
    >(s.connection_timeout));
    assert(duration_value(f, "idle_timeout_ms"@, 30_000) == Ok::<Interval, WorkspaceErrorView>(
        s.idle_timeout,
    ));
    assert(list[8] == ("maximum_response_bytes"@, decimal(s.maximum_response_bytes as nat)));
    assert(list[9] == (
        "maximum_wire_response_bytes"@,
        decimal(s.maximum_wire_response_bytes as nat),
    ));
    assert(list[10] == ("redirect_limit"@, decimal(s.redirect_limit as nat)));
    assert(limits_value(f) == Ok::<(u64, u64, u16), WorkspaceErrorView>(
        (s.maximum_response_bytes, s.maximum_wire_response_bytes, s.redirect_limit),
    ));
    assert(list[11] == ("follow_redirects"@, bool_text(s.follow_redirects)));
    assert(list[12] == ("verify_certificates"@, bool_text(s.verify_certificates)));
    assert(list[13] == ("cookie_jar"@, bool_text(s.cookie_jar)));
    assert(list[14] == ("decompress_response"@, bool_text(s.decompress_response)));
    assert(switches_value(f) == Ok::<(bool, bool, bool, bool), WorkspaceErrorView>(
        (s.follow_redirects, s.verify_certificates, s.cookie_jar, s.decompress_response),
    ));
}

/// The lines before the sections of a request are read as its fields.
proof fn lemma_scan_root(d: RequestDocumentView)
    requires
        request_writable(d),
    ensures
        scan(field_lines(root_assignments(d)) + unknown_lines(d.unknown_fields)) == Ok::<
            ScanView,
            WorkspaceErrorView,
        >(ScanView { root: root_fields(d), ..scan_start() }),
        forall|i: int|
            0 <= i < (field_lines(root_assignments(d)) + unknown_lines(d.unknown_fields)).len()
                ==> is_line(
                #[trigger] (field_lines(root_assignments(d)) + unknown_lines(d.unknown_fields))[i],
            ),
{
    let list = root_assignments(d);
    let m = d.unknown_fields;
    lemma_root_fields(d);
    lemma_field_lines_are_lines(list);
    lemma_ignored_lines();
    let start = Seq::<Seq<char>>::empty();
    lemma_scan_fields(start, list);
    assert(start + field_lines(list) =~= field_lines(list));
    assert(Fields::empty().union_prefer_right(map_of(list)) =~= map_of(list));
    let whole = field_lines(list) + unknown_lines(m);
    if m == Fields::empty() {
        assert(whole =~= field_lines(list));
        assert(root_fields(d) =~= map_of(list));
    } else {
        lemma_in_order_exists(m);
        let pairs = in_order(m);
        lemma_in_order_writable(m, request_keys(), pairs);
        lemma_field_lines_are_lines(pairs);
        let a = field_lines(list).push(seq![]);
        let b = a.push(preserved_comment());
        lemma_scan_ignored(field_lines(list), seq![]);
        lemma_scan_ignored(a, preserved_comment());
        lemma_scan_fields(b, pairs);
        assert(whole =~= b + field_lines(pairs));
        assert forall|i: int| 0 <= i < whole.len() implies is_line(#[trigger] whole[i]) by {
            if i < list.len() {
                assert(whole[i] == field_lines(list)[i]);
            } else if i >= list.len() + 2 {
                assert(whole[i] == field_lines(pairs)[i - list.len() - 2]);
            }
        }
    }
}

/// The sections of a request are read, one after the other, as what they hold.
#[verifier::rlimit(30)]
proof fn lemma_scan_request(d: RequestDocumentView)
    requires
        request_writable(d),
    ensures
        scan(request_lines(d)) is Ok,
        close_all(scan(request_lines(d))->Ok_0) is Ok,
        ({
            let s = close_all(scan(request_lines(d))->Ok_0)->Ok_0;
            &&& s.root == root_fields(d)
            &&& s.query == d.request.query
            &&& s.headers == d.request.headers
            &&& s.auth == map_of(authentication_assignments(d.request.authentication))
            &&& s.body == map_of(body_assignments(d.request.body))
            &&& s.body_fields == list_maps(body_lists(d.request.body))
        }),
{
    let r = d.request;
    let auth = authentication_assignments(r.authentication);
    let body = body_assignments(r.body);
    let lists = body_lists(r.body);
    lemma_section_lines();
    lemma_scan_root(d);
    let l0 = field_lines(root_assignments(d)) + unknown_lines(d.unknown_fields);
    let s0 = scan(l0)->Ok_0;
    assert(close_all(s0) == Ok::<ScanView, WorkspaceErrorView>(s0));
    lemma_scan_forms(l0, "[[query]]"@, Section::Query, r.query);
    lemma_close_forms(s0, Section::Query, r.query);
    let l1 = l0 + form_blocks("[[query]]"@, r.query);
    let s1 = scan(l1)->Ok_0;
    lemma_scan_forms(l1, "[[headers]]"@, Section::Header, r.headers);
    lemma_close_forms(s1, Section::Header, r.headers);
    let l2 = l1 + form_blocks("[[headers]]"@, r.headers);
    let s2 = scan(l2)->Ok_0;
    let c2 = close_all(s2)->Ok_0;
    assert(Seq::<FormFieldView>::empty() + r.query =~= r.query);
    assert(Seq::<FormFieldView>::empty() + r.headers =~= r.headers);
    assert(c2.query =~= r.query);
    assert(c2.headers =~= r.headers);
    assert(c2.root == root_fields(d));
    assert(c2.auth == Fields::empty() && c2.body == Fields::empty());
    assert(c2.body_fields =~= seq![]);
    assert(c2.current_query is None && c2.current_header is None && c2.current_body_field is None);
    lemma_authentication_section(r.authentication);
    lemma_scan_block(l2, "[auth]"@, Section::Auth, auth);
    let l3 = l2 + block("[auth]"@, auth);
    let s3 = scan(l3)->Ok_0;
    assert(Fields::empty().union_prefer_right(map_of(auth)) =~= map_of(auth));
    assert(s3.auth == map_of(auth));
    lemma_body_section(r.body);
    lemma_scan_block(l3, "[body]"@, Section::Body, body);
    let l4 = l3 + block("[body]"@, body);
    let s4 = scan(l4)->Ok_0;
    assert(Fields::empty().union_prefer_right(map_of(body)) =~= map_of(body));
    assert(s4.body == map_of(body));
    lemma_scan_body_fields(l4, lists);
    let l5 = l4 + field_blocks(lists);
    assert(request_lines(d) =~= l5);
    let s5 = scan(l5)->Ok_0;
    let c5 = close_all(s5)->Ok_0;
    if lists.len() > 0 {
        assert(Seq::<Fields>::empty() + list_maps(lists.drop_last()) =~= list_maps(
            lists.drop_last(),
        ));
        assert(list_maps(lists) =~= list_maps(lists.drop_last()).push(map_of(lists.last())));
    } else {
        assert(list_maps(lists) =~= seq![]);
    }
    assert(c5.body_fields =~= list_maps(lists));
}

/// Every line of a request is one line.
proof fn lemma_request_lines(d: RequestDocumentView)
    requires
        request_writable(d),
    ensures
        forall|i: int|
            0 <= i < request_lines(d).len() ==> is_line(#[trigger] request_lines(d)[i]),
{
    let r = d.request;
    let auth = authentication_assignments(r.authentication);
    let body = body_assignments(r.body);
    let lists = body_lists(r.body);
    lemma_section_lines();
    lemma_scan_root(d);
    let l0 = field_lines(root_assignments(d)) + unknown_lines(d.unknown_fields);
    let l1 = l0 + form_blocks("[[query]]"@, r.query);
    let l2 = l1 + form_blocks("[[headers]]"@, r.headers);
    let l3 = l2 + block("[auth]"@, auth);
    let l4 = l3 + block("[body]"@, body);
    let start = Seq::<Seq<char>>::empty();
    lemma_scan_forms(start, "[[query]]"@, Section::Query, r.query);
    lemma_scan_forms(start, "[[headers]]"@, Section::Header, r.headers);
    lemma_authentication_section(r.authentication);
    lemma_body_section(r.body);
    lemma_scan_body_fields(start, lists);
    assert(request_lines(d) =~= l4 + field_blocks(lists));
    lemma_block_lines("[auth]"@, auth);
    lemma_block_lines("[body]"@, body);
    lemma_all_lines(l0, form_blocks("[[query]]"@, r.query));
    lemma_all_lines(l1, form_blocks("[[headers]]"@, r.headers));
    lemma_all_lines(l2, block("[auth]"@, auth));
    lemma_all_lines(l3, block("[body]"@, body));
    lemma_all_lines(l4, field_blocks(lists));
}

proof fn lemma_all_lines(a: Seq<Seq<char>>, b: Seq<Seq<char>>)
    requires
        forall|i: int| 0 <= i < a.len() ==> is_line(#[trigger] a[i]),
        forall|i: int| 0 <= i < b.len() ==> is_line(#[trigger] b[i]),
    ensures
        forall|i: int| 0 <= i < (a + b).len() ==> is_line(#[trigger] (a + b)[i]),
{
    assert forall|i: int| 0 <= i < (a + b).len() implies is_line(#[trigger] (a + b)[i]) by {
        if i < a.len() {
            assert((a + b)[i] == a[i]);
        } else {
            assert((a + b)[i] == b[i - a.len()]);
        }
    }
}

/// What the fields of a request say besides its settings.
proof fn lemma_root_reads(d: RequestDocumentView)
    requires
        request_writable(d),
    ensures
        schema_version_of(root_fields(d)) == Ok::<u32, WorkspaceErrorView>(d.schema_version),
        id_value(root_fields(d), "id"@) == Ok::<Seq<char>, WorkspaceErrorView>(d.request.id),
        required_string(root_fields(d), "name"@) == Ok::<Seq<char>, WorkspaceErrorView>(
            d.request.name,
        ),
        method_value(root_fields(d)) == Ok::<MethodView, WorkspaceErrorView>(d.request.method),
        required_string(root_fields(d), "url"@) == Ok::<Seq<char>, WorkspaceErrorView>(
            d.request.url,
        ),
        string_or(root_fields(d), "documentation"@, seq![]) == Ok::<Seq<char>, WorkspaceErrorView>(
            d.request.documentation,
        ),
{
    lemma_root_fields(d);
    law_quote_round_trip(d.request.id);
    law_quote_round_trip(d.request.name);
    law_quote_round_trip(method_text(d.request.method));
    law_quote_round_trip(d.request.url);
    law_quote_round_trip(d.request.documentation);
    lemma_parse_decimal(d.schema_version as nat, u32::MAX as int);
    let list = root_assignments(d);
    assert(list[0] == ("schema_version"@, decimal(d.schema_version as nat)));
    assert(list[1] == ("id"@, quoted(d.request.id)));
    assert(list[2] == ("name"@, quoted(d.request.name)));
    assert(list[3] == ("method"@, quoted(method_text(d.request.method))));
    assert(list[4] == ("url"@, quoted(d.request.url)));
    if d.request.documentation.len() > 0 {
        assert(list[15] == ("documentation"@, quoted(d.request.documentation)));
    } else {
        assert(d.request.documentation =~= seq![]);
    }
}

/// A request is read back from its own text: `parse_request` undoes
/// `format_request`, with every query parameter, header and field in its place.
pub proof fn law_request_round_trip(d: RequestDocumentView)
    requires
        request_writable(d),
    ensures
        request_value(request_text(d)) == Ok::<RequestDocumentView, WorkspaceErrorView>(d),
{
    lemma_scan_request(d);
    lemma_request_lines(d);
    lemma_lines_of_unlines(request_lines(d));
    let s = close_all(scan(request_lines(d))->Ok_0)->Ok_0;
    assert(request_value(request_text(d)) == request_of_scan(s));
    assert(authentication_value(s.auth) == Ok::<AuthenticationView, WorkspaceErrorView>(
        d.request.authentication,
    )) by {
        lemma_authentication_section(d.request.authentication);
    }
    assert(body_value(s.body, s.body_fields) == Ok::<BodyView, WorkspaceErrorView>(d.request.body))
        by {
        lemma_body_section(d.request.body);
    }
    assert(without(s.root, request_keys()) == d.unknown_fields) by {
        lemma_root_fields(d);
    }
    lemma_root_settings(d);
    lemma_root_reads(d);
    let read = RequestDocumentView {
        schema_version: d.schema_version,
        request: RequestView {
            id: d.request.id,
            name: d.request.name,
            method: d.request.method,
            url: d.request.url,
            query: s.query,
            headers: s.headers,
            authentication: d.request.authentication,
            body: d.request.body,
            settings: d.request.settings,
            documentation: d.request.documentation,
        },
        unknown_fields: without(s.root, request_keys()),
    };
    assert(request_of_scan(s) == Ok::<RequestDocumentView, WorkspaceErrorView>(read));
}

/// What has been read so far can be written again.
spec fn scan_writable(s: ScanView) -> bool {
    &&& s.root.dom().finite()
    &&& forall|k: Seq<char>| #[trigger] s.root.dom().contains(k) ==> is_key(k) && plain_value(s.root[k])
    &&& forall|i: int|
        0 <= i < s.headers.len() ==> header_check((#[trigger] s.headers[i]).name, s.headers[i].value) is None
}

proof fn lemma_close_all_writable(s: ScanView)
    requires
        scan_writable(s),
        close_all(s) is Ok,
    ensures
        scan_writable(close_all(s)->Ok_0),
{
    let t = close_all(s)->Ok_0;
    assert forall|i: int| 0 <= i < t.headers.len() implies header_check(
        (#[trigger] t.headers[i]).name,
        t.headers[i].value,
    ) is None by {
        if i < s.headers.len() {
            assert(t.headers[i] == s.headers[i]);
        }
    }
}

proof fn lemma_scan_writable(list: Seq<Seq<char>>)
    requires
        scan(list) is Ok,
        forall|i: int| 0 <= i < list.len() ==> !(#[trigger] list[i]).contains('\n'),
    ensures
        scan_writable(scan(list)->Ok_0),
    decreases list.len(),
{
    if list.len() > 0 {
        let front = list.drop_last();
        assert forall|i: int| 0 <= i < front.len() implies !(#[trigger] front[i]).contains('\n') by {
            assert(front[i] == list[i]);
        }
        lemma_scan_writable(front);
        let s = scan(front)->Ok_0;
        let line = trim(list.last());
        assert(!list[list.len() - 1].contains('\n'));
        if !is_ignored_line(line) {
            match opened_section(line) {
                Some(section) => {
                    if section != Section::BodyField {
                        lemma_close_all_writable(s);
                    }
                },
                None => {
                    lemma_assignment_writable(list.last(), list.len());
                },
            }
        }
    }
}

proof fn lemma_read_interval(m: Fields, key: Seq<char>, default: int)
    requires
        duration_value(m, key, default) is Ok,
        0 <= default <= u64::MAX,
    ensures
        interval_writable(duration_value(m, key, default)->Ok_0),
{
    let n = crate::document::optional_unsigned(m, key, default, u64::MAX as int)->Ok_0;
    assert(0 <= n <= u64::MAX) by {
        if m.dom().contains(key) {
            let digits = crate::number::unsigned_digits(m[key]);
            crate::number::lemma_digits_value_bounds(digits, digits.len() as int);
            assert(digits.take(digits.len() as int) =~= digits);
        }
    }
    let t = interval_of_millis(n);
    assert(t.seconds == n / 1000);
    assert(t.nanoseconds == (n % 1000) * 1_000_000);
    assert(t.nanoseconds / 1_000_000 == n % 1000);
    assert(t.millis() == n);
}

proof fn lemma_read_method(m: Fields)
    requires
        method_value(m) is Ok,
    ensures
        method_valid(method_value(m)->Ok_0),
{
}

proof fn lemma_read_multipart(list: Seq<Fields>)
    requires
        multipart_field_values(list) is Ok,
    ensures
        forall|i: int|
            0 <= i < (multipart_field_values(list)->Ok_0).len() ==> multipart_writable(
                #[trigger] (multipart_field_values(list)->Ok_0)[i],
            ),
    decreases list.len(),
{
    if list.len() > 0 {
        lemma_read_multipart(list.drop_last());
        let front = multipart_field_values(list.drop_last())->Ok_0;
        let all = multipart_field_values(list)->Ok_0;
        assert forall|i: int| 0 <= i < all.len() implies multipart_writable(#[trigger] all[i]) by {
            if i < front.len() {
                assert(all[i] == front[i]);
            }
        }
    }
}

proof fn lemma_read_body(m: Fields, fields: Seq<Fields>)
    requires
        body_value(m, fields) is Ok,
    ensures
        body_writable(body_value(m, fields)->Ok_0),
{
    if body_value(m, fields)->Ok_0 is Multipart {
        lemma_read_multipart(fields);
    }
}

/// Whatever request can be read can be written, and is read back unchanged.
pub proof fn law_request_rewrite_is_stable(text: Seq<char>)
    requires
        request_value(text) is Ok,
    ensures
        request_writable(request_value(text)->Ok_0),
        request_value(request_text(request_value(text)->Ok_0)) == request_value(text),
{
    let d = request_value(text)->Ok_0;
    let s = close_all(scan(lines(text))->Ok_0)->Ok_0;
    lemma_lines_hold_no_feed(text);
    lemma_scan_writable(lines(text));
    lemma_close_all_writable(scan(lines(text))->Ok_0);
    let known = |k: Seq<char>| !request_keys().contains(k);
    assert(d.unknown_fields.dom() =~= s.root.dom().filter(known));
    s.root.dom().lemma_len_filter(known);
    lemma_read_interval(s.root, "timeout_ms"@, 30_000);
    lemma_read_interval(s.root, "connection_timeout_ms"@, 10_000);
    lemma_read_interval(s.root, "idle_timeout_ms"@, 30_000);
    lemma_read_method(s.root);
    lemma_read_body(s.body, s.body_fields);
    law_request_round_trip(d);
}

/// A request with a credential in plain text is never read: every authentication
/// that is accepted refers to a variable for its credential.
pub proof fn law_read_credentials_are_references(text: Seq<char>)
    requires
        request_value(text) is Ok,
    ensures
        authentication_writable((request_value(text)->Ok_0).request.authentication),
{
}

/// No file that an accepted request sends lies outside the workspace.
pub proof fn law_read_files_stay_inside(text: Seq<char>)
    requires
        request_value(text) is Ok,
    ensures
        body_writable((request_value(text)->Ok_0).request.body),
{
    let s = close_all(scan(lines(text))->Ok_0)->Ok_0;
    lemma_read_body(s.body, s.body_fields);
}

} // verus!
