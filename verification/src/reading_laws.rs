//! What reading the files of a workspace promises.
use crate::collection::{named_keys, named_of_fields};
use crate::conflict::{conflicts, scan, ConflictMarker, ConflictScan};
use crate::copy_laws::request_at;
use crate::document::{required_string, string_value, unsigned_value};
use crate::domain::{
    AuthenticationView, BodyView, FormFieldView, MultipartFieldView, MultipartValueView,
    RequestSettings, ValueSensitivity,
};
use crate::environment::{stored_value, SourceView};
use crate::error::WorkspaceErrorView;
use crate::files::Nodes;
use crate::flat::Fields;
use crate::lines::{ends_with, lines, starts_with};
use crate::manifest::manifest_of_fields;
use crate::paths::joined;
use crate::repository_listing::{
    all_entries, all_request_places, entries_at, entry_at, RequestEntryView,
};
use crate::request::{
    authentication_value, body_value, form_field_value, form_field_values, header_value,
    multipart_field_values,
};
use crate::request_reader::{request_of_scan, settings_value, ScanView};
use crate::text::split_all;
use vstd::prelude::*;

verus! {

/// Whether a line begins a conflict, parts its sides, or ends it.
pub open spec fn begins_conflict(line: Seq<char>) -> bool {
    starts_with(line, "<<<<<<< "@)
}

pub open spec fn parts_conflict(line: Seq<char>) -> bool {
    line == "======="@
}

pub open spec fn ends_conflict(line: Seq<char>) -> bool {
    starts_with(line, ">>>>>>> "@)
}

/// Whether the lines of a conflict are what they are called: it begins where a line begins one,
/// and its sides are parted and it ends where lines do so. Between where it begins and where it
/// ends, or the given line where it does not end, no other conflict begins and none ends; where
/// its sides are not parted, no line there parts any.
pub open spec fn is_conflict(list: Seq<Seq<char>>, m: ConflictMarker, until: int) -> bool {
    let stop = match m.end_line {
        Some(e) => e - 1,
        None => until,
    };
    &&& 1 <= m.start_line <= list.len()
    &&& begins_conflict(list[m.start_line - 1])
    &&& m.end_line matches Some(e) ==> m.start_line < e <= list.len() && ends_conflict(list[e - 1])
    &&& m.separator_line matches Some(s) ==> m.start_line < s <= list.len() && parts_conflict(
        list[s - 1],
    )
    &&& forall|k: int|
        m.start_line <= k < stop ==> !begins_conflict(#[trigger] list[k]) && !ends_conflict(list[k])
            && (m.separator_line is None ==> !parts_conflict(list[k]))
}

/// Whether a conflict is one of some lines: it ends, or goes on to where another begins or to
/// the last line.
pub open spec fn is_among(list: Seq<Seq<char>>, m: ConflictMarker) -> bool {
    exists|until: int|
        0 <= until <= list.len() && #[trigger] is_conflict(list, m, until) && (m.end_line is None
            ==> until == list.len() || begins_conflict(list[until]))
}

/// Whether a conflict is one of some lines and lines that follow cannot add to it.
spec fn settled(list: Seq<Seq<char>>, m: ConflictMarker) -> bool {
    exists|until: int|
        0 <= until <= list.len() && #[trigger] is_conflict(list, m, until) && (m.end_line is None
            ==> until < list.len() && begins_conflict(list[until]))
}

/// Whether the conflicts that were found in some lines are those that are there.
spec fn found_so_far(list: Seq<Seq<char>>, s: ConflictScan) -> bool {
    &&& forall|i: int| 0 <= i < s.closed.len() ==> settled(list, #[trigger] s.closed[i])
    &&& s.open matches Some(m) ==> m.end_line is None && is_conflict(list, m, list.len() as int)
    &&& forall|k: int|
        0 <= k < list.len() && begins_conflict(#[trigger] list[k]) ==> (exists|i: int|
            0 <= i < s.closed.len() && (#[trigger] s.closed[i]).start_line == k + 1) || (
        s.open matches Some(m) && m.start_line == k + 1)
}

proof fn lemma_still_conflict(list: Seq<Seq<char>>, more: Seq<Seq<char>>, m: ConflictMarker, until: int)
    requires
        is_conflict(list, m, until),
        until <= list.len(),
        list.len() <= more.len(),
        more.take(list.len() as int) == list,
    ensures
        is_conflict(more, m, until),
{
    assert forall|k: int| 0 <= k < list.len() implies more[k] == list[k] by {
        assert(more.take(list.len() as int)[k] == list[k]);
    }
}

proof fn lemma_markers_differ(line: Seq<char>)
    ensures
        begins_conflict(line) ==> !parts_conflict(line) && !ends_conflict(line),
        parts_conflict(line) ==> !ends_conflict(line),
{
    reveal_strlit("<<<<<<< ");
    reveal_strlit("=======");
    reveal_strlit(">>>>>>> ");
    if begins_conflict(line) {
        assert(line.take(8)[0] == '<');
    }
    if ends_conflict(line) {
        assert(line.take(8)[0] == '>');
    }
    if parts_conflict(line) {
        assert(line[0] == '=');
    }
}

proof fn lemma_found(list: Seq<Seq<char>>)
    requires
        list.len() <= usize::MAX,
    ensures
        found_so_far(list, scan(list)),
    decreases list.len(),
{
    if list.len() > 0 {
        let front = list.drop_last();
        lemma_found(front);
        let a = scan(front);
        let b = scan(list);
        let n = front.len() as int;
        let line = list.last();
        lemma_markers_differ(line);
        assert(list.take(n) =~= front);
        assert(list[n] == line);
        assert forall|i: int| 0 <= i < a.closed.len() implies settled(
            list,
            #[trigger] a.closed[i],
        ) by {
            assert(settled(front, a.closed[i]));
            let until = choose|until: int|
                0 <= until <= front.len() && #[trigger] is_conflict(front, a.closed[i], until) && (
                a.closed[i].end_line is None ==> until < front.len() && begins_conflict(
                    front[until],
                ));
            lemma_still_conflict(front, list, a.closed[i], until);
            assert(until < n ==> list[until] == front[until]);
        }
        if let Some(m) = a.open {
            lemma_still_conflict(front, list, m, n);
        }
        assert forall|i: int| 0 <= i < b.closed.len() implies settled(
            list,
            #[trigger] b.closed[i],
        ) by {
            if i < a.closed.len() {
                assert(b.closed[i] == a.closed[i]);
            } else {
                let m = a.open->Some_0;
                if begins_conflict(line) {
                    assert(b.closed[i] == m);
                    assert(is_conflict(list, b.closed[i], n));
                } else {
                    assert(is_conflict(list, b.closed[i], n));
                }
            }
        }
        if let Some(m) = b.open {
            if begins_conflict(line) {
                assert(is_conflict(list, m, list.len() as int));
            } else if parts_conflict(line) {
                let old = a.open->Some_0;
                assert(is_conflict(list, m, list.len() as int));
            } else {
                assert(m == a.open->Some_0);
                assert forall|k: int| m.start_line <= k < list.len() implies !begins_conflict(
                    #[trigger] list[k],
                ) && !ends_conflict(list[k]) && (m.separator_line is None ==> !parts_conflict(
                    list[k],
                )) by {
                    if k < n {
                        assert(front[k] == list[k]);
                    }
                }
                assert(is_conflict(list, m, list.len() as int));
            }
        }
        assert forall|k: int| 0 <= k < list.len() && begins_conflict(#[trigger] list[k]) implies (
        exists|i: int| 0 <= i < b.closed.len() && (#[trigger] b.closed[i]).start_line == k + 1) || (
        b.open matches Some(m) && m.start_line == k + 1) by {
            if k < n {
                assert(front[k] == list[k]);
                if exists|i: int|
                    0 <= i < a.closed.len() && (#[trigger] a.closed[i]).start_line == k + 1 {
                    let i = choose|i: int|
                        0 <= i < a.closed.len() && (#[trigger] a.closed[i]).start_line == k + 1;
                    assert(b.closed[i] == a.closed[i]);
                } else {
                    let m = a.open->Some_0;
                    if begins_conflict(line) || ends_conflict(line) {
                        assert(b.closed[a.closed.len() as int].start_line == k + 1);
                    }
                }
            }
        }
    }
}

/// The conflicts that are found in a text are those that are there: each begins, is parted and
/// ends on the lines that it names, and every line that begins a conflict is told of.
pub proof fn law_conflicts_are_found(content: Seq<char>)
    requires
        lines(content).len() <= usize::MAX,
    ensures
        forall|i: int|
            0 <= i < conflicts(content).len() ==> is_among(
                lines(content),
                #[trigger] conflicts(content)[i],
            ),
        forall|k: int|
            0 <= k < lines(content).len() && begins_conflict(#[trigger] lines(content)[k])
                ==> exists|i: int|
                0 <= i < conflicts(content).len() && (#[trigger] conflicts(content)[i]).start_line
                    == k + 1,
{
    let list = lines(content);
    lemma_found(list);
    let s = scan(list);
    let all = conflicts(content);
    assert forall|i: int| 0 <= i < all.len() implies is_among(list, #[trigger] all[i]) by {
        if i < s.closed.len() {
            assert(all[i] == s.closed[i]);
            assert(settled(list, s.closed[i]));
            let until = choose|until: int|
                0 <= until <= list.len() && #[trigger] is_conflict(list, s.closed[i], until) && (
                s.closed[i].end_line is None ==> until < list.len() && begins_conflict(
                    list[until],
                ));
            assert(is_conflict(list, all[i], until));
        } else {
            assert(is_conflict(list, all[i], list.len() as int));
        }
    }
    assert forall|k: int| 0 <= k < list.len() && begins_conflict(#[trigger] list[k]) implies exists|
        i: int,
    | 0 <= i < all.len() && (#[trigger] all[i]).start_line == k + 1 by {
        if exists|i: int| 0 <= i < s.closed.len() && (#[trigger] s.closed[i]).start_line == k + 1 {
            let i = choose|i: int|
                0 <= i < s.closed.len() && (#[trigger] s.closed[i]).start_line == k + 1;
            assert(all[i] == s.closed[i]);
        } else {
            assert(all[s.closed.len() as int].start_line == k + 1);
        }
    }
}

/// Whether an entry tells of the request at a place: where it stands, in which collection and
/// folders and under which name, and what the request there is.
pub open spec fn tells_of(
    nodes: Nodes,
    root: Seq<char>,
    place: Seq<char>,
    entry: RequestEntryView,
) -> bool {
    let names = split_all(place, '/');
    &&& entry.path == joined(root, place)
    &&& entry.relative_path == place
    &&& names.len() >= 3
    &&& entry.collection == names[1]
    &&& entry.folders.len() == names.len() - 3
    &&& forall|i: int| 0 <= i < entry.folders.len() ==> #[trigger] entry.folders[i] == names[i + 2]
    &&& names.last() == entry.slug + ".request.toml"@
    &&& request_at(nodes, root, place) matches Ok(d) && entry.id == d.value.request.id
        && entry.name == d.value.request.name && entry.method == d.value.request.method && entry.url
        == d.value.request.url
}

proof fn lemma_entries(nodes: Nodes, root: Seq<char>, places: Seq<Seq<char>>)
    requires
        entries_at(nodes, root, places) is Ok,
        forall|i: int|
            0 <= i < places.len() ==> ends_with(
                split_all(#[trigger] places[i], '/').last(),
                ".request.toml"@,
            ),
    ensures
        entries_at(nodes, root, places)->Ok_0.len() == places.len(),
        forall|i: int|
            0 <= i < places.len() ==> tells_of(
                nodes,
                root,
                #[trigger] places[i],
                (entries_at(nodes, root, places)->Ok_0)[i],
            ),
    decreases places.len(),
{
    if places.len() > 0 {
        let shorter = places.drop_last();
        assert forall|i: int| 0 <= i < shorter.len() implies ends_with(
            split_all(#[trigger] shorter[i], '/').last(),
            ".request.toml"@,
        ) by {
            assert(shorter[i] == places[i]);
        }
        lemma_entries(nodes, root, shorter);
        let place = places.last();
        assert(ends_with(split_all(places[places.len() - 1], '/').last(), ".request.toml"@));
        let front = entries_at(nodes, root, shorter)->Ok_0;
        let all = entries_at(nodes, root, places)->Ok_0;
        let entry = entry_at(nodes, root, place)->Ok_0;
        let name = split_all(place, '/').last();
        let end = ".request.toml"@;
        assert(name =~= name.take(name.len() - end.len()) + end) by {
            assert(name.skip(name.len() - end.len()) == end);
        }
        assert(tells_of(nodes, root, place, entry));
        assert forall|i: int| 0 <= i < places.len() implies tells_of(
            nodes,
            root,
            #[trigger] places[i],
            all[i],
        ) by {
            if i < shorter.len() {
                assert(shorter[i] == places[i]);
                assert(all[i] == front[i]);
            }
        }
    }
}

/// The list of requests tells of each request in turn, as it is read: its place, the collection
/// and the folders that it lies in, its identifier, name, method and url.
pub proof fn law_entries_tell_of_their_requests(nodes: Nodes, root: Seq<char>)
    requires
        all_entries(nodes, root) is Ok,
        forall|i: int|
            0 <= i < (all_request_places(nodes, root)->Ok_0).len() ==> ends_with(
                split_all(#[trigger] (all_request_places(nodes, root)->Ok_0)[i], '/').last(),
                ".request.toml"@,
            ),
    ensures
        (all_entries(nodes, root)->Ok_0).len() == (all_request_places(nodes, root)->Ok_0).len(),
        forall|i: int|
            0 <= i < (all_request_places(nodes, root)->Ok_0).len() ==> tells_of(
                nodes,
                root,
                #[trigger] (all_request_places(nodes, root)->Ok_0)[i],
                (all_entries(nodes, root)->Ok_0)[i],
            ),
{
    lemma_entries(nodes, root, all_request_places(nodes, root)->Ok_0);
}

/// Whether a number is what a field states, or the default where there is no such field.
pub open spec fn stated(m: Fields, key: Seq<char>, default: int, limit: int, value: int) -> bool {
    if m.dom().contains(key) {
        unsigned_value(m[key], limit, key) == Ok::<int, WorkspaceErrorView>(value)
    } else {
        value == default
    }
}

/// Whether a switch is what a field states; it is on where there is no such field.
pub open spec fn switched(m: Fields, key: Seq<char>, value: bool) -> bool {
    if m.dom().contains(key) {
        m[key] == (if value {
            "true"@
        } else {
            "false"@
        })
    } else {
        value
    }
}

/// The settings of a request are what its fields state. Where nothing is stated, a request may
/// take half a minute, ten seconds to connect and half a minute without an answer; an answer
/// may take up 64 MiB; ten redirects are followed; and certificates are verified.
pub proof fn law_settings_are_as_stated(m: Fields)
    ensures
        settings_value(m) matches Ok(s) ==> {
            &&& exists|t: int| #[trigger]
                stated(m, "timeout_ms"@, 30_000, u64::MAX as int, t) && s.timeout
                    == crate::domain::interval_of_millis(t)
            &&& exists|t: int| #[trigger]
                stated(m, "connection_timeout_ms"@, 10_000, u64::MAX as int, t)
                    && s.connection_timeout == crate::domain::interval_of_millis(t)
            &&& exists|t: int| #[trigger]
                stated(m, "idle_timeout_ms"@, 30_000, u64::MAX as int, t) && s.idle_timeout
                    == crate::domain::interval_of_millis(t)
            &&& stated(
                m,
                "maximum_response_bytes"@,
                67_108_864,
                u64::MAX as int,
                s.maximum_response_bytes as int,
            )
            &&& stated(
                m,
                "maximum_wire_response_bytes"@,
                67_108_864,
                u64::MAX as int,
                s.maximum_wire_response_bytes as int,
            )
            &&& stated(m, "redirect_limit"@, 10, u16::MAX as int, s.redirect_limit as int)
            &&& switched(m, "follow_redirects"@, s.follow_redirects)
            &&& switched(m, "verify_certificates"@, s.verify_certificates)
            &&& switched(m, "cookie_jar"@, s.cookie_jar)
            &&& switched(m, "decompress_response"@, s.decompress_response)
        },
{
    if let Ok(s) = settings_value(m) {
        lemma_unsigned_fits(m, "maximum_response_bytes"@, u64::MAX as int);
        lemma_unsigned_fits(m, "maximum_wire_response_bytes"@, u64::MAX as int);
        lemma_unsigned_fits(m, "redirect_limit"@, u16::MAX as int);
        let a = crate::document::optional_unsigned(m, "timeout_ms"@, 30_000, u64::MAX as int)->Ok_0;
        assert(stated(m, "timeout_ms"@, 30_000, u64::MAX as int, a));
        let b = crate::document::optional_unsigned(
            m,
            "connection_timeout_ms"@,
            10_000,
            u64::MAX as int,
        )->Ok_0;
        assert(stated(m, "connection_timeout_ms"@, 10_000, u64::MAX as int, b));
        let c = crate::document::optional_unsigned(
            m,
            "idle_timeout_ms"@,
            30_000,
            u64::MAX as int,
        )->Ok_0;
        assert(stated(m, "idle_timeout_ms"@, 30_000, u64::MAX as int, c));
    }
}

proof fn lemma_unsigned_fits(m: Fields, key: Seq<char>, limit: int)
    ensures
        m.dom().contains(key) ==> (unsigned_value(m[key], limit, key) matches Ok(n) ==> 0 <= n
            <= limit),
{
    if m.dom().contains(key) && unsigned_value(m[key], limit, key) is Ok {
        let digits = crate::number::unsigned_digits(m[key]);
        crate::number::lemma_digits_value_bounds(digits, digits.len() as int);
        assert(digits.take(digits.len() as int) =~= digits);
    }
}

/// A named value is what its section states: its name and its value have to be there, it is in
/// use and public unless something else is stated.
pub proof fn law_named_values_are_as_stated(m: Fields)
    ensures
        form_field_value(m) matches Ok(f) ==> as_stated(m, f),
        header_value(m) matches Ok(f) ==> as_stated(m, f),
{
}

/// Whether a named value is what a section states.
pub open spec fn as_stated(m: Fields, f: FormFieldView) -> bool {
    &&& m.dom().contains("name"@) && string_value(m["name"@]) == Ok::<
        Seq<char>,
        WorkspaceErrorView,
    >(f.name)
    &&& m.dom().contains("value"@) && string_value(m["value"@]) == Ok::<
        Seq<char>,
        WorkspaceErrorView,
    >(f.value)
    &&& switched(m, "enabled"@, f.enabled)
    &&& !m.dom().contains("sensitivity"@) ==> f.sensitivity is Public
    &&& m.dom().contains("sensitivity"@) ==> string_value(m["sensitivity"@]) == Ok::<
        Seq<char>,
        WorkspaceErrorView,
    >(
        match f.sensitivity {
            ValueSensitivity::Public => "public"@,
            ValueSensitivity::Sensitive => "sensitive"@,
            ValueSensitivity::Secret => "secret"@,
        },
    )
}

/// Whether a section states a text under a key.
pub open spec fn states(m: Fields, key: Seq<char>, text: Seq<char>) -> bool {
    m.dom().contains(key) && string_value(m[key]) == Ok::<Seq<char>, WorkspaceErrorView>(text)
}

/// Whether a section states a text under a key, or nothing where there is none.
pub open spec fn states_if_any(m: Fields, key: Seq<char>, text: Option<Seq<char>>) -> bool {
    match text {
        Some(t) => states(m, key, t),
        None => !m.dom().contains(key),
    }
}

/// Whether a section states a text under a key, which stands for another where it is missing.
pub open spec fn states_or(
    m: Fields,
    key: Seq<char>,
    default: Seq<char>,
    text: Seq<char>,
) -> bool {
    states(m, key, text) || !m.dom().contains(key) && text == default
}

/// The sender of a request is identified as its section states, with every credential under its
/// own key.
pub proof fn law_credentials_are_as_stated(m: Fields)
    ensures
        authentication_value(m) matches Ok(a) ==> match a {
            AuthenticationView::Anonymous => states_or(m, "kind"@, "none"@, "none"@),
            AuthenticationView::Basic { username, password } => states(m, "kind"@, "basic"@)
                && states(m, "username"@, username) && states(m, "password"@, password),
            AuthenticationView::Bearer { token } => states(m, "kind"@, "bearer"@) && states(
                m,
                "token"@,
                token,
            ),
            AuthenticationView::ApiKey { name, value, placement } => states(
                m,
                "kind"@,
                "api_key"@,
            ) && states(m, "name"@, name) && states(m, "value"@, value) && states(
                m,
                "placement"@,
                if placement is Header {
                    "header"@
                } else {
                    "query"@
                },
            ),
        },
{
    lemma_kinds_differ();
}

proof fn lemma_kinds_differ()
    ensures
        "none"@ != "basic"@,
        "none"@ != "bearer"@,
        "none"@ != "api_key"@,
        "empty"@.len() == 5,
        "text"@.len() == 4,
        "json"@[0] == 'j',
        "xml"@.len() == 3,
        "graphql"@.len() == 7,
        "binary_file"@[0] == 'b',
        "stream_file"@[0] == 's',
        "form_urlencoded"@.len() == 15,
        "multipart"@.len() == 9,
{
    reveal_strlit("none");
    reveal_strlit("basic");
    reveal_strlit("bearer");
    reveal_strlit("api_key");
    reveal_strlit("empty");
    reveal_strlit("text");
    reveal_strlit("json");
    reveal_strlit("xml");
    reveal_strlit("graphql");
    reveal_strlit("binary_file");
    reveal_strlit("stream_file");
    reveal_strlit("form_urlencoded");
    reveal_strlit("multipart");
    assert("none"@.len() == 4 && "basic"@.len() == 5 && "bearer"@.len() == 6 && "api_key"@.len()
        == 7);
}

/// Whether a field of a multipart body is what a section states.
pub open spec fn part_as_stated(m: Fields, f: MultipartFieldView) -> bool {
    &&& states(m, "name"@, f.name)
    &&& states_if_any(m, "content_type"@, f.content_type)
    &&& switched(m, "enabled"@, f.enabled)
    &&& match f.value {
        MultipartValueView::Text(text) => states(m, "value_kind"@, "text"@) && states(
            m,
            "value"@,
            text,
        ),
        MultipartValueView::File { relative_path } => states(m, "value_kind"@, "file"@) && states(
            m,
            "relative_path"@,
            relative_path,
        ),
    }
}

proof fn lemma_parts_as_stated(fields: Seq<Fields>)
    ensures
        multipart_field_values(fields) matches Ok(list) ==> list.len() == fields.len() && forall|
            i: int,
        |
            0 <= i < list.len() ==> part_as_stated(fields[i], #[trigger] list[i]),
    decreases fields.len(),
{
    if fields.len() > 0 {
        lemma_parts_as_stated(fields.drop_last());
    }
}

proof fn lemma_form_as_stated(fields: Seq<Fields>)
    ensures
        form_field_values(fields) matches Ok(list) ==> list.len() == fields.len() && forall|i: int|
            0 <= i < list.len() ==> as_stated(fields[i], #[trigger] list[i]),
    decreases fields.len(),
{
    if fields.len() > 0 {
        lemma_form_as_stated(fields.drop_last());
    }
}

/// What a request sends is what its section states, with every text under its own key, and
/// every field of a form what the section of that field states.
pub proof fn law_bodies_are_as_stated(m: Fields, fields: Seq<Fields>)
    ensures
        body_value(m, fields) matches Ok(b) ==> match b {
            BodyView::Empty => states_or(m, "kind"@, "empty"@, "empty"@),
            BodyView::Text { content_type, text } => states(m, "kind"@, "text"@) && states_if_any(
                m,
                "content_type"@,
                content_type,
            ) && states(m, "text"@, text),
            BodyView::Json(text) => states(m, "kind"@, "json"@) && states(m, "text"@, text),
            BodyView::Xml(text) => states(m, "kind"@, "xml"@) && states(m, "text"@, text),
            BodyView::GraphQl { query, variables_json, operation_name } => states(
                m,
                "kind"@,
                "graphql"@,
            ) && states(m, "query"@, query) && states_or(
                m,
                "variables_json"@,
                "{}"@,
                variables_json,
            ) && states_if_any(m, "operation_name"@, operation_name),
            BodyView::FormUrlEncoded(list) => states(m, "kind"@, "form_urlencoded"@) && list.len()
                == fields.len() && forall|i: int|
                0 <= i < list.len() ==> as_stated(fields[i], #[trigger] list[i]),
            BodyView::Multipart(list) => states(m, "kind"@, "multipart"@) && list.len()
                == fields.len() && forall|i: int|
                0 <= i < list.len() ==> part_as_stated(fields[i], #[trigger] list[i]),
            BodyView::BinaryFile { relative_path } => states(m, "kind"@, "binary_file"@) && states(
                m,
                "relative_path"@,
                relative_path,
            ),
            BodyView::StreamFile { relative_path } => states(m, "kind"@, "stream_file"@) && states(
                m,
                "relative_path"@,
                relative_path,
            ),
        },
{
    lemma_kinds_differ();
    lemma_form_as_stated(fields);
    lemma_parts_as_stated(fields);
}

/// A request is what the sections of its document state: its name, its method and its url under
/// their own keys, the named values in the order of their sections, and what is noted of it.
pub proof fn law_requests_are_as_stated(s: ScanView)
    ensures
        request_of_scan(s) matches Ok(d) ==> {
            &&& states(s.root, "id"@, d.request.id)
            &&& states(s.root, "name"@, d.request.name)
            &&& states(s.root, "method"@, crate::domain::method_text(d.request.method))
            &&& states(s.root, "url"@, d.request.url)
            &&& states_or(s.root, "documentation"@, seq![], d.request.documentation)
            &&& d.request.query == s.query
            &&& d.request.headers == s.headers
            &&& authentication_value(s.auth) == Ok::<AuthenticationView, WorkspaceErrorView>(
                d.request.authentication,
            )
            &&& body_value(s.body, s.body_fields) == Ok::<BodyView, WorkspaceErrorView>(
                d.request.body,
            )
            &&& settings_value(s.root) == Ok::<RequestSettings, WorkspaceErrorView>(
                d.request.settings,
            )
        },
{
    if let Ok(d) = request_of_scan(s) {
        let text = required_string(s.root, "method"@)->Ok_0;
        crate::domain::law_methods_are_called_as_they_are_written(text);
    }
}

/// A collection or a folder is what its document states: it is not archived unless that is
/// stated, and what the document states besides is kept.
pub proof fn law_collections_are_as_stated(m: Fields, id_key: Seq<char>)
    ensures
        named_of_fields(m, id_key) matches Ok(d) ==> {
            &&& states(m, id_key, d.id)
            &&& states(m, "name"@, d.name)
            &&& d.archived <==> m.dom().contains("archived"@) && m["archived"@] == "true"@
            &&& forall|key: Seq<char>| #[trigger]
                d.unknown_fields.dom().contains(key) <==> m.dom().contains(key) && key
                    != "schema_version"@ && key != id_key && key != "name"@ && key != "archived"@
            &&& forall|key: Seq<char>| #[trigger]
                d.unknown_fields.dom().contains(key) ==> d.unknown_fields[key] == m[key]
        },
{
    if let Ok(d) = named_of_fields(m, id_key) {
        let keys = named_keys(id_key);
        assert(keys[0] == "schema_version"@ && keys[1] == id_key && keys[2] == "name"@ && keys[3]
            == "archived"@);
        lemma_switch_words();
    }
}

proof fn lemma_switch_words()
    ensures
        "true"@ != "false"@,
{
    reveal_strlit("true");
    reveal_strlit("false");
    assert("true"@.len() != "false"@.len());
}

/// A manifest is what its document states: a workspace is not trusted unless that is stated.
pub proof fn law_manifests_are_as_stated(m: Fields)
    ensures
        manifest_of_fields(m) matches Ok(d) ==> {
            &&& states(m, "workspace_id"@, d.id)
            &&& states(m, "name"@, d.name)
            &&& states_if_any(m, "default_environment"@, d.default_environment)
            &&& states_or(
                m,
                "trust"@,
                "untrusted"@,
                if d.trust is Trusted {
                    "trusted"@
                } else {
                    "untrusted"@
                },
            )
        },
{
}

/// A variable is what its section states: it is in use unless something else is stated, and its
/// value comes from where the section says. A secret names its store and itself; a variable of
/// the process names that variable.
pub proof fn law_stored_variables_are_as_stated(m: Fields)
    ensures
        stored_value(m) matches Ok(v) ==> {
            &&& states(m, "name"@, v.name)
            &&& switched(m, "enabled"@, v.enabled)
            &&& states_if_any(m, "description"@, v.description)
            &&& m.dom().contains("sensitivity"@) ==> states(
                m,
                "sensitivity"@,
                match v.sensitivity {
                    ValueSensitivity::Public => "public"@,
                    ValueSensitivity::Sensitive => "sensitive"@,
                    ValueSensitivity::Secret => "secret"@,
                },
            )
            &&& match v.source {
                SourceView::Literal(value) => {
                    &&& states_or(m, "source"@, "literal"@, "literal"@)
                    &&& !(v.sensitivity is Secret)
                    &&& states_or(m, "value_kind"@, "string"@, "string"@) ==> value is String
                        && states(m, "value"@, value->String_0)
                    &&& states(m, "value_kind"@, "null"@) ==> value is Null
                    &&& states(m, "value_kind"@, "bool"@) ==> value is Bool && m["value"@] == (
                    if value->Bool_0 {
                        "true"@
                    } else {
                        "false"@
                    })
                    &&& states(m, "value_kind"@, "number"@) ==> value is Number
                },
                SourceView::Secret(secret) => {
                    &&& states(m, "source"@, "secret"@)
                    &&& v.sensitivity is Secret
                    &&& states(m, "secret_namespace"@, secret.namespace)
                    &&& states(m, "secret_name"@, secret.name)
                },
                SourceView::ProcessEnvironment { name } => states(
                    m,
                    "source"@,
                    "process_environment"@,
                ) && states(m, "environment_name"@, name),
            }
        },
{
    lemma_switch_words();
    reveal_strlit("null");
    reveal_strlit("bool");
    reveal_strlit("number");
    reveal_strlit("string");
    reveal_strlit("json");
    assert("null"@[0] == 'n' && "bool"@[0] == 'b' && "json"@[0] == 'j');
    assert("number"@[0] == 'n' && "number"@.len() == 6 && "string"@[0] == 's' && "null"@.len()
        == 4);
}

} // verus!
