//! Reading the document of a request: its lines, section by section.
use crate::document::{
    assignment, is_ignored_line, optional_bool, optional_unsigned, parse_assignment,
    parse_optional_bool, parse_optional_u16, parse_optional_u64, parse_required_string,
    parse_schema_version, required_string, schema_version_of,
};
use crate::domain::{
    domain_message, form_views, header_views, interval_of_millis, parse_method, FormField,
    FormFieldView, HeaderEntry, HttpMethod, HttpRequest, Interval, MethodView, RequestSettings,
    RequestView,
};
use crate::error::{invalid_format, outcome, WorkspaceError, WorkspaceErrorView};
use crate::flat::{names, remove_keys, without, Fields};
use crate::lines::{lines, split_lines};
use crate::manifest::{id_value, parse_id_field};
use crate::order::FieldMap;
use crate::request::{
    authentication_value, body_value, field_maps, form_field_value, header_value,
    parse_authentication, parse_body, parse_form_field, parse_header, request_keys, string_or,
    RequestDocument, RequestDocumentView,
};
use crate::text::{chars_of, same_chars, slices, trim, trim_chars};
use vstd::prelude::*;

verus! {

/// The part of a request that an assignment belongs to.
#[derive(Clone, Copy, Debug, PartialEq, Eq, Structural)]
pub enum Section {
    Root,
    Query,
    Header,
    Auth,
    Body,
    BodyField,
}

/// The section that a line opens.
pub open spec fn opened_section(line: Seq<char>) -> Option<Section> {
    if line == "[[query]]"@ {
        Some(Section::Query)
    } else if line == "[[headers]]"@ {
        Some(Section::Header)
    } else if line == "[auth]"@ {
        Some(Section::Auth)
    } else if line == "[body]"@ {
        Some(Section::Body)
    } else if line == "[[body.fields]]"@ {
        Some(Section::BodyField)
    } else {
        None
    }
}

fn section_opened(line: &[char]) -> (r: Option<Section>)
    ensures
        r == opened_section(line@),
{
    let query = chars_of("[[query]]");
    let headers = chars_of("[[headers]]");
    let auth = chars_of("[auth]");
    let body = chars_of("[body]");
    let field = chars_of("[[body.fields]]");
    if same_chars(line, query.as_slice()) {
        Some(Section::Query)
    } else if same_chars(line, headers.as_slice()) {
        Some(Section::Header)
    } else if same_chars(line, auth.as_slice()) {
        Some(Section::Auth)
    } else if same_chars(line, body.as_slice()) {
        Some(Section::Body)
    } else if same_chars(line, field.as_slice()) {
        Some(Section::BodyField)
    } else {
        None
    }
}

/// What the lines read so far have given.
#[verifier::ext_equal]
pub struct ScanView {
    pub root: Fields,
    pub query: Seq<FormFieldView>,
    pub headers: Seq<FormFieldView>,
    pub auth: Fields,
    pub body: Fields,
    pub body_fields: Seq<Fields>,
    pub current_query: Option<Fields>,
    pub current_header: Option<Fields>,
    pub current_body_field: Option<Fields>,
    pub section: Section,
}

/// Nothing read yet.
pub open spec fn scan_start() -> ScanView {
    ScanView {
        root: Fields::empty(),
        query: seq![],
        headers: seq![],
        auth: Fields::empty(),
        body: Fields::empty(),
        body_fields: seq![],
        current_query: None,
        current_header: None,
        current_body_field: None,
        section: Section::Root,
    }
}

/// The section of a body field, if one is open, is complete.
pub open spec fn close_body_field(s: ScanView) -> ScanView {
    match s.current_body_field {
        Some(m) => ScanView {
            body_fields: s.body_fields.push(m),
            current_body_field: None,
            ..s
        },
        None => s,
    }
}

/// The section of a query parameter, if one is open, is complete.
pub open spec fn close_query(s: ScanView) -> Result<ScanView, WorkspaceErrorView> {
    match s.current_query {
        Some(m) => match form_field_value(m) {
            Ok(f) => Ok(ScanView { query: s.query.push(f), current_query: None, ..s }),
            Err(e) => Err(e),
        },
        None => Ok(s),
    }
}

/// The section of a header, if one is open, is complete.
pub open spec fn close_header(s: ScanView) -> Result<ScanView, WorkspaceErrorView> {
    match s.current_header {
        Some(m) => match header_value(m) {
            Ok(f) => Ok(ScanView { headers: s.headers.push(f), current_header: None, ..s }),
            Err(e) => Err(e),
        },
        None => Ok(s),
    }
}

/// Every open section is complete.
pub open spec fn close_all(s: ScanView) -> Result<ScanView, WorkspaceErrorView> {
    match close_query(close_body_field(s)) {
        Err(e) => Err(e),
        Ok(t) => close_header(t),
    }
}

/// A section begins.
pub open spec fn open_section(s: ScanView, section: Section) -> Result<ScanView, WorkspaceErrorView> {
    match section {
        Section::BodyField => Ok(
            ScanView {
                current_body_field: Some(Fields::empty()),
                section,
                ..close_body_field(s)
            },
        ),
        _ => match close_all(s) {
            Err(e) => Err(e),
            Ok(t) => Ok(
                ScanView {
                    current_query: if section == Section::Query {
                        Some(Fields::empty())
                    } else {
                        t.current_query
                    },
                    current_header: if section == Section::Header {
                        Some(Fields::empty())
                    } else {
                        t.current_header
                    },
                    section,
                    ..t
                },
            ),
        },
    }
}

/// A value is assigned in the section that is open.
pub open spec fn assign(s: ScanView, key: Seq<char>, value: Seq<char>) -> Result<
    ScanView,
    WorkspaceErrorView,
> {
    match s.section {
        Section::Root => Ok(ScanView { root: s.root.insert(key, value), ..s }),
        Section::Query => match s.current_query {
            Some(m) => Ok(ScanView { current_query: Some(m.insert(key, value)), ..s }),
            None => Err(WorkspaceErrorView::InvalidFormat("query section missing"@)),
        },
        Section::Header => match s.current_header {
            Some(m) => Ok(ScanView { current_header: Some(m.insert(key, value)), ..s }),
            None => Err(WorkspaceErrorView::InvalidFormat("header section missing"@)),
        },
        Section::Auth => Ok(ScanView { auth: s.auth.insert(key, value), ..s }),
        Section::Body => Ok(ScanView { body: s.body.insert(key, value), ..s }),
        Section::BodyField => match s.current_body_field {
            Some(m) => Ok(ScanView { current_body_field: Some(m.insert(key, value)), ..s }),
            None => Err(WorkspaceErrorView::InvalidFormat("body field section missing"@)),
        },
    }
}

/// One more line is read.
pub open spec fn scan_line(s: ScanView, raw: Seq<char>, number: nat) -> Result<
    ScanView,
    WorkspaceErrorView,
> {
    let line = trim(raw);
    if is_ignored_line(line) {
        Ok(s)
    } else {
        match opened_section(line) {
            Some(section) => open_section(s, section),
            None => match assignment(line, number) {
                Err(e) => Err(e),
                Ok((key, value)) => assign(s, key, value),
            },
        }
    }
}

/// What some lines give.
pub open spec fn scan(list: Seq<Seq<char>>) -> Result<ScanView, WorkspaceErrorView>
    decreases list.len(),
{
    if list.len() == 0 {
        Ok(scan_start())
    } else {
        match scan(list.drop_last()) {
            Err(e) => Err(e),
            Ok(s) => scan_line(s, list.last(), list.len()),
        }
    }
}

proof fn lemma_scan_error(list: Seq<Seq<char>>, k: int)
    requires
        0 <= k <= list.len(),
        scan(list.take(k)) is Err,
    ensures
        scan(list) == scan(list.take(k)),
    decreases list.len() - k,
{
    if k < list.len() {
        assert(list.take(k + 1).drop_last() =~= list.take(k));
        lemma_scan_error(list, k + 1);
    } else {
        assert(list.take(k) =~= list);
    }
}

/// What the lines read so far have given.
pub struct RequestScan {
    root: FieldMap,
    query: Vec<FormField>,
    headers: Vec<HeaderEntry>,
    auth: FieldMap,
    body: FieldMap,
    body_fields: Vec<FieldMap>,
    current_query: Option<FieldMap>,
    current_header: Option<FieldMap>,
    current_body_field: Option<FieldMap>,
    section: Section,
}

/// The fields of an optional map.
pub open spec fn optional_fields(m: Option<FieldMap>) -> Option<Fields> {
    match m {
        Some(f) => Some(f@),
        None => None,
    }
}

impl View for RequestScan {
    type V = ScanView;

    closed spec fn view(&self) -> ScanView {
        ScanView {
            root: self.root@,
            query: form_views(self.query@),
            headers: header_views(self.headers@),
            auth: self.auth@,
            body: self.body@,
            body_fields: field_maps(self.body_fields@),
            current_query: optional_fields(self.current_query),
            current_header: optional_fields(self.current_header),
            current_body_field: optional_fields(self.current_body_field),
            section: self.section,
        }
    }
}

impl RequestScan {
    closed spec fn wf(&self) -> bool {
        &&& self.root.wf()
        &&& self.auth.wf()
        &&& self.body.wf()
        &&& forall|i: int| 0 <= i < self.body_fields@.len() ==> (#[trigger] self.body_fields@[i]).wf()
        &&& self.current_query matches Some(m) ==> m.wf()
        &&& self.current_header matches Some(m) ==> m.wf()
        &&& self.current_body_field matches Some(m) ==> m.wf()
    }

    fn new() -> (r: RequestScan)
        ensures
            r.wf(),
            r@ == scan_start(),
    {
        let r = RequestScan {
            root: FieldMap::new(),
            query: Vec::new(),
            headers: Vec::new(),
            auth: FieldMap::new(),
            body: FieldMap::new(),
            body_fields: Vec::new(),
            current_query: None,
            current_header: None,
            current_body_field: None,
            section: Section::Root,
        };
        assert(r@ =~= scan_start());
        r
    }

    fn close_body_field(&mut self)
        requires
            old(self).wf(),
        ensures
            final(self).wf(),
            final(self)@ == close_body_field(old(self)@),
    {
        let ghost before = *self;
        if let Some(m) = self.current_body_field.take() {
            let ghost fields = self.body_fields@;
            self.body_fields.push(m);
            assert(field_maps(self.body_fields@) =~= field_maps(fields).push(m@));
        }
        assert(self@ =~= close_body_field(before@));
    }

    fn close_query(&mut self) -> (r: Result<(), WorkspaceError>)
        requires
            old(self).wf(),
        ensures
            match r {
                Ok(_) => final(self).wf() && close_query(old(self)@) == Ok::<
                    ScanView,
                    WorkspaceErrorView,
                >(final(self)@),
                Err(e) => close_query(old(self)@) == Err::<ScanView, WorkspaceErrorView>(e@),
            },
    {
        let ghost before = *self;
        if let Some(m) = self.current_query.take() {
            match parse_form_field(&m) {
                Ok(f) => {
                    let ghost fields = self.query@;
                    self.query.push(f);
                    assert(form_views(self.query@) =~= form_views(fields).push(f@));
                },
                Err(e) => {
                    return Err(e);
                },
            }
            assert(self@ =~= close_query(before@)->Ok_0);
        }
        Ok(())
    }

    fn close_header(&mut self) -> (r: Result<(), WorkspaceError>)
        requires
            old(self).wf(),
        ensures
            match r {
                Ok(_) => final(self).wf() && close_header(old(self)@) == Ok::<
                    ScanView,
                    WorkspaceErrorView,
                >(final(self)@),
                Err(e) => close_header(old(self)@) == Err::<ScanView, WorkspaceErrorView>(e@),
            },
    {
        let ghost before = *self;
        if let Some(m) = self.current_header.take() {
            match parse_header(&m) {
                Ok(f) => {
                    let ghost fields = self.headers@;
                    self.headers.push(f);
                    assert(header_views(self.headers@) =~= header_views(fields).push(f@));
                },
                Err(e) => {
                    return Err(e);
                },
            }
            assert(self@ =~= close_header(before@)->Ok_0);
        }
        Ok(())
    }

    fn close_all(&mut self) -> (r: Result<(), WorkspaceError>)
        requires
            old(self).wf(),
        ensures
            match r {
                Ok(_) => final(self).wf() && close_all(old(self)@) == Ok::<
                    ScanView,
                    WorkspaceErrorView,
                >(final(self)@),
                Err(e) => close_all(old(self)@) == Err::<ScanView, WorkspaceErrorView>(e@),
            },
    {
        self.close_body_field();
        match self.close_query() {
            Ok(_) => self.close_header(),
            Err(e) => Err(e),
        }
    }

    fn open_section(&mut self, section: Section) -> (r: Result<(), WorkspaceError>)
        requires
            old(self).wf(),
        ensures
            match r {
                Ok(_) => final(self).wf() && open_section(old(self)@, section) == Ok::<
                    ScanView,
                    WorkspaceErrorView,
                >(final(self)@),
                Err(e) => open_section(old(self)@, section) == Err::<ScanView, WorkspaceErrorView>(
                    e@,
                ),
            },
    {
        let ghost before = self@;
        if let Section::BodyField = section {
            self.close_body_field();
            self.current_body_field = Some(FieldMap::new());
            self.section = section;
            assert(self@ =~= open_section(before, section)->Ok_0);
            return Ok(());
        }
        if let Err(e) = self.close_all() {
            return Err(e);
        }
        match section {
            Section::Query => {
                self.current_query = Some(FieldMap::new());
            },
            Section::Header => {
                self.current_header = Some(FieldMap::new());
            },
            _ => {},
        }
        self.section = section;
        assert(self@ =~= open_section(before, section)->Ok_0);
        Ok(())
    }

    fn assign(&mut self, key: String, value: String) -> (r: Result<(), WorkspaceError>)
        requires
            old(self).wf(),
        ensures
            match r {
                Ok(_) => final(self).wf() && assign(old(self)@, key@, value@) == Ok::<
                    ScanView,
                    WorkspaceErrorView,
                >(final(self)@),
                Err(e) => assign(old(self)@, key@, value@) == Err::<ScanView, WorkspaceErrorView>(
                    e@,
                ),
            },
    {
        let ghost before = self@;
        let ghost k = key@;
        let ghost v = value@;
        match self.section {
            Section::Root => {
                self.root.insert(key, value);
            },
            Section::Query => match self.current_query.take() {
                Some(mut m) => {
                    m.insert(key, value);
                    self.current_query = Some(m);
                },
                None => {
                    return Err(invalid_format("query section missing"));
                },
            },
            Section::Header => match self.current_header.take() {
                Some(mut m) => {
                    m.insert(key, value);
                    self.current_header = Some(m);
                },
                None => {
                    return Err(invalid_format("header section missing"));
                },
            },
            Section::Auth => {
                self.auth.insert(key, value);
            },
            Section::Body => {
                self.body.insert(key, value);
            },
            Section::BodyField => match self.current_body_field.take() {
                Some(mut m) => {
                    m.insert(key, value);
                    self.current_body_field = Some(m);
                },
                None => {
                    return Err(invalid_format("body field section missing"));
                },
            },
        }
        assert(self@ =~= assign(before, k, v)->Ok_0);
        Ok(())
    }
}

fn scan_lines(list: &[&[char]]) -> (r: Result<RequestScan, WorkspaceError>)
    ensures
        match r {
            Ok(s) => s.wf() && scan(slices(list@)) == Ok::<ScanView, WorkspaceErrorView>(s@),
            Err(e) => scan(slices(list@)) == Err::<ScanView, WorkspaceErrorView>(e@),
        },
{
    let ghost all = slices(list@);
    let mut s = RequestScan::new();
    assert(scan(all.take(0)) == Ok::<ScanView, WorkspaceErrorView>(s@));
    for i in 0..list.len()
        invariant
            all == slices(list@),
            s.wf(),
            scan(all.take(i as int)) == Ok::<ScanView, WorkspaceErrorView>(s@),
    {
        assert(all.take(i + 1).drop_last() =~= all.take(i as int));
        assert(all.take(i + 1).last() == list@[i as int]@);
        let line = trim_chars(list[i]);
        if line.len() > 0 && line[0] != '#' {
            let step = match section_opened(line) {
                Some(section) => s.open_section(section),
                None => match parse_assignment(line, i + 1) {
                    Ok((key, value)) => s.assign(key, value),
                    Err(e) => Err(e),
                },
            };
            if let Err(e) = step {
                proof {
                    lemma_scan_error(all, i + 1);
                }
                return Err(e);
            }
        }
    }
    assert(all.take(all.len() as int) =~= all);
    Ok(s)
}

/// The span of time under a key, in milliseconds.
pub open spec fn duration_value(m: Fields, key: Seq<char>, default: int) -> Result<
    Interval,
    WorkspaceErrorView,
> {
    match optional_unsigned(m, key, default, u64::MAX as int) {
        Ok(n) => Ok(interval_of_millis(n)),
        Err(e) => Err(e),
    }
}

/// Reads a span of time in milliseconds.
pub fn duration_ms(values: &FieldMap, key: &str, default: u64) -> (r: Result<
    Interval,
    WorkspaceError,
>)
    requires
        values.wf(),
    ensures
        match r {
            Ok(t) => duration_value(values@, key@, default as int) == Ok::<
                Interval,
                WorkspaceErrorView,
            >(t),
            Err(e) => duration_value(values@, key@, default as int) == Err::<
                Interval,
                WorkspaceErrorView,
            >(e@),
        },
{
    match parse_optional_u64(values, key, default) {
        Ok(n) => Ok(Interval::from_millis(n)),
        Err(e) => Err(e),
    }
}

/// The settings that the fields of a request state.
pub open spec fn settings_value(m: Fields) -> Result<RequestSettings, WorkspaceErrorView> {
    match duration_value(m, "timeout_ms"@, 30_000) {
        Err(e) => Err(e),
        Ok(timeout) => match duration_value(m, "connection_timeout_ms"@, 10_000) {
            Err(e) => Err(e),
            Ok(connection_timeout) => match duration_value(m, "idle_timeout_ms"@, 30_000) {
                Err(e) => Err(e),
                Ok(idle_timeout) => match limits_value(m) {
                    Err(e) => Err(e),
                    Ok((response, wire, redirects)) => match switches_value(m) {
                        Err(e) => Err(e),
                        Ok((follow, verify, cookies, decompress)) => Ok(
                            RequestSettings {
                                timeout,
                                connection_timeout,
                                idle_timeout,
                                maximum_response_bytes: response,
                                maximum_wire_response_bytes: wire,
                                redirect_limit: redirects,
                                follow_redirects: follow,
                                verify_certificates: verify,
                                cookie_jar: cookies,
                                decompress_response: decompress,
                            },
                        ),
                    },
                },
            },
        },
    }
}

/// The limits that the fields of a request state.
pub open spec fn limits_value(m: Fields) -> Result<(u64, u64, u16), WorkspaceErrorView> {
    match optional_unsigned(m, "maximum_response_bytes"@, 67_108_864, u64::MAX as int) {
        Err(e) => Err(e),
        Ok(response) => match optional_unsigned(
            m,
            "maximum_wire_response_bytes"@,
            67_108_864,
            u64::MAX as int,
        ) {
            Err(e) => Err(e),
            Ok(wire) => match optional_unsigned(m, "redirect_limit"@, 10, u16::MAX as int) {
                Err(e) => Err(e),
                Ok(redirects) => Ok((response as u64, wire as u64, redirects as u16)),
            },
        },
    }
}

/// The switches that the fields of a request state.
pub open spec fn switches_value(m: Fields) -> Result<(bool, bool, bool, bool), WorkspaceErrorView> {
    match optional_bool(m, "follow_redirects"@, true) {
        Err(e) => Err(e),
        Ok(follow) => match optional_bool(m, "verify_certificates"@, true) {
            Err(e) => Err(e),
            Ok(verify) => match optional_bool(m, "cookie_jar"@, true) {
                Err(e) => Err(e),
                Ok(cookies) => match optional_bool(m, "decompress_response"@, true) {
                    Err(e) => Err(e),
                    Ok(decompress) => Ok((follow, verify, cookies, decompress)),
                },
            },
        },
    }
}

fn parse_settings(values: &FieldMap) -> (r: Result<RequestSettings, WorkspaceError>)
    requires
        values.wf(),
    ensures
        match r {
            Ok(s) => settings_value(values@) == Ok::<RequestSettings, WorkspaceErrorView>(s),
            Err(e) => settings_value(values@) == Err::<RequestSettings, WorkspaceErrorView>(e@),
        },
{
    let timeout = match duration_ms(values, "timeout_ms", 30_000) {
        Ok(v) => v,
        Err(e) => {
            return Err(e);
        },
    };
    let connection_timeout = match duration_ms(values, "connection_timeout_ms", 10_000) {
        Ok(v) => v,
        Err(e) => {
            return Err(e);
        },
    };
    let idle_timeout = match duration_ms(values, "idle_timeout_ms", 30_000) {
        Ok(v) => v,
        Err(e) => {
            return Err(e);
        },
    };
    let maximum_response_bytes: u64 = match parse_optional_u64(
        values,
        "maximum_response_bytes",
        67_108_864,
    ) {
        Ok(v) => v,
        Err(e) => {
            return Err(e);
        },
    };
    let maximum_wire_response_bytes: u64 = match parse_optional_u64(
        values,
        "maximum_wire_response_bytes",
        67_108_864,
    ) {
        Ok(v) => v,
        Err(e) => {
            return Err(e);
        },
    };
    let redirect_limit: u16 = match parse_optional_u16(values, "redirect_limit", 10) {
        Ok(v) => v,
        Err(e) => {
            return Err(e);
        },
    };
    let follow_redirects = match parse_optional_bool(values, "follow_redirects", true) {
        Ok(v) => v,
        Err(e) => {
            return Err(e);
        },
    };
    let verify_certificates = match parse_optional_bool(values, "verify_certificates", true) {
        Ok(v) => v,
        Err(e) => {
            return Err(e);
        },
    };
    let cookie_jar = match parse_optional_bool(values, "cookie_jar", true) {
        Ok(v) => v,
        Err(e) => {
            return Err(e);
        },
    };
    let decompress_response = match parse_optional_bool(values, "decompress_response", true) {
        Ok(v) => v,
        Err(e) => {
            return Err(e);
        },
    };
    Ok(
        RequestSettings {
            timeout,
            connection_timeout,
            idle_timeout,
            maximum_response_bytes,
            maximum_wire_response_bytes,
            redirect_limit,
            follow_redirects,
            verify_certificates,
            cookie_jar,
            decompress_response,
        },
    )
}

/// The method that the fields of a request state.
pub open spec fn method_value(m: Fields) -> Result<MethodView, WorkspaceErrorView> {
    match required_string(m, "method"@) {
        Err(e) => Err(e),
        Ok(text) => match parse_method(text) {
            Ok(method) => Ok(method),
            Err(e) => Err(WorkspaceErrorView::InvalidFormat(domain_message(e))),
        },
    }
}

fn parse_method_field(values: &FieldMap) -> (r: Result<HttpMethod, WorkspaceError>)
    requires
        values.wf(),
    ensures
        outcome(r) == method_value(values@),
{
    match parse_required_string(values, "method") {
        Err(e) => Err(e),
        Ok(text) => match HttpMethod::parse(text.as_str()) {
            Ok(method) => Ok(method),
            Err(e) => Err(WorkspaceError::InvalidFormat(e.message())),
        },
    }
}

/// The request that complete sections describe.
pub open spec fn request_of_scan(s: ScanView) -> Result<RequestDocumentView, WorkspaceErrorView> {
    match schema_version_of(s.root) {
        Err(e) => Err(e),
        Ok(schema_version) => match id_value(s.root, "id"@) {
            Err(e) => Err(e),
            Ok(id) => match required_string(s.root, "name"@) {
                Err(e) => Err(e),
                Ok(name) => match method_value(s.root) {
                    Err(e) => Err(e),
                    Ok(method) => match required_string(s.root, "url"@) {
                        Err(e) => Err(e),
                        Ok(url) => match settings_value(s.root) {
                            Err(e) => Err(e),
                            Ok(settings) => match string_or(s.root, "documentation"@, seq![]) {
                                Err(e) => Err(e),
                                Ok(documentation) => match authentication_value(s.auth) {
                                    Err(e) => Err(e),
                                    Ok(authentication) => match body_value(s.body, s.body_fields) {
                                        Err(e) => Err(e),
                                        Ok(body) => Ok(
                                            RequestDocumentView {
                                                schema_version,
                                                request: RequestView {
                                                    id,
                                                    name,
                                                    method,
                                                    url,
                                                    query: s.query,
                                                    headers: s.headers,
                                                    authentication,
                                                    body,
                                                    settings,
                                                    documentation,
                                                },
                                                unknown_fields: without(s.root, request_keys()),
                                            },
                                        ),
                                    },
                                },
                            },
                        },
                    },
                },
            },
        },
    }
}

/// The request that a text describes.
pub open spec fn request_value(text: Seq<char>) -> Result<RequestDocumentView, WorkspaceErrorView> {
    match scan(lines(text)) {
        Err(e) => Err(e),
        Ok(s) => match close_all(s) {
            Err(e) => Err(e),
            Ok(t) => request_of_scan(t),
        },
    }
}

/// Reads a request.
pub fn parse_request(input: &str) -> (r: Result<RequestDocument, WorkspaceError>)
    ensures
        outcome(r) == request_value(input@),
        r matches Ok(d) ==> d.wf(),
{
    let chars = chars_of(input);
    let list = split_lines(chars.as_slice());
    let mut s = match scan_lines(list.as_slice()) {
        Ok(s) => s,
        Err(e) => {
            return Err(e);
        },
    };
    if let Err(e) = s.close_all() {
        return Err(e);
    }
    let schema_version = match parse_schema_version(&s.root) {
        Ok(v) => v,
        Err(e) => {
            return Err(e);
        },
    };
    let id = match parse_id_field(&s.root, "id") {
        Ok(v) => v,
        Err(e) => {
            return Err(e);
        },
    };
    let name = match parse_required_string(&s.root, "name") {
        Ok(v) => v,
        Err(e) => {
            return Err(e);
        },
    };
    let method = match parse_method_field(&s.root) {
        Ok(v) => v,
        Err(e) => {
            return Err(e);
        },
    };
    let url = match parse_required_string(&s.root, "url") {
        Ok(v) => v,
        Err(e) => {
            return Err(e);
        },
    };
    let settings = match parse_settings(&s.root) {
        Ok(v) => v,
        Err(e) => {
            return Err(e);
        },
    };
    let documentation = match crate::document::parse_optional_string(&s.root, "documentation") {
        Ok(Some(text)) => text,
        Ok(None) => String::new(),
        Err(e) => {
            return Err(e);
        },
    };
    let authentication = match parse_authentication(&s.auth) {
        Ok(v) => v,
        Err(e) => {
            return Err(e);
        },
    };
    let body = match parse_body(&s.body, s.body_fields.as_slice()) {
        Ok(v) => v,
        Err(e) => {
            return Err(e);
        },
    };
    let mut unknown_fields = s.root;
    let keys = [
        "schema_version",
        "id",
        "name",
        "method",
        "url",
        "timeout_ms",
        "connection_timeout_ms",
        "idle_timeout_ms",
        "maximum_response_bytes",
        "maximum_wire_response_bytes",
        "redirect_limit",
        "follow_redirects",
        "verify_certificates",
        "cookie_jar",
        "decompress_response",
        "documentation",
    ];
    remove_keys(&mut unknown_fields, keys.as_slice());
    assert(names(keys@) =~= request_keys());
    Ok(
        RequestDocument {
            schema_version,
            request: HttpRequest {
                id,
                name,
                method,
                url,
                query: s.query,
                headers: s.headers,
                authentication,
                body,
                settings,
                documentation,
            },
            unknown_fields,
        },
    )
}

} // verus!
