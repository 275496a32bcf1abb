//! The document of a request.
use crate::document::{
    bool_text, optional_bool, optional_string, parse_optional_bool, parse_optional_string,
    parse_required_string, parse_string, quote, quoted, required_string, show_bool, string_value,
    CURRENT_SCHEMA_VERSION,
};
use crate::domain::{
    authentication_kind, body_kind, domain_message, form_views, header_check, header_views,
    method_text, multipart_views, named_sensitivity, sensitivity_name, sensitivity_named,
    sensitivity_text, ApiKeyPlacement, Authentication, AuthenticationView, BodyView, FormField,
    FormFieldView, HeaderEntry, HttpRequest, MultipartField, MultipartFieldView, MultipartValue,
    MultipartValueView, RequestBody, RequestView, ValueSensitivity,
};
use crate::error::{outcome, WorkspaceError, WorkspaceErrorView};
use crate::flat::{append_unknown_fields, field_lines, names, unknown_lines, Assignments, Fields};
use crate::lines::{contains_piece, has_piece, lines, unlines, LineWriter};
use crate::message::{concat2, concat3};
use crate::number::{decimal, decimal_text, wide_decimal_text};
use crate::order::FieldMap;
use crate::paths::{climbs, components, path_climbs, path_components};
use crate::text::{chars_of, same_text};
use vstd::prelude::*;

verus! {

/// A request as it is kept in a workspace.
#[derive(Clone, Debug, PartialEq, Eq)]
pub struct RequestDocument {
    pub schema_version: u32,
    pub request: HttpRequest,
    pub unknown_fields: FieldMap,
}

/// A request as it is kept in a workspace, by its contents.
#[verifier::ext_equal]
pub struct RequestDocumentView {
    pub schema_version: u32,
    pub request: RequestView,
    pub unknown_fields: Fields,
}

impl View for RequestDocument {
    type V = RequestDocumentView;

    open spec fn view(&self) -> RequestDocumentView {
        RequestDocumentView {
            schema_version: self.schema_version,
            request: self.request@,
            unknown_fields: self.unknown_fields@,
        }
    }
}

impl RequestDocument {
    /// Whether the preserved fields are in order.
    pub open spec fn wf(&self) -> bool {
        self.unknown_fields.wf()
    }

    /// The document of a request, with nothing to preserve.
    pub fn new(request: HttpRequest) -> (r: RequestDocument)
        ensures
            r.wf(),
            r@ == (RequestDocumentView {
                schema_version: CURRENT_SCHEMA_VERSION,
                request: request@,
                unknown_fields: Fields::empty(),
            }),
    {
        RequestDocument {
            schema_version: CURRENT_SCHEMA_VERSION,
            request,
            unknown_fields: FieldMap::new(),
        }
    }
}

/// The keys of a request outside its sections.
pub open spec fn request_keys() -> Seq<Seq<char>> {
    seq![
        "schema_version"@,
        "id"@,
        "name"@,
        "method"@,
        "url"@,
        "timeout_ms"@,
        "connection_timeout_ms"@,
        "idle_timeout_ms"@,
        "maximum_response_bytes"@,
        "maximum_wire_response_bytes"@,
        "redirect_limit"@,
        "follow_redirects"@,
        "verify_certificates"@,
        "cookie_jar"@,
        "decompress_response"@,
        "documentation"@,
    ]
}

/// What the lines before the sections of a request assign, besides preserved
/// fields.
pub open spec fn root_assignments(d: RequestDocumentView) -> Assignments {
    let r = d.request;
    let s = r.settings;
    let head = seq![
        ("schema_version"@, decimal(d.schema_version as nat)),
        ("id"@, quoted(r.id)),
        ("name"@, quoted(r.name)),
        ("method"@, quoted(method_text(r.method))),
        ("url"@, quoted(r.url)),
        ("timeout_ms"@, decimal(s.timeout.millis())),
        ("connection_timeout_ms"@, decimal(s.connection_timeout.millis())),
        ("idle_timeout_ms"@, decimal(s.idle_timeout.millis())),
        ("maximum_response_bytes"@, decimal(s.maximum_response_bytes as nat)),
        ("maximum_wire_response_bytes"@, decimal(s.maximum_wire_response_bytes as nat)),
        ("redirect_limit"@, decimal(s.redirect_limit as nat)),
        ("follow_redirects"@, bool_text(s.follow_redirects)),
        ("verify_certificates"@, bool_text(s.verify_certificates)),
        ("cookie_jar"@, bool_text(s.cookie_jar)),
        ("decompress_response"@, bool_text(s.decompress_response)),
    ];
    if r.documentation.len() > 0 {
        head.push(("documentation"@, quoted(r.documentation)))
    } else {
        head
    }
}

/// An empty line, the line that opens a section, and the assignments of it.
pub open spec fn block(header: Seq<char>, list: Assignments) -> Seq<Seq<char>> {
    seq![seq![], header] + field_lines(list)
}

/// What the section of a named value or of a header assigns.
pub open spec fn form_assignments(f: FormFieldView) -> Assignments {
    seq![
        ("name"@, quoted(f.name)),
        ("value"@, quoted(f.value)),
        ("enabled"@, bool_text(f.enabled)),
        ("sensitivity"@, quoted(sensitivity_text(f.sensitivity))),
    ]
}

/// The sections of named values or of headers.
pub open spec fn form_blocks(header: Seq<char>, list: Seq<FormFieldView>) -> Seq<Seq<char>>
    decreases list.len(),
{
    if list.len() == 0 {
        seq![]
    } else {
        form_blocks(header, list.drop_last()) + block(header, form_assignments(list.last()))
    }
}

/// The name of the place of an API key.
pub open spec fn placement_text(p: ApiKeyPlacement) -> Seq<char> {
    match p {
        ApiKeyPlacement::Header => "header"@,
        ApiKeyPlacement::Query => "query"@,
    }
}

/// What the section of the authentication assigns.
pub open spec fn authentication_assignments(a: AuthenticationView) -> Assignments {
    let kind = seq![("kind"@, quoted(authentication_kind(a)))];
    match a {
        AuthenticationView::Anonymous => kind,
        AuthenticationView::Basic { username, password } => kind + seq![
            ("username"@, quoted(username)),
            ("password"@, quoted(password)),
        ],
        AuthenticationView::Bearer { token } => kind + seq![("token"@, quoted(token))],
        AuthenticationView::ApiKey { name, value, placement } => kind + seq![
            ("name"@, quoted(name)),
            ("value"@, quoted(value)),
            ("placement"@, quoted(placement_text(placement))),
        ],
    }
}

/// An assignment of an optional text.
pub open spec fn optional_assignment(key: Seq<char>, value: Option<Seq<char>>) -> Assignments {
    match value {
        Some(v) => seq![(key, quoted(v))],
        None => seq![],
    }
}

/// What the section of the body assigns.
pub open spec fn body_assignments(b: BodyView) -> Assignments {
    let kind = seq![("kind"@, quoted(body_kind(b)))];
    match b {
        BodyView::Empty => kind,
        BodyView::Text { content_type, text } => kind + optional_assignment(
            "content_type"@,
            content_type,
        ) + seq![("text"@, quoted(text))],
        BodyView::Json(text) => kind + seq![("text"@, quoted(text))],
        BodyView::Xml(text) => kind + seq![("text"@, quoted(text))],
        BodyView::GraphQl { query, variables_json, operation_name } => kind + seq![
            ("query"@, quoted(query)),
            ("variables_json"@, quoted(variables_json)),
        ] + optional_assignment("operation_name"@, operation_name),
        BodyView::BinaryFile { relative_path } => kind + seq![
            ("relative_path"@, quoted(relative_path)),
        ],
        BodyView::StreamFile { relative_path } => kind + seq![
            ("relative_path"@, quoted(relative_path)),
        ],
        BodyView::FormUrlEncoded(_) => kind + seq![("encoding_version"@, "1"@)],
        BodyView::Multipart(_) => kind + seq![("encoding_version"@, "1"@)],
    }
}

/// What the section of a field of a multipart body assigns.
pub open spec fn multipart_assignments(f: MultipartFieldView) -> Assignments {
    let value = match f.value {
        MultipartValueView::Text(text) => seq![
            ("value_kind"@, "\"text\""@),
            ("value"@, quoted(text)),
        ],
        MultipartValueView::File { relative_path } => seq![
            ("value_kind"@, "\"file\""@),
            ("relative_path"@, quoted(relative_path)),
        ],
    };
    seq![("name"@, quoted(f.name))] + value + optional_assignment("content_type"@, f.content_type)
        + seq![
        ("enabled"@, bool_text(f.enabled)),
        ("sensitivity"@, quoted(sensitivity_text(f.sensitivity))),
    ]
}

/// The sections of the fields of a multipart body.
pub open spec fn multipart_blocks(list: Seq<MultipartFieldView>) -> Seq<Seq<char>>
    decreases list.len(),
{
    if list.len() == 0 {
        seq![]
    } else {
        multipart_blocks(list.drop_last()) + block(
            "[[body.fields]]"@,
            multipart_assignments(list.last()),
        )
    }
}

/// The sections of the fields of a body.
pub open spec fn body_blocks(b: BodyView) -> Seq<Seq<char>> {
    match b {
        BodyView::FormUrlEncoded(fields) => form_blocks("[[body.fields]]"@, fields),
        BodyView::Multipart(fields) => multipart_blocks(fields),
        _ => seq![],
    }
}

/// The lines of a request.
pub open spec fn request_lines(d: RequestDocumentView) -> Seq<Seq<char>> {
    field_lines(root_assignments(d)) + unknown_lines(d.unknown_fields) + form_blocks(
        "[[query]]"@,
        d.request.query,
    ) + form_blocks("[[headers]]"@, d.request.headers) + block(
        "[auth]"@,
        authentication_assignments(d.request.authentication),
    ) + block("[body]"@, body_assignments(d.request.body)) + body_blocks(d.request.body)
}

/// The text of a request.
pub open spec fn request_text(d: RequestDocumentView) -> Seq<char> {
    unlines(request_lines(d))
}

fn open_block(out: &mut LineWriter, header: &str)
    requires
        old(out).wf(),
    ensures
        final(out).wf(),
        final(out).written@ == old(out).written@ + seq![Seq::<char>::empty(), header@],
{
    let ghost before = out.written@;
    out.line("");
    out.line(header);
    proof {
        reveal_strlit("");
        assert(""@ =~= Seq::<char>::empty());
        assert(out.written@ =~= before + seq![Seq::<char>::empty(), header@]);
    }
}

fn write_form_block(
    out: &mut LineWriter,
    header: &str,
    name: &str,
    value: &str,
    enabled: bool,
    sensitivity: ValueSensitivity,
)
    requires
        old(out).wf(),
    ensures
        final(out).wf(),
        final(out).written@ == old(out).written@ + block(
            header@,
            form_assignments(
                (FormFieldView { name: name@, value: value@, enabled, sensitivity }),
            ),
        ),
{
    let ghost before = out.written@;
    open_block(out, header);
    out.field("name", quote(name).as_str());
    out.field("value", quote(value).as_str());
    out.field("enabled", show_bool(enabled));
    out.field("sensitivity", quote(sensitivity_name(sensitivity)).as_str());
    proof {
        let f = FormFieldView { name: name@, value: value@, enabled, sensitivity };
        assert(out.written@ =~= before + block(header@, form_assignments(f)));
    }
}

fn write_form_blocks(out: &mut LineWriter, header: &str, fields: &[FormField])
    requires
        old(out).wf(),
    ensures
        final(out).wf(),
        final(out).written@ == old(out).written@ + form_blocks(header@, form_views(fields@)),
{
    let ghost before = out.written@;
    let ghost all = form_views(fields@);
    assert(before + form_blocks(header@, all.take(0)) =~= before);
    for i in 0..fields.len()
        invariant
            all == form_views(fields@),
            out.wf(),
            out.written@ == before + form_blocks(header@, all.take(i as int)),
    {
        let f = &fields[i];
        write_form_block(out, header, f.name.as_str(), f.value.as_str(), f.enabled, f.sensitivity);
        assert(all.take(i + 1).drop_last() =~= all.take(i as int));
        assert(all.take(i + 1).last() == f@);
        assert(out.written@ =~= before + form_blocks(header@, all.take(i + 1)));
    }
    assert(all.take(all.len() as int) =~= all);
}

fn write_header_blocks(out: &mut LineWriter, header: &str, fields: &[HeaderEntry])
    requires
        old(out).wf(),
    ensures
        final(out).wf(),
        final(out).written@ == old(out).written@ + form_blocks(header@, header_views(fields@)),
{
    let ghost before = out.written@;
    let ghost all = header_views(fields@);
    assert(before + form_blocks(header@, all.take(0)) =~= before);
    for i in 0..fields.len()
        invariant
            all == header_views(fields@),
            out.wf(),
            out.written@ == before + form_blocks(header@, all.take(i as int)),
    {
        let f = &fields[i];
        write_form_block(out, header, f.name.as_str(), f.value.as_str(), f.enabled, f.sensitivity);
        assert(all.take(i + 1).drop_last() =~= all.take(i as int));
        assert(all.take(i + 1).last() == f@);
        assert(out.written@ =~= before + form_blocks(header@, all.take(i + 1)));
    }
    assert(all.take(all.len() as int) =~= all);
}

#[verifier::rlimit(40)]
#[verifier::spinoff_prover]
fn write_multipart_block(out: &mut LineWriter, f: &MultipartField)
    requires
        old(out).wf(),
    ensures
        final(out).wf(),
        final(out).written@ == old(out).written@ + block(
            "[[body.fields]]"@,
            multipart_assignments(f@),
        ),
{
    let ghost before = out.written@;
    open_block(out, "[[body.fields]]");
    out.field("name", quote(f.name.as_str()).as_str());
    match &f.value {
        MultipartValue::Text(value) => {
            out.field("value_kind", "\"text\"");
            out.field("value", quote(value.as_str()).as_str());
        },
        MultipartValue::File { relative_path } => {
            out.field("value_kind", "\"file\"");
            out.field("relative_path", quote(relative_path.as_str()).as_str());
        },
    }
    if let Some(content_type) = &f.content_type {
        out.field("content_type", quote(content_type.as_str()).as_str());
    }
    out.field("enabled", show_bool(f.enabled));
    out.field("sensitivity", quote(sensitivity_name(f.sensitivity)).as_str());
    assert(out.written@ =~= before + block("[[body.fields]]"@, multipart_assignments(f@)));
}

fn write_multipart_blocks(out: &mut LineWriter, fields: &[MultipartField])
    requires
        old(out).wf(),
    ensures
        final(out).wf(),
        final(out).written@ == old(out).written@ + multipart_blocks(multipart_views(fields@)),
{
    let ghost before = out.written@;
    let ghost all = multipart_views(fields@);
    assert(before + multipart_blocks(all.take(0)) =~= before);
    for i in 0..fields.len()
        invariant
            all == multipart_views(fields@),
            out.wf(),
            out.written@ == before + multipart_blocks(all.take(i as int)),
    {
        let f = &fields[i];
        write_multipart_block(out, f);
        assert(all.take(i + 1).drop_last() =~= all.take(i as int));
        assert(all.take(i + 1).last() == f@);
        assert(out.written@ =~= before + multipart_blocks(all.take(i + 1)));
    }
    assert(all.take(all.len() as int) =~= all);
}

fn write_root(out: &mut LineWriter, document: &RequestDocument)
    requires
        old(out).wf(),
        document.wf(),
    ensures
        final(out).wf(),
        final(out).written@ == old(out).written@ + field_lines(root_assignments(document@))
            + unknown_lines(document@.unknown_fields),
{
    let ghost before = out.written@;
    let request = &document.request;
    let settings = &request.settings;
    out.field("schema_version", decimal_text(document.schema_version as u64).as_str());
    out.field("id", quote(request.id.as_str()).as_str());
    out.field("name", quote(request.name.as_str()).as_str());
    out.field("method", quote(request.method.as_str()).as_str());
    out.field("url", quote(request.url.as_str()).as_str());
    out.field("timeout_ms", wide_decimal_text(settings.timeout.as_millis()).as_str());
    out.field(
        "connection_timeout_ms",
        wide_decimal_text(settings.connection_timeout.as_millis()).as_str(),
    );
    out.field("idle_timeout_ms", wide_decimal_text(settings.idle_timeout.as_millis()).as_str());
    out.field("maximum_response_bytes", decimal_text(settings.maximum_response_bytes).as_str());
    out.field(
        "maximum_wire_response_bytes",
        decimal_text(settings.maximum_wire_response_bytes).as_str(),
    );
    out.field("redirect_limit", decimal_text(settings.redirect_limit as u64).as_str());
    out.field("follow_redirects", show_bool(settings.follow_redirects));
    out.field("verify_certificates", show_bool(settings.verify_certificates));
    out.field("cookie_jar", show_bool(settings.cookie_jar));
    out.field("decompress_response", show_bool(settings.decompress_response));
    if !request.documentation.as_str().is_empty() {
        out.field("documentation", quote(request.documentation.as_str()).as_str());
    }
    assert(out.written@ =~= before + field_lines(root_assignments(document@)));
    append_unknown_fields(out, &document.unknown_fields);
}

fn write_authentication(out: &mut LineWriter, authentication: &Authentication)
    requires
        old(out).wf(),
    ensures
        final(out).wf(),
        final(out).written@ == old(out).written@ + block(
            "[auth]"@,
            authentication_assignments(authentication@),
        ),
{
    let ghost before = out.written@;
    open_block(out, "[auth]");
    out.field("kind", quote(authentication.kind()).as_str());
    match authentication {
        Authentication::Anonymous => {},
        Authentication::Basic { username, password } => {
            out.field("username", quote(username.as_str()).as_str());
            out.field("password", quote(password.as_str()).as_str());
        },
        Authentication::Bearer { token } => {
            out.field("token", quote(token.as_str()).as_str());
        },
        Authentication::ApiKey { name, value, placement } => {
            out.field("name", quote(name.as_str()).as_str());
            out.field("value", quote(value.as_str()).as_str());
            let place = match placement {
                ApiKeyPlacement::Header => "header",
                ApiKeyPlacement::Query => "query",
            };
            out.field("placement", quote(place).as_str());
        },
    }
    assert(out.written@ =~= before + block(
        "[auth]"@,
        authentication_assignments(authentication@),
    ));
}

fn write_body(out: &mut LineWriter, body: &RequestBody)
    requires
        old(out).wf(),
    ensures
        final(out).wf(),
        final(out).written@ == old(out).written@ + block("[body]"@, body_assignments(body@))
            + body_blocks(body@),
{
    let ghost before = out.written@;
    open_block(out, "[body]");
    out.field("kind", quote(body.kind()).as_str());
    match body {
        RequestBody::Empty => {},
        RequestBody::Text { content_type, text } => {
            if let Some(content_type) = content_type {
                out.field("content_type", quote(content_type.as_str()).as_str());
            }
            out.field("text", quote(text.as_str()).as_str());
        },
        RequestBody::Json(text) | RequestBody::Xml(text) => {
            out.field("text", quote(text.as_str()).as_str());
        },
        RequestBody::GraphQl { query, variables_json, operation_name } => {
            out.field("query", quote(query.as_str()).as_str());
            out.field("variables_json", quote(variables_json.as_str()).as_str());
            if let Some(operation_name) = operation_name {
                out.field("operation_name", quote(operation_name.as_str()).as_str());
            }
        },
        RequestBody::BinaryFile { relative_path } | RequestBody::StreamFile { relative_path } => {
            out.field("relative_path", quote(relative_path.as_str()).as_str());
        },
        RequestBody::FormUrlEncoded(_) | RequestBody::Multipart(_) => {
            out.field("encoding_version", "1");
        },
    }
    assert(out.written@ =~= before + block("[body]"@, body_assignments(body@)));
    match body {
        RequestBody::FormUrlEncoded(fields) => {
            write_form_blocks(out, "[[body.fields]]", fields.as_slice());
        },
        RequestBody::Multipart(fields) => {
            write_multipart_blocks(out, fields.as_slice());
        },
        _ => {},
    }
    assert(out.written@ =~= before + block("[body]"@, body_assignments(body@)) + body_blocks(body@));
}

/// Writes a request.
pub fn format_request(document: &RequestDocument) -> (r: String)
    requires
        document.wf(),
    ensures
        r@ == request_text(document@),
{
    let mut out = LineWriter::new();
    write_root(&mut out, document);
    write_form_blocks(&mut out, "[[query]]", document.request.query.as_slice());
    write_header_blocks(&mut out, "[[headers]]", document.request.headers.as_slice());
    write_authentication(&mut out, &document.request.authentication);
    write_body(&mut out, &document.request.body);
    assert(out.written@ =~= request_lines(document@));
    out.text
}

/// The sensitivity that a section states; public where it states none.
pub open spec fn sensitivity_value(m: Fields) -> Result<ValueSensitivity, WorkspaceErrorView> {
    if !m.dom().contains("sensitivity"@) {
        Ok(ValueSensitivity::Public)
    } else {
        match string_value(m["sensitivity"@]) {
            Err(e) => Err(e),
            Ok(text) => sensitivity_result(text),
        }
    }
}

/// The sensitivity that a text names, or the error about it.
pub open spec fn sensitivity_result(text: Seq<char>) -> Result<ValueSensitivity, WorkspaceErrorView> {
    match named_sensitivity(text) {
        Some(s) => Ok(s),
        None => Err(WorkspaceErrorView::InvalidFormat("invalid sensitivity: "@ + text)),
    }
}

/// Reads the name of a sensitivity.
pub fn parse_sensitivity(text: &str) -> (r: Result<ValueSensitivity, WorkspaceError>)
    ensures
        match r {
            Ok(s) => sensitivity_result(text@) == Ok::<ValueSensitivity, WorkspaceErrorView>(s),
            Err(e) => sensitivity_result(text@) == Err::<ValueSensitivity, WorkspaceErrorView>(e@),
        },
{
    match sensitivity_named(text) {
        Some(s) => Ok(s),
        None => Err(WorkspaceError::InvalidFormat(concat2("invalid sensitivity: ", text))),
    }
}

/// Reads the sensitivity of a section.
pub fn parse_sensitivity_field(values: &FieldMap) -> (r: Result<ValueSensitivity, WorkspaceError>)
    requires
        values.wf(),
    ensures
        match r {
            Ok(s) => sensitivity_value(values@) == Ok::<ValueSensitivity, WorkspaceErrorView>(s),
            Err(e) => sensitivity_value(values@) == Err::<ValueSensitivity, WorkspaceErrorView>(e@),
        },
{
    match values.get("sensitivity") {
        None => Ok(ValueSensitivity::Public),
        Some(value) => match parse_string(value.as_str()) {
            Err(e) => Err(e),
            Ok(text) => parse_sensitivity(text.as_str()),
        },
    }
}

/// The named value that a section describes.
pub open spec fn form_field_value(m: Fields) -> Result<FormFieldView, WorkspaceErrorView> {
    match required_string(m, "name"@) {
        Err(e) => Err(e),
        Ok(name) => match required_string(m, "value"@) {
            Err(e) => Err(e),
            Ok(value) => match optional_bool(m, "enabled"@, true) {
                Err(e) => Err(e),
                Ok(enabled) => match sensitivity_value(m) {
                    Err(e) => Err(e),
                    Ok(sensitivity) => Ok(FormFieldView { name, value, enabled, sensitivity }),
                },
            },
        },
    }
}

/// Reads a named value.
pub fn parse_form_field(values: &FieldMap) -> (r: Result<FormField, WorkspaceError>)
    requires
        values.wf(),
    ensures
        outcome(r) == form_field_value(values@),
{
    let name = match parse_required_string(values, "name") {
        Ok(v) => v,
        Err(e) => {
            return Err(e);
        },
    };
    let value = match parse_required_string(values, "value") {
        Ok(v) => v,
        Err(e) => {
            return Err(e);
        },
    };
    let enabled = match parse_optional_bool(values, "enabled", true) {
        Ok(v) => v,
        Err(e) => {
            return Err(e);
        },
    };
    let sensitivity = match parse_sensitivity_field(values) {
        Ok(v) => v,
        Err(e) => {
            return Err(e);
        },
    };
    Ok(FormField { name, value, enabled, sensitivity })
}

/// The header that a section describes.
pub open spec fn header_value(m: Fields) -> Result<FormFieldView, WorkspaceErrorView> {
    match required_string(m, "name"@) {
        Err(e) => Err(e),
        Ok(name) => match required_string(m, "value"@) {
            Err(e) => Err(e),
            Ok(value) => match header_check(name, value) {
                Some(e) => Err(WorkspaceErrorView::InvalidFormat(domain_message(e))),
                None => match optional_bool(m, "enabled"@, true) {
                    Err(e) => Err(e),
                    Ok(enabled) => match sensitivity_value(m) {
                        Err(e) => Err(e),
                        Ok(sensitivity) => Ok(FormFieldView { name, value, enabled, sensitivity }),
                    },
                },
            },
        },
    }
}

/// Reads a header.
pub fn parse_header(values: &FieldMap) -> (r: Result<HeaderEntry, WorkspaceError>)
    requires
        values.wf(),
    ensures
        outcome(r) == header_value(values@),
{
    let name = match parse_required_string(values, "name") {
        Ok(v) => v,
        Err(e) => {
            return Err(e);
        },
    };
    let value = match parse_required_string(values, "value") {
        Ok(v) => v,
        Err(e) => {
            return Err(e);
        },
    };
    let mut header = match HeaderEntry::new(name.as_str(), value.as_str()) {
        Ok(h) => h,
        Err(e) => {
            return Err(WorkspaceError::InvalidFormat(e.message()));
        },
    };
    header.enabled = match parse_optional_bool(values, "enabled", true) {
        Ok(v) => v,
        Err(e) => {
            return Err(e);
        },
    };
    header.sensitivity = match parse_sensitivity_field(values) {
        Ok(v) => v,
        Err(e) => {
            return Err(e);
        },
    };
    Ok(header)
}

/// What is wrong with the path of a file that a request sends, if anything.
pub open spec fn resource_path_value(value: Seq<char>) -> Result<Seq<char>, WorkspaceErrorView> {
    if climbs(components(value)) {
        Err(WorkspaceErrorView::PathTraversal(value))
    } else {
        Ok(value)
    }
}

/// Refuses the path of a file that is not below the workspace.
pub fn validate_relative_resource_path(value: &str) -> (r: Result<String, WorkspaceError>)
    ensures
        outcome(r) == resource_path_value(value@),
{
    let list = path_components(value);
    if path_climbs(list.as_slice()) {
        Err(WorkspaceError::PathTraversal(value.to_owned()))
    } else {
        Ok(value.to_owned())
    }
}

/// The path that a section gives under `relative_path`.
pub open spec fn resource_path_field(m: Fields) -> Result<Seq<char>, WorkspaceErrorView> {
    match required_string(m, "relative_path"@) {
        Err(e) => Err(e),
        Ok(path) => resource_path_value(path),
    }
}

fn parse_resource_path(values: &FieldMap) -> (r: Result<String, WorkspaceError>)
    requires
        values.wf(),
    ensures
        outcome(r) == resource_path_field(values@),
{
    match parse_required_string(values, "relative_path") {
        Err(e) => Err(e),
        Ok(path) => validate_relative_resource_path(path.as_str()),
    }
}

/// What a field of a multipart body holds, by its section.
pub open spec fn multipart_value(m: Fields) -> Result<MultipartValueView, WorkspaceErrorView> {
    match required_string(m, "value_kind"@) {
        Err(e) => Err(e),
        Ok(kind) => if kind == "text"@ {
            match required_string(m, "value"@) {
                Err(e) => Err(e),
                Ok(text) => Ok(MultipartValueView::Text(text)),
            }
        } else if kind == "file"@ {
            match resource_path_field(m) {
                Err(e) => Err(e),
                Ok(relative_path) => Ok(MultipartValueView::File { relative_path }),
            }
        } else {
            Err(WorkspaceErrorView::InvalidFormat("invalid multipart value kind: "@ + kind))
        },
    }
}

fn parse_multipart_value(values: &FieldMap) -> (r: Result<MultipartValue, WorkspaceError>)
    requires
        values.wf(),
    ensures
        outcome(r) == multipart_value(values@),
{
    let kind = match parse_required_string(values, "value_kind") {
        Ok(v) => v,
        Err(e) => {
            return Err(e);
        },
    };
    if same_text(kind.as_str(), "text") {
        match parse_required_string(values, "value") {
            Err(e) => Err(e),
            Ok(text) => Ok(MultipartValue::Text(text)),
        }
    } else if same_text(kind.as_str(), "file") {
        match parse_resource_path(values) {
            Err(e) => Err(e),
            Ok(relative_path) => Ok(MultipartValue::File { relative_path }),
        }
    } else {
        Err(WorkspaceError::InvalidFormat(concat2("invalid multipart value kind: ", kind.as_str())))
    }
}

/// The field of a multipart body that a section describes.
pub open spec fn multipart_field_value(m: Fields) -> Result<MultipartFieldView, WorkspaceErrorView> {
    match multipart_value(m) {
        Err(e) => Err(e),
        Ok(value) => match required_string(m, "name"@) {
            Err(e) => Err(e),
            Ok(name) => match optional_string(m, "content_type"@) {
                Err(e) => Err(e),
                Ok(content_type) => match optional_bool(m, "enabled"@, true) {
                    Err(e) => Err(e),
                    Ok(enabled) => match sensitivity_value(m) {
                        Err(e) => Err(e),
                        Ok(sensitivity) => Ok(
                            MultipartFieldView { name, value, content_type, enabled, sensitivity },
                        ),
                    },
                },
            },
        },
    }
}

/// Reads a field of a multipart body.
pub fn parse_multipart_field(values: &FieldMap) -> (r: Result<MultipartField, WorkspaceError>)
    requires
        values.wf(),
    ensures
        outcome(r) == multipart_field_value(values@),
{
    let value = match parse_multipart_value(values) {
        Ok(v) => v,
        Err(e) => {
            return Err(e);
        },
    };
    let name = match parse_required_string(values, "name") {
        Ok(v) => v,
        Err(e) => {
            return Err(e);
        },
    };
    let content_type = match parse_optional_string(values, "content_type") {
        Ok(v) => v,
        Err(e) => {
            return Err(e);
        },
    };
    let enabled = match parse_optional_bool(values, "enabled", true) {
        Ok(v) => v,
        Err(e) => {
            return Err(e);
        },
    };
    let sensitivity = match parse_sensitivity_field(values) {
        Ok(v) => v,
        Err(e) => {
            return Err(e);
        },
    };
    Ok(MultipartField { name, value, content_type, enabled, sensitivity })
}

/// A text under a key that has to refer to a variable.
pub open spec fn secret_template(m: Fields, key: Seq<char>) -> Result<
    Seq<char>,
    WorkspaceErrorView,
> {
    match required_string(m, key) {
        Err(e) => Err(e),
        Ok(value) => if contains_piece(value, "{{"@) && contains_piece(value, "}}"@) {
            Ok(value)
        } else {
            Err(
                WorkspaceErrorView::InvalidFormat(
                    "authentication field "@ + key
                        + " must reference a variable; plaintext credentials are forbidden"@,
                ),
            )
        },
    }
}

/// Reads a text that has to refer to a variable.
pub fn parse_secret_template(values: &FieldMap, key: &str) -> (r: Result<String, WorkspaceError>)
    requires
        values.wf(),
    ensures
        outcome(r) == secret_template(values@, key@),
{
    let value = match parse_required_string(values, key) {
        Ok(v) => v,
        Err(e) => {
            return Err(e);
        },
    };
    proof {
        reveal_strlit("{{");
        reveal_strlit("}}");
    }
    let chars = chars_of(value.as_str());
    let open = chars_of("{{");
    let close = chars_of("}}");
    if !has_piece(chars.as_slice(), open.as_slice()) || !has_piece(
        chars.as_slice(),
        close.as_slice(),
    ) {
        return Err(
            WorkspaceError::InvalidFormat(
                concat3(
                    "authentication field ",
                    key,
                    " must reference a variable; plaintext credentials are forbidden",
                ),
            ),
        );
    }
    Ok(value)
}

/// A text under a key, or another where the key is missing.
pub open spec fn string_or(m: Fields, key: Seq<char>, default: Seq<char>) -> Result<
    Seq<char>,
    WorkspaceErrorView,
> {
    match optional_string(m, key) {
        Err(e) => Err(e),
        Ok(Some(text)) => Ok(text),
        Ok(None) => Ok(default),
    }
}

fn parse_string_or(values: &FieldMap, key: &str, default: &str) -> (r: Result<
    String,
    WorkspaceError,
>)
    requires
        values.wf(),
    ensures
        outcome(r) == string_or(values@, key@, default@),
{
    match parse_optional_string(values, key) {
        Err(e) => Err(e),
        Ok(Some(text)) => Ok(text),
        Ok(None) => Ok(default.to_owned()),
    }
}

/// The place of an API key that a section states.
pub open spec fn placement_value(m: Fields) -> Result<ApiKeyPlacement, WorkspaceErrorView> {
    match required_string(m, "placement"@) {
        Err(e) => Err(e),
        Ok(text) => if text == "header"@ {
            Ok(ApiKeyPlacement::Header)
        } else if text == "query"@ {
            Ok(ApiKeyPlacement::Query)
        } else {
            Err(WorkspaceErrorView::InvalidFormat("invalid API key placement: "@ + text))
        },
    }
}

fn parse_placement(values: &FieldMap) -> (r: Result<ApiKeyPlacement, WorkspaceError>)
    requires
        values.wf(),
    ensures
        match r {
            Ok(p) => placement_value(values@) == Ok::<ApiKeyPlacement, WorkspaceErrorView>(p),
            Err(e) => placement_value(values@) == Err::<ApiKeyPlacement, WorkspaceErrorView>(e@),
        },
{
    match parse_required_string(values, "placement") {
        Err(e) => Err(e),
        Ok(text) => if same_text(text.as_str(), "header") {
            Ok(ApiKeyPlacement::Header)
        } else if same_text(text.as_str(), "query") {
            Ok(ApiKeyPlacement::Query)
        } else {
            Err(WorkspaceError::InvalidFormat(concat2("invalid API key placement: ", text.as_str())))
        },
    }
}

/// The authentication that a section describes.
pub open spec fn authentication_value(m: Fields) -> Result<AuthenticationView, WorkspaceErrorView> {
    match string_or(m, "kind"@, "none"@) {
        Err(e) => Err(e),
        Ok(kind) => if kind == "none"@ {
            Ok(AuthenticationView::Anonymous)
        } else if kind == "basic"@ {
            match required_string(m, "username"@) {
                Err(e) => Err(e),
                Ok(username) => match secret_template(m, "password"@) {
                    Err(e) => Err(e),
                    Ok(password) => Ok(AuthenticationView::Basic { username, password }),
                },
            }
        } else if kind == "bearer"@ {
            match secret_template(m, "token"@) {
                Err(e) => Err(e),
                Ok(token) => Ok(AuthenticationView::Bearer { token }),
            }
        } else if kind == "api_key"@ {
            match placement_value(m) {
                Err(e) => Err(e),
                Ok(placement) => match required_string(m, "name"@) {
                    Err(e) => Err(e),
                    Ok(name) => match secret_template(m, "value"@) {
                        Err(e) => Err(e),
                        Ok(value) => Ok(AuthenticationView::ApiKey { name, value, placement }),
                    },
                },
            }
        } else {
            Err(WorkspaceErrorView::InvalidFormat("unsupported authentication kind: "@ + kind))
        },
    }
}

/// Reads an authentication.
pub fn parse_authentication(values: &FieldMap) -> (r: Result<Authentication, WorkspaceError>)
    requires
        values.wf(),
    ensures
        outcome(r) == authentication_value(values@),
{
    let kind = match parse_string_or(values, "kind", "none") {
        Ok(v) => v,
        Err(e) => {
            return Err(e);
        },
    };
    if same_text(kind.as_str(), "none") {
        Ok(Authentication::Anonymous)
    } else if same_text(kind.as_str(), "basic") {
        let username = match parse_required_string(values, "username") {
            Ok(v) => v,
            Err(e) => {
                return Err(e);
            },
        };
        match parse_secret_template(values, "password") {
            Ok(password) => Ok(Authentication::Basic { username, password }),
            Err(e) => Err(e),
        }
    } else if same_text(kind.as_str(), "bearer") {
        match parse_secret_template(values, "token") {
            Ok(token) => Ok(Authentication::Bearer { token }),
            Err(e) => Err(e),
        }
    } else if same_text(kind.as_str(), "api_key") {
        let placement = match parse_placement(values) {
            Ok(v) => v,
            Err(e) => {
                return Err(e);
            },
        };
        let name = match parse_required_string(values, "name") {
            Ok(v) => v,
            Err(e) => {
                return Err(e);
            },
        };
        match parse_secret_template(values, "value") {
            Ok(value) => Ok(Authentication::ApiKey { name, value, placement }),
            Err(e) => Err(e),
        }
    } else {
        Err(
            WorkspaceError::InvalidFormat(
                concat2("unsupported authentication kind: ", kind.as_str()),
            ),
        )
    }
}

/// The contents of a list of field maps.
pub open spec fn field_maps(list: Seq<FieldMap>) -> Seq<Fields> {
    list.map_values(|m: FieldMap| m@)
}

/// The named values that sections describe; the first error where one is wrong.
pub open spec fn form_field_values(list: Seq<Fields>) -> Result<
    Seq<FormFieldView>,
    WorkspaceErrorView,
>
    decreases list.len(),
{
    if list.len() == 0 {
        Ok(seq![])
    } else {
        match form_field_values(list.drop_last()) {
            Err(e) => Err(e),
            Ok(front) => match form_field_value(list.last()) {
                Err(e) => Err(e),
                Ok(f) => Ok(front.push(f)),
            },
        }
    }
}

proof fn lemma_form_values_error(list: Seq<Fields>, k: int)
    requires
        0 <= k <= list.len(),
        form_field_values(list.take(k)) is Err,
    ensures
        form_field_values(list) == form_field_values(list.take(k)),
    decreases list.len() - k,
{
    if k < list.len() {
        assert(list.take(k + 1).drop_last() =~= list.take(k));
        lemma_form_values_error(list, k + 1);
    } else {
        assert(list.take(k) =~= list);
    }
}

fn parse_form_list(fields: &[FieldMap]) -> (r: Result<Vec<FormField>, WorkspaceError>)
    requires
        forall|i: int| 0 <= i < fields@.len() ==> (#[trigger] fields@[i]).wf(),
    ensures
        match r {
            Ok(list) => form_field_values(field_maps(fields@)) == Ok::<
                Seq<FormFieldView>,
                WorkspaceErrorView,
            >(form_views(list@)),
            Err(e) => form_field_values(field_maps(fields@)) == Err::<
                Seq<FormFieldView>,
                WorkspaceErrorView,
            >(e@),
        },
{
    let ghost all = field_maps(fields@);
    let mut list: Vec<FormField> = Vec::new();
    assert(form_views(list@) =~= seq![]);
    assert(form_field_values(all.take(0)) == Ok::<Seq<FormFieldView>, WorkspaceErrorView>(
        form_views(list@),
    ));
    for i in 0..fields.len()
        invariant
            all == field_maps(fields@),
            forall|i: int| 0 <= i < fields@.len() ==> (#[trigger] fields@[i]).wf(),
            form_field_values(all.take(i as int)) == Ok::<Seq<FormFieldView>, WorkspaceErrorView>(
                form_views(list@),
            ),
    {
        assert(all.take(i + 1).drop_last() =~= all.take(i as int));
        assert(all.take(i + 1).last() == fields@[i as int]@);
        match parse_form_field(&fields[i]) {
            Ok(f) => {
                let ghost before = list@;
                list.push(f);
                assert(form_views(list@) =~= form_views(before).push(f@));
            },
            Err(e) => {
                proof {
                    lemma_form_values_error(all, i + 1);
                }
                return Err(e);
            },
        }
    }
    assert(all.take(all.len() as int) =~= all);
    Ok(list)
}

/// The fields of a multipart body that sections describe; the first error where
/// one is wrong.
pub open spec fn multipart_field_values(list: Seq<Fields>) -> Result<
    Seq<MultipartFieldView>,
    WorkspaceErrorView,
>
    decreases list.len(),
{
    if list.len() == 0 {
        Ok(seq![])
    } else {
        match multipart_field_values(list.drop_last()) {
            Err(e) => Err(e),
            Ok(front) => match multipart_field_value(list.last()) {
                Err(e) => Err(e),
                Ok(f) => Ok(front.push(f)),
            },
        }
    }
}

proof fn lemma_multipart_values_error(list: Seq<Fields>, k: int)
    requires
        0 <= k <= list.len(),
        multipart_field_values(list.take(k)) is Err,
    ensures
        multipart_field_values(list) == multipart_field_values(list.take(k)),
    decreases list.len() - k,
{
    if k < list.len() {
        assert(list.take(k + 1).drop_last() =~= list.take(k));
        lemma_multipart_values_error(list, k + 1);
    } else {
        assert(list.take(k) =~= list);
    }
}

fn parse_multipart_list(fields: &[FieldMap]) -> (r: Result<Vec<MultipartField>, WorkspaceError>)
    requires
        forall|i: int| 0 <= i < fields@.len() ==> (#[trigger] fields@[i]).wf(),
    ensures
        match r {
            Ok(list) => multipart_field_values(field_maps(fields@)) == Ok::<
                Seq<MultipartFieldView>,
                WorkspaceErrorView,
            >(multipart_views(list@)),
            Err(e) => multipart_field_values(field_maps(fields@)) == Err::<
                Seq<MultipartFieldView>,
                WorkspaceErrorView,
            >(e@),
        },
{
    let ghost all = field_maps(fields@);
    let mut list: Vec<MultipartField> = Vec::new();
    assert(multipart_views(list@) =~= seq![]);
    assert(multipart_field_values(all.take(0)) == Ok::<
        Seq<MultipartFieldView>,
        WorkspaceErrorView,
    >(multipart_views(list@)));
    for i in 0..fields.len()
        invariant
            all == field_maps(fields@),
            forall|i: int| 0 <= i < fields@.len() ==> (#[trigger] fields@[i]).wf(),
            multipart_field_values(all.take(i as int)) == Ok::<
                Seq<MultipartFieldView>,
                WorkspaceErrorView,
            >(multipart_views(list@)),
    {
        assert(all.take(i + 1).drop_last() =~= all.take(i as int));
        assert(all.take(i + 1).last() == fields@[i as int]@);
        match parse_multipart_field(&fields[i]) {
            Ok(f) => {
                let ghost before = list@;
                list.push(f);
                assert(multipart_views(list@) =~= multipart_views(before).push(f@));
            },
            Err(e) => {
                proof {
                    lemma_multipart_values_error(all, i + 1);
                }
                return Err(e);
            },
        }
    }
    assert(all.take(all.len() as int) =~= all);
    Ok(list)
}

/// The body that a section, and the sections of its fields, describe.
pub open spec fn body_value(m: Fields, fields: Seq<Fields>) -> Result<BodyView, WorkspaceErrorView> {
    match string_or(m, "kind"@, "empty"@) {
        Err(e) => Err(e),
        Ok(kind) => if kind == "empty"@ {
            Ok(BodyView::Empty)
        } else if kind == "text"@ {
            match optional_string(m, "content_type"@) {
                Err(e) => Err(e),
                Ok(content_type) => match required_string(m, "text"@) {
                    Err(e) => Err(e),
                    Ok(text) => Ok(BodyView::Text { content_type, text }),
                },
            }
        } else if kind == "json"@ {
            match required_string(m, "text"@) {
                Err(e) => Err(e),
                Ok(text) => Ok(BodyView::Json(text)),
            }
        } else if kind == "xml"@ {
            match required_string(m, "text"@) {
                Err(e) => Err(e),
                Ok(text) => Ok(BodyView::Xml(text)),
            }
        } else if kind == "graphql"@ {
            match required_string(m, "query"@) {
                Err(e) => Err(e),
                Ok(query) => match string_or(m, "variables_json"@, "{}"@) {
                    Err(e) => Err(e),
                    Ok(variables_json) => match optional_string(m, "operation_name"@) {
                        Err(e) => Err(e),
                        Ok(operation_name) => Ok(
                            BodyView::GraphQl { query, variables_json, operation_name },
                        ),
                    },
                },
            }
        } else if kind == "binary_file"@ {
            match resource_path_field(m) {
                Err(e) => Err(e),
                Ok(relative_path) => Ok(BodyView::BinaryFile { relative_path }),
            }
        } else if kind == "stream_file"@ {
            match resource_path_field(m) {
                Err(e) => Err(e),
                Ok(relative_path) => Ok(BodyView::StreamFile { relative_path }),
            }
        } else if kind == "form_urlencoded"@ {
            match form_field_values(fields) {
                Err(e) => Err(e),
                Ok(list) => Ok(BodyView::FormUrlEncoded(list)),
            }
        } else if kind == "multipart"@ {
            match multipart_field_values(fields) {
                Err(e) => Err(e),
                Ok(list) => Ok(BodyView::Multipart(list)),
            }
        } else {
            Err(WorkspaceErrorView::InvalidFormat("unsupported body kind: "@ + kind))
        },
    }
}

/// Reads a body.
pub fn parse_body(values: &FieldMap, fields: &[FieldMap]) -> (r: Result<RequestBody, WorkspaceError>)
    requires
        values.wf(),
        forall|i: int| 0 <= i < fields@.len() ==> (#[trigger] fields@[i]).wf(),
    ensures
        outcome(r) == body_value(values@, field_maps(fields@)),
{
    let kind = match parse_string_or(values, "kind", "empty") {
        Ok(v) => v,
        Err(e) => {
            return Err(e);
        },
    };
    let kind = kind.as_str();
    if same_text(kind, "empty") {
        Ok(RequestBody::Empty)
    } else if same_text(kind, "text") {
        let content_type = match parse_optional_string(values, "content_type") {
            Ok(v) => v,
            Err(e) => {
                return Err(e);
            },
        };
        match parse_required_string(values, "text") {
            Ok(text) => Ok(RequestBody::Text { content_type, text }),
            Err(e) => Err(e),
        }
    } else if same_text(kind, "json") {
        match parse_required_string(values, "text") {
            Ok(text) => Ok(RequestBody::Json(text)),
            Err(e) => Err(e),
        }
    } else if same_text(kind, "xml") {
        match parse_required_string(values, "text") {
            Ok(text) => Ok(RequestBody::Xml(text)),
            Err(e) => Err(e),
        }
    } else if same_text(kind, "graphql") {
        let query = match parse_required_string(values, "query") {
            Ok(v) => v,
            Err(e) => {
                return Err(e);
            },
        };
        let variables_json = match parse_string_or(values, "variables_json", "{}") {
            Ok(v) => v,
            Err(e) => {
                return Err(e);
            },
        };
        match parse_optional_string(values, "operation_name") {
            Ok(operation_name) => Ok(RequestBody::GraphQl { query, variables_json, operation_name }),
            Err(e) => Err(e),
        }
    } else if same_text(kind, "binary_file") {
        match parse_resource_path(values) {
            Ok(relative_path) => Ok(RequestBody::BinaryFile { relative_path }),
            Err(e) => Err(e),
        }
    } else if same_text(kind, "stream_file") {
        match parse_resource_path(values) {
            Ok(relative_path) => Ok(RequestBody::StreamFile { relative_path }),
            Err(e) => Err(e),
        }
    } else if same_text(kind, "form_urlencoded") {
        match parse_form_list(fields) {
            Ok(list) => Ok(RequestBody::FormUrlEncoded(list)),
            Err(e) => Err(e),
        }
    } else if same_text(kind, "multipart") {
        match parse_multipart_list(fields) {
            Ok(list) => Ok(RequestBody::Multipart(list)),
            Err(e) => Err(e),
        }
    } else {
        Err(WorkspaceError::InvalidFormat(concat2("unsupported body kind: ", kind)))
    }
}

} // verus!
