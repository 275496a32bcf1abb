//! A request as it is edited: its body as text, and the request that a draft begins with.
use crate::domain::{
    default_settings, Authentication, AuthenticationView, BodyView, FormFieldView, HeaderEntry,
    HttpMethod, HttpRequest, MethodView, RequestBody, RequestSettings, RequestView, StableId,
    ValueSensitivity,
};
use crate::editor_fields::{
    editable_field, editable_part, fields_text, form_fields_of, format_form_fields,
    format_multipart_fields, law_form_fields_round_trip, law_parts_round_trip, parse_form_fields,
    parse_multipart_fields, parts_of, parts_text,
};
use crate::text::copy_optional_text;
use vstd::prelude::*;
use vstd::string::*;

verus! {

/// The text that a body is edited as.
pub open spec fn body_text(body: BodyView) -> Seq<char> {
    match body {
        BodyView::Empty => seq![],
        BodyView::Json(text) => text,
        BodyView::Xml(text) => text,
        BodyView::Text { text, .. } => text,
        BodyView::GraphQl { query, .. } => query,
        BodyView::FormUrlEncoded(fields) => fields_text(fields),
        BodyView::Multipart(parts) => parts_text(parts),
        BodyView::BinaryFile { relative_path } => relative_path,
        BodyView::StreamFile { relative_path } => relative_path,
    }
}

/// Writes a body as the text that it is edited as.
pub fn editor_body(body: &RequestBody) -> (r: String)
    ensures
        r@ == body_text(body@),
{
    match body {
        RequestBody::Empty => {
            let r = String::new();
            assert(r@ =~= seq![]);
            r
        },
        RequestBody::Json(text) => text.clone(),
        RequestBody::Xml(text) => text.clone(),
        RequestBody::Text { text, .. } => text.clone(),
        RequestBody::GraphQl { query, .. } => query.clone(),
        RequestBody::FormUrlEncoded(fields) => format_form_fields(fields.as_slice()),
        RequestBody::Multipart(parts) => format_multipart_fields(parts.as_slice()),
        RequestBody::BinaryFile { relative_path } => relative_path.clone(),
        RequestBody::StreamFile { relative_path } => relative_path.clone(),
    }
}

/// Tells whether a body can be edited as a text: every kind can.
pub fn body_is_editable(body: &RequestBody) -> (r: bool)
    ensures
        r,
{
    match body {
        RequestBody::Empty => true,
        RequestBody::Json(_) => true,
        RequestBody::Xml(_) => true,
        RequestBody::Text { .. } => true,
        RequestBody::GraphQl { .. } => true,
        RequestBody::FormUrlEncoded(_) => true,
        RequestBody::Multipart(_) => true,
        RequestBody::BinaryFile { .. } => true,
        RequestBody::StreamFile { .. } => true,
    }
}

/// The body that an edited text stands for: it stays of its kind, and an empty body that gets
/// a text becomes JSON. Fields or parts that cannot be read leave the body as it was.
pub open spec fn edited_body(original: BodyView, text: Seq<char>) -> BodyView {
    match original {
        BodyView::Empty => if text.len() == 0 {
            BodyView::Empty
        } else {
            BodyView::Json(text)
        },
        BodyView::Json(_) => BodyView::Json(text),
        BodyView::Xml(_) => BodyView::Xml(text),
        BodyView::Text { content_type, .. } => BodyView::Text { content_type, text },
        BodyView::GraphQl { variables_json, operation_name, .. } => BodyView::GraphQl {
            query: text,
            variables_json,
            operation_name,
        },
        BodyView::FormUrlEncoded(_) => match form_fields_of(text) {
            Ok(fields) => BodyView::FormUrlEncoded(fields),
            Err(_) => original,
        },
        BodyView::Multipart(_) => match parts_of(text) {
            Ok(parts) => BodyView::Multipart(parts),
            Err(_) => original,
        },
        BodyView::BinaryFile { .. } => BodyView::BinaryFile { relative_path: text },
        BodyView::StreamFile { .. } => BodyView::StreamFile { relative_path: text },
    }
}

/// Finds the body that an edited text stands for.
pub fn body_from_editor(original: &RequestBody, value: String) -> (r: RequestBody)
    ensures
        r@ == edited_body(original@, value@),
{
    match original {
        RequestBody::Empty => if value.as_str().unicode_len() == 0 {
            RequestBody::Empty
        } else {
            RequestBody::Json(value)
        },
        RequestBody::Json(_) => RequestBody::Json(value),
        RequestBody::Xml(_) => RequestBody::Xml(value),
        RequestBody::Text { content_type, .. } => RequestBody::Text {
            content_type: copy_optional_text(content_type),
            text: value,
        },
        RequestBody::GraphQl { variables_json, operation_name, .. } => RequestBody::GraphQl {
            query: value,
            variables_json: variables_json.clone(),
            operation_name: copy_optional_text(operation_name),
        },
        RequestBody::FormUrlEncoded(_) => match parse_form_fields(value.as_str()) {
            Ok(fields) => RequestBody::FormUrlEncoded(fields),
            Err(_) => original.copy(),
        },
        RequestBody::Multipart(_) => match parse_multipart_fields(value.as_str()) {
            Ok(parts) => RequestBody::Multipart(parts),
            Err(_) => original.copy(),
        },
        RequestBody::BinaryFile { .. } => RequestBody::BinaryFile { relative_path: value },
        RequestBody::StreamFile { .. } => RequestBody::StreamFile { relative_path: value },
    }
}

/// A body that is not changed in the editor stays what it is, so long as its fields or parts
/// fit into lines.
pub proof fn law_unchanged_body_stays(body: BodyView)
    requires
        body matches BodyView::FormUrlEncoded(fields) ==> forall|i: int|
            0 <= i < fields.len() ==> editable_field(#[trigger] fields[i]),
        body matches BodyView::Multipart(parts) ==> forall|i: int|
            0 <= i < parts.len() ==> editable_part(#[trigger] parts[i]),
    ensures
        edited_body(body, body_text(body)) == body,
{
    match body {
        BodyView::FormUrlEncoded(fields) => {
            law_form_fields_round_trip(fields);
        },
        BodyView::Multipart(parts) => {
            law_parts_round_trip(parts);
        },
        _ => {},
    }
}

/// Whatever is typed, a body stays of its kind, but for one that was empty.
pub proof fn law_editing_keeps_the_kind(body: BodyView, text: Seq<char>)
    ensures
        body is Json ==> edited_body(body, text) is Json,
        body is Xml ==> edited_body(body, text) is Xml,
        body is Text ==> edited_body(body, text) is Text,
        body is GraphQl ==> edited_body(body, text) is GraphQl,
        body is FormUrlEncoded ==> edited_body(body, text) is FormUrlEncoded,
        body is Multipart ==> edited_body(body, text) is Multipart,
        body is BinaryFile ==> edited_body(body, text) is BinaryFile,
        body is StreamFile ==> edited_body(body, text) is StreamFile,
{
}

/// The request that a draft begins with.
pub open spec fn draft_request() -> RequestView {
    RequestView {
        id: "gui-draft"@,
        name: "GUI Draft"@,
        method: MethodView::Get,
        url: "https://httpbin.org/get"@,
        query: seq![],
        headers: seq![
            FormFieldView {
                name: "Accept"@,
                value: "application/json"@,
                enabled: true,
                sensitivity: ValueSensitivity::Public,
            },
        ],
        authentication: AuthenticationView::Anonymous,
        body: BodyView::Empty,
        settings: default_settings(),
        documentation: seq![],
    }
}

/// Makes the request that a draft begins with.
pub fn default_request() -> (r: HttpRequest)
    ensures
        r@ == draft_request(),
{
    let id = StableId { text: "gui-draft".to_owned() };
    let mut headers: Vec<HeaderEntry> = Vec::new();
    headers.push(
        HeaderEntry {
            name: "Accept".to_owned(),
            value: "application/json".to_owned(),
            enabled: true,
            sensitivity: ValueSensitivity::Public,
        },
    );
    let r = HttpRequest {
        id,
        name: "GUI Draft".to_owned(),
        method: HttpMethod::Get,
        url: "https://httpbin.org/get".to_owned(),
        query: Vec::new(),
        headers,
        authentication: Authentication::Anonymous,
        body: RequestBody::Empty,
        settings: RequestSettings::default(),
        documentation: String::new(),
    };
    proof {
        assert(r@.query =~= seq![]);
        assert(r@.headers =~= draft_request().headers);
        assert(r@.documentation =~= seq![]);
    }
    r
}

} // verus!
