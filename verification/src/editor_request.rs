//! A request as it is edited: the texts that stand for its parts.
use crate::domain::{
    header_check, BodyView, HttpMethod, HttpRequest, MethodView, RequestBody, RequestView,
};
use crate::editor::{body_from_editor, body_text, edited_body, editor_body, law_unchanged_body_stays};
use crate::editor_fields::{
    editable_field, editable_part, fields_text, form_fields_of, format_form_fields, format_headers,
    headers_of, law_form_fields_round_trip, law_headers_round_trip, law_parts_round_trip,
    parse_form_fields, parse_headers, parse_multipart_fields, parts_of,
};
use crate::editor_settings::{
    authentication_of, authentication_text, editable_authentication, format_authentication,
    format_request_settings, law_authentication_round_trip, law_request_settings_round_trip,
    parse_authentication, parse_request_settings, settings_of, settings_text,
};
use crate::error::outcome;
use vstd::prelude::*;

verus! {

/// The texts that stand for the parts of a request.
#[derive(Clone, Debug, PartialEq, Eq)]
pub struct EditorTexts {
    pub url: String,
    pub query: String,
    pub headers: String,
    pub authentication: String,
    pub body: String,
    pub settings: String,
    pub documentation: String,
}

/// The texts that stand for the parts of a request, by their contents.
#[verifier::ext_equal]
pub struct EditorView {
    pub url: Seq<char>,
    pub query: Seq<char>,
    pub headers: Seq<char>,
    pub authentication: Seq<char>,
    pub body: Seq<char>,
    pub settings: Seq<char>,
    pub documentation: Seq<char>,
}

impl View for EditorTexts {
    type V = EditorView;

    open spec fn view(&self) -> EditorView {
        EditorView {
            url: self.url@,
            query: self.query@,
            headers: self.headers@,
            authentication: self.authentication@,
            body: self.body@,
            settings: self.settings@,
            documentation: self.documentation@,
        }
    }
}

/// The texts that a request is shown as.
pub open spec fn shown_texts(request: RequestView) -> EditorView {
    EditorView {
        url: request.url,
        query: fields_text(request.query),
        headers: fields_text(request.headers),
        authentication: authentication_text(request.authentication),
        body: body_text(request.body),
        settings: settings_text(request.settings),
        documentation: request.documentation,
    }
}

/// Writes the texts that a request is shown as.
pub fn editor_texts(request: &HttpRequest) -> (r: EditorTexts)
    ensures
        r@ == shown_texts(request@),
{
    EditorTexts {
        url: request.url.clone(),
        query: format_form_fields(request.query.as_slice()),
        headers: format_headers(request.headers.as_slice()),
        authentication: format_authentication(&request.authentication),
        body: editor_body(&request.body),
        settings: format_request_settings(&request.settings),
        documentation: request.documentation.clone(),
    }
}

/// The body that an edited text stands for; one that is made of fields has to be readable.
pub open spec fn checked_body(original: BodyView, text: Seq<char>) -> Result<BodyView, Seq<char>> {
    match original {
        BodyView::FormUrlEncoded(_) => match form_fields_of(text) {
            Ok(fields) => Ok(BodyView::FormUrlEncoded(fields)),
            Err(e) => Err(e),
        },
        BodyView::Multipart(_) => match parts_of(text) {
            Ok(parts) => Ok(BodyView::Multipart(parts)),
            Err(e) => Err(e),
        },
        other => Ok(edited_body(other, text)),
    }
}

fn read_body(original: &RequestBody, text: &str) -> (r: Result<RequestBody, String>)
    ensures
        outcome(r) == checked_body(original@, text@),
{
    match original {
        RequestBody::FormUrlEncoded(_) => match parse_form_fields(text) {
            Ok(fields) => Ok(RequestBody::FormUrlEncoded(fields)),
            Err(e) => Err(e),
        },
        RequestBody::Multipart(_) => match parse_multipart_fields(text) {
            Ok(parts) => Ok(RequestBody::Multipart(parts)),
            Err(e) => Err(e),
        },
        other => Ok(body_from_editor(other, text.to_owned())),
    }
}

/// The request that edited texts stand for, given what it was before.
pub open spec fn request_edited(base: RequestView, method: MethodView, texts: EditorView) -> Result<
    RequestView,
    Seq<char>,
> {
    match form_fields_of(texts.query) {
        Err(e) => Err(e),
        Ok(query) => match headers_of(texts.headers) {
            Err(e) => Err(e),
            Ok(headers) => match authentication_of(texts.authentication) {
                Err(e) => Err(e),
                Ok(authentication) => match settings_of(texts.settings) {
                    Err(e) => Err(e),
                    Ok(settings) => match checked_body(base.body, texts.body) {
                        Err(e) => Err(e),
                        Ok(body) => Ok(
                            RequestView {
                                method,
                                url: texts.url,
                                query,
                                headers,
                                authentication,
                                body,
                                settings,
                                documentation: texts.documentation,
                                ..base
                            },
                        ),
                    },
                },
            },
        },
    }
}

/// Reads the request that edited texts stand for.
pub fn read_request(base: &HttpRequest, method: &HttpMethod, texts: &EditorTexts) -> (r: Result<
    HttpRequest,
    String,
>)
    ensures
        outcome(r) == request_edited(base@, method@, texts@),
{
    let query = match parse_form_fields(texts.query.as_str()) {
        Ok(v) => v,
        Err(e) => {
            return Err(e);
        },
    };
    let headers = match parse_headers(texts.headers.as_str()) {
        Ok(v) => v,
        Err(e) => {
            return Err(e);
        },
    };
    let authentication = match parse_authentication(texts.authentication.as_str()) {
        Ok(v) => v,
        Err(e) => {
            return Err(e);
        },
    };
    let settings = match parse_request_settings(texts.settings.as_str()) {
        Ok(v) => v,
        Err(e) => {
            return Err(e);
        },
    };
    let body = match read_body(&base.body, texts.body.as_str()) {
        Ok(v) => v,
        Err(e) => {
            return Err(e);
        },
    };
    Ok(
        HttpRequest {
            id: base.id.copy(),
            name: base.name.clone(),
            method: method.copy(),
            url: texts.url.clone(),
            query,
            headers,
            authentication,
            body,
            settings,
            documentation: texts.documentation.clone(),
        },
    )
}

/// Whether every part of a request can be written as text and read again.
pub open spec fn editable_request(request: RequestView) -> bool {
    &&& forall|i: int| 0 <= i < request.query.len() ==> editable_field(#[trigger] request.query[i])
    &&& forall|i: int|
        0 <= i < request.headers.len() ==> editable_field(#[trigger] request.headers[i])
            && header_check(request.headers[i].name, request.headers[i].value) is None
    &&& editable_authentication(request.authentication)
    &&& request.body matches BodyView::FormUrlEncoded(fields) ==> forall|i: int|
        0 <= i < fields.len() ==> editable_field(#[trigger] fields[i])
    &&& request.body matches BodyView::Multipart(parts) ==> forall|i: int|
        0 <= i < parts.len() ==> editable_part(#[trigger] parts[i])
    &&& request.settings.timeout.nanoseconds == 0
    &&& request.settings.connection_timeout.nanoseconds == 0
    &&& request.settings.idle_timeout.nanoseconds == 0
}

/// A request that is shown and not edited is read as the request that it is.
pub proof fn law_unedited_request_stays(request: RequestView)
    requires
        editable_request(request),
    ensures
        request_edited(request, request.method, shown_texts(request)) == Ok::<
            RequestView,
            Seq<char>,
        >(request),
{
    law_form_fields_round_trip(request.query);
    law_headers_round_trip(request.headers);
    law_authentication_round_trip(request.authentication);
    law_request_settings_round_trip(request.settings);
    law_unchanged_body_stays(request.body);
    match request.body {
        BodyView::FormUrlEncoded(fields) => {
            law_form_fields_round_trip(fields);
        },
        BodyView::Multipart(parts) => {
            law_parts_round_trip(parts);
        },
        _ => {},
    }
}

/// Editing never changes which request it is: its identifier and its name stay.
pub proof fn law_editing_keeps_the_identity(base: RequestView, method: MethodView, texts: EditorView)
    requires
        request_edited(base, method, texts) is Ok,
    ensures
        request_edited(base, method, texts)->Ok_0.id == base.id,
        request_edited(base, method, texts)->Ok_0.name == base.name,
{
}

/// The method that comes after another when methods are gone through.
pub open spec fn next_method(method: MethodView) -> MethodView {
    match method {
        MethodView::Get => MethodView::Post,
        MethodView::Post => MethodView::Put,
        MethodView::Put => MethodView::Patch,
        MethodView::Patch => MethodView::Delete,
        _ => MethodView::Get,
    }
}

/// Finds the method that comes after another.
pub fn method_after(method: &HttpMethod) -> (r: HttpMethod)
    ensures
        r@ == next_method(method@),
{
    match method {
        HttpMethod::Get => HttpMethod::Post,
        HttpMethod::Post => HttpMethod::Put,
        HttpMethod::Put => HttpMethod::Patch,
        HttpMethod::Patch => HttpMethod::Delete,
        _ => HttpMethod::Get,
    }
}

} // verus!
