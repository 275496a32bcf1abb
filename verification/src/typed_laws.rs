//! What typing promises: what is typed is what is read, and what is read is shown as typed.
use crate::domain::{
    AuthenticationView, BodyView, FormFieldView, MethodView, MultipartFieldView,
    MultipartValueView, RequestView, ValueSensitivity,
};
use crate::editor::body_text;
use crate::editor_fields::{field_line, form_fields_of, part_line, parts_of};
use crate::editor_request::{request_edited, EditorView};
use crate::editor_settings::{authentication_lines, settings_with, Settings};
use crate::number::{decimal, parse_unsigned};
use crate::preferences::{with_setting, UiPreferences};
use crate::response::{event_text, ExecutionEvent};
use vstd::prelude::*;

verus! {

/// The body of a request is what is typed for it: its text is the typed one and all else of it
/// stays, and the fields of a form are what the typed lines read as. Text that is typed where
/// there was no body makes one of JSON.
pub proof fn law_typed_bodies_are_read(base: RequestView, method: MethodView, texts: EditorView)
    ensures
        request_edited(base, method, texts) matches Ok(r) ==> match base.body {
            BodyView::Empty => if texts.body.len() == 0 {
                r.body is Empty
            } else {
                r.body == BodyView::Json(texts.body)
            },
            BodyView::Json(_) => r.body == BodyView::Json(texts.body),
            BodyView::Xml(_) => r.body == BodyView::Xml(texts.body),
            BodyView::Text { content_type, .. } => body_text(r.body) == texts.body && r.body is Text
                && r.body->Text_content_type == content_type,
            BodyView::GraphQl { variables_json, operation_name, .. } => body_text(r.body)
                == texts.body && r.body is GraphQl && r.body->variables_json == variables_json
                && r.body->operation_name == operation_name,
            BodyView::FormUrlEncoded(_) => r.body is FormUrlEncoded && form_fields_of(texts.body)
                == Ok::<Seq<FormFieldView>, Seq<char>>(r.body->FormUrlEncoded_0),
            BodyView::Multipart(_) => r.body is Multipart && parts_of(texts.body) == Ok::<
                Seq<MultipartFieldView>,
                Seq<char>,
            >(r.body->Multipart_0),
            BodyView::BinaryFile { .. } => r.body is BinaryFile && body_text(r.body)
                == texts.body,
            BodyView::StreamFile { .. } => r.body is StreamFile && body_text(r.body)
                == texts.body,
        },
{
}

/// Whether a number is typed under a key.
pub open spec fn typed_number(m: Settings, key: Seq<char>, limit: int, n: int) -> bool {
    m.dom().contains(key) && parse_unsigned(m[key], limit) == Some(n)
}

/// Whether a switch is typed under a key.
pub open spec fn typed_switch(m: Settings, key: Seq<char>, on: bool) -> bool {
    m.dom().contains(key) && m[key] == (if on {
        "true"@
    } else {
        "false"@
    })
}

proof fn lemma_typed_number_fits(m: Settings, key: Seq<char>, limit: int)
    ensures
        parse_unsigned(m[key], limit) matches Some(n) ==> 0 <= n <= limit,
{
    if parse_unsigned(m[key], limit) is Some {
        let digits = crate::number::unsigned_digits(m[key]);
        crate::number::lemma_digits_value_bounds(digits, digits.len() as int);
        assert(digits.take(digits.len() as int) =~= digits);
    }
}

/// How a request is sent is what is typed, each setting under its own key: the times in whole
/// seconds.
pub proof fn law_typed_settings_are_read(m: Settings)
    ensures
        settings_with(m) matches Ok(s) ==> {
            &&& typed_number(m, "timeout_seconds"@, u64::MAX as int, s.timeout.seconds as int)
            &&& typed_number(
                m,
                "connection_timeout_seconds"@,
                u64::MAX as int,
                s.connection_timeout.seconds as int,
            )
            &&& typed_number(
                m,
                "idle_timeout_seconds"@,
                u64::MAX as int,
                s.idle_timeout.seconds as int,
            )
            &&& typed_number(
                m,
                "maximum_response_bytes"@,
                u64::MAX as int,
                s.maximum_response_bytes as int,
            )
            &&& typed_number(
                m,
                "maximum_wire_response_bytes"@,
                u64::MAX as int,
                s.maximum_wire_response_bytes as int,
            )
            &&& typed_number(m, "redirect_limit"@, u16::MAX as int, s.redirect_limit as int)
            &&& typed_switch(m, "follow_redirects"@, s.follow_redirects)
            &&& typed_switch(m, "verify_certificates"@, s.verify_certificates)
            &&& typed_switch(m, "cookie_jar"@, s.cookie_jar)
            &&& typed_switch(m, "decompress_response"@, s.decompress_response)
        },
{
    lemma_typed_number_fits(m, "timeout_seconds"@, u64::MAX as int);
    lemma_typed_number_fits(m, "connection_timeout_seconds"@, u64::MAX as int);
    lemma_typed_number_fits(m, "idle_timeout_seconds"@, u64::MAX as int);
    lemma_typed_number_fits(m, "maximum_response_bytes"@, u64::MAX as int);
    lemma_typed_number_fits(m, "maximum_wire_response_bytes"@, u64::MAX as int);
    lemma_typed_number_fits(m, "redirect_limit"@, u16::MAX as int);
}

/// The word for a sensitivity.
pub open spec fn sensitivity_word(s: ValueSensitivity) -> Seq<char> {
    match s {
        ValueSensitivity::Public => "public"@,
        ValueSensitivity::Sensitive => "sensitive"@,
        ValueSensitivity::Secret => "secret"@,
    }
}

/// The word for whether something is in use.
pub open spec fn use_word(enabled: bool) -> Seq<char> {
    if enabled {
        "enabled"@
    } else {
        "disabled"@
    }
}

/// A named value is shown in a line: whether it is in use, how secret it is, and its name and
/// its value. The line of a part of a body also tells of what kind it is and of what type.
pub proof fn law_named_values_are_shown(f: FormFieldView, p: MultipartFieldView)
    ensures
        field_line(f) == use_word(f.enabled) + seq![';'] + sensitivity_word(f.sensitivity)
            + seq![';'] + (f.name + seq!['='] + f.value),
        part_line(p) == use_word(p.enabled) + seq![';'] + (sensitivity_word(p.sensitivity)
            + seq![';'] + ((if p.value is Text {
            "text"@
        } else {
            "file"@
        }) + seq![';'] + ((match p.content_type {
            Some(t) => t,
            None => seq![],
        }) + seq![';'] + (p.name + seq!['='] + (match p.value {
            MultipartValueView::Text(t) => t,
            MultipartValueView::File { relative_path } => relative_path,
        }))))),
{
}

/// What proves who sends a request is shown line by line: of what kind it is, and every
/// credential under its own key.
pub proof fn law_credentials_are_shown(a: AuthenticationView)
    ensures
        match a {
            AuthenticationView::Anonymous => authentication_lines(a) == seq!["none"@],
            AuthenticationView::Basic { username, password } => authentication_lines(a) == seq![
                "basic"@,
                "username"@ + seq!['='] + username,
                "password"@ + seq!['='] + password,
            ],
            AuthenticationView::Bearer { token } => authentication_lines(a) == seq![
                "bearer"@,
                "token"@ + seq!['='] + token,
            ],
            AuthenticationView::ApiKey { name, value, placement } => authentication_lines(a)
                == seq![
                "api_key"@,
                "placement"@ + seq!['='] + (if placement is Header {
                    "header"@
                } else {
                    "query"@
                }),
                "name"@ + seq!['='] + name,
                "value"@ + seq!['='] + value,
            ],
        },
{
}

/// A preference is set by its own key, and the others stay.
pub proof fn law_preferences_are_set_one_by_one(p: UiPreferences, value: Seq<char>)
    ensures
        with_setting(p, "maximum_visible_tabs"@, value) matches Ok(q) ==> q.reduced_motion
            == p.reduced_motion && q.high_contrast == p.high_contrast,
        with_setting(p, "reduced_motion"@, value) matches Ok(q) ==> value == use_truth(
            q.reduced_motion,
        ) && q.maximum_visible_tabs == p.maximum_visible_tabs && q.high_contrast
            == p.high_contrast,
        with_setting(p, "high_contrast"@, value) matches Ok(q) ==> value == use_truth(
            q.high_contrast,
        ) && q.maximum_visible_tabs == p.maximum_visible_tabs && q.reduced_motion
            == p.reduced_motion,
{
    reveal_strlit("maximum_visible_tabs");
    reveal_strlit("reduced_motion");
    reveal_strlit("high_contrast");
    assert("maximum_visible_tabs"@[0] == 'm' && "reduced_motion"@[0] == 'r' && "high_contrast"@[0]
        == 'h');
}

/// The word for a truth value.
pub open spec fn use_truth(b: bool) -> Seq<char> {
    if b {
        "true"@
    } else {
        "false"@
    }
}

/// What happens while a request is carried out is told for what it is.
pub proof fn law_events_are_told_for_what_they_are(event: ExecutionEvent)
    ensures
        match event {
            ExecutionEvent::Started { execution_id } => event_text(event) == "Started "@
                + execution_id@,
            ExecutionEvent::PhaseStarted(phase) => event_text(event) == "Phase: "@ + phase@,
            ExecutionEvent::UploadProgress { sent_bytes, total_bytes } => event_text(event)
                == "Upload: "@ + decimal(sent_bytes as nat) + "/"@ + (match total_bytes {
                Some(n) => decimal(n as nat),
                None => "?"@,
            }),
            ExecutionEvent::ResponseHeaders { status, http_version } => event_text(event)
                == "Response: "@ + decimal(status as nat) + " "@ + http_version@,
            ExecutionEvent::DownloadProgress { received_bytes, total_bytes } => event_text(event)
                == "Download: "@ + decimal(received_bytes as nat) + "/"@ + (match total_bytes {
                Some(n) => decimal(n as nat),
                None => "?"@,
            }),
            ExecutionEvent::StreamItem { sequence, kind, preview } => event_text(event)
                == "Stream "@ + decimal(sequence as nat) + " ["@ + kind@ + "]: "@ + preview@,
            ExecutionEvent::Completed => event_text(event) == "Completed"@,
            ExecutionEvent::Cancelled => event_text(event) == "Cancelled"@,
            ExecutionEvent::Failed { category, redacted_summary } => event_text(event)
                == "Failed ["@ + category@ + "]: "@ + redacted_summary@,
        },
{
}

} // verus!
