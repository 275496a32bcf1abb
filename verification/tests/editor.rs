//! Editing requests as text, preferences and the window of tabs.
use apex_api::automation::{
    judge_status, report_format, show_run_end, AutomationConfig, AutomationPanel, FailurePolicy,
    ReportFormat, RunEnd,
};
use apex_api::domain::{
    ApiKeyPlacement, Authentication, FormField, HeaderEntry, HttpMethod, Interval, MultipartField,
    MultipartValue, RequestBody, RequestSettings, ValueSensitivity,
};
use apex_api::editor::{body_from_editor, body_is_editable, default_request, editor_body};
use apex_api::editor_fields::{
    format_form_fields, format_headers, format_multipart_fields, parse_form_fields, parse_headers,
    parse_multipart_fields,
};
use apex_api::editor_request::{editor_texts, method_after, read_request};
use apex_api::editor_settings::{
    format_authentication, format_request_settings, parse_authentication, parse_request_settings,
};
use apex_api::preferences::{
    request_tab_window, UiPreferences, DEFAULT_MAXIMUM_VISIBLE_REQUEST_TABS,
};
use apex_api::request::{format_request, RequestDocument};

#[test]
fn automation_config_and_reports_are_bounded_and_explicit() {
    let config = AutomationConfig::parse(
        "concurrency=4
retries=2
failure_policy=stop
report=junit",
    )
    .expect("config");
    assert_eq!(config.concurrency, 4);
    assert_eq!(config.retries, 2);
    assert_eq!(config.failure_policy, FailurePolicy::Stop);
    assert!(AutomationConfig::parse(
        "concurrency=0
retries=0
failure_policy=continue
report=json"
    )
    .is_err());
    assert!(AutomationConfig::parse(
        "concurrency=1
retries=0
failure_policy=continue
report=unknown"
    )
    .is_err());
    assert_eq!(report_format("json"), Ok(ReportFormat::Json));
    assert_eq!(report_format("junit"), Ok(ReportFormat::Junit));
    assert_eq!(report_format("html"), Ok(ReportFormat::Html));
}

#[test]
fn automation_passes_only_good_statuses() {
    assert!(judge_status(Some(200)).passed);
    assert_eq!(judge_status(Some(200)).message, "HTTP 200");
    assert!(!judge_status(Some(500)).passed);
    assert!(!judge_status(None).passed);
}

#[test]
fn ui_preferences_validate_clamp_and_round_trip() {
    let preferences = UiPreferences::parse(
        "maximum_visible_tabs=100
reduced_motion=true
high_contrast=true",
    )
    .expect("preferences");
    assert_eq!(preferences.maximum_visible_tabs, 20);
    assert!(preferences.reduced_motion);
    assert!(preferences.high_contrast);
    assert_eq!(UiPreferences::parse(&preferences.format()), Ok(preferences));
    assert!(UiPreferences::parse("maximum_visible_tabs=abc").is_err());
    assert!(UiPreferences::parse("unknown=true").is_err());
}

#[test]
fn default_draft_is_written_as_it_is_shown() {
    let request = default_request();
    let written = format_request(&RequestDocument::new(request));
    assert!(written.contains("id = \"gui-draft\""));
    assert!(written.contains("url = \"https://httpbin.org/get\""));
    assert!(!written.contains("password"));
    assert!(!written.contains("token"));
}

#[test]
fn graphql_body_edit_preserves_variables_and_operation_name() {
    let original = RequestBody::GraphQl {
        query: "query Old { viewer { id } }".to_owned(),
        variables_json: "{\"limit\":10}".to_owned(),
        operation_name: Some("Old".to_owned()),
    };
    let edited = body_from_editor(&original, "query New { viewer { name } }".to_owned());
    assert_eq!(
        edited,
        RequestBody::GraphQl {
            query: "query New { viewer { name } }".to_owned(),
            variables_json: "{\"limit\":10}".to_owned(),
            operation_name: Some("Old".to_owned()),
        }
    );
}

#[test]
fn request_tab_window_is_bounded_and_contains_active_tab() {
    for tab_count in 0..32usize {
        for active in 0..tab_count.max(1) {
            let range = request_tab_window(
                tab_count,
                Some(active),
                DEFAULT_MAXIMUM_VISIBLE_REQUEST_TABS,
            );
            assert!(range.len() <= DEFAULT_MAXIMUM_VISIBLE_REQUEST_TABS);
            assert!(range.end <= tab_count);
            if tab_count > 0 {
                assert!(range.contains(&active.min(tab_count - 1)));
            }
        }
    }
}

#[test]
fn request_tab_window_centers_then_clamps_at_edges() {
    assert_eq!(request_tab_window(10, Some(0), 6), 0..6);
    assert_eq!(request_tab_window(10, Some(5), 6), 3..9);
    assert_eq!(request_tab_window(10, Some(9), 6), 4..10);
    assert_eq!(request_tab_window(3, Some(1), 6), 0..3);
}

#[test]
fn structured_field_formats_round_trip_duplicates_and_metadata() {
    let fields = vec![
        FormField {
            name: "tag".to_owned(),
            value: "one".to_owned(),
            enabled: true,
            sensitivity: ValueSensitivity::Public,
        },
        FormField {
            name: "tag".to_owned(),
            value: "two".to_owned(),
            enabled: false,
            sensitivity: ValueSensitivity::Sensitive,
        },
    ];
    assert_eq!(parse_form_fields(&format_form_fields(&fields)), Ok(fields));

    let mut first = HeaderEntry::new("X-Test", "one").expect("valid header");
    first.sensitivity = ValueSensitivity::Secret;
    let mut second = HeaderEntry::new("X-Test", "two").expect("valid header");
    second.enabled = false;
    let headers = vec![first, second];
    assert_eq!(parse_headers(&format_headers(&headers)), Ok(headers));
}

#[test]
fn structured_authentication_and_settings_round_trip() {
    let authentication = Authentication::ApiKey {
        name: "X-Api-Key".to_owned(),
        value: "{{secret.api_key}}".to_owned(),
        placement: ApiKeyPlacement::Header,
    };
    assert_eq!(
        parse_authentication(&format_authentication(&authentication)),
        Ok(authentication)
    );

    let settings = RequestSettings::default();
    assert_eq!(parse_request_settings(&format_request_settings(&settings)), Ok(settings));
}

#[test]
fn multipart_editor_round_trip_preserves_file_and_text_fields() {
    let fields = vec![
        MultipartField {
            name: "metadata".to_owned(),
            value: MultipartValue::Text("{}".to_owned()),
            content_type: Some("application/json".to_owned()),
            enabled: true,
            sensitivity: ValueSensitivity::Public,
        },
        MultipartField {
            name: "upload".to_owned(),
            value: MultipartValue::File {
                relative_path: "fixtures/file.bin".to_owned(),
            },
            content_type: None,
            enabled: false,
            sensitivity: ValueSensitivity::Sensitive,
        },
    ];
    assert_eq!(parse_multipart_fields(&format_multipart_fields(&fields)), Ok(fields));
}

#[test]
fn invalid_structured_editor_lines_fail_closed() {
    assert!(parse_form_fields("enabled;public;missing-pair").is_err());
    assert!(parse_headers("enabled;public;bad header=value").is_err());
    assert!(parse_authentication("bearer").is_err());
    assert!(parse_request_settings("timeout_seconds=abc").is_err());
    assert!(parse_multipart_fields("enabled;public;unknown;;name=value").is_err());
}

#[test]
fn structured_form_body_is_editable_and_round_trips() {
    let original = RequestBody::FormUrlEncoded(vec![FormField {
        name: "tag".to_owned(),
        value: "one".to_owned(),
        enabled: true,
        sensitivity: ValueSensitivity::Public,
    }]);
    assert!(body_is_editable(&original));
    assert_eq!(body_from_editor(&original, editor_body(&original)), original);
}

#[test]
fn editor_lines_say_what_is_wrong() {
    assert_eq!(
        parse_form_fields("maybe;public;a=b"),
        Err("line 1: expected enabled or disabled, found 'maybe'".to_owned())
    );
    assert_eq!(
        parse_form_fields("on;public;a=b\n\non;hidden;a=b"),
        Err("line 3: unknown sensitivity 'hidden'".to_owned())
    );
    assert_eq!(parse_form_fields("on"), Err("line 1: missing sensitivity".to_owned()));
    assert_eq!(
        parse_form_fields("on;public"),
        Err("line 1: missing name=value pair".to_owned())
    );
    assert_eq!(
        parse_form_fields("on;public; =b"),
        Err("line 1: name cannot be empty".to_owned())
    );
    assert_eq!(
        parse_authentication("digest"),
        Err("unknown authentication kind 'digest'".to_owned())
    );
    assert_eq!(
        parse_authentication("api_key\nname=a\nvalue=b\nplacement=cookie"),
        Err("unknown API-key placement 'cookie'".to_owned())
    );
    assert_eq!(
        parse_authentication("basic\nusername=a"),
        Err("authentication is missing 'password'".to_owned())
    );
    assert_eq!(
        parse_request_settings("timeout_seconds=1"),
        Err("request settings are missing 'connection_timeout_seconds'".to_owned())
    );
}

#[test]
fn a_form_field_keeps_what_stands_after_the_first_equals_sign() {
    let fields = parse_form_fields("enabled;public; name = a=b;c ").expect("reads");
    assert_eq!(fields[0].name, "name");
    assert_eq!(fields[0].value, " a=b;c ");
}

#[test]
fn request_is_read_as_it_is_shown() {
    let request = default_request();
    let texts = editor_texts(&request);
    assert_eq!(texts.url, "https://httpbin.org/get");
    assert_eq!(texts.headers, "enabled;public;Accept=application/json");
    assert_eq!(texts.authentication, "none");
    assert_eq!(read_request(&request, &request.method, &texts), Ok(request));
}

#[test]
fn edited_texts_change_the_request_and_not_its_identity() {
    let request = default_request();
    let mut texts = editor_texts(&request);
    texts.url = "https://example.test".to_owned();
    texts.query = "disabled;secret;key=value".to_owned();
    texts.body = "{}".to_owned();
    texts.authentication = "bearer\ntoken={{token}}".to_owned();
    let edited = read_request(&request, &HttpMethod::Post, &texts).expect("reads");
    assert_eq!(edited.id, request.id);
    assert_eq!(edited.name, request.name);
    assert_eq!(edited.method, HttpMethod::Post);
    assert_eq!(edited.query[0].sensitivity, ValueSensitivity::Secret);
    assert_eq!(edited.body, RequestBody::Json("{}".to_owned()));
    assert_eq!(
        edited.authentication,
        Authentication::Bearer {
            token: "{{token}}".to_owned()
        }
    );
    texts.headers = "enabled;public;bad header=x".to_owned();
    assert!(read_request(&request, &HttpMethod::Post, &texts).is_err());
}

#[test]
fn methods_are_gone_through() {
    let mut method = HttpMethod::Get;
    let mut seen = Vec::new();
    for _ in 0..6 {
        seen.push(method.as_str().to_owned());
        method = method_after(&method);
    }
    assert_eq!(seen, ["GET", "POST", "PUT", "PATCH", "DELETE", "GET"]);
    assert_eq!(method_after(&HttpMethod::Trace), HttpMethod::Get);
}

#[test]
fn intervals_are_counted_in_milliseconds() {
    let interval = Interval::from_millis(1500);
    assert_eq!(interval.as_secs(), 1);
    assert_eq!(interval.as_millis(), 1500);
    assert_eq!(Interval::from_secs(30).as_millis(), 30_000);
}

#[test]
fn the_end_of_a_run_is_shown() {
    assert_eq!(show_run_end(RunEnd::Reported("{}".to_owned())), "{}");
    assert_eq!(
        show_run_end(RunEnd::Failed("no items".to_owned())),
        "Collection run failed: no items"
    );
    assert_eq!(
        show_run_end(RunEnd::Lost("closed".to_owned())),
        "Collection run channel failed: closed"
    );
    let mut panel = AutomationPanel::new();
    assert_eq!(
        panel.output,
        "Run a workspace collection to inspect live progress and reports."
    );
    assert!(!panel.cancel());
    panel.begin(3);
    assert!(panel.running);
    assert_eq!(panel.output, "Running 3 request(s)\u{2026}");
    assert!(panel.cancel());
    assert!(!panel.running);
    assert_eq!(panel.output, "Cancellation requested\u{2026}");
    assert!(!panel.cancel());
    assert_eq!(panel.output, "Cancellation requested\u{2026}");
    panel.finish(RunEnd::Failed("cancelled".to_owned()));
    assert_eq!(panel.output, "Collection run failed: cancelled");
}

#[test]
fn every_body_is_editable() {
    for body in [
        RequestBody::Empty,
        RequestBody::Json("{}".to_owned()),
        RequestBody::Xml("<a/>".to_owned()),
        RequestBody::StreamFile {
            relative_path: "a.bin".to_owned(),
        },
    ] {
        assert!(body_is_editable(&body));
    }
}
