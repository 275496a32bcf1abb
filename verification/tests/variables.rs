//! Variables: which definition counts, templates and whole requests.
use apex_api::answers::{resolve_with_answers, AnswerBook};
use apex_api::domain::{
    Authentication, FormField, HeaderEntry, HttpMethod, HttpRequest, RequestBody, RequestSettings,
    StableId, ValueSensitivity,
};
use apex_api::dynamic::{system_definition, SystemMoment};
use apex_api::resolved_request::resolve_http_request;
use apex_api::resolver::{DynamicVariableProvider, ResolverOptions, VariableError, VariableResolver};
use apex_api::scope::{VariableContext, VariableScope};
use apex_api::value::{VariableDefinition, VariableValue};

struct FixedDynamic;

impl DynamicVariableProvider for FixedDynamic {
    fn resolve(&self, name: &str) -> Option<VariableDefinition> {
        if name == "$uuid" {
            Some(definition("fixed-uuid", ValueSensitivity::Public))
        } else {
            None
        }
    }
}

fn definition(value: &str, sensitivity: ValueSensitivity) -> VariableDefinition {
    VariableDefinition {
        value: VariableValue::String(value.to_owned()),
        sensitivity,
        enabled: true,
        description: None,
    }
}

fn public(context: &mut VariableContext, scope: VariableScope, name: &str, value: &str) {
    context
        .layer_mut(scope)
        .insert(name.to_owned(), definition(value, ValueSensitivity::Public));
}

#[test]
fn highest_precedence_scope_wins_and_is_traced() {
    let mut context = VariableContext::default();
    public(&mut context, VariableScope::Workspace, "host", "workspace.test");
    public(&mut context, VariableScope::Environment, "host", "environment.test");
    public(&mut context, VariableScope::Request, "host", "request.test");
    let result = VariableResolver::new(&context, &FixedDynamic, ResolverOptions::default())
        .resolve("https://{{host}}/users")
        .expect("resolves");
    assert_eq!(result.value, "https://request.test/users");
    assert_eq!(result.traces[0].selected_scope, Some(VariableScope::Request));
}

#[test]
fn resolves_nested_objects_and_defaults() {
    let mut context = VariableContext::default();
    context.layer_mut(VariableScope::Environment).insert(
        "service".to_owned(),
        VariableDefinition {
            value: VariableValue::Object(vec![(
                "host".to_owned(),
                VariableValue::String("api.test".to_owned()),
            )]),
            sensitivity: ValueSensitivity::Public,
            enabled: true,
            description: None,
        },
    );
    let result = VariableResolver::new(&context, &FixedDynamic, ResolverOptions::default())
        .resolve("{{service.host}}/{{missing|fallback}}")
        .expect("resolves");
    assert_eq!(result.value, "api.test/fallback");
}

#[test]
fn rejects_cycles() {
    let mut context = VariableContext::default();
    public(&mut context, VariableScope::Workspace, "a", "{{b}}");
    public(&mut context, VariableScope::Workspace, "b", "{{a}}");
    let error = VariableResolver::new(&context, &FixedDynamic, ResolverOptions::default())
        .resolve("{{a}}")
        .expect_err("cycle must fail");
    assert!(matches!(error, VariableError::Cycle(_)));
}

#[test]
fn reports_sensitive_resolved_values() {
    let mut context = VariableContext::default();
    context
        .layer_mut(VariableScope::Environment)
        .insert("token".to_owned(), definition("top-secret", ValueSensitivity::Secret));
    let result = VariableResolver::new(&context, &FixedDynamic, ResolverOptions::default())
        .resolve("Bearer {{token}}")
        .expect("resolves");
    assert_eq!(result.sensitive_values, ["top-secret"]);
}

#[test]
fn supports_injected_dynamic_values() {
    let context = VariableContext::default();
    let result = VariableResolver::new(&context, &FixedDynamic, ResolverOptions::default())
        .resolve("{{$uuid}}")
        .expect("resolves");
    assert_eq!(result.value, "fixed-uuid");
}

#[test]
fn each_dynamic_name_gets_its_own_answer() {
    let mut context = VariableContext::default();
    public(&mut context, VariableScope::Workspace, "id", "{{$uuid}}/{{$timestamp}}");
    let book = AnswerBook {
        answers: vec![
            ("$timestamp".to_owned(), definition("17", ValueSensitivity::Public)),
            ("$uuid".to_owned(), definition("u", ValueSensitivity::Secret)),
            ("$uuid".to_owned(), definition("later", ValueSensitivity::Public)),
        ],
    };
    let result = resolve_with_answers(
        &context,
        ResolverOptions::default(),
        &book,
        "{{$timestamp}} {{id}} {{$other|none}}",
    )
    .expect("resolves");
    assert_eq!(result.value, "17 u/17 none");
    assert_eq!(result.sensitive_values, ["u"]);
    assert_eq!(book.resolve("$other"), None);
}

#[test]
fn what_the_source_answers_may_lead_to_more_questions() {
    let context = VariableContext::default();
    let book = AnswerBook {
        answers: vec![
            ("$a".to_owned(), definition("<{{$b}}>", ValueSensitivity::Public)),
            ("$b".to_owned(), definition("b", ValueSensitivity::Public)),
        ],
    };
    let result = resolve_with_answers(&context, ResolverOptions::default(), &book, "{{$a}}");
    assert_eq!(result.expect("resolves").value, "<b>");
}

fn request_fixture() -> HttpRequest {
    HttpRequest {
        id: StableId::parse("resolve-request").expect("valid id"),
        name: "Resolve request".to_owned(),
        method: HttpMethod::Post,
        url: "https://{{host}}/users".to_owned(),
        query: vec![FormField {
            name: "token".to_owned(),
            value: "{{token}}".to_owned(),
            enabled: true,
            sensitivity: ValueSensitivity::Public,
        }],
        headers: vec![HeaderEntry::new("X-Token", "{{token}}").expect("valid header")],
        authentication: Authentication::Bearer {
            token: "{{token}}".to_owned(),
        },
        body: RequestBody::Json("{\"name\":\"{{name}}\"}".to_owned()),
        settings: RequestSettings::default(),
        documentation: String::new(),
    }
}

#[test]
fn resolves_complete_http_request_with_field_traces() {
    let mut context = VariableContext::default();
    public(&mut context, VariableScope::Environment, "host", "api.test");
    context
        .layer_mut(VariableScope::Environment)
        .insert("token".to_owned(), definition("top-secret", ValueSensitivity::Secret));
    public(&mut context, VariableScope::Request, "name", "Ada");
    let resolved = resolve_http_request(
        &request_fixture(),
        &context,
        &FixedDynamic,
        ResolverOptions::default(),
    )
    .expect("request resolves");
    assert_eq!(resolved.request.url, "https://api.test/users");
    assert_eq!(resolved.request.query[0].value, "top-secret");
    assert_eq!(resolved.request.query[0].sensitivity, ValueSensitivity::Secret);
    assert_eq!(resolved.request.headers[0].sensitivity, ValueSensitivity::Secret);
    assert_eq!(resolved.sensitive_values, ["top-secret"]);
    assert!(resolved.field_traces.iter().any(|trace| trace.field == "url"));
    assert_eq!(
        resolved.request.body,
        RequestBody::Json("{\"name\":\"Ada\"}".to_owned())
    );
}

#[test]
fn request_resolution_reports_exact_field() {
    let error = resolve_http_request(
        &request_fixture(),
        &VariableContext::default(),
        &FixedDynamic,
        ResolverOptions::default(),
    )
    .expect_err("missing host must fail");
    assert_eq!(error.field, "url");
    assert!(matches!(error.source, VariableError::Unresolved(_)));
}

fn resolve(template: &str, options: ResolverOptions) -> Result<String, VariableError> {
    let mut context = VariableContext::default();
    public(&mut context, VariableScope::Workspace, "host", "api.test");
    public(&mut context, VariableScope::Workspace, "deep", "{{deeper}}");
    public(&mut context, VariableScope::Workspace, "deeper", "{{host}}");
    VariableResolver::new(&context, &FixedDynamic, options)
        .resolve(template)
        .map(|r| r.value)
}

#[test]
fn templates_that_cannot_be_read_are_refused() {
    let options = ResolverOptions::default();
    assert_eq!(
        resolve("ab{{host", options),
        Err(VariableError::UnclosedPlaceholder { byte_offset: 2 })
    );
    assert_eq!(
        resolve("é{{ }}", options),
        Err(VariableError::EmptyPlaceholder { byte_offset: 2 })
    );
    assert_eq!(
        resolve("{{missing}} {{absent}}", options),
        Err(VariableError::Unresolved(vec![
            "absent".to_owned(),
            "missing".to_owned()
        ]))
    );
    assert_eq!(
        resolve(
            "{{deep}}",
            ResolverOptions {
                maximum_depth: 1,
                ..options
            }
        ),
        Err(VariableError::MaximumDepth(1))
    );
    assert_eq!(resolve("{{deep}}", options), Ok("api.test".to_owned()));
    assert_eq!(
        VariableError::Cycle(vec!["a".to_owned(), "b".to_owned()]).message(),
        "cyclic variable reference: a -> b"
    );
}

#[test]
fn unresolved_names_can_be_kept() {
    let options = ResolverOptions {
        strict_unresolved: false,
        preserve_unresolved: true,
        ..ResolverOptions::default()
    };
    assert_eq!(resolve("a {{missing}} b", options), Ok("a {{missing}} b".to_owned()));
    let options = ResolverOptions {
        strict_unresolved: false,
        preserve_unresolved: false,
        ..ResolverOptions::default()
    };
    assert_eq!(resolve("a {{missing}} b", options), Ok("a  b".to_owned()));
}

#[test]
fn disabled_definitions_are_passed_over() {
    let mut context = VariableContext::default();
    public(&mut context, VariableScope::Workspace, "host", "workspace.test");
    let mut off = definition("off.test", ValueSensitivity::Public);
    off.enabled = false;
    context.layer_mut(VariableScope::Request).insert("host".to_owned(), off);
    let (scope, found) = context.effective_definition("host").expect("found");
    assert_eq!(scope, VariableScope::Workspace);
    assert_eq!(found.value, VariableValue::String("workspace.test".to_owned()));
}

#[test]
fn scopes_have_labels() {
    assert_eq!(VariableScope::LocalEnvironmentOverride.label(), "local environment override");
    assert_eq!(VariableScope::Global.label(), "global");
}

#[test]
fn system_variables_come_from_the_moment() {
    let now = SystemMoment {
        random: Some([0; 16]),
        nanoseconds: 1_700_000_000_123_456_789,
        sequence: 7,
    };
    let text = |name: &str| match system_definition(name, &now) {
        Some(VariableDefinition {
            value: VariableValue::String(text),
            ..
        }) => Some(text),
        Some(d) => Some(d.value.display_value()),
        None => None,
    };
    assert_eq!(text("$timestamp"), Some("1700000000".to_owned()));
    let id = text("$uuid").expect("uuid");
    assert_eq!(id, "00000000-0000-4000-8000-000000000000");
    assert_eq!(text("$unknown"), None);
}

#[test]
fn values_are_shown_as_json() {
    let value = VariableValue::Object(vec![
        ("a".to_owned(), VariableValue::Array(vec![VariableValue::Bool(true), VariableValue::Null])),
        ("b".to_owned(), VariableValue::String("x\"y".to_owned())),
    ]);
    assert_eq!(value.display_value(), "{\"a\":[true,null],\"b\":\"x\\\"y\"}");
    assert_eq!(VariableValue::String("plain".to_owned()).display_value(), "plain");
    assert_eq!(VariableValue::Number("1.5".to_owned()).display_value(), "1.5");
}

#[test]
fn resolution_keeps_the_shape_of_a_request() {
    let mut context = VariableContext::default();
    context.layer_mut(VariableScope::Environment).insert(
        "token".to_owned(),
        definition("t", ValueSensitivity::Sensitive),
    );
    let field = |name: &str, value: &str, enabled: bool, sensitivity| FormField {
        name: name.to_owned(),
        value: value.to_owned(),
        enabled,
        sensitivity,
    };
    let mut request = request_fixture();
    request.url = "https://example.test".to_owned();
    request.body = RequestBody::FormUrlEncoded(vec![
        field("a", "{{token}}", true, ValueSensitivity::Public),
        field("b", "{{token}}", false, ValueSensitivity::Secret),
        field("c", "plain", true, ValueSensitivity::Public),
    ]);
    let resolved =
        resolve_http_request(&request, &context, &FixedDynamic, ResolverOptions::default())
            .expect("resolves");
    match resolved.request.body {
        RequestBody::FormUrlEncoded(fields) => {
            let kept: Vec<_> = fields
                .iter()
                .map(|f| (f.value.as_str(), f.enabled, f.sensitivity))
                .collect();
            assert_eq!(
                kept,
                [
                    ("t", true, ValueSensitivity::Sensitive),
                    ("t", false, ValueSensitivity::Secret),
                    ("plain", true, ValueSensitivity::Public),
                ]
            );
        }
        other => panic!("{other:?}"),
    }
}

#[test]
fn values_that_are_not_public_are_listed_in_order() {
    let mut context = VariableContext::default();
    for (name, value) in [("a", "zeta"), ("b", "alpha"), ("c", "zeta"), ("d", "Beta")] {
        context
            .layer_mut(VariableScope::Workspace)
            .insert(name.to_owned(), definition(value, ValueSensitivity::Secret));
    }
    let template = "{{a}}{{b}}{{c}}{{d}}{{y}}{{x}}";
    assert!(matches!(
        VariableResolver::new(&context, &FixedDynamic, ResolverOptions::default())
            .resolve(template),
        Err(VariableError::Unresolved(names)) if names == ["x", "y"]
    ));
    let options = ResolverOptions {
        strict_unresolved: false,
        ..ResolverOptions::default()
    };
    let result = VariableResolver::new(&context, &FixedDynamic, options)
        .resolve(template)
        .expect("resolves");
    assert_eq!(result.sensitive_values, ["Beta", "alpha", "zeta"]);
    assert_eq!(result.unresolved, ["x", "y"]);
}
