//! What a request is made of.
use crate::text::{
    ascii_alphanumeric, ascii_lowercase, chars_of, control, copy_optional_text, is_ascii_alphanumeric,
    is_control, optional_text, same_chars, same_text, texts, to_ascii_lower,
};
use vstd::prelude::*;
use vstd::string::*;

verus! {

/// Why a value of the domain was refused.
#[derive(Clone, Copy, Debug, PartialEq, Eq, Structural)]
pub enum DomainError {
    InvalidIdentifier,
    InvalidMethod,
    InvalidHeaderName,
    InvalidHeaderValue,
    InvalidSecretReference,
}

/// What a refusal says.
pub open spec fn domain_message(error: DomainError) -> Seq<char> {
    match error {
        DomainError::InvalidIdentifier =>
            "identifiers must be non-empty and contain only letters, digits, '-' or '_'"@,
        DomainError::InvalidMethod => "HTTP methods must be non-empty tokens"@,
        DomainError::InvalidHeaderName => "header names must be non-empty visible ASCII without ':'"@,
        DomainError::InvalidHeaderValue => "header values cannot contain control characters"@,
        DomainError::InvalidSecretReference =>
            "secret references need a namespace without '/' and a name"@,
    }
}

impl DomainError {
    /// What the refusal says.
    pub fn message(&self) -> (text: String)
        ensures
            text@ == domain_message(*self),
    {
        match self {
            DomainError::InvalidIdentifier =>
                "identifiers must be non-empty and contain only letters, digits, '-' or '_'".to_owned(),
            DomainError::InvalidMethod => "HTTP methods must be non-empty tokens".to_owned(),
            DomainError::InvalidHeaderName =>
                "header names must be non-empty visible ASCII without ':'".to_owned(),
            DomainError::InvalidHeaderValue =>
                "header values cannot contain control characters".to_owned(),
            DomainError::InvalidSecretReference =>
                "secret references need a namespace without '/' and a name".to_owned(),
        }
    }
}

/// Whether a character may stand in a slug or an identifier.
pub open spec fn is_slug_char(c: char) -> bool {
    is_ascii_alphanumeric(c) || c == '-' || c == '_'
}

/// Whether a text can name a file or a resource of a workspace.
pub open spec fn is_slug(s: Seq<char>) -> bool {
    s.len() > 0 && forall|i: int| 0 <= i < s.len() ==> is_slug_char(#[trigger] s[i])
}

/// Tests whether a text is a slug.
pub fn valid_slug(text: &str) -> (r: bool)
    ensures
        r == is_slug(text@),
{
    let s = chars_of(text);
    if s.len() == 0 {
        return false;
    }
    for i in 0..s.len()
        invariant
            s@ == text@,
            forall|j: int| 0 <= j < i ==> is_slug_char(#[trigger] s@[j]),
    {
        let c = s[i];
        if !(ascii_alphanumeric(c) || c == '-' || c == '_') {
            assert(!is_slug_char(s@[i as int]));
            return false;
        }
    }
    true
}

/// An identifier that stays with a resource when it is renamed or moved.
#[derive(Clone, Debug, PartialEq, Eq, Hash, PartialOrd, Ord)]
pub struct StableId {
    pub text: String,
}

impl View for StableId {
    type V = Seq<char>;

    open spec fn view(&self) -> Seq<char> {
        self.text@
    }
}

/// The identifier that a text writes.
pub open spec fn parse_id(text: Seq<char>) -> Result<Seq<char>, DomainError> {
    if is_slug(text) {
        Ok(text)
    } else {
        Err(DomainError::InvalidIdentifier)
    }
}

impl StableId {
    /// Whether the identifier is one that can be read.
    pub open spec fn wf(&self) -> bool {
        is_slug(self@)
    }

    /// Reads an identifier.
    pub fn parse(text: &str) -> (r: Result<StableId, DomainError>)
        ensures
            match r {
                Ok(id) => parse_id(text@) == Ok::<Seq<char>, DomainError>(id@),
                Err(e) => parse_id(text@) == Err::<Seq<char>, DomainError>(e),
            },
    {
        if valid_slug(text) {
            Ok(StableId { text: text.to_owned() })
        } else {
            Err(DomainError::InvalidIdentifier)
        }
    }

    /// The identifier as text.
    pub fn as_str(&self) -> (r: &str)
        ensures
            r@ == self@,
    {
        self.text.as_str()
    }

    /// The same identifier.
    pub fn copy(&self) -> (r: StableId)
        ensures
            r@ == self@,
    {
        StableId { text: self.text.clone() }
    }
}

/// The method of a request.
#[derive(Clone, Debug, PartialEq, Eq)]
pub enum HttpMethod {
    Get,
    Post,
    Put,
    Patch,
    Delete,
    Head,
    Options,
    Trace,
    Connect,
    Custom(String),
}

/// The method of a request, by its contents.
#[verifier::ext_equal]
pub enum MethodView {
    Get,
    Post,
    Put,
    Patch,
    Delete,
    Head,
    Options,
    Trace,
    Connect,
    Custom(Seq<char>),
}

impl View for HttpMethod {
    type V = MethodView;

    open spec fn view(&self) -> MethodView {
        match self {
            HttpMethod::Get => MethodView::Get,
            HttpMethod::Post => MethodView::Post,
            HttpMethod::Put => MethodView::Put,
            HttpMethod::Patch => MethodView::Patch,
            HttpMethod::Delete => MethodView::Delete,
            HttpMethod::Head => MethodView::Head,
            HttpMethod::Options => MethodView::Options,
            HttpMethod::Trace => MethodView::Trace,
            HttpMethod::Connect => MethodView::Connect,
            HttpMethod::Custom(text) => MethodView::Custom(text@),
        }
    }
}

/// The name of a method.
pub open spec fn method_text(m: MethodView) -> Seq<char> {
    match m {
        MethodView::Get => "GET"@,
        MethodView::Post => "POST"@,
        MethodView::Put => "PUT"@,
        MethodView::Patch => "PATCH"@,
        MethodView::Delete => "DELETE"@,
        MethodView::Head => "HEAD"@,
        MethodView::Options => "OPTIONS"@,
        MethodView::Trace => "TRACE"@,
        MethodView::Connect => "CONNECT"@,
        MethodView::Custom(text) => text,
    }
}

/// Whether a character may stand in a token of HTTP.
pub open spec fn is_token_char(c: char) -> bool {
    is_ascii_alphanumeric(c) || "!#$%&'*+-.^_`|~"@.contains(c)
}

/// Whether a text is a token of HTTP.
pub open spec fn is_token(s: Seq<char>) -> bool {
    s.len() > 0 && forall|i: int| 0 <= i < s.len() ==> is_token_char(#[trigger] s[i])
}

fn valid_token(text: &str) -> (r: bool)
    ensures
        r == is_token(text@),
{
    let s = chars_of(text);
    let extra = chars_of("!#$%&'*+-.^_`|~");
    if s.len() == 0 {
        return false;
    }
    for i in 0..s.len()
        invariant
            s@ == text@,
            extra@ == "!#$%&'*+-.^_`|~"@,
            forall|j: int| 0 <= j < i ==> is_token_char(#[trigger] s@[j]),
    {
        let c = s[i];
        let mut known = ascii_alphanumeric(c);
        let mut j: usize = 0;
        while j < extra.len() && !known
            invariant
                j <= extra@.len(),
                extra@ == "!#$%&'*+-.^_`|~"@,
                known ==> is_token_char(c),
                !known ==> !is_ascii_alphanumeric(c) && forall|k: int|
                    0 <= k < j ==> extra@[k] != c,
            decreases extra@.len() - j,
        {
            if extra[j] == c {
                known = true;
            }
            j += 1;
        }
        if !known {
            assert(!is_token_char(s@[i as int]));
            return false;
        }
    }
    true
}

/// The method that a text names.
pub open spec fn parse_method(text: Seq<char>) -> Result<MethodView, DomainError> {
    if text == "GET"@ {
        Ok(MethodView::Get)
    } else if text == "POST"@ {
        Ok(MethodView::Post)
    } else if text == "PUT"@ {
        Ok(MethodView::Put)
    } else if text == "PATCH"@ {
        Ok(MethodView::Patch)
    } else if text == "DELETE"@ {
        Ok(MethodView::Delete)
    } else if text == "HEAD"@ {
        Ok(MethodView::Head)
    } else if text == "OPTIONS"@ {
        Ok(MethodView::Options)
    } else if text == "TRACE"@ {
        Ok(MethodView::Trace)
    } else if text == "CONNECT"@ {
        Ok(MethodView::Connect)
    } else if is_token(text) {
        Ok(MethodView::Custom(text))
    } else {
        Err(DomainError::InvalidMethod)
    }
}

/// Whether a method is read back from its name.
pub open spec fn method_valid(m: MethodView) -> bool {
    parse_method(method_text(m)) == Ok::<MethodView, DomainError>(m)
}

impl HttpMethod {
    /// The name of the method.
    pub fn as_str(&self) -> (r: &str)
        ensures
            r@ == method_text(self@),
    {
        match self {
            HttpMethod::Get => "GET",
            HttpMethod::Post => "POST",
            HttpMethod::Put => "PUT",
            HttpMethod::Patch => "PATCH",
            HttpMethod::Delete => "DELETE",
            HttpMethod::Head => "HEAD",
            HttpMethod::Options => "OPTIONS",
            HttpMethod::Trace => "TRACE",
            HttpMethod::Connect => "CONNECT",
            HttpMethod::Custom(text) => text.as_str(),
        }
    }

    /// Reads the name of a method.
    pub fn parse(text: &str) -> (r: Result<HttpMethod, DomainError>)
        ensures
            match r {
                Ok(m) => parse_method(text@) == Ok::<MethodView, DomainError>(m@),
                Err(e) => parse_method(text@) == Err::<MethodView, DomainError>(e),
            },
    {
        if same_text(text, "GET") {
            Ok(HttpMethod::Get)
        } else if same_text(text, "POST") {
            Ok(HttpMethod::Post)
        } else if same_text(text, "PUT") {
            Ok(HttpMethod::Put)
        } else if same_text(text, "PATCH") {
            Ok(HttpMethod::Patch)
        } else if same_text(text, "DELETE") {
            Ok(HttpMethod::Delete)
        } else if same_text(text, "HEAD") {
            Ok(HttpMethod::Head)
        } else if same_text(text, "OPTIONS") {
            Ok(HttpMethod::Options)
        } else if same_text(text, "TRACE") {
            Ok(HttpMethod::Trace)
        } else if same_text(text, "CONNECT") {
            Ok(HttpMethod::Connect)
        } else if valid_token(text) {
            Ok(HttpMethod::Custom(text.to_owned()))
        } else {
            Err(DomainError::InvalidMethod)
        }
    }

    /// The same method.
    pub fn copy(&self) -> (r: HttpMethod)
        ensures
            r@ == self@,
    {
        match self {
            HttpMethod::Get => HttpMethod::Get,
            HttpMethod::Post => HttpMethod::Post,
            HttpMethod::Put => HttpMethod::Put,
            HttpMethod::Patch => HttpMethod::Patch,
            HttpMethod::Delete => HttpMethod::Delete,
            HttpMethod::Head => HttpMethod::Head,
            HttpMethod::Options => HttpMethod::Options,
            HttpMethod::Trace => HttpMethod::Trace,
            HttpMethod::Connect => HttpMethod::Connect,
            HttpMethod::Custom(text) => HttpMethod::Custom(text.clone()),
        }
    }
}

/// How carefully a value has to be handled.
#[derive(Clone, Copy, Debug, PartialEq, Eq, Structural, Hash, PartialOrd, Ord)]
pub enum ValueSensitivity {
    Public,
    Sensitive,
    Secret,
}

/// The stronger of two sensitivities.
pub open spec fn strongest(a: ValueSensitivity, b: ValueSensitivity) -> ValueSensitivity {
    if a == ValueSensitivity::Secret || b == ValueSensitivity::Secret {
        ValueSensitivity::Secret
    } else if a == ValueSensitivity::Sensitive || b == ValueSensitivity::Sensitive {
        ValueSensitivity::Sensitive
    } else {
        ValueSensitivity::Public
    }
}

/// The stronger of two sensitivities.
pub fn strongest_sensitivity(left: ValueSensitivity, right: ValueSensitivity) -> (r:
    ValueSensitivity)
    ensures
        r == strongest(left, right),
{
    match (left, right) {
        (ValueSensitivity::Secret, _) | (_, ValueSensitivity::Secret) => ValueSensitivity::Secret,
        (ValueSensitivity::Sensitive, _) | (_, ValueSensitivity::Sensitive) =>
            ValueSensitivity::Sensitive,
        _ => ValueSensitivity::Public,
    }
}

/// The name of a sensitivity.
pub open spec fn sensitivity_text(s: ValueSensitivity) -> Seq<char> {
    match s {
        ValueSensitivity::Public => "public"@,
        ValueSensitivity::Sensitive => "sensitive"@,
        ValueSensitivity::Secret => "secret"@,
    }
}

/// The name of a sensitivity.
pub fn sensitivity_name(value: ValueSensitivity) -> (r: &'static str)
    ensures
        r@ == sensitivity_text(value),
{
    match value {
        ValueSensitivity::Public => "public",
        ValueSensitivity::Sensitive => "sensitive",
        ValueSensitivity::Secret => "secret",
    }
}

/// The sensitivity that a text names.
pub open spec fn named_sensitivity(text: Seq<char>) -> Option<ValueSensitivity> {
    if text == "public"@ {
        Some(ValueSensitivity::Public)
    } else if text == "sensitive"@ {
        Some(ValueSensitivity::Sensitive)
    } else if text == "secret"@ {
        Some(ValueSensitivity::Secret)
    } else {
        None
    }
}

/// Reads the name of a sensitivity.
pub fn sensitivity_named(text: &str) -> (r: Option<ValueSensitivity>)
    ensures
        r == named_sensitivity(text@),
{
    if same_text(text, "public") {
        Some(ValueSensitivity::Public)
    } else if same_text(text, "sensitive") {
        Some(ValueSensitivity::Sensitive)
    } else if same_text(text, "secret") {
        Some(ValueSensitivity::Secret)
    } else {
        None
    }
}

/// A sensitivity is read back from its name.
pub proof fn lemma_sensitivity_named(s: ValueSensitivity)
    ensures
        named_sensitivity(sensitivity_text(s)) == Some(s),
{
    reveal_strlit("public");
    reveal_strlit("sensitive");
    reveal_strlit("secret");
    assert("public"@.len() == 6 && "sensitive"@.len() == 9 && "secret"@.len() == 6);
    assert("public"@[0] == 'p' && "secret"@[0] == 's');
}

/// A named value: of a query or of a form.
#[derive(Clone, Debug, PartialEq, Eq)]
pub struct FormField {
    pub name: String,
    pub value: String,
    pub enabled: bool,
    pub sensitivity: ValueSensitivity,
}

/// A named value, by its contents.
#[verifier::ext_equal]
pub struct FormFieldView {
    pub name: Seq<char>,
    pub value: Seq<char>,
    pub enabled: bool,
    pub sensitivity: ValueSensitivity,
}

impl View for FormField {
    type V = FormFieldView;

    open spec fn view(&self) -> FormFieldView {
        FormFieldView {
            name: self.name@,
            value: self.value@,
            enabled: self.enabled,
            sensitivity: self.sensitivity,
        }
    }
}

/// The contents of a list of named values.
pub open spec fn form_views(list: Seq<FormField>) -> Seq<FormFieldView> {
    list.map_values(|f: FormField| f@)
}

impl FormField {
    /// The same named value.
    pub fn copy(&self) -> (r: FormField)
        ensures
            r@ == self@,
    {
        FormField {
            name: self.name.clone(),
            value: self.value.clone(),
            enabled: self.enabled,
            sensitivity: self.sensitivity,
        }
    }
}

/// The same named values.
pub fn copy_form(list: &[FormField]) -> (r: Vec<FormField>)
    ensures
        form_views(r@) == form_views(list@),
{
    let mut r: Vec<FormField> = Vec::new();
    for i in 0..list.len()
        invariant
            r@.len() == i,
            forall|k: int| 0 <= k < i ==> (#[trigger] r@[k])@ == list@[k]@,
    {
        r.push(list[i].copy());
    }
    assert(form_views(r@) =~= form_views(list@));
    r
}

/// A header of a request.
#[derive(Clone, Debug, PartialEq, Eq)]
pub struct HeaderEntry {
    pub name: String,
    pub value: String,
    pub enabled: bool,
    pub sensitivity: ValueSensitivity,
}

impl View for HeaderEntry {
    type V = FormFieldView;

    open spec fn view(&self) -> FormFieldView {
        FormFieldView {
            name: self.name@,
            value: self.value@,
            enabled: self.enabled,
            sensitivity: self.sensitivity,
        }
    }
}

/// The contents of a list of headers.
pub open spec fn header_views(list: Seq<HeaderEntry>) -> Seq<FormFieldView> {
    list.map_values(|h: HeaderEntry| h@)
}

/// Whether a text can name a header: visible ASCII characters but no colon.
pub open spec fn is_header_name(s: Seq<char>) -> bool {
    s.len() > 0 && forall|i: int|
        0 <= i < s.len() ==> 0x21 <= (#[trigger] s[i]) as int <= 0x7e && s[i] != ':'
}

/// Whether a text can be the value of a header: no control character but a tab.
pub open spec fn is_header_value(s: Seq<char>) -> bool {
    forall|i: int| 0 <= i < s.len() ==> !is_control(#[trigger] s[i]) || s[i] == '\t'
}

/// What is wrong with a header, if anything.
pub open spec fn header_check(name: Seq<char>, value: Seq<char>) -> Option<DomainError> {
    if !is_header_name(name) {
        Some(DomainError::InvalidHeaderName)
    } else if !is_header_value(value) {
        Some(DomainError::InvalidHeaderValue)
    } else {
        None
    }
}

fn header_name_char(c: char) -> (r: bool)
    ensures
        r == (0x21 <= c as int <= 0x7e && c != ':'),
{
    let n: u32 = c as u32;
    0x21 <= n && n <= 0x7e && c != ':'
}

fn check_header(name: &str, value: &str) -> (r: Option<DomainError>)
    ensures
        r == header_check(name@, value@),
{
    let n = chars_of(name);
    let v = chars_of(value);
    if n.len() == 0 {
        return Some(DomainError::InvalidHeaderName);
    }
    for i in 0..n.len()
        invariant
            n@ == name@,
            forall|j: int|
                0 <= j < i ==> 0x21 <= (#[trigger] n@[j]) as int <= 0x7e && n@[j] != ':',
    {
        if !header_name_char(n[i]) {
            let ghost bad = n@[i as int];
            return Some(DomainError::InvalidHeaderName);
        }
    }
    for i in 0..v.len()
        invariant
            v@ == value@,
            is_header_name(name@),
            forall|j: int| 0 <= j < i ==> !is_control(#[trigger] v@[j]) || v@[j] == '\t',
    {
        if control(v[i]) && v[i] != '\t' {
            let ghost bad = v@[i as int];
            return Some(DomainError::InvalidHeaderValue);
        }
    }
    None
}

impl HeaderEntry {
    /// A header that is sent and holds nothing to hide.
    pub fn new(name: &str, value: &str) -> (r: Result<HeaderEntry, DomainError>)
        ensures
            match r {
                Ok(h) => header_check(name@, value@) is None && h@ == (FormFieldView {
                    name: name@,
                    value: value@,
                    enabled: true,
                    sensitivity: ValueSensitivity::Public,
                }),
                Err(e) => header_check(name@, value@) == Some(e),
            },
    {
        match check_header(name, value) {
            Some(e) => Err(e),
            None => Ok(
                HeaderEntry {
                    name: name.to_owned(),
                    value: value.to_owned(),
                    enabled: true,
                    sensitivity: ValueSensitivity::Public,
                },
            ),
        }
    }

    /// The same header.
    pub fn copy(&self) -> (r: HeaderEntry)
        ensures
            r@ == self@,
    {
        HeaderEntry {
            name: self.name.clone(),
            value: self.value.clone(),
            enabled: self.enabled,
            sensitivity: self.sensitivity,
        }
    }
}

/// The same headers.
pub fn copy_headers(list: &[HeaderEntry]) -> (r: Vec<HeaderEntry>)
    ensures
        header_views(r@) == header_views(list@),
{
    let mut r: Vec<HeaderEntry> = Vec::new();
    for i in 0..list.len()
        invariant
            r@.len() == i,
            forall|k: int| 0 <= k < i ==> (#[trigger] r@[k])@ == list@[k]@,
    {
        r.push(list[i].copy());
    }
    assert(header_views(r@) =~= header_views(list@));
    r
}

/// Where an API key is sent.
#[derive(Clone, Copy, Debug, PartialEq, Eq, Structural)]
pub enum ApiKeyPlacement {
    Header,
    Query,
}

/// How a request identifies its sender.
#[derive(Clone, Debug, PartialEq, Eq)]
pub enum Authentication {
    Anonymous,
    Basic { username: String, password: String },
    Bearer { token: String },
    ApiKey { name: String, value: String, placement: ApiKeyPlacement },
}

/// How a request identifies its sender, by its contents.
#[verifier::ext_equal]
pub enum AuthenticationView {
    Anonymous,
    Basic { username: Seq<char>, password: Seq<char> },
    Bearer { token: Seq<char> },
    ApiKey { name: Seq<char>, value: Seq<char>, placement: ApiKeyPlacement },
}

impl View for Authentication {
    type V = AuthenticationView;

    open spec fn view(&self) -> AuthenticationView {
        match self {
            Authentication::Anonymous => AuthenticationView::Anonymous,
            Authentication::Basic { username, password } => AuthenticationView::Basic {
                username: username@,
                password: password@,
            },
            Authentication::Bearer { token } => AuthenticationView::Bearer { token: token@ },
            Authentication::ApiKey { name, value, placement } => AuthenticationView::ApiKey {
                name: name@,
                value: value@,
                placement: *placement,
            },
        }
    }
}

/// The name of a kind of authentication.
pub open spec fn authentication_kind(a: AuthenticationView) -> Seq<char> {
    match a {
        AuthenticationView::Anonymous => "none"@,
        AuthenticationView::Basic { .. } => "basic"@,
        AuthenticationView::Bearer { .. } => "bearer"@,
        AuthenticationView::ApiKey { .. } => "api_key"@,
    }
}

impl Authentication {
    /// The name of the kind of authentication.
    pub fn kind(&self) -> (r: &'static str)
        ensures
            r@ == authentication_kind(self@),
    {
        match self {
            Authentication::Anonymous => "none",
            Authentication::Basic { .. } => "basic",
            Authentication::Bearer { .. } => "bearer",
            Authentication::ApiKey { .. } => "api_key",
        }
    }

    /// The same authentication.
    pub fn copy(&self) -> (r: Authentication)
        ensures
            r@ == self@,
    {
        match self {
            Authentication::Anonymous => Authentication::Anonymous,
            Authentication::Basic { username, password } => Authentication::Basic {
                username: username.clone(),
                password: password.clone(),
            },
            Authentication::Bearer { token } => Authentication::Bearer { token: token.clone() },
            Authentication::ApiKey { name, value, placement } => Authentication::ApiKey {
                name: name.clone(),
                value: value.clone(),
                placement: *placement,
            },
        }
    }
}

/// What a field of a multipart body holds.
#[derive(Clone, Debug, PartialEq, Eq)]
pub enum MultipartValue {
    Text(String),
    File { relative_path: String },
}

/// What a field of a multipart body holds, by its contents.
#[verifier::ext_equal]
pub enum MultipartValueView {
    Text(Seq<char>),
    File { relative_path: Seq<char> },
}

impl View for MultipartValue {
    type V = MultipartValueView;

    open spec fn view(&self) -> MultipartValueView {
        match self {
            MultipartValue::Text(text) => MultipartValueView::Text(text@),
            MultipartValue::File { relative_path } => MultipartValueView::File {
                relative_path: relative_path@,
            },
        }
    }
}

/// A field of a multipart body.
#[derive(Clone, Debug, PartialEq, Eq)]
pub struct MultipartField {
    pub name: String,
    pub value: MultipartValue,
    pub content_type: Option<String>,
    pub enabled: bool,
    pub sensitivity: ValueSensitivity,
}

/// A field of a multipart body, by its contents.
#[verifier::ext_equal]
pub struct MultipartFieldView {
    pub name: Seq<char>,
    pub value: MultipartValueView,
    pub content_type: Option<Seq<char>>,
    pub enabled: bool,
    pub sensitivity: ValueSensitivity,
}

impl View for MultipartField {
    type V = MultipartFieldView;

    open spec fn view(&self) -> MultipartFieldView {
        MultipartFieldView {
            name: self.name@,
            value: self.value@,
            content_type: optional_text(self.content_type),
            enabled: self.enabled,
            sensitivity: self.sensitivity,
        }
    }
}

/// The contents of a list of fields.
pub open spec fn multipart_views(list: Seq<MultipartField>) -> Seq<MultipartFieldView> {
    list.map_values(|f: MultipartField| f@)
}

impl MultipartField {
    /// The same field.
    pub fn copy(&self) -> (r: MultipartField)
        ensures
            r@ == self@,
    {
        let value = match &self.value {
            MultipartValue::Text(text) => MultipartValue::Text(text.clone()),
            MultipartValue::File { relative_path } => MultipartValue::File {
                relative_path: relative_path.clone(),
            },
        };
        MultipartField {
            name: self.name.clone(),
            value,
            content_type: copy_optional_text(&self.content_type),
            enabled: self.enabled,
            sensitivity: self.sensitivity,
        }
    }
}

/// The same fields.
pub fn copy_multipart(list: &[MultipartField]) -> (r: Vec<MultipartField>)
    ensures
        multipart_views(r@) == multipart_views(list@),
{
    let mut r: Vec<MultipartField> = Vec::new();
    for i in 0..list.len()
        invariant
            r@.len() == i,
            forall|k: int| 0 <= k < i ==> (#[trigger] r@[k])@ == list@[k]@,
    {
        r.push(list[i].copy());
    }
    assert(multipart_views(r@) =~= multipart_views(list@));
    r
}

/// What a request sends.
#[derive(Clone, Debug, PartialEq, Eq)]
pub enum RequestBody {
    Empty,
    Text { content_type: Option<String>, text: String },
    Json(String),
    Xml(String),
    GraphQl { query: String, variables_json: String, operation_name: Option<String> },
    FormUrlEncoded(Vec<FormField>),
    Multipart(Vec<MultipartField>),
    BinaryFile { relative_path: String },
    StreamFile { relative_path: String },
}

/// What a request sends, by its contents.
#[verifier::ext_equal]
pub enum BodyView {
    Empty,
    Text { content_type: Option<Seq<char>>, text: Seq<char> },
    Json(Seq<char>),
    Xml(Seq<char>),
    GraphQl {
        query: Seq<char>,
        variables_json: Seq<char>,
        operation_name: Option<Seq<char>>,
    },
    FormUrlEncoded(Seq<FormFieldView>),
    Multipart(Seq<MultipartFieldView>),
    BinaryFile { relative_path: Seq<char> },
    StreamFile { relative_path: Seq<char> },
}

impl View for RequestBody {
    type V = BodyView;

    open spec fn view(&self) -> BodyView {
        match self {
            RequestBody::Empty => BodyView::Empty,
            RequestBody::Text { content_type, text } => BodyView::Text {
                content_type: optional_text(*content_type),
                text: text@,
            },
            RequestBody::Json(text) => BodyView::Json(text@),
            RequestBody::Xml(text) => BodyView::Xml(text@),
            RequestBody::GraphQl { query, variables_json, operation_name } => BodyView::GraphQl {
                query: query@,
                variables_json: variables_json@,
                operation_name: optional_text(*operation_name),
            },
            RequestBody::FormUrlEncoded(fields) => BodyView::FormUrlEncoded(form_views(fields@)),
            RequestBody::Multipart(fields) => BodyView::Multipart(multipart_views(fields@)),
            RequestBody::BinaryFile { relative_path } => BodyView::BinaryFile {
                relative_path: relative_path@,
            },
            RequestBody::StreamFile { relative_path } => BodyView::StreamFile {
                relative_path: relative_path@,
            },
        }
    }
}

/// The name of a kind of body.
pub open spec fn body_kind(b: BodyView) -> Seq<char> {
    match b {
        BodyView::Empty => "empty"@,
        BodyView::Text { .. } => "text"@,
        BodyView::Json(_) => "json"@,
        BodyView::Xml(_) => "xml"@,
        BodyView::GraphQl { .. } => "graphql"@,
        BodyView::FormUrlEncoded(_) => "form_urlencoded"@,
        BodyView::Multipart(_) => "multipart"@,
        BodyView::BinaryFile { .. } => "binary_file"@,
        BodyView::StreamFile { .. } => "stream_file"@,
    }
}

impl RequestBody {
    /// The name of the kind of body.
    pub fn kind(&self) -> (r: &'static str)
        ensures
            r@ == body_kind(self@),
    {
        match self {
            RequestBody::Empty => "empty",
            RequestBody::Text { .. } => "text",
            RequestBody::Json(_) => "json",
            RequestBody::Xml(_) => "xml",
            RequestBody::GraphQl { .. } => "graphql",
            RequestBody::FormUrlEncoded(_) => "form_urlencoded",
            RequestBody::Multipart(_) => "multipart",
            RequestBody::BinaryFile { .. } => "binary_file",
            RequestBody::StreamFile { .. } => "stream_file",
        }
    }

    /// The same body.
    pub fn copy(&self) -> (r: RequestBody)
        ensures
            r@ == self@,
    {
        match self {
            RequestBody::Empty => RequestBody::Empty,
            RequestBody::Text { content_type, text } => RequestBody::Text {
                content_type: copy_optional_text(content_type),
                text: text.clone(),
            },
            RequestBody::Json(text) => RequestBody::Json(text.clone()),
            RequestBody::Xml(text) => RequestBody::Xml(text.clone()),
            RequestBody::GraphQl { query, variables_json, operation_name } => RequestBody::GraphQl {
                query: query.clone(),
                variables_json: variables_json.clone(),
                operation_name: copy_optional_text(operation_name),
            },
            RequestBody::FormUrlEncoded(fields) => RequestBody::FormUrlEncoded(
                copy_form(fields.as_slice()),
            ),
            RequestBody::Multipart(fields) => RequestBody::Multipart(
                copy_multipart(fields.as_slice()),
            ),
            RequestBody::BinaryFile { relative_path } => RequestBody::BinaryFile {
                relative_path: relative_path.clone(),
            },
            RequestBody::StreamFile { relative_path } => RequestBody::StreamFile {
                relative_path: relative_path.clone(),
            },
        }
    }
}

/// A span of time.
#[derive(Clone, Copy, Debug, PartialEq, Eq, Structural)]
pub struct Interval {
    pub seconds: u64,
    pub nanoseconds: u32,
}

impl Interval {
    /// Whether the part below a second is less than a second.
    pub open spec fn wf(&self) -> bool {
        self.nanoseconds < 1_000_000_000
    }

    /// The whole milliseconds of the span.
    pub open spec fn millis(&self) -> nat {
        (self.seconds * 1000 + self.nanoseconds / 1_000_000) as nat
    }

    /// A span of whole seconds.
    pub fn from_secs(seconds: u64) -> (r: Interval)
        ensures
            r.wf(),
            r == (Interval { seconds, nanoseconds: 0 }),
    {
        Interval { seconds, nanoseconds: 0 }
    }

    /// A span of whole milliseconds.
    pub fn from_millis(millis: u64) -> (r: Interval)
        ensures
            r == interval_of_millis(millis as int),
            r.wf(),
            r.millis() == millis,
    {
        Interval { seconds: millis / 1000, nanoseconds: ((millis % 1000) * 1_000_000) as u32 }
    }

    /// The whole milliseconds of the span.
    pub fn as_millis(&self) -> (r: u128)
        ensures
            r == self.millis(),
    {
        self.seconds as u128 * 1000 + (self.nanoseconds / 1_000_000) as u128
    }

    /// The whole seconds of the span.
    pub fn as_secs(&self) -> (r: u64)
        ensures
            r == self.seconds,
    {
        self.seconds
    }
}

/// The span of some milliseconds.
pub open spec fn interval_of_millis(millis: int) -> Interval {
    Interval {
        seconds: (millis / 1000) as u64,
        nanoseconds: ((millis % 1000) * 1_000_000) as u32,
    }
}

/// How a request is sent.
#[derive(Clone, Copy, Debug, PartialEq, Eq, Structural)]
pub struct RequestSettings {
    pub timeout: Interval,
    pub connection_timeout: Interval,
    pub idle_timeout: Interval,
    pub maximum_response_bytes: u64,
    pub maximum_wire_response_bytes: u64,
    pub redirect_limit: u16,
    pub follow_redirects: bool,
    pub verify_certificates: bool,
    pub cookie_jar: bool,
    pub decompress_response: bool,
}

/// How a request is sent where nothing else is said.
pub open spec fn default_settings() -> RequestSettings {
    RequestSettings {
        timeout: Interval { seconds: 30, nanoseconds: 0 },
        connection_timeout: Interval { seconds: 10, nanoseconds: 0 },
        idle_timeout: Interval { seconds: 30, nanoseconds: 0 },
        maximum_response_bytes: 67_108_864,
        maximum_wire_response_bytes: 67_108_864,
        redirect_limit: 10,
        follow_redirects: true,
        verify_certificates: true,
        cookie_jar: true,
        decompress_response: true,
    }
}

impl Default for RequestSettings {
    fn default() -> (r: RequestSettings)
        ensures
            r == default_settings(),
    {
        RequestSettings {
            timeout: Interval { seconds: 30, nanoseconds: 0 },
            connection_timeout: Interval { seconds: 10, nanoseconds: 0 },
            idle_timeout: Interval { seconds: 30, nanoseconds: 0 },
            maximum_response_bytes: 67_108_864,
            maximum_wire_response_bytes: 67_108_864,
            redirect_limit: 10,
            follow_redirects: true,
            verify_certificates: true,
            cookie_jar: true,
            decompress_response: true,
        }
    }
}

/// A request over HTTP.
#[derive(Clone, Debug, PartialEq, Eq)]
pub struct HttpRequest {
    pub id: StableId,
    pub name: String,
    pub method: HttpMethod,
    pub url: String,
    pub query: Vec<FormField>,
    pub headers: Vec<HeaderEntry>,
    pub authentication: Authentication,
    pub body: RequestBody,
    pub settings: RequestSettings,
    pub documentation: String,
}

/// A request, by its contents.
#[verifier::ext_equal]
pub struct RequestView {
    pub id: Seq<char>,
    pub name: Seq<char>,
    pub method: MethodView,
    pub url: Seq<char>,
    pub query: Seq<FormFieldView>,
    pub headers: Seq<FormFieldView>,
    pub authentication: AuthenticationView,
    pub body: BodyView,
    pub settings: RequestSettings,
    pub documentation: Seq<char>,
}

impl View for HttpRequest {
    type V = RequestView;

    open spec fn view(&self) -> RequestView {
        RequestView {
            id: self.id@,
            name: self.name@,
            method: self.method@,
            url: self.url@,
            query: form_views(self.query@),
            headers: header_views(self.headers@),
            authentication: self.authentication@,
            body: self.body@,
            settings: self.settings,
            documentation: self.documentation@,
        }
    }
}

/// The values of the headers of a name, in order; case does not matter.
pub open spec fn values_of_header(list: Seq<FormFieldView>, name: Seq<char>) -> Seq<Seq<char>>
    decreases list.len(),
{
    if list.len() == 0 {
        seq![]
    } else {
        let front = values_of_header(list.drop_last(), name);
        if ascii_lowercase(list.last().name) == ascii_lowercase(name) {
            front.push(list.last().value)
        } else {
            front
        }
    }
}

impl HttpRequest {
    /// The same request.
    pub fn copy(&self) -> (r: HttpRequest)
        ensures
            r@ == self@,
    {
        HttpRequest {
            id: self.id.copy(),
            name: self.name.clone(),
            method: self.method.copy(),
            url: self.url.clone(),
            query: copy_form(self.query.as_slice()),
            headers: copy_headers(self.headers.as_slice()),
            authentication: self.authentication.copy(),
            body: self.body.copy(),
            settings: self.settings,
            documentation: self.documentation.clone(),
        }
    }

    /// The values of the headers of a name, in order; case does not matter.
    pub fn header_values(&self, name: &str) -> (r: Vec<String>)
        ensures
            texts(r@) == values_of_header(self@.headers, name@),
    {
        let mut r: Vec<String> = Vec::new();
        let wanted = chars_of(name);
        let lower = to_ascii_lower(wanted.as_slice());
        let ghost all = header_views(self.headers@);
        for i in 0..self.headers.len()
            invariant
                all == header_views(self.headers@),
                lower@ == ascii_lowercase(name@),
                texts(r@) == values_of_header(all.take(i as int), name@),
        {
            let ghost before = r@;
            assert(all.take(i + 1).drop_last() =~= all.take(i as int));
            assert(all.take(i + 1).last() == self.headers@[i as int]@);
            let own = chars_of(self.headers[i].name.as_str());
            let own_lower = to_ascii_lower(own.as_slice());
            if same_chars(own_lower.as_slice(), lower.as_slice()) {
                r.push(self.headers[i].value.clone());
                assert(texts(r@) =~= texts(before).push(self.headers@[i as int].value@));
            }
        }
        assert(all.take(all.len() as int) =~= all);
        r
    }
}

/// A method that is read has the name that it was read from.
pub proof fn law_methods_are_called_as_they_are_written(text: Seq<char>)
    ensures
        parse_method(text) matches Ok(m) ==> method_text(m) == text,
        parse_method(text) is Ok <==> is_token(text),
{
    lemma_method_names();
}

proof fn lemma_method_names()
    ensures
        is_token("GET"@),
        is_token("POST"@),
        is_token("PUT"@),
        is_token("PATCH"@),
        is_token("DELETE"@),
        is_token("HEAD"@),
        is_token("OPTIONS"@),
        is_token("TRACE"@),
        is_token("CONNECT"@),
{
    reveal_strlit("GET");
    reveal_strlit("POST");
    reveal_strlit("PUT");
    reveal_strlit("PATCH");
    reveal_strlit("DELETE");
    reveal_strlit("HEAD");
    reveal_strlit("OPTIONS");
    reveal_strlit("TRACE");
    reveal_strlit("CONNECT");
}

/// The stronger of two sensitivities is one of them: secret where one of them is, and public only
/// where both are. The order of the two does not matter.
pub proof fn law_nothing_secret_becomes_public(a: ValueSensitivity, b: ValueSensitivity)
    ensures
        strongest(a, b) == a || strongest(a, b) == b,
        strongest(a, b) == strongest(b, a),
        strongest(a, b) == ValueSensitivity::Secret <==> (a == ValueSensitivity::Secret || b
            == ValueSensitivity::Secret),
        strongest(a, b) == ValueSensitivity::Public <==> (a == ValueSensitivity::Public && b
            == ValueSensitivity::Public),
{
}

} // verus!
