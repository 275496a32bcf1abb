//! Files of variables: those of a workspace and those of its environments.
use crate::document::{
    assignment, bool_text, bool_value, is_ignored_line, optional_bool, optional_string,
    parse_assignment, parse_bool, parse_optional_bool, parse_optional_string,
    parse_required_string, parse_schema_version, plain_value, quote, quoted,
    require_supported_version,
    required, required_string, required_value, schema_version_of, show_bool, version_check,
    CURRENT_SCHEMA_VERSION,
};
use crate::domain::{
    domain_message, sensitivity_name, sensitivity_text, strongest, strongest_sensitivity,
    DomainError, StableId, ValueSensitivity,
};
use crate::environment_laws::{
    json_kept, law_variable_set_rewrite_is_stable, law_variable_set_round_trip, lemma_json_kept,
    lemma_storable_text, number_kept, numbers_kept, storable_set,
};
use crate::error::{invalid_format, outcome, WorkspaceError, WorkspaceErrorView};
use crate::flat::{
    append_unknown_fields, field_lines, names, remove_keys, unknown_lines, without, Assignments,
    Fields,
};
use crate::json::{
    holds_no_number, json_read, json_text, json_to_variable_value, json_tree,
    lemma_tree_value_depth, not_finite, number_reading, parse_json, read_number, tree_value,
    value_ordered, value_tree, variable_value_to_json, write_json, NumberReading,
};
use crate::lines::{lines, split_lines, unlines, LineWriter};
use crate::manifest::{id_value, parse_id_field};
use crate::message::{concat2, concat3, concat4};
use crate::number::{byte_length, bytes_in, decimal, decimal_text};
use crate::order::{FieldMap, TextMap, TextSet};
use crate::request::{
    block, field_maps, parse_sensitivity_field, sensitivity_value,
};
use crate::text::{
    ascii_alphanumeric, chars_of, contains_control, has_control, is_ascii_alphanumeric, is_blank,
    optional_text, same_chars, same_text, slices, trim, trim_chars, white_space,
};
use crate::value::{
    value_depth, value_view, DefinitionView, ValueView, VariableDefinition, VariableValue,
};
use vstd::prelude::*;

verus! {

/// The name of a secret in a store of secrets.
#[derive(Clone, Debug, PartialEq, Eq)]
pub struct SecretRef {
    pub namespace: String,
    pub name: String,
}

/// The name of a secret, by its contents.
#[verifier::ext_equal]
pub struct SecretView {
    pub namespace: Seq<char>,
    pub name: Seq<char>,
}

impl View for SecretRef {
    type V = SecretView;

    open spec fn view(&self) -> SecretView {
        SecretView { namespace: self.namespace@, name: self.name@ }
    }
}

/// What is wrong with the name of a secret, if anything.
pub open spec fn secret_check(namespace: Seq<char>, name: Seq<char>) -> Option<DomainError> {
    if namespace.len() > 0 && !namespace.contains('/') && name.len() > 0 {
        None
    } else {
        Some(DomainError::InvalidSecretReference)
    }
}

/// How the name of a secret is shown.
pub open spec fn secret_shown(secret: SecretView) -> Seq<char> {
    secret.namespace + "/"@ + secret.name
}

impl SecretRef {
    /// The name of a secret; both parts have to be there, and the namespace holds no slash.
    pub fn new(namespace: &str, name: &str) -> (r: Result<SecretRef, DomainError>)
        ensures
            match r {
                Ok(s) => secret_check(namespace@, name@) is None && s@ == (SecretView {
                    namespace: namespace@,
                    name: name@,
                }),
                Err(e) => secret_check(namespace@, name@) == Some(e),
            },
    {
        let chars = chars_of(namespace);
        let rest = chars_of(name);
        let slash = crate::text::find_char(chars.as_slice(), '/');
        proof {
            crate::text::lemma_index_of(chars@, '/');
        }
        if chars.len() == 0 || slash < chars.len() || rest.len() == 0 {
            Err(DomainError::InvalidSecretReference)
        } else {
            Ok(SecretRef { namespace: namespace.to_owned(), name: name.to_owned() })
        }
    }

    /// How the name of the secret is shown.
    pub fn display_name(&self) -> (r: String)
        ensures
            r@ == secret_shown(self@),
    {
        concat3(self.namespace.as_str(), "/", self.name.as_str())
    }
}

/// Where the value of a stored variable comes from.
#[derive(Debug, PartialEq, Eq)]
pub enum StoredVariableSource {
    Literal(VariableValue),
    Secret(SecretRef),
    ProcessEnvironment { name: String },
}

/// Where the value of a stored variable comes from, by its contents.
pub enum SourceView {
    Literal(ValueView),
    Secret(SecretView),
    ProcessEnvironment { name: Seq<char> },
}

/// A variable as a file holds it.
#[derive(Debug, PartialEq, Eq)]
pub struct StoredVariable {
    pub name: String,
    pub source: StoredVariableSource,
    pub sensitivity: ValueSensitivity,
    pub enabled: bool,
    pub description: Option<String>,
}

/// A variable as a file holds it, by its contents.
pub struct StoredView {
    pub name: Seq<char>,
    pub source: SourceView,
    pub sensitivity: ValueSensitivity,
    pub enabled: bool,
    pub description: Option<Seq<char>>,
}

impl View for StoredVariableSource {
    type V = SourceView;

    open spec fn view(&self) -> SourceView {
        match self {
            StoredVariableSource::Literal(v) => SourceView::Literal(value_view(*v)),
            StoredVariableSource::Secret(s) => SourceView::Secret(s@),
            StoredVariableSource::ProcessEnvironment { name } => SourceView::ProcessEnvironment {
                name: name@,
            },
        }
    }
}

impl View for StoredVariable {
    type V = StoredView;

    open spec fn view(&self) -> StoredView {
        StoredView {
            name: self.name@,
            source: self.source@,
            sensitivity: self.sensitivity,
            enabled: self.enabled,
            description: optional_text(self.description),
        }
    }
}

/// The contents of a list of stored variables.
pub open spec fn stored_views(list: Seq<StoredVariable>) -> Seq<StoredView> {
    list.map_values(|v: StoredVariable| v@)
}

/// A file of variables.
#[derive(Debug, PartialEq, Eq)]
pub struct VariableSetDocument {
    pub schema_version: u32,
    pub id: StableId,
    pub name: String,
    pub variables: Vec<StoredVariable>,
    pub unknown_fields: FieldMap,
}

/// A file of variables, by its contents.
#[verifier::ext_equal]
pub struct VariableSetView {
    pub schema_version: u32,
    pub id: Seq<char>,
    pub name: Seq<char>,
    pub variables: Seq<StoredView>,
    pub unknown_fields: Fields,
}

impl View for VariableSetDocument {
    type V = VariableSetView;

    open spec fn view(&self) -> VariableSetView {
        VariableSetView {
            schema_version: self.schema_version,
            id: self.id@,
            name: self.name@,
            variables: stored_views(self.variables@),
            unknown_fields: self.unknown_fields@,
        }
    }
}

/// Whether a text can name a variable.
pub open spec fn is_variable_name(name: Seq<char>) -> bool {
    0 < byte_length(name) <= 128 && forall|i: int|
        0 <= i < name.len() ==> is_ascii_alphanumeric(#[trigger] name[i]) || name[i] == '_'
            || name[i] == '-' || name[i] == '.'
}

/// Whether a text can name a variable of the process environment.
pub open spec fn is_process_name(name: Seq<char>) -> bool {
    0 < byte_length(name) <= 256 && forall|i: int|
        0 <= i < name.len() ==> is_ascii_alphanumeric(#[trigger] name[i]) || name[i] == '_'
}

/// Whether a text can name a file of variables.
pub open spec fn is_set_name(name: Seq<char>) -> bool {
    !is_blank(name) && !has_control(name)
}

/// The refusal of the name of a variable.
pub open spec fn bad_variable_name(name: Seq<char>) -> WorkspaceErrorView {
    WorkspaceErrorView::InvalidFormat("invalid variable name: "@ + name)
}

/// The refusal of the name of a variable of the process environment.
pub open spec fn bad_process_name(name: Seq<char>) -> WorkspaceErrorView {
    WorkspaceErrorView::InvalidFormat("invalid process environment variable name: "@ + name)
}

/// The refusal of the name of a file of variables.
pub open spec fn bad_set_name() -> WorkspaceErrorView {
    WorkspaceErrorView::InvalidFormat(
        "environment names must be non-empty and contain no control characters"@,
    )
}

/// The refusal of a second variable of a name.
pub open spec fn duplicate_name(name: Seq<char>) -> WorkspaceErrorView {
    WorkspaceErrorView::InvalidFormat("duplicate variable name: "@ + name)
}

/// The refusal of a secret that stands in the file itself.
pub open spec fn literal_secret(name: Seq<char>) -> WorkspaceErrorView {
    WorkspaceErrorView::SecretResolution(
        "variable '"@ + name + "' is marked secret but contains a literal value"@,
    )
}

/// The refusal of a secret that is not marked as one.
pub open spec fn unmarked_secret(name: Seq<char>) -> WorkspaceErrorView {
    WorkspaceErrorView::InvalidFormat(
        "variable '"@ + name + "' uses a secret source and must use secret sensitivity"@,
    )
}

/// Refuses what cannot name a variable.
pub fn validate_variable_name(name: &str) -> (r: Result<(), WorkspaceError>)
    ensures
        match r {
            Ok(_) => is_variable_name(name@),
            Err(e) => !is_variable_name(name@) && e@ == bad_variable_name(name@),
        },
{
    let chars = chars_of(name);
    let bytes = bytes_in(name);
    let mut valid = 0 < bytes && bytes <= 128;
    for i in 0..chars.len()
        invariant
            chars@ == name@,
            bytes == byte_length(name@),
            valid == (0 < bytes <= 128 && forall|k: int|
                0 <= k < i ==> is_ascii_alphanumeric(#[trigger] name@[k]) || name@[k] == '_'
                    || name@[k] == '-' || name@[k] == '.'),
    {
        let c = chars[i];
        if !(ascii_alphanumeric(c) || c == '_' || c == '-' || c == '.') {
            valid = false;
        }
    }
    if valid {
        Ok(())
    } else {
        Err(WorkspaceError::InvalidFormat(concat2("invalid variable name: ", name)))
    }
}

/// Refuses what cannot name a variable of the process environment.
pub fn validate_process_environment_name(name: &str) -> (r: Result<(), WorkspaceError>)
    ensures
        match r {
            Ok(_) => is_process_name(name@),
            Err(e) => !is_process_name(name@) && e@ == bad_process_name(name@),
        },
{
    let chars = chars_of(name);
    let bytes = bytes_in(name);
    let mut valid = 0 < bytes && bytes <= 256;
    for i in 0..chars.len()
        invariant
            chars@ == name@,
            bytes == byte_length(name@),
            valid == (0 < bytes <= 256 && forall|k: int|
                0 <= k < i ==> is_ascii_alphanumeric(#[trigger] name@[k]) || name@[k] == '_'),
    {
        let c = chars[i];
        if !(ascii_alphanumeric(c) || c == '_') {
            valid = false;
        }
    }
    if valid {
        Ok(())
    } else {
        Err(
            WorkspaceError::InvalidFormat(
                concat2("invalid process environment variable name: ", name),
            ),
        )
    }
}

/// Refuses what cannot name a file of variables.
pub fn validate_variable_set_name(name: &str) -> (r: Result<(), WorkspaceError>)
    ensures
        match r {
            Ok(_) => is_set_name(name@),
            Err(e) => !is_set_name(name@) && e@ == bad_set_name(),
        },
{
    let chars = chars_of(name);
    if trim_chars(chars.as_slice()).len() == 0 || contains_control(chars.as_slice()) {
        Err(
            invalid_format("environment names must be non-empty and contain no control characters"),
        )
    } else {
        Ok(())
    }
}

/// What reading the source of a variable gave.
#[derive(Clone, Debug, PartialEq, Eq)]
pub enum SourceReading {
    /// There is nothing to read from.
    Unavailable,
    /// Reading failed, for the given reason.
    Failed(String),
    /// A text, and the store that it comes from.
    Found { text: String, store: String },
}

/// What reading a source gave, by its contents.
pub enum ReadingView {
    Unavailable,
    Failed(Seq<char>),
    Found { text: Seq<char>, store: Seq<char> },
}

impl View for SourceReading {
    type V = ReadingView;

    open spec fn view(&self) -> ReadingView {
        match self {
            SourceReading::Unavailable => ReadingView::Unavailable,
            SourceReading::Failed(reason) => ReadingView::Failed(reason@),
            SourceReading::Found { text, store } => ReadingView::Found {
                text: text@,
                store: store@,
            },
        }
    }
}

/// The contents of a list of readings.
pub open spec fn reading_views(list: Seq<SourceReading>) -> Seq<ReadingView> {
    list.map_values(|r: SourceReading| r@)
}

/// The value of a variable, what it comes from, and how sensitive that is.
pub open spec fn source_value(v: StoredView, reading: ReadingView) -> Result<
    (ValueView, Seq<char>, ValueSensitivity),
    WorkspaceErrorView,
> {
    match v.source {
        SourceView::Literal(value) => if v.sensitivity == ValueSensitivity::Secret {
            Err(literal_secret(v.name))
        } else {
            Ok((value, "workspace variable file"@, v.sensitivity))
        },
        SourceView::Secret(secret) => match reading {
            ReadingView::Unavailable => Err(
                WorkspaceErrorView::SecretResolution(
                    "secret store is unavailable for "@ + secret_shown(secret),
                ),
            ),
            ReadingView::Failed(reason) => Err(WorkspaceErrorView::SecretResolution(reason)),
            ReadingView::Found { text, store } => Ok(
                (
                    ValueView::String(text),
                    "secret "@ + secret_shown(secret) + " from "@ + store,
                    ValueSensitivity::Secret,
                ),
            ),
        },
        SourceView::ProcessEnvironment { name } => if !is_process_name(name) {
            Err(bad_process_name(name))
        } else {
            match reading {
                ReadingView::Found { text, .. } => Ok(
                    (ValueView::String(text), "process environment "@ + name, v.sensitivity),
                ),
                _ => Err(
                    WorkspaceErrorView::SecretResolution(
                        "process environment variable "@ + name + " is unavailable"@,
                    ),
                ),
            }
        },
    }
}

/// The definition of a variable.
pub open spec fn stored_definition(v: StoredView, reading: ReadingView) -> Result<
    DefinitionView,
    WorkspaceErrorView,
> {
    if !is_variable_name(v.name) {
        Err(bad_variable_name(v.name))
    } else {
        match source_value(v, reading) {
            Err(e) => Err(e),
            Ok((value, origin, sensitivity)) => Ok(
                DefinitionView {
                    value,
                    sensitivity: strongest(v.sensitivity, sensitivity),
                    enabled: v.enabled,
                    description: Some(
                        match v.description {
                            Some(d) => d + " ("@ + origin + ")"@,
                            None => origin,
                        },
                    ),
                },
            ),
        }
    }
}

/// The definitions of the first variables of a file.
pub open spec fn stored_definitions(list: Seq<StoredView>, readings: Seq<ReadingView>) -> Result<
    Map<Seq<char>, DefinitionView>,
    WorkspaceErrorView,
>
    decreases list.len(),
{
    if list.len() == 0 {
        Ok(Map::empty())
    } else {
        match stored_definitions(list.drop_last(), readings) {
            Err(e) => Err(e),
            Ok(m) => match stored_definition(list.last(), readings[list.len() - 1]) {
                Err(e) => Err(e),
                Ok(d) => if m.dom().contains(list.last().name) {
                    Err(duplicate_name(list.last().name))
                } else {
                    Ok(m.insert(list.last().name, d))
                },
            },
        }
    }
}

proof fn lemma_definitions_error(list: Seq<StoredView>, readings: Seq<ReadingView>, k: int)
    requires
        0 <= k <= list.len(),
        stored_definitions(list.take(k), readings) is Err,
    ensures
        stored_definitions(list, readings) == stored_definitions(list.take(k), readings),
    decreases list.len() - k,
{
    if k < list.len() {
        assert(list.take(k + 1).drop_last() =~= list.take(k));
        lemma_definitions_error(list, readings, k + 1);
    } else {
        assert(list.take(k) =~= list);
    }
}

fn read_source(variable: &StoredVariable, reading: &SourceReading) -> (r: Result<
    (VariableValue, String, ValueSensitivity),
    WorkspaceError,
>)
    ensures
        match r {
            Ok(t) => source_value(variable@, reading@) == Ok::<
                (ValueView, Seq<char>, ValueSensitivity),
                WorkspaceErrorView,
            >((value_view(t.0), t.1@, t.2)),
            Err(e) => source_value(variable@, reading@) == Err::<
                (ValueView, Seq<char>, ValueSensitivity),
                WorkspaceErrorView,
            >(e@),
        },
{
    match &variable.source {
        StoredVariableSource::Literal(value) => {
            if variable.sensitivity == ValueSensitivity::Secret {
                return Err(
                    WorkspaceError::SecretResolution(
                        concat3(
                            "variable '",
                            variable.name.as_str(),
                            "' is marked secret but contains a literal value",
                        ),
                    ),
                );
            }
            Ok((value.copy(), "workspace variable file".to_owned(), variable.sensitivity))
        },
        StoredVariableSource::Secret(secret) => match reading {
            SourceReading::Unavailable => Err(
                WorkspaceError::SecretResolution(
                    concat2("secret store is unavailable for ", secret.display_name().as_str()),
                ),
            ),
            SourceReading::Failed(reason) => Err(
                WorkspaceError::SecretResolution(reason.clone()),
            ),
            SourceReading::Found { text, store } => Ok(
                (
                    VariableValue::String(text.clone()),
                    concat4("secret ", secret.display_name().as_str(), " from ", store.as_str()),
                    ValueSensitivity::Secret,
                ),
            ),
        },
        StoredVariableSource::ProcessEnvironment { name } => {
            match validate_process_environment_name(name.as_str()) {
                Ok(_) => {},
                Err(e) => {
                    return Err(e);
                },
            }
            match reading {
                SourceReading::Found { text, .. } => Ok(
                    (
                        VariableValue::String(text.clone()),
                        concat2("process environment ", name.as_str()),
                        variable.sensitivity,
                    ),
                ),
                _ => Err(
                    WorkspaceError::SecretResolution(
                        concat3("process environment variable ", name.as_str(), " is unavailable"),
                    ),
                ),
            }
        },
    }
}

fn define(variable: &StoredVariable, reading: &SourceReading) -> (r: Result<
    VariableDefinition,
    WorkspaceError,
>)
    ensures
        outcome(r) == stored_definition(variable@, reading@),
{
    match validate_variable_name(variable.name.as_str()) {
        Ok(_) => {},
        Err(e) => {
            return Err(e);
        },
    }
    let (value, origin, sensitivity) = match read_source(variable, reading) {
        Ok(t) => t,
        Err(e) => {
            return Err(e);
        },
    };
    let description = match &variable.description {
        Some(d) => concat4(d.as_str(), " (", origin.as_str(), ")"),
        None => origin,
    };
    Ok(
        VariableDefinition {
            value,
            sensitivity: strongest_sensitivity(variable.sensitivity, sensitivity),
            enabled: variable.enabled,
            description: Some(description),
        },
    )
}

impl VariableSetDocument {
    /// Whether the preserved fields are in order.
    pub open spec fn wf(&self) -> bool {
        self.unknown_fields.wf()
    }

    /// A file of variables that holds none yet.
    pub fn new(id: StableId, name: String) -> (r: VariableSetDocument)
        ensures
            r.wf(),
            r@ == (VariableSetView {
                schema_version: CURRENT_SCHEMA_VERSION,
                id: id@,
                name: name@,
                variables: seq![],
                unknown_fields: Fields::empty(),
            }),
    {
        let r = VariableSetDocument {
            schema_version: CURRENT_SCHEMA_VERSION,
            id,
            name,
            variables: Vec::new(),
            unknown_fields: FieldMap::new(),
        };
        assert(r@.variables =~= seq![]);
        r
    }

    /// The definitions of the variables, given what reading the source of each gave.
    pub fn resolve(&self, readings: &[SourceReading]) -> (r: Result<
        TextMap<VariableDefinition>,
        WorkspaceError,
    >)
        requires
            readings@.len() == self.variables@.len(),
        ensures
            match r {
                Ok(m) => m.wf() && stored_definitions(self@.variables, reading_views(readings@))
                    == Ok::<Map<Seq<char>, DefinitionView>, WorkspaceErrorView>(m@),
                Err(e) => stored_definitions(self@.variables, reading_views(readings@)) == Err::<
                    Map<Seq<char>, DefinitionView>,
                    WorkspaceErrorView,
                >(e@),
            },
    {
        let ghost all = stored_views(self.variables@);
        let ghost given = reading_views(readings@);
        let mut resolved: TextMap<VariableDefinition> = TextMap::new();
        assert(all.take(0) =~= seq![]);
        for i in 0..self.variables.len()
            invariant
                readings@.len() == self.variables@.len(),
                all == stored_views(self.variables@),
                given == reading_views(readings@),
                resolved.wf(),
                stored_definitions(all.take(i as int), given) == Ok::<
                    Map<Seq<char>, DefinitionView>,
                    WorkspaceErrorView,
                >(resolved@),
        {
            let variable = &self.variables[i];
            proof {
                let next = all.take(i + 1);
                assert(next.drop_last() =~= all.take(i as int));
                assert(next.last() == variable@);
                assert(given[i as int] == readings@[i as int]@);
            }
            let definition = match define(variable, &readings[i]) {
                Ok(d) => d,
                Err(e) => {
                    proof {
                        lemma_definitions_error(all, given, i + 1);
                    }
                    return Err(e);
                },
            };
            if resolved.contains(variable.name.as_str()) {
                proof {
                    lemma_definitions_error(all, given, i + 1);
                }
                return Err(
                    WorkspaceError::InvalidFormat(
                        concat2("duplicate variable name: ", variable.name.as_str()),
                    ),
                );
            }
            resolved.insert(variable.name.clone(), definition);
        }
        assert(all.take(all.len() as int) =~= all);
        Ok(resolved)
    }
}

/// What the lines of a literal value assign.
pub open spec fn literal_assignments(value: ValueView) -> Result<Assignments, WorkspaceErrorView> {
    match value {
        ValueView::Null => Ok(seq![("value_kind"@, quoted("null"@))]),
        ValueView::Bool(b) => Ok(
            seq![("value_kind"@, quoted("bool"@)), ("value"@, bool_text(b))],
        ),
        ValueView::Number(t) => match number_reading(t) {
            NumberReading::Finite(shown) => Ok(
                seq![("value_kind"@, quoted("number"@)), ("value"@, shown)],
            ),
            _ => Err(not_finite()),
        },
        ValueView::String(t) => Ok(
            seq![("value_kind"@, quoted("string"@)), ("value"@, quoted(t))],
        ),
        _ => match value_tree(value) {
            Err(e) => Err(e),
            Ok(tree) => Ok(
                seq![("value_kind"@, quoted("json"@)), ("value"@, quoted(json_text(tree)))],
            ),
        },
    }
}

/// What the lines of the source of a variable assign.
pub open spec fn source_assignments(source: SourceView) -> Result<Assignments, WorkspaceErrorView> {
    match source {
        SourceView::Literal(value) => match literal_assignments(value) {
            Err(e) => Err(e),
            Ok(list) => Ok(seq![("source"@, quoted("literal"@))] + list),
        },
        SourceView::Secret(secret) => Ok(
            seq![
                ("source"@, quoted("secret"@)),
                ("secret_namespace"@, quoted(secret.namespace)),
                ("secret_name"@, quoted(secret.name)),
            ],
        ),
        SourceView::ProcessEnvironment { name } => if !is_process_name(name) {
            Err(bad_process_name(name))
        } else {
            Ok(
                seq![
                    ("source"@, quoted("process_environment"@)),
                    ("environment_name"@, quoted(name)),
                ],
            )
        },
    }
}

/// What the lines of a variable assign before those of its source.
pub open spec fn variable_head(v: StoredView) -> Assignments {
    let description = match v.description {
        Some(d) => seq![("description"@, quoted(d))],
        None => seq![],
    };
    seq![
        ("name"@, quoted(v.name)),
        ("enabled"@, bool_text(v.enabled)),
        ("sensitivity"@, quoted(sensitivity_text(v.sensitivity))),
    ] + description
}

/// Whether the sensitivity of a variable suits its source.
pub open spec fn sensitivity_check(v: StoredView) -> Result<(), WorkspaceErrorView> {
    if v.source is Literal && v.sensitivity == ValueSensitivity::Secret {
        Err(literal_secret(v.name))
    } else if v.source is Secret && v.sensitivity != ValueSensitivity::Secret {
        Err(unmarked_secret(v.name))
    } else {
        Ok(())
    }
}

/// What the lines of a variable assign.
pub open spec fn variable_assignments(v: StoredView) -> Result<Assignments, WorkspaceErrorView> {
    match source_assignments(v.source) {
        Err(e) => Err(e),
        Ok(list) => Ok(variable_head(v) + list),
    }
}

/// The names of variables.
pub open spec fn variable_names(list: Seq<StoredView>) -> Seq<Seq<char>> {
    list.map_values(|v: StoredView| v.name)
}

/// The lines of a variable, after those of others.
pub open spec fn variable_lines(v: StoredView, earlier: Seq<StoredView>) -> Result<
    Seq<Seq<char>>,
    WorkspaceErrorView,
> {
    if !is_variable_name(v.name) {
        Err(bad_variable_name(v.name))
    } else if variable_names(earlier).contains(v.name) {
        Err(duplicate_name(v.name))
    } else {
        match sensitivity_check(v) {
            Err(e) => Err(e),
            Ok(_) => match variable_assignments(v) {
                Err(e) => Err(e),
                Ok(list) => Ok(block("[[variables]]"@, list)),
            },
        }
    }
}

/// The lines of variables.
pub open spec fn all_variable_lines(list: Seq<StoredView>) -> Result<
    Seq<Seq<char>>,
    WorkspaceErrorView,
>
    decreases list.len(),
{
    if list.len() == 0 {
        Ok(seq![])
    } else {
        match all_variable_lines(list.drop_last()) {
            Err(e) => Err(e),
            Ok(front) => match variable_lines(list.last(), list.drop_last()) {
                Err(e) => Err(e),
                Ok(last) => Ok(front + last),
            },
        }
    }
}

/// What the first lines of a file of variables assign.
pub open spec fn set_head(d: VariableSetView) -> Assignments {
    seq![
        ("schema_version"@, decimal(d.schema_version as nat)),
        ("id"@, quoted(d.id)),
        ("name"@, quoted(d.name)),
    ]
}

/// The lines of a file of variables.
pub open spec fn set_lines(d: VariableSetView) -> Result<Seq<Seq<char>>, WorkspaceErrorView> {
    if !is_set_name(d.name) {
        Err(bad_set_name())
    } else {
        match version_check(d.schema_version) {
            Err(e) => Err(e),
            Ok(_) => match all_variable_lines(d.variables) {
                Err(e) => Err(e),
                Ok(list) => Ok(field_lines(set_head(d)) + unknown_lines(d.unknown_fields) + list),
            },
        }
    }
}

/// The text of a file of variables.
pub open spec fn set_text(d: VariableSetView) -> Result<Seq<char>, WorkspaceErrorView> {
    match set_lines(d) {
        Err(e) => Err(e),
        Ok(list) => Ok(unlines(list)),
    }
}

proof fn lemma_lines_error(list: Seq<StoredView>, k: int)
    requires
        0 <= k <= list.len(),
        all_variable_lines(list.take(k)) is Err,
    ensures
        all_variable_lines(list) == all_variable_lines(list.take(k)),
    decreases list.len() - k,
{
    if k < list.len() {
        assert(list.take(k + 1).drop_last() =~= list.take(k));
        lemma_lines_error(list, k + 1);
    } else {
        assert(list.take(k) =~= list);
    }
}

/// Whether the JSON text of a compound literal, if a source is one without numbers that
/// is not too deep, is read back.
pub open spec fn reads_back(source: SourceView) -> bool {
    match source {
        SourceView::Literal(value) => match value_tree(value) {
            Ok(tree) => (value is Array || value is Object) && crate::json::has_no_number(tree)
                && crate::json::depth(tree) <= 127 ==> json_read(json_text(tree)) == Ok::<
                crate::json::JsonTree,
                Seq<char>,
            >(tree),
            Err(_) => true,
        },
        _ => true,
    }
}

fn write_literal(out: &mut LineWriter, value: &VariableValue) -> (r: Result<(), WorkspaceError>)
    requires
        old(out).wf(),
    ensures
        final(out).wf(),
        reads_back(SourceView::Literal(value_view(*value))),
        match r {
            Ok(_) => literal_assignments(value_view(*value)) is Ok && final(out).written@ == old(
                out,
            ).written@ + field_lines(literal_assignments(value_view(*value))->Ok_0),
            Err(e) => literal_assignments(value_view(*value)) == Err::<
                Assignments,
                WorkspaceErrorView,
            >(e@),
        },
{
    let ghost before = out.written@;
    match value {
        VariableValue::Null => {
            out.field("value_kind", quote("null").as_str());
            assert(out.written@ =~= before + field_lines(
                seq![("value_kind"@, quoted("null"@))],
            ));
        },
        VariableValue::Bool(b) => {
            out.field("value_kind", quote("bool").as_str());
            out.field("value", show_bool(*b));
            assert(out.written@ =~= before + field_lines(
                literal_assignments(value_view(*value))->Ok_0,
            ));
        },
        VariableValue::Number(t) => match read_number(t.as_str()) {
            Ok(Some(shown)) => {
                out.field("value_kind", quote("number").as_str());
                out.field("value", shown.as_str());
                assert(out.written@ =~= before + field_lines(
                    literal_assignments(value_view(*value))->Ok_0,
                ));
            },
            _ => {
                return Err(invalid_format("variable numbers must be finite"));
            },
        },
        VariableValue::String(t) => {
            out.field("value_kind", quote("string").as_str());
            out.field("value", quote(t.as_str()).as_str());
            assert(out.written@ =~= before + field_lines(
                literal_assignments(value_view(*value))->Ok_0,
            ));
        },
        _ => {
            out.field("value_kind", quote("json").as_str());
            let json = match variable_value_to_json(value) {
                Ok(json) => json,
                Err(e) => {
                    return Err(e);
                },
            };
            let text = write_json(&json);
            out.field("value", quote(text.as_str()).as_str());
            assert(out.written@ =~= before + field_lines(
                literal_assignments(value_view(*value))->Ok_0,
            ));
        },
    }
    Ok(())
}

fn write_source(out: &mut LineWriter, source: &StoredVariableSource) -> (r: Result<
    (),
    WorkspaceError,
>)
    requires
        old(out).wf(),
    ensures
        final(out).wf(),
        reads_back(source@),
        match r {
            Ok(_) => source_assignments(source@) is Ok && final(out).written@ == old(out).written@
                + field_lines(source_assignments(source@)->Ok_0),
            Err(e) => source_assignments(source@) == Err::<Assignments, WorkspaceErrorView>(e@),
        },
{
    let ghost before = out.written@;
    match source {
        StoredVariableSource::Literal(value) => {
            out.field("source", quote("literal").as_str());
            match write_literal(out, value) {
                Ok(_) => {},
                Err(e) => {
                    return Err(e);
                },
            }
            assert(out.written@ =~= before + field_lines(source_assignments(source@)->Ok_0));
        },
        StoredVariableSource::Secret(secret) => {
            out.field("source", quote("secret").as_str());
            out.field("secret_namespace", quote(secret.namespace.as_str()).as_str());
            out.field("secret_name", quote(secret.name.as_str()).as_str());
            assert(out.written@ =~= before + field_lines(source_assignments(source@)->Ok_0));
        },
        StoredVariableSource::ProcessEnvironment { name } => {
            match validate_process_environment_name(name.as_str()) {
                Ok(_) => {},
                Err(e) => {
                    return Err(e);
                },
            }
            out.field("source", quote("process_environment").as_str());
            out.field("environment_name", quote(name.as_str()).as_str());
            assert(out.written@ =~= before + field_lines(source_assignments(source@)->Ok_0));
        },
    }
    Ok(())
}

fn check_sensitivity(variable: &StoredVariable) -> (r: Result<(), WorkspaceError>)
    ensures
        match r {
            Ok(_) => sensitivity_check(variable@) is Ok,
            Err(e) => sensitivity_check(variable@) == Err::<(), WorkspaceErrorView>(e@),
        },
{
    match &variable.source {
        StoredVariableSource::Literal(_) => {
            if variable.sensitivity == ValueSensitivity::Secret {
                return Err(
                    WorkspaceError::SecretResolution(
                        concat3(
                            "variable '",
                            variable.name.as_str(),
                            "' is marked secret but contains a literal value",
                        ),
                    ),
                );
            }
        },
        StoredVariableSource::Secret(_) => {
            if variable.sensitivity != ValueSensitivity::Secret {
                return Err(
                    WorkspaceError::InvalidFormat(
                        concat3(
                            "variable '",
                            variable.name.as_str(),
                            "' uses a secret source and must use secret sensitivity",
                        ),
                    ),
                );
            }
        },
        _ => {},
    }
    Ok(())
}

fn write_variable(
    out: &mut LineWriter,
    variable: &StoredVariable,
    names: &mut TextSet,
    Ghost(earlier): Ghost<Seq<StoredView>>,
) -> (r: Result<(), WorkspaceError>)
    requires
        old(out).wf(),
        old(names).wf(),
        forall|n: Seq<char>| #[trigger] old(names)@.contains(n) <==> variable_names(earlier).contains(n),
    ensures
        final(out).wf(),
        final(names).wf(),
        match r {
            Ok(_) => variable_lines(variable@, earlier) is Ok && final(out).written@ == old(
                out,
            ).written@ + variable_lines(variable@, earlier)->Ok_0 && final(names)@ == old(
                names,
            )@.insert(variable@.name) && reads_back(variable@.source),
            Err(e) => variable_lines(variable@, earlier) == Err::<
                Seq<Seq<char>>,
                WorkspaceErrorView,
            >(e@),
        },
{
    let ghost before = out.written@;
    match validate_variable_name(variable.name.as_str()) {
        Ok(_) => {},
        Err(e) => {
            return Err(e);
        },
    }
    if !names.insert(variable.name.clone()) {
        return Err(
            WorkspaceError::InvalidFormat(
                concat2("duplicate variable name: ", variable.name.as_str()),
            ),
        );
    }
    match check_sensitivity(variable) {
        Ok(_) => {},
        Err(e) => {
            return Err(e);
        },
    }
    out.line("");
    out.line("[[variables]]");
    out.field("name", quote(variable.name.as_str()).as_str());
    out.field("enabled", show_bool(variable.enabled));
    out.field("sensitivity", quote(sensitivity_name(variable.sensitivity)).as_str());
    if let Some(description) = &variable.description {
        out.field("description", quote(description.as_str()).as_str());
    }
    proof {
        reveal_strlit("");
        assert(""@ =~= seq![]);
        assert(out.written@ =~= before + (seq![seq![], "[[variables]]"@] + field_lines(
            variable_head(variable@),
        )));
    }
    match write_source(out, &variable.source) {
        Ok(_) => {},
        Err(e) => {
            return Err(e);
        },
    }
    assert(out.written@ =~= before + variable_lines(variable@, earlier)->Ok_0);
    Ok(())
}

/// Writes a file of variables. A file that can be stored is written, and what is written is
/// read back as the same file.
pub fn format_variable_set(document: &VariableSetDocument) -> (r: Result<String, WorkspaceError>)
    requires
        document.wf(),
    ensures
        outcome(r) == set_text(document@),
        storable_set(document@) ==> r is Ok && set_value(r->Ok_0@) == Ok::<
            VariableSetView,
            WorkspaceErrorView,
        >(document@),
{
    proof {
        if storable_set(document@) {
            lemma_storable_text(document@);
        }
    }
    match validate_variable_set_name(document.name.as_str()) {
        Ok(_) => {},
        Err(e) => {
            return Err(e);
        },
    }
    match require_supported_version(document.schema_version) {
        Ok(_) => {},
        Err(e) => {
            return Err(e);
        },
    }
    let mut out = LineWriter::new();
    out.field("schema_version", decimal_text(document.schema_version as u64).as_str());
    out.field("id", quote(document.id.as_str()).as_str());
    out.field("name", quote(document.name.as_str()).as_str());
    assert(out.written@ =~= field_lines(set_head(document@)));
    append_unknown_fields(&mut out, &document.unknown_fields);
    let ghost head = out.written@;
    let ghost all = document@.variables;
    let mut names = TextSet::new();
    assert(head + Seq::<Seq<char>>::empty() =~= head);
    assert(all.take(0) =~= seq![]);
    for i in 0..document.variables.len()
        invariant
            document.wf(),
            all == stored_views(document.variables@),
            all == document@.variables,
            out.wf(),
            names.wf(),
            is_set_name(document@.name),
            version_check(document@.schema_version) is Ok,
            storable_set(document@) ==> set_text(document@) is Ok,
            head == field_lines(set_head(document@)) + unknown_lines(document@.unknown_fields),
            forall|n: Seq<char>| #[trigger]
                names@.contains(n) <==> variable_names(all.take(i as int)).contains(n),
            all_variable_lines(all.take(i as int)) is Ok,
            out.written@ == head + all_variable_lines(all.take(i as int))->Ok_0,
            forall|k: int| 0 <= k < i ==> reads_back((#[trigger] all[k]).source),
    {
        let ghost earlier = all.take(i as int);
        let ghost next = all.take(i + 1);
        proof {
            assert(next.drop_last() =~= earlier);
            assert(next.last() == document.variables@[i as int]@);
        }
        let ghost written = out.written@;
        match write_variable(&mut out, &document.variables[i], &mut names, Ghost(earlier)) {
            Ok(_) => {},
            Err(e) => {
                proof {
                    lemma_lines_error(all, i + 1);
                }
                return Err(e);
            },
        }
        proof {
            let last = variable_lines(next.last(), earlier)->Ok_0;
            let front = all_variable_lines(earlier)->Ok_0;
            assert(head + front + last =~= head + (front + last));
            assert(variable_names(next) =~= variable_names(earlier).push(next.last().name));
            assert forall|n: Seq<char>| #[trigger] names@.contains(n) <==> variable_names(
                next,
            ).contains(n) by {
                let all_names = variable_names(next);
                if variable_names(earlier).contains(n) {
                    let k = choose|k: int|
                        0 <= k < variable_names(earlier).len() && variable_names(earlier)[k] == n;
                    assert(all_names[k] == n);
                }
                if n == next.last().name {
                    assert(all_names[i as int] == n);
                }
                if all_names.contains(n) {
                    let k = choose|k: int| 0 <= k < all_names.len() && all_names[k] == n;
                    if k < i {
                        assert(variable_names(earlier)[k] == n);
                    }
                }
            }
        }
    }
    assert(all.take(all.len() as int) =~= all);
    proof {
        if storable_set(document@) {
            assert forall|i: int| 0 <= i < all.len() implies json_kept(#[trigger] all[i]) by {
                lemma_json_kept(all[i]);
            }
            law_variable_set_round_trip(document@);
        }
    }
    Ok(out.text)
}

/// What the lines of a file of variables have given so far.
#[verifier::ext_equal]
pub struct SetScan {
    pub root: Fields,
    pub sections: Seq<Fields>,
    pub current: Option<Fields>,
}

/// The sections of a file that were read.
pub open spec fn all_sections(s: SetScan) -> Seq<Fields> {
    match s.current {
        Some(m) => s.sections.push(m),
        None => s.sections,
    }
}

/// One more line of a file of variables is read.
pub open spec fn set_scan_line(s: SetScan, raw: Seq<char>, number: nat) -> Result<
    SetScan,
    WorkspaceErrorView,
> {
    let line = trim(raw);
    if is_ignored_line(line) {
        Ok(s)
    } else if line == "[[variables]]"@ {
        Ok(SetScan { sections: all_sections(s), current: Some(Fields::empty()), ..s })
    } else if line[0] == '[' {
        Err(
            WorkspaceErrorView::InvalidFormat(
                "unsupported variable-set section on line "@ + decimal(number),
            ),
        )
    } else {
        match assignment(line, number) {
            Err(e) => Err(e),
            Ok((key, value)) => match s.current {
                Some(m) => Ok(SetScan { current: Some(m.insert(key, value)), ..s }),
                None => Ok(SetScan { root: s.root.insert(key, value), ..s }),
            },
        }
    }
}

/// What the lines of a file of variables give.
pub open spec fn set_scan(list: Seq<Seq<char>>) -> Result<SetScan, WorkspaceErrorView>
    decreases list.len(),
{
    if list.len() == 0 {
        Ok(SetScan { root: Fields::empty(), sections: seq![], current: None })
    } else {
        match set_scan(list.drop_last()) {
            Err(e) => Err(e),
            Ok(s) => set_scan_line(s, list.last(), list.len()),
        }
    }
}

proof fn lemma_set_scan_error(list: Seq<Seq<char>>, k: int)
    requires
        0 <= k <= list.len(),
        set_scan(list.take(k)) is Err,
    ensures
        set_scan(list) == set_scan(list.take(k)),
    decreases list.len() - k,
{
    if k < list.len() {
        assert(list.take(k + 1).drop_last() =~= list.take(k));
        lemma_set_scan_error(list, k + 1);
    } else {
        assert(list.take(k) =~= list);
    }
}

/// The text under a key that may be missing, or another one.
pub open spec fn text_or(m: Fields, key: Seq<char>, other: Seq<char>) -> Result<
    Seq<char>,
    WorkspaceErrorView,
> {
    match optional_string(m, key) {
        Err(e) => Err(e),
        Ok(Some(t)) => Ok(t),
        Ok(None) => Ok(other),
    }
}

fn parse_text_or(values: &FieldMap, key: &str, other: &str) -> (r: Result<String, WorkspaceError>)
    requires
        values.wf(),
    ensures
        outcome(r) == text_or(values@, key@, other@),
{
    match parse_optional_string(values, key) {
        Err(e) => Err(e),
        Ok(Some(t)) => Ok(t),
        Ok(None) => Ok(other.to_owned()),
    }
}

/// The literal value that a section describes.
pub open spec fn literal_value(m: Fields) -> Result<ValueView, WorkspaceErrorView> {
    match text_or(m, "value_kind"@, "string"@) {
        Err(e) => Err(e),
        Ok(kind) => if kind == "null"@ {
            Ok(ValueView::Null)
        } else if kind == "bool"@ {
            match required_value(m, "value"@) {
                Err(e) => Err(e),
                Ok(v) => match bool_value(v, "value"@) {
                    Err(e) => Err(e),
                    Ok(b) => Ok(ValueView::Bool(b)),
                },
            }
        } else if kind == "number"@ {
            match required_value(m, "value"@) {
                Err(e) => Err(e),
                Ok(v) => match number_reading(v) {
                    NumberReading::Invalid => Err(
                        WorkspaceErrorView::InvalidFormat("variable number is invalid"@),
                    ),
                    NumberReading::NotFinite => Err(not_finite()),
                    NumberReading::Finite(shown) => Ok(ValueView::Number(shown)),
                },
            }
        } else if kind == "string"@ {
            match required_string(m, "value"@) {
                Err(e) => Err(e),
                Ok(t) => Ok(ValueView::String(t)),
            }
        } else if kind == "json"@ {
            match required_string(m, "value"@) {
                Err(e) => Err(e),
                Ok(t) => match json_read(t) {
                    Err(message) => Err(WorkspaceErrorView::InvalidFormat(message)),
                    Ok(tree) => Ok(tree_value(tree)),
                },
            }
        } else {
            Err(WorkspaceErrorView::InvalidFormat("unsupported variable value kind: "@ + kind))
        },
    }
}

/// Whether a source is none, or a literal in which the members of every object are in order and
/// lists and objects do not stand too deep.
pub open spec fn source_regular(source: SourceView) -> bool {
    source matches SourceView::Literal(value) ==> value_ordered(value) && value_depth(value) <= 127
}

fn parse_literal_value(values: &FieldMap) -> (r: Result<VariableValue, WorkspaceError>)
    requires
        values.wf(),
    ensures
        match r {
            Ok(v) => literal_value(values@) == Ok::<ValueView, WorkspaceErrorView>(value_view(v))
                && source_regular(SourceView::Literal(value_view(v))),
            Err(e) => literal_value(values@) == Err::<ValueView, WorkspaceErrorView>(e@),
        },
{
    let kind = match parse_text_or(values, "value_kind", "string") {
        Ok(t) => t,
        Err(e) => {
            return Err(e);
        },
    };
    if same_text(kind.as_str(), "null") {
        return Ok(VariableValue::Null);
    }
    if same_text(kind.as_str(), "bool") {
        return match required(values, "value") {
            Err(e) => Err(e),
            Ok(v) => match parse_bool(v.as_str(), "value") {
                Err(e) => Err(e),
                Ok(b) => Ok(VariableValue::Bool(b)),
            },
        };
    }
    if same_text(kind.as_str(), "number") {
        return match required(values, "value") {
            Err(e) => Err(e),
            Ok(v) => match read_number(v.as_str()) {
                Err(_) => Err(invalid_format("variable number is invalid")),
                Ok(None) => Err(invalid_format("variable numbers must be finite")),
                Ok(Some(shown)) => Ok(VariableValue::Number(shown)),
            },
        };
    }
    if same_text(kind.as_str(), "string") {
        return match parse_required_string(values, "value") {
            Err(e) => Err(e),
            Ok(t) => Ok(VariableValue::String(t)),
        };
    }
    if same_text(kind.as_str(), "json") {
        return match parse_required_string(values, "value") {
            Err(e) => Err(e),
            Ok(t) => match parse_json(t.as_str()) {
                Err(message) => Err(WorkspaceError::InvalidFormat(message)),
                Ok(json) => {
                    proof {
                        lemma_tree_value_depth(json_tree(json));
                    }
                    Ok(json_to_variable_value(json))
                },
            },
        };
    }
    Err(
        WorkspaceError::InvalidFormat(
            concat2("unsupported variable value kind: ", kind.as_str()),
        ),
    )
}

/// The source of a variable that a section describes.
pub open spec fn source_of_fields(
    m: Fields,
    name: Seq<char>,
    sensitivity: ValueSensitivity,
) -> Result<SourceView, WorkspaceErrorView> {
    match text_or(m, "source"@, "literal"@) {
        Err(e) => Err(e),
        Ok(source) => if source == "literal"@ {
            if sensitivity == ValueSensitivity::Secret {
                Err(literal_secret(name))
            } else {
                match literal_value(m) {
                    Err(e) => Err(e),
                    Ok(v) => Ok(SourceView::Literal(v)),
                }
            }
        } else if source == "secret"@ {
            if sensitivity != ValueSensitivity::Secret {
                Err(unmarked_secret(name))
            } else {
                match required_string(m, "secret_namespace"@) {
                    Err(e) => Err(e),
                    Ok(namespace) => match required_string(m, "secret_name"@) {
                        Err(e) => Err(e),
                        Ok(secret) => match secret_check(namespace, secret) {
                            Some(e) => Err(WorkspaceErrorView::InvalidFormat(domain_message(e))),
                            None => Ok(
                                SourceView::Secret(SecretView { namespace, name: secret }),
                            ),
                        },
                    },
                }
            }
        } else if source == "process_environment"@ {
            match required_string(m, "environment_name"@) {
                Err(e) => Err(e),
                Ok(n) => if !is_process_name(n) {
                    Err(bad_process_name(n))
                } else {
                    Ok(SourceView::ProcessEnvironment { name: n })
                },
            }
        } else {
            Err(WorkspaceErrorView::InvalidFormat("unsupported variable source: "@ + source))
        },
    }
}

fn parse_source(values: &FieldMap, name: &str, sensitivity: ValueSensitivity) -> (r: Result<
    StoredVariableSource,
    WorkspaceError,
>)
    requires
        values.wf(),
    ensures
        outcome(r) == source_of_fields(values@, name@, sensitivity),
        r matches Ok(s) ==> source_regular(s@),
{
    let source = match parse_text_or(values, "source", "literal") {
        Ok(t) => t,
        Err(e) => {
            return Err(e);
        },
    };
    if same_text(source.as_str(), "literal") {
        if sensitivity == ValueSensitivity::Secret {
            return Err(
                WorkspaceError::SecretResolution(
                    concat3("variable '", name, "' is marked secret but contains a literal value"),
                ),
            );
        }
        return match parse_literal_value(values) {
            Err(e) => Err(e),
            Ok(v) => Ok(StoredVariableSource::Literal(v)),
        };
    }
    if same_text(source.as_str(), "secret") {
        if sensitivity != ValueSensitivity::Secret {
            return Err(
                WorkspaceError::InvalidFormat(
                    concat3(
                        "variable '",
                        name,
                        "' uses a secret source and must use secret sensitivity",
                    ),
                ),
            );
        }
        let namespace = match parse_required_string(values, "secret_namespace") {
            Ok(t) => t,
            Err(e) => {
                return Err(e);
            },
        };
        let secret = match parse_required_string(values, "secret_name") {
            Ok(t) => t,
            Err(e) => {
                return Err(e);
            },
        };
        return match SecretRef::new(namespace.as_str(), secret.as_str()) {
            Ok(reference) => Ok(StoredVariableSource::Secret(reference)),
            Err(e) => Err(WorkspaceError::InvalidFormat(e.message())),
        };
    }
    if same_text(source.as_str(), "process_environment") {
        let environment_name = match parse_required_string(values, "environment_name") {
            Ok(t) => t,
            Err(e) => {
                return Err(e);
            },
        };
        return match validate_process_environment_name(environment_name.as_str()) {
            Err(e) => Err(e),
            Ok(_) => Ok(StoredVariableSource::ProcessEnvironment { name: environment_name }),
        };
    }
    Err(
        WorkspaceError::InvalidFormat(
            concat2("unsupported variable source: ", source.as_str()),
        ),
    )
}

/// The variable that a section describes.
pub open spec fn stored_value(m: Fields) -> Result<StoredView, WorkspaceErrorView> {
    match required_string(m, "name"@) {
        Err(e) => Err(e),
        Ok(name) => if !is_variable_name(name) {
            Err(bad_variable_name(name))
        } else {
            match optional_bool(m, "enabled"@, true) {
                Err(e) => Err(e),
                Ok(enabled) => match sensitivity_value(m) {
                    Err(e) => Err(e),
                    Ok(sensitivity) => match optional_string(m, "description"@) {
                        Err(e) => Err(e),
                        Ok(description) => match source_of_fields(m, name, sensitivity) {
                            Err(e) => Err(e),
                            Ok(source) => Ok(
                                StoredView { name, source, sensitivity, enabled, description },
                            ),
                        },
                    },
                },
            }
        },
    }
}

/// Reads a variable.
pub fn parse_stored_variable(values: &FieldMap) -> (r: Result<StoredVariable, WorkspaceError>)
    requires
        values.wf(),
    ensures
        outcome(r) == stored_value(values@),
        r matches Ok(v) ==> source_regular(v@.source),
{
    let name = match parse_required_string(values, "name") {
        Ok(t) => t,
        Err(e) => {
            return Err(e);
        },
    };
    match validate_variable_name(name.as_str()) {
        Ok(_) => {},
        Err(e) => {
            return Err(e);
        },
    }
    let enabled = match parse_optional_bool(values, "enabled", true) {
        Ok(b) => b,
        Err(e) => {
            return Err(e);
        },
    };
    let sensitivity = match parse_sensitivity_field(values) {
        Ok(v) => v,
        Err(e) => {
            return Err(e);
        },
    };
    let description = match parse_optional_string(values, "description") {
        Ok(t) => t,
        Err(e) => {
            return Err(e);
        },
    };
    let source = match parse_source(values, name.as_str(), sensitivity) {
        Ok(v) => v,
        Err(e) => {
            return Err(e);
        },
    };
    Ok(StoredVariable { name, source, sensitivity, enabled, description })
}

/// The variables that sections describe.
pub open spec fn stored_values(list: Seq<Fields>) -> Result<Seq<StoredView>, WorkspaceErrorView>
    decreases list.len(),
{
    if list.len() == 0 {
        Ok(seq![])
    } else {
        match stored_values(list.drop_last()) {
            Err(e) => Err(e),
            Ok(front) => match stored_value(list.last()) {
                Err(e) => Err(e),
                Ok(v) => if variable_names(front).contains(v.name) {
                    Err(duplicate_name(v.name))
                } else {
                    Ok(front.push(v))
                },
            },
        }
    }
}

proof fn lemma_stored_values_error(list: Seq<Fields>, k: int)
    requires
        0 <= k <= list.len(),
        stored_values(list.take(k)) is Err,
    ensures
        stored_values(list) == stored_values(list.take(k)),
    decreases list.len() - k,
{
    if k < list.len() {
        assert(list.take(k + 1).drop_last() =~= list.take(k));
        lemma_stored_values_error(list, k + 1);
    } else {
        assert(list.take(k) =~= list);
    }
}

/// The keys of a file of variables.
pub open spec fn set_keys() -> Seq<Seq<char>> {
    seq!["schema_version"@, "id"@, "name"@]
}

/// The file of variables that fields and sections describe.
pub open spec fn set_of_fields(root: Fields, sections: Seq<Fields>) -> Result<
    VariableSetView,
    WorkspaceErrorView,
> {
    match schema_version_of(root) {
        Err(e) => Err(e),
        Ok(schema_version) => match id_value(root, "id"@) {
            Err(e) => Err(e),
            Ok(id) => match required_string(root, "name"@) {
                Err(e) => Err(e),
                Ok(name) => if !is_set_name(name) {
                    Err(bad_set_name())
                } else {
                    match stored_values(sections) {
                        Err(e) => Err(e),
                        Ok(variables) => Ok(
                            VariableSetView {
                                schema_version,
                                id,
                                name,
                                variables,
                                unknown_fields: without(root, set_keys()),
                            },
                        ),
                    }
                },
            },
        },
    }
}

/// The file of variables that a text describes.
pub open spec fn set_value(text: Seq<char>) -> Result<VariableSetView, WorkspaceErrorView> {
    match set_scan(lines(text)) {
        Err(e) => Err(e),
        Ok(s) => set_of_fields(s.root, all_sections(s)),
    }
}

fn parse_variables(sections: &[FieldMap]) -> (r: Result<Vec<StoredVariable>, WorkspaceError>)
    requires
        forall|i: int| 0 <= i < sections@.len() ==> (#[trigger] sections@[i]).wf(),
    ensures
        r matches Ok(list) ==> forall|i: int|
            0 <= i < list@.len() ==> source_regular((#[trigger] list@[i])@.source),
        match r {
            Ok(list) => stored_values(field_maps(sections@)) == Ok::<
                Seq<StoredView>,
                WorkspaceErrorView,
            >(stored_views(list@)),
            Err(e) => stored_values(field_maps(sections@)) == Err::<
                Seq<StoredView>,
                WorkspaceErrorView,
            >(e@),
        },
{
    let ghost all = field_maps(sections@);
    let mut list: Vec<StoredVariable> = Vec::new();
    let mut names = TextSet::new();
    assert(stored_views(list@) =~= seq![]);
    assert(all.take(0) =~= seq![]);
    for i in 0..sections.len()
        invariant
            all == field_maps(sections@),
            forall|i: int| 0 <= i < sections@.len() ==> (#[trigger] sections@[i]).wf(),
            names.wf(),
            stored_values(all.take(i as int)) == Ok::<Seq<StoredView>, WorkspaceErrorView>(
                stored_views(list@),
            ),
            forall|n: Seq<char>| #[trigger]
                names@.contains(n) <==> variable_names(stored_views(list@)).contains(n),
            forall|k: int|
                0 <= k < list@.len() ==> source_regular((#[trigger] list@[k])@.source),
    {
        let ghost before = stored_views(list@);
        proof {
            assert(all.take(i + 1).drop_last() =~= all.take(i as int));
            assert(all.take(i + 1).last() == sections@[i as int]@);
        }
        let variable = match parse_stored_variable(&sections[i]) {
            Ok(v) => v,
            Err(e) => {
                proof {
                    lemma_stored_values_error(all, i + 1);
                }
                return Err(e);
            },
        };
        if !names.insert(variable.name.clone()) {
            proof {
                lemma_stored_values_error(all, i + 1);
            }
            return Err(
                WorkspaceError::InvalidFormat(
                    concat2("duplicate variable name: ", variable.name.as_str()),
                ),
            );
        }
        let ghost v = variable@;
        list.push(variable);
        proof {
            let after = stored_views(list@);
            assert(after =~= before.push(v));
            lemma_one_more_name(before, v);
        }
    }
    assert(all.take(all.len() as int) =~= all);
    Ok(list)
}

proof fn lemma_one_more_name(before: Seq<StoredView>, v: StoredView)
    ensures
        forall|n: Seq<char>| #[trigger]
            variable_names(before.push(v)).contains(n) <==> variable_names(before).contains(n) || n
                == v.name,
{
    let a = variable_names(before);
    let b = variable_names(before.push(v));
    assert(b =~= a.push(v.name));
    assert forall|n: Seq<char>| #[trigger] b.contains(n) <==> a.contains(n) || n == v.name by {
        if a.contains(n) {
            let k = choose|k: int| 0 <= k < a.len() && a[k] == n;
            assert(b[k] == n);
        }
        if n == v.name {
            assert(b[a.len() as int] == n);
        }
        if b.contains(n) {
            let k = choose|k: int| 0 <= k < b.len() && b[k] == n;
            if k < a.len() {
                assert(a[k] == n);
            }
        }
    }
}

/// What the lines read so far have given.
struct SetReader {
    root: FieldMap,
    sections: Vec<FieldMap>,
    current: Option<FieldMap>,
}

impl SetReader {
    spec fn wf(&self) -> bool {
        &&& self.root.wf()
        &&& forall|i: int| 0 <= i < self.sections@.len() ==> (#[trigger] self.sections@[i]).wf()
        &&& self.current matches Some(m) ==> m.wf()
    }

    spec fn scan(&self) -> SetScan {
        SetScan {
            root: self.root@,
            sections: field_maps(self.sections@),
            current: crate::request_reader::optional_fields(self.current),
        }
    }

    fn close(&mut self)
        requires
            old(self).wf(),
        ensures
            final(self).wf(),
            final(self).root@ == old(self).root@,
            final(self).current is None,
            field_maps(final(self).sections@) == all_sections(old(self).scan()),
    {
        let ghost before = field_maps(self.sections@);
        match self.current.take() {
            Some(m) => {
                self.sections.push(m);
                assert(field_maps(self.sections@) =~= before.push(m@));
            },
            None => {},
        }
    }

    fn line(&mut self, raw: &[char], number: usize) -> (r: Result<(), WorkspaceError>)
        requires
            old(self).wf(),
        ensures
            final(self).wf(),
            match r {
                Ok(_) => set_scan_line(old(self).scan(), raw@, number as nat) == Ok::<
                    SetScan,
                    WorkspaceErrorView,
                >(final(self).scan()),
                Err(e) => set_scan_line(old(self).scan(), raw@, number as nat) == Err::<
                    SetScan,
                    WorkspaceErrorView,
                >(e@),
            },
    {
        let line = trim_chars(raw);
        if line.len() == 0 || line[0] == '#' {
            return Ok(());
        }
        let opening = chars_of("[[variables]]");
        if same_chars(line, opening.as_slice()) {
            self.close();
            self.current = Some(FieldMap::new());
            return Ok(());
        }
        if line[0] == '[' {
            return Err(
                WorkspaceError::InvalidFormat(
                    concat2(
                        "unsupported variable-set section on line ",
                        decimal_text(number as u64).as_str(),
                    ),
                ),
            );
        }
        let (key, value) = match parse_assignment(line, number) {
            Ok(kv) => kv,
            Err(e) => {
                return Err(e);
            },
        };
        match self.current.take() {
            Some(m) => {
                let mut m = m;
                m.insert(key, value);
                self.current = Some(m);
            },
            None => {
                self.root.insert(key, value);
            },
        }
        Ok(())
    }
}

/// Tells whether a text can stand as a value behind an equals sign.
fn is_plain(text: &str) -> (r: bool)
    ensures
        r == plain_value(text@),
{
    let chars = chars_of(text);
    if chars.len() > 0 && (white_space(chars[0]) || white_space(chars[chars.len() - 1])) {
        return false;
    }
    for i in 0..chars.len()
        invariant
            chars@ == text@,
            forall|k: int| 0 <= k < i ==> chars@[k] != '\n',
    {
        if chars[i] == '\n' {
            assert(text@.contains(chars@[i as int]));
            return false;
        }
    }
    true
}

fn keeps_number(value: &VariableValue) -> (r: bool)
    ensures
        r == number_kept(value_view(*value)),
{
    match value {
        VariableValue::Number(t) => match read_number(t.as_str()) {
            Ok(Some(shown)) => same_text(shown.as_str(), t.as_str()) && is_plain(t.as_str()),
            _ => false,
        },
        _ => holds_no_number(value),
    }
}

/// Tells whether the numbers of a file of variables are kept when it is written, so that what
/// was read is read again: each is as it is displayed, and none stands inside a list or an
/// object.
pub fn keeps_numbers(document: &VariableSetDocument) -> (r: bool)
    ensures
        r == numbers_kept(document@),
{
    let ghost views = document@.variables;
    for i in 0..document.variables.len()
        invariant
            views == stored_views(document.variables@),
            forall|k: int|
                0 <= k < i ==> ((#[trigger] views[k]).source matches SourceView::Literal(value)
                    ==> number_kept(value)),
    {
        assert(views[i as int] == document.variables@[i as int]@);
        if let StoredVariableSource::Literal(value) = &document.variables[i].source {
            if !keeps_number(value) {
                return false;
            }
        }
    }
    true
}

/// Reads a file of variables. What was read can be stored again, so long as its numbers are
/// written as they are displayed and none stands inside a list or an object.
pub fn parse_variable_set(input: &str) -> (r: Result<VariableSetDocument, WorkspaceError>)
    ensures
        outcome(r) == set_value(input@),
        r matches Ok(d) ==> d.wf(),
        r matches Ok(d) ==> numbers_kept(d@) ==> storable_set(d@),
{
    let chars = chars_of(input);
    let list = split_lines(chars.as_slice());
    let ghost all = slices(list@);
    let mut reader = SetReader { root: FieldMap::new(), sections: Vec::new(), current: None };
    proof {
        assert(all.take(0) =~= seq![]);
        assert(field_maps(reader.sections@) =~= seq![]);
    }
    for i in 0..list.len()
        invariant
            all == slices(list@),
            all == lines(input@),
            reader.wf(),
            set_scan(all.take(i as int)) == Ok::<SetScan, WorkspaceErrorView>(reader.scan()),
    {
        proof {
            assert(all.take(i + 1).drop_last() =~= all.take(i as int));
            assert(all.take(i + 1).last() == list@[i as int]@);
        }
        match reader.line(list[i], i + 1) {
            Ok(_) => {},
            Err(e) => {
                proof {
                    lemma_set_scan_error(all, i + 1);
                }
                return Err(e);
            },
        }
    }
    assert(all.take(all.len() as int) =~= all);
    reader.close();
    let mut root = reader.root;
    let schema_version = match parse_schema_version(&root) {
        Ok(n) => n,
        Err(e) => {
            return Err(e);
        },
    };
    let id = match parse_id_field(&root, "id") {
        Ok(v) => v,
        Err(e) => {
            return Err(e);
        },
    };
    let name = match parse_required_string(&root, "name") {
        Ok(v) => v,
        Err(e) => {
            return Err(e);
        },
    };
    match validate_variable_set_name(name.as_str()) {
        Ok(_) => {},
        Err(e) => {
            return Err(e);
        },
    }
    let variables = match parse_variables(reader.sections.as_slice()) {
        Ok(v) => v,
        Err(e) => {
            return Err(e);
        },
    };
    let known = ["schema_version", "id", "name"];
    assert(names(known@) =~= set_keys());
    remove_keys(&mut root, known.as_slice());
    let document = VariableSetDocument { schema_version, id, name, variables, unknown_fields: root };
    proof {
        let d = document@;
        assert forall|i: int| 0 <= i < d.variables.len() implies source_regular(
            (#[trigger] d.variables[i]).source,
        ) by {
            assert(d.variables[i] == document.variables@[i]@);
        }
        assert(set_value(input@) == Ok::<VariableSetView, WorkspaceErrorView>(d));
        if numbers_kept(d) {
            law_variable_set_rewrite_is_stable(input@);
        }
    }
    Ok(document)
}

} // verus!
