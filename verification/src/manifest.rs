//! The manifest of a workspace.
use crate::document::{
    law_quote_round_trip, optional_string, parse_optional_string, parse_required_string,
    parse_schema_version, parse_string, quote, quoted, required_string, schema_version_of,
    string_value, CURRENT_SCHEMA_VERSION,
};
use crate::domain::{domain_message, is_slug, parse_id, StableId};
use crate::error::{outcome, WorkspaceError, WorkspaceErrorView};
use crate::flat::{
    append_unknown_fields, field_lines, flat_fields, lemma_flat_document,
    lemma_flat_fields_writable, lemma_lines_hold_no_feed, names, parse_flat_document, preservable,
    remove_keys, unknown_lines, without, writable, Assignments, Fields,
};
use crate::lines::{lemma_lines_of_unlines, lines, unlines, LineWriter};
use crate::message::concat2;
use crate::number::{decimal, decimal_text, lemma_decimal, lemma_parse_decimal};
use crate::order::{distinct_keys, in_order, lemma_in_order_exists, lemma_map_of, map_of, FieldMap};
use crate::text::{optional_text, same_text};
use vstd::prelude::*;

verus! {

/// Whether the scripts and plugins of a workspace may run.
#[derive(Clone, Copy, Debug, PartialEq, Eq, Structural)]
pub enum WorkspaceTrust {
    Untrusted,
    Trusted,
}

/// What a workspace says of itself.
#[derive(Clone, Debug, PartialEq, Eq)]
pub struct WorkspaceManifest {
    pub schema_version: u32,
    pub id: StableId,
    pub name: String,
    pub default_environment: Option<String>,
    pub trust: WorkspaceTrust,
    pub unknown_fields: FieldMap,
}

/// What a workspace says of itself, by its contents.
#[verifier::ext_equal]
pub struct ManifestView {
    pub schema_version: u32,
    pub id: Seq<char>,
    pub name: Seq<char>,
    pub default_environment: Option<Seq<char>>,
    pub trust: WorkspaceTrust,
    pub unknown_fields: Fields,
}

impl View for WorkspaceManifest {
    type V = ManifestView;

    open spec fn view(&self) -> ManifestView {
        ManifestView {
            schema_version: self.schema_version,
            id: self.id@,
            name: self.name@,
            default_environment: optional_text(self.default_environment),
            trust: self.trust,
            unknown_fields: self.unknown_fields@,
        }
    }
}

impl WorkspaceManifest {
    /// Whether the preserved fields are in order.
    pub open spec fn wf(&self) -> bool {
        self.unknown_fields.wf()
    }

    /// The manifest of a new workspace, which is not trusted.
    pub fn new(id: StableId, name: String) -> (r: WorkspaceManifest)
        ensures
            r.wf(),
            r@ == (ManifestView {
                schema_version: CURRENT_SCHEMA_VERSION,
                id: id@,
                name: name@,
                default_environment: None,
                trust: WorkspaceTrust::Untrusted,
                unknown_fields: Fields::empty(),
            }),
    {
        WorkspaceManifest {
            schema_version: CURRENT_SCHEMA_VERSION,
            id,
            name,
            default_environment: None,
            trust: WorkspaceTrust::Untrusted,
            unknown_fields: FieldMap::new(),
        }
    }
}

/// The name of a degree of trust.
pub open spec fn trust_text(trust: WorkspaceTrust) -> Seq<char> {
    match trust {
        WorkspaceTrust::Untrusted => "untrusted"@,
        WorkspaceTrust::Trusted => "trusted"@,
    }
}

/// The keys of a manifest.
pub open spec fn manifest_keys() -> Seq<Seq<char>> {
    seq!["schema_version"@, "workspace_id"@, "name"@, "default_environment"@, "trust"@]
}

/// What the lines of a manifest assign, besides preserved fields.
pub open spec fn manifest_assignments(m: ManifestView) -> Assignments {
    let head = seq![
        ("schema_version"@, decimal(m.schema_version as nat)),
        ("workspace_id"@, quoted(m.id)),
        ("name"@, quoted(m.name)),
    ];
    let environment = match m.default_environment {
        Some(e) => seq![("default_environment"@, quoted(e))],
        None => seq![],
    };
    head + environment + seq![("trust"@, quoted(trust_text(m.trust)))]
}

/// The lines of a manifest.
pub open spec fn manifest_lines(m: ManifestView) -> Seq<Seq<char>> {
    field_lines(manifest_assignments(m)) + unknown_lines(m.unknown_fields)
}

/// The text of a manifest.
pub open spec fn manifest_text(m: ManifestView) -> Seq<char> {
    unlines(manifest_lines(m))
}

/// Writes a manifest.
pub fn format_manifest(manifest: &WorkspaceManifest) -> (r: String)
    requires
        manifest.wf(),
    ensures
        r@ == manifest_text(manifest@),
{
    let mut out = LineWriter::new();
    out.field("schema_version", decimal_text(manifest.schema_version as u64).as_str());
    out.field("workspace_id", quote(manifest.id.as_str()).as_str());
    out.field("name", quote(manifest.name.as_str()).as_str());
    if let Some(environment) = &manifest.default_environment {
        out.field("default_environment", quote(environment.as_str()).as_str());
    }
    let trust = match manifest.trust {
        WorkspaceTrust::Untrusted => "untrusted",
        WorkspaceTrust::Trusted => "trusted",
    };
    out.field("trust", quote(trust).as_str());
    assert(out.written@ =~= field_lines(manifest_assignments(manifest@)));
    append_unknown_fields(&mut out, &manifest.unknown_fields);
    out.text
}

/// The identifier under a key.
pub open spec fn id_value(m: Fields, key: Seq<char>) -> Result<Seq<char>, WorkspaceErrorView> {
    match required_string(m, key) {
        Err(e) => Err(e),
        Ok(text) => match parse_id(text) {
            Ok(id) => Ok(id),
            Err(e) => Err(WorkspaceErrorView::InvalidFormat(domain_message(e))),
        },
    }
}

/// Reads the identifier under a key.
pub fn parse_id_field(values: &FieldMap, key: &str) -> (r: Result<StableId, WorkspaceError>)
    requires
        values.wf(),
    ensures
        outcome(r) == id_value(values@, key@),
{
    match parse_required_string(values, key) {
        Err(e) => Err(e),
        Ok(text) => match StableId::parse(text.as_str()) {
            Ok(id) => Ok(id),
            Err(e) => Err(WorkspaceError::InvalidFormat(e.message())),
        },
    }
}

/// The degree of trust that the fields of a manifest state.
pub open spec fn trust_value(m: Fields) -> Result<WorkspaceTrust, WorkspaceErrorView> {
    if !m.dom().contains("trust"@) {
        Ok(WorkspaceTrust::Untrusted)
    } else {
        match string_value(m["trust"@]) {
            Err(e) => Err(e),
            Ok(text) => if text == "trusted"@ {
                Ok(WorkspaceTrust::Trusted)
            } else if text == "untrusted"@ {
                Ok(WorkspaceTrust::Untrusted)
            } else {
                Err(WorkspaceErrorView::InvalidFormat("invalid trust value: "@ + m["trust"@]))
            },
        }
    }
}

fn parse_trust(values: &FieldMap) -> (r: Result<WorkspaceTrust, WorkspaceError>)
    requires
        values.wf(),
    ensures
        match r {
            Ok(t) => trust_value(values@) == Ok::<WorkspaceTrust, WorkspaceErrorView>(t),
            Err(e) => trust_value(values@) == Err::<WorkspaceTrust, WorkspaceErrorView>(e@),
        },
{
    match values.get("trust") {
        None => Ok(WorkspaceTrust::Untrusted),
        Some(value) => match parse_string(value.as_str()) {
            Err(e) => Err(e),
            Ok(text) => if same_text(text.as_str(), "trusted") {
                Ok(WorkspaceTrust::Trusted)
            } else if same_text(text.as_str(), "untrusted") {
                Ok(WorkspaceTrust::Untrusted)
            } else {
                Err(WorkspaceError::InvalidFormat(concat2("invalid trust value: ", value.as_str())))
            },
        },
    }
}

/// The manifest that fields describe.
pub open spec fn manifest_of_fields(m: Fields) -> Result<ManifestView, WorkspaceErrorView> {
    match schema_version_of(m) {
        Err(e) => Err(e),
        Ok(schema_version) => match id_value(m, "workspace_id"@) {
            Err(e) => Err(e),
            Ok(id) => match required_string(m, "name"@) {
                Err(e) => Err(e),
                Ok(name) => match optional_string(m, "default_environment"@) {
                    Err(e) => Err(e),
                    Ok(default_environment) => match trust_value(m) {
                        Err(e) => Err(e),
                        Ok(trust) => Ok(
                            ManifestView {
                                schema_version,
                                id,
                                name,
                                default_environment,
                                trust,
                                unknown_fields: without(m, manifest_keys()),
                            },
                        ),
                    },
                },
            },
        },
    }
}

/// The manifest that a text describes.
pub open spec fn manifest_value(text: Seq<char>) -> Result<ManifestView, WorkspaceErrorView> {
    match flat_fields(lines(text)) {
        Ok(m) => manifest_of_fields(m),
        Err(e) => Err(e),
    }
}

/// Reads a manifest.
pub fn parse_manifest(input: &str) -> (r: Result<WorkspaceManifest, WorkspaceError>)
    ensures
        outcome(r) == manifest_value(input@),
        r matches Ok(m) ==> m.wf(),
{
    let values = match parse_flat_document(input) {
        Ok(values) => values,
        Err(e) => {
            return Err(e);
        },
    };
    let schema_version = match parse_schema_version(&values) {
        Ok(v) => v,
        Err(e) => {
            return Err(e);
        },
    };
    let id = match parse_id_field(&values, "workspace_id") {
        Ok(v) => v,
        Err(e) => {
            return Err(e);
        },
    };
    let name = match parse_required_string(&values, "name") {
        Ok(v) => v,
        Err(e) => {
            return Err(e);
        },
    };
    let default_environment = match parse_optional_string(&values, "default_environment") {
        Ok(v) => v,
        Err(e) => {
            return Err(e);
        },
    };
    let trust = match parse_trust(&values) {
        Ok(v) => v,
        Err(e) => {
            return Err(e);
        },
    };
    let mut unknown_fields = values;
    let keys = ["schema_version", "workspace_id", "name", "default_environment", "trust"];
    remove_keys(&mut unknown_fields, keys.as_slice());
    assert(names(keys@) =~= manifest_keys());
    Ok(WorkspaceManifest { schema_version, id, name, default_environment, trust, unknown_fields })
}

/// Whether a manifest can be written and read back.
pub open spec fn manifest_writable(m: ManifestView) -> bool {
    &&& m.schema_version == CURRENT_SCHEMA_VERSION
    &&& is_slug(m.id)
    &&& m.unknown_fields.dom().finite()
    &&& preservable(m.unknown_fields, manifest_keys())
}

proof fn lemma_manifest_keys()
    ensures
        "schema_version"@ != "workspace_id"@,
        "schema_version"@ != "name"@,
        "schema_version"@ != "default_environment"@,
        "schema_version"@ != "trust"@,
        "workspace_id"@ != "name"@,
        "workspace_id"@ != "default_environment"@,
        "workspace_id"@ != "trust"@,
        "name"@ != "default_environment"@,
        "name"@ != "trust"@,
        "default_environment"@ != "trust"@,
        "trusted"@ != "untrusted"@,
        forall|i: int|
            0 <= i < manifest_keys().len() ==> crate::document::is_key(#[trigger] manifest_keys()[i]),
{
    reveal_strlit("schema_version");
    reveal_strlit("workspace_id");
    reveal_strlit("name");
    reveal_strlit("default_environment");
    reveal_strlit("trust");
    reveal_strlit("trusted");
    reveal_strlit("untrusted");
    assert("schema_version"@.len() == 14);
    assert("workspace_id"@.len() == 12);
    assert("name"@.len() == 4);
    assert("default_environment"@.len() == 19);
    assert("trust"@.len() == 5);
    assert("trusted"@.len() == 7 && "untrusted"@.len() == 9);
}

/// A manifest is read back from its own text: `parse_manifest` undoes
/// `format_manifest`.
pub proof fn law_manifest_round_trip(m: ManifestView)
    requires
        manifest_writable(m),
    ensures
        manifest_value(manifest_text(m)) == Ok::<ManifestView, WorkspaceErrorView>(m),
{
    let list = manifest_assignments(m);
    lemma_manifest_keys();
    lemma_decimal(m.schema_version as nat);
    lemma_parse_decimal(m.schema_version as nat, u32::MAX as int);
    crate::document::lemma_decimal_plain(m.schema_version as nat);
    law_quote_round_trip(m.id);
    law_quote_round_trip(m.name);
    law_quote_round_trip(trust_text(m.trust));
    if let Some(e) = m.default_environment {
        law_quote_round_trip(e);
    }
    let keys = manifest_keys();
    assert(crate::document::is_key(keys[0]) && crate::document::is_key(keys[1])
        && crate::document::is_key(keys[2]) && crate::document::is_key(keys[3])
        && crate::document::is_key(keys[4]));
    assert(writable(list));
    assert(distinct_keys(list));
    lemma_map_of(list);
    lemma_in_order_exists(m.unknown_fields);
    lemma_flat_document(list, m.unknown_fields, keys, in_order(m.unknown_fields));
    lemma_lines_of_unlines(manifest_lines(m));
    let f = map_of(list).union_prefer_right(m.unknown_fields);
    assert(keys.contains(keys[0]) && keys.contains(keys[1]) && keys.contains(keys[2])
        && keys.contains(keys[3]) && keys.contains(keys[4]));
    assert(list[0].0 == keys[0] && list[1].0 == keys[1] && list[2].0 == keys[2]);
    assert(f[keys[0]] == decimal(m.schema_version as nat));
    assert(f[keys[1]] == quoted(m.id));
    assert(f[keys[2]] == quoted(m.name));
    let last = list.len() - 1;
    assert(list[last].0 == keys[4]);
    assert(f[keys[4]] == quoted(trust_text(m.trust)));
    if m.default_environment is Some {
        assert(list[3].0 == keys[3]);
        assert(f[keys[3]] == quoted(m.default_environment->Some_0));
    } else {
        if map_of(list).dom().contains(keys[3]) {
            let i = choose|i: int| 0 <= i < list.len() && (#[trigger] list[i]).0 == keys[3];
            assert(i == 0 || i == 1 || i == 2 || i == 3);
        }
    }
    assert(without(f, keys) =~= m.unknown_fields) by {
        assert forall|k: Seq<char>| map_of(list).dom().contains(k) implies keys.contains(k) by {
            let i = choose|i: int| 0 <= i < list.len() && (#[trigger] list[i]).0 == k;
            assert(i == 0 || i == 1 || i == 2 || i == 3 || i == 4);
        }
    }
}

/// Whatever manifest can be read can be written and read back unchanged.
pub proof fn law_manifest_rewrite_is_stable(text: Seq<char>)
    requires
        manifest_value(text) is Ok,
    ensures
        manifest_writable(manifest_value(text)->Ok_0),
        manifest_value(manifest_text(manifest_value(text)->Ok_0)) == manifest_value(text),
{
    let m = manifest_value(text)->Ok_0;
    let f = flat_fields(lines(text))->Ok_0;
    lemma_lines_hold_no_feed(text);
    lemma_flat_fields_writable(lines(text));
    assert(m.unknown_fields.dom() =~= f.dom().filter(|k: Seq<char>| !manifest_keys().contains(k)));
    f.dom().lemma_len_filter(|k: Seq<char>| !manifest_keys().contains(k));
    law_manifest_round_trip(m);
}

} // verus!
