//! Changing environments by commands.
use crate::command_line::{command_parts, find_part, part, split_command};
use crate::document::CURRENT_SCHEMA_VERSION;
use crate::domain::{domain_message, named_sensitivity, sensitivity_named, StableId, ValueSensitivity};
use crate::editor_fields::said;
use crate::environment::{
    secret_check, stored_views, SecretRef, SecretView, SourceView, StoredVariable,
    StoredVariableSource, StoredView, VariableSetDocument, VariableSetView,
};
use crate::error::{error_message, outcome, WorkspaceErrorView};
use crate::files::{FileTree, FilesView};
use crate::flat::Fields;
use crate::message::{concat2, concat3, concat5};
use crate::repository::WorkspaceRepository;
use crate::repository_documents::{environment_place, set_loaded};
use crate::repository_environments::{
    default_set, environment_deleted, environment_renamed, environment_saved, manifest_loaded,
};
use crate::text::{chars_of, same_text, split_at_char, split_once, string_of, texts};
use crate::value::{ValueView, VariableValue};
use crate::workspace_operation::{find_id, find_truth, id_part, truth_part};
use vstd::prelude::*;

verus! {

/// What came of a command, with the files after it.
pub type EnvironmentOutcome = (Result<Seq<char>, Seq<char>>, FilesView);

/// What is told of a change to an environment.
pub open spec fn environment_told<T>(
    done: (Result<T, WorkspaceErrorView>, FilesView),
    message: Seq<char>,
) -> EnvironmentOutcome {
    (
        match done.0 {
            Ok(_) => Ok(message),
            Err(e) => Err(error_message(e)),
        },
        done.1,
    )
}

/// The sensitivity that a text says.
pub open spec fn sensitivity_said(text: Seq<char>) -> Result<ValueSensitivity, Seq<char>> {
    match named_sensitivity(text) {
        Some(s) => Ok(s),
        None => Err("unknown sensitivity '"@ + text + "'"@),
    }
}

/// Reads a sensitivity.
pub fn environment_sensitivity(value: &str) -> (r: Result<ValueSensitivity, String>)
    ensures
        said(r) == sensitivity_said(value@),
{
    match sensitivity_named(value) {
        Some(s) => Ok(s),
        None => Err(concat3("unknown sensitivity '", value, "'")),
    }
}

/// Where a variable gets its value, by the kind of the source and what is said of it.
pub open spec fn source_said(
    kind: Seq<char>,
    value: Seq<char>,
    sensitivity: ValueSensitivity,
) -> Result<SourceView, Seq<char>> {
    if kind == "literal"@ {
        if sensitivity == ValueSensitivity::Secret {
            Err("secret variables must use a secret reference, not a literal"@)
        } else {
            Ok(SourceView::Literal(ValueView::String(value)))
        }
    } else if kind == "env"@ {
        Ok(SourceView::ProcessEnvironment { name: value })
    } else if kind == "secret"@ {
        match split_once(value, '/') {
            None => Err("secret source must use namespace/name"@),
            Some((namespace, name)) => match secret_check(namespace, name) {
                Some(e) => Err(domain_message(e)),
                None => Ok(SourceView::Secret(SecretView { namespace, name })),
            },
        }
    } else {
        Err("unknown variable source kind '"@ + kind + "'"@)
    }
}

/// Reads where a variable gets its value.
pub fn read_source(kind: &str, value: &str, sensitivity: ValueSensitivity) -> (r: Result<
    StoredVariableSource,
    String,
>)
    ensures
        outcome(r) == source_said(kind@, value@, sensitivity),
{
    if same_text(kind, "literal") {
        if sensitivity == ValueSensitivity::Secret {
            Err("secret variables must use a secret reference, not a literal".to_owned())
        } else {
            Ok(StoredVariableSource::Literal(VariableValue::String(value.to_owned())))
        }
    } else if same_text(kind, "env") {
        Ok(StoredVariableSource::ProcessEnvironment { name: value.to_owned() })
    } else if same_text(kind, "secret") {
        let chars = chars_of(value);
        match split_at_char(chars.as_slice(), '/') {
            None => Err("secret source must use namespace/name".to_owned()),
            Some((namespace, name)) => match SecretRef::new(
                string_of(namespace).as_str(),
                string_of(name).as_str(),
            ) {
                Err(e) => Err(e.message()),
                Ok(s) => Ok(StoredVariableSource::Secret(s)),
            },
        }
    } else {
        Err(concat3("unknown variable source kind '", kind, "'"))
    }
}

/// Variables without those of a name.
pub open spec fn without_variable(list: Seq<StoredView>, name: Seq<char>) -> Seq<StoredView>
    decreases list.len(),
{
    if list.len() == 0 {
        seq![]
    } else if list.last().name == name {
        without_variable(list.drop_last(), name)
    } else {
        without_variable(list.drop_last(), name).push(list.last())
    }
}

fn remove_variable(list: &mut Vec<StoredVariable>, name: &str)
    ensures
        stored_views(final(list)@) == without_variable(stored_views(old(list)@), name@),
{
    let ghost all = stored_views(list@);
    let ghost mut k: int = 0;
    let mut i: usize = 0;
    proof {
        assert(stored_views(list@) =~= without_variable(all.take(0), name@) + all.skip(0));
    }
    while i < list.len()
        invariant
            i <= list@.len(),
            0 <= k <= all.len(),
            i == without_variable(all.take(k), name@).len(),
            stored_views(list@) == without_variable(all.take(k), name@) + all.skip(k),
        decreases list@.len() - i,
    {
        let ghost before = stored_views(list@);
        let ghost kept = without_variable(all.take(k), name@);
        assert(before.len() == list@.len());
        assert(k < all.len());
        assert(before[i as int] == all.skip(k)[0]);
        assert(before[i as int] == list@[i as int]@);
        assert(all.take(k + 1).drop_last() =~= all.take(k));
        assert(all.take(k + 1).last() == all[k]);
        if same_text(list[i].name.as_str(), name) {
            let _ = list.remove(i);
            proof {
                assert(stored_views(list@) =~= before.remove(i as int));
                assert(before.remove(i as int) =~= kept + all.skip(k + 1));
                k = k + 1;
            }
        } else {
            i = i + 1;
            proof {
                assert(stored_views(list@) =~= kept.push(all[k]) + all.skip(k + 1));
                k = k + 1;
            }
        }
    }
    proof {
        assert(stored_views(list@).len() == list@.len());
        assert(k == all.len());
        assert(all.take(k) =~= all);
        assert(stored_views(list@) =~= without_variable(all, name@));
    }
}

/// An environment that was just made.
pub open spec fn new_environment(id: Seq<char>, name: Seq<char>) -> VariableSetView {
    VariableSetView {
        schema_version: CURRENT_SCHEMA_VERSION,
        id,
        name,
        variables: seq![],
        unknown_fields: Fields::empty(),
    }
}

/// What comes of `create`.
pub open spec fn create_done(files: FilesView, root: Seq<char>, parts: Seq<Seq<char>>) -> EnvironmentOutcome {
    match id_part(parts, 1, "id"@) {
        Err(e) => (Err(e), files),
        Ok(id) => match part(parts, 2, "name"@) {
            Err(e) => (Err(e), files),
            Ok(name) => environment_told(
                environment_saved(files, root, new_environment(id, name), None),
                "Created environment '"@ + id + "'"@,
            ),
        },
    }
}

/// What comes of `rename`.
pub open spec fn rename_done(files: FilesView, root: Seq<char>, parts: Seq<Seq<char>>) -> EnvironmentOutcome {
    match id_part(parts, 1, "id"@) {
        Err(e) => (Err(e), files),
        Ok(id) => match part(parts, 2, "name"@) {
            Err(e) => (Err(e), files),
            Ok(name) => match set_loaded(files.nodes, root, environment_place(id)) {
                Err(e) => (Err(error_message(e)), files),
                Ok(d) => environment_told(
                    environment_renamed(files, root, id, name, d.fingerprint),
                    "Renamed environment '"@ + id + "'"@,
                ),
            },
        },
    }
}

/// What comes of `delete`.
pub open spec fn delete_done(
    files: FilesView,
    root: Seq<char>,
    parts: Seq<Seq<char>>,
    nonce: u128,
) -> EnvironmentOutcome {
    match id_part(parts, 1, "id"@) {
        Err(e) => (Err(e), files),
        Ok(id) => match set_loaded(files.nodes, root, environment_place(id)) {
            Err(e) => (Err(error_message(e)), files),
            Ok(d) => environment_told(
                environment_deleted(files, root, id, d.fingerprint, nonce),
                "Deleted environment '"@ + id + "'"@,
            ),
        },
    }
}

/// The environment that `default` names, or none.
pub open spec fn default_named(parts: Seq<Seq<char>>) -> Result<Option<Seq<char>>, Seq<char>> {
    match part(parts, 1, "id or none"@) {
        Err(e) => Err(e),
        Ok(text) => if text == "none"@ {
            Ok(None)
        } else {
            match crate::domain::parse_id(text) {
                Err(e) => Err(domain_message(e)),
                Ok(id) => Ok(Some(id)),
            }
        },
    }
}

/// What comes of `default`.
pub open spec fn default_done(files: FilesView, root: Seq<char>, parts: Seq<Seq<char>>) -> EnvironmentOutcome {
    match manifest_loaded(files.nodes, root) {
        Err(e) => (Err(error_message(e)), files),
        Ok(m) => match default_named(parts) {
            Err(e) => (Err(e), files),
            Ok(id) => environment_told(
                default_set(files, root, id, m.fingerprint),
                "Default environment set to "@ + (match id {
                    Some(i) => i,
                    None => "none"@,
                }),
            ),
        },
    }
}

/// The variable that `set` gives.
pub open spec fn variable_said(parts: Seq<Seq<char>>) -> Result<StoredView, Seq<char>> {
    match part(parts, 2, "variable name"@) {
        Err(e) => Err(e),
        Ok(name) => match part(parts, 3, "source kind"@) {
            Err(e) => Err(e),
            Ok(kind) => match part(parts, 4, "source value"@) {
                Err(e) => Err(e),
                Ok(value) => match part(parts, 5, "sensitivity"@) {
                    Err(e) => Err(e),
                    Ok(word) => match sensitivity_said(word) {
                        Err(e) => Err(e),
                        Ok(sensitivity) => match truth_part(
                            parts,
                            6,
                            "enabled flag"@,
                            "enabled flag must be true or false"@,
                        ) {
                            Err(e) => Err(e),
                            Ok(enabled) => match source_said(kind, value, sensitivity) {
                                Err(e) => Err(e),
                                Ok(source) => Ok(
                                    StoredView {
                                        name,
                                        source,
                                        sensitivity,
                                        enabled,
                                        description: None,
                                    },
                                ),
                            },
                        },
                    },
                },
            },
        },
    }
}

/// What comes of `set`.
pub open spec fn set_done(files: FilesView, root: Seq<char>, parts: Seq<Seq<char>>) -> EnvironmentOutcome {
    match id_part(parts, 1, "environment id"@) {
        Err(e) => (Err(e), files),
        Ok(id) => match variable_said(parts) {
            Err(e) => (Err(e), files),
            Ok(variable) => match set_loaded(files.nodes, root, environment_place(id)) {
                Err(e) => (Err(error_message(e)), files),
                Ok(d) => environment_told(
                    environment_saved(
                        files,
                        root,
                        VariableSetView {
                            variables: without_variable(d.value.variables, variable.name).push(
                                variable,
                            ),
                            ..d.value
                        },
                        Some(d.fingerprint),
                    ),
                    "Updated variable '"@ + variable.name + "' in '"@ + id + "'"@,
                ),
            },
        },
    }
}

/// What comes of `remove`.
pub open spec fn remove_done(files: FilesView, root: Seq<char>, parts: Seq<Seq<char>>) -> EnvironmentOutcome {
    match id_part(parts, 1, "environment id"@) {
        Err(e) => (Err(e), files),
        Ok(id) => match part(parts, 2, "variable name"@) {
            Err(e) => (Err(e), files),
            Ok(name) => match set_loaded(files.nodes, root, environment_place(id)) {
                Err(e) => (Err(error_message(e)), files),
                Ok(d) => {
                    let kept = without_variable(d.value.variables, name);
                    if kept.len() == d.value.variables.len() {
                        (Err("variable '"@ + name + "' was not found"@), files)
                    } else {
                        environment_told(
                            environment_saved(
                                files,
                                root,
                                VariableSetView { variables: kept, ..d.value },
                                Some(d.fingerprint),
                            ),
                            "Removed variable '"@ + name + "' from '"@ + id + "'"@,
                        )
                    }
                },
            },
        },
    }
}

/// What comes of a command on environments.
pub open spec fn environment_done(
    files: FilesView,
    root: Seq<char>,
    command: Seq<char>,
    nonce: u128,
) -> EnvironmentOutcome {
    let parts = command_parts(command);
    let name = parts[0];
    if name == "create"@ {
        create_done(files, root, parts)
    } else if name == "rename"@ {
        rename_done(files, root, parts)
    } else if name == "delete"@ {
        delete_done(files, root, parts, nonce)
    } else if name == "default"@ {
        default_done(files, root, parts)
    } else if name == "set"@ {
        set_done(files, root, parts)
    } else if name == "remove"@ {
        remove_done(files, root, parts)
    } else {
        (
            Err("environment command must be create, rename, delete, default, set, or remove"@),
            files,
        )
    }
}

fn create(repository: &WorkspaceRepository, files: &mut FileTree, parts: &[String]) -> (r: Result<
    String,
    String,
>)
    requires
        old(files).wf(),
        parts@.len() > 0,
    ensures
        final(files).wf(),
        (outcome(r), final(files)@) == create_done(old(files)@, repository@, texts(parts@)),
{
    let id = match find_id(parts, 1, "id") {
        Ok(v) => v,
        Err(e) => {
            return Err(e);
        },
    };
    let name = match find_part(parts, 2, "name") {
        Ok(v) => v,
        Err(e) => {
            return Err(e);
        },
    };
    let message = concat3("Created environment '", id.as_str(), "'");
    let document = VariableSetDocument::new(id, name.to_owned());
    match repository.create_environment(files, &document) {
        Ok(_) => Ok(message),
        Err(e) => Err(e.message()),
    }
}

fn rename(repository: &WorkspaceRepository, files: &mut FileTree, parts: &[String]) -> (r: Result<
    String,
    String,
>)
    requires
        old(files).wf(),
        parts@.len() > 0,
    ensures
        final(files).wf(),
        (outcome(r), final(files)@) == rename_done(old(files)@, repository@, texts(parts@)),
{
    let id = match find_id(parts, 1, "id") {
        Ok(v) => v,
        Err(e) => {
            return Err(e);
        },
    };
    let name = match find_part(parts, 2, "name") {
        Ok(v) => v,
        Err(e) => {
            return Err(e);
        },
    };
    match repository.load_environment(files, &id) {
        Err(e) => Err(e.message()),
        Ok(d) => match repository.rename_environment(files, &id, name.to_owned(), d.fingerprint) {
            Ok(_) => Ok(concat3("Renamed environment '", id.as_str(), "'")),
            Err(e) => Err(e.message()),
        },
    }
}

fn delete(
    repository: &WorkspaceRepository,
    files: &mut FileTree,
    parts: &[String],
    nonce: u128,
) -> (r: Result<String, String>)
    requires
        old(files).wf(),
        parts@.len() > 0,
    ensures
        final(files).wf(),
        (outcome(r), final(files)@) == delete_done(old(files)@, repository@, texts(parts@), nonce),
{
    let id = match find_id(parts, 1, "id") {
        Ok(v) => v,
        Err(e) => {
            return Err(e);
        },
    };
    match repository.load_environment(files, &id) {
        Err(e) => Err(e.message()),
        Ok(d) => match repository.delete_environment(files, &id, d.fingerprint, nonce) {
            Ok(_) => Ok(concat3("Deleted environment '", id.as_str(), "'")),
            Err(e) => Err(e.message()),
        },
    }
}

fn choose_default(repository: &WorkspaceRepository, files: &mut FileTree, parts: &[String]) -> (r:
    Result<String, String>)
    requires
        old(files).wf(),
        parts@.len() > 0,
    ensures
        final(files).wf(),
        (outcome(r), final(files)@) == default_done(old(files)@, repository@, texts(parts@)),
{
    let manifest = match repository.load_manifest(files) {
        Ok(m) => m,
        Err(e) => {
            return Err(e.message());
        },
    };
    let word = match find_part(parts, 1, "id or none") {
        Ok(v) => v,
        Err(e) => {
            return Err(e);
        },
    };
    if same_text(word, "none") {
        match repository.set_default_environment(files, None, manifest.fingerprint) {
            Ok(_) => Ok(concat2("Default environment set to ", "none")),
            Err(e) => Err(e.message()),
        }
    } else {
        match StableId::parse(word) {
            Err(e) => Err(e.message()),
            Ok(id) => match repository.set_default_environment(
                files,
                Some(&id),
                manifest.fingerprint,
            ) {
                Ok(_) => Ok(concat2("Default environment set to ", id.as_str())),
                Err(e) => Err(e.message()),
            },
        }
    }
}

fn read_variable(parts: &[String]) -> (r: Result<StoredVariable, String>)
    requires
        parts@.len() > 0,
    ensures
        outcome(r) == variable_said(texts(parts@)),
{
    let name = match find_part(parts, 2, "variable name") {
        Ok(v) => v,
        Err(e) => {
            return Err(e);
        },
    };
    let kind = match find_part(parts, 3, "source kind") {
        Ok(v) => v,
        Err(e) => {
            return Err(e);
        },
    };
    let value = match find_part(parts, 4, "source value") {
        Ok(v) => v,
        Err(e) => {
            return Err(e);
        },
    };
    let word = match find_part(parts, 5, "sensitivity") {
        Ok(v) => v,
        Err(e) => {
            return Err(e);
        },
    };
    let sensitivity = match environment_sensitivity(word) {
        Ok(v) => v,
        Err(e) => {
            return Err(e);
        },
    };
    let enabled = match find_truth(
        parts,
        6,
        "enabled flag",
        "enabled flag must be true or false",
    ) {
        Ok(v) => v,
        Err(e) => {
            return Err(e);
        },
    };
    match read_source(kind, value, sensitivity) {
        Err(e) => Err(e),
        Ok(source) => Ok(
            StoredVariable {
                name: name.to_owned(),
                source,
                sensitivity,
                enabled,
                description: None,
            },
        ),
    }
}

fn set(repository: &WorkspaceRepository, files: &mut FileTree, parts: &[String]) -> (r: Result<
    String,
    String,
>)
    requires
        old(files).wf(),
        parts@.len() > 0,
    ensures
        final(files).wf(),
        (outcome(r), final(files)@) == set_done(old(files)@, repository@, texts(parts@)),
{
    let id = match find_id(parts, 1, "environment id") {
        Ok(v) => v,
        Err(e) => {
            return Err(e);
        },
    };
    let variable = match read_variable(parts) {
        Ok(v) => v,
        Err(e) => {
            return Err(e);
        },
    };
    let loaded = match repository.load_environment(files, &id) {
        Ok(d) => d,
        Err(e) => {
            return Err(e.message());
        },
    };
    let fingerprint = loaded.fingerprint;
    let mut document = loaded.value;
    let ghost before = document@;
    let ghost added = variable@;
    remove_variable(&mut document.variables, variable.name.as_str());
    let message = concat5(
        "Updated variable '",
        variable.name.as_str(),
        "' in '",
        id.as_str(),
        "'",
    );
    let ghost kept = stored_views(document.variables@);
    document.variables.push(variable);
    proof {
        assert(stored_views(document.variables@) =~= kept.push(added));
        assert(document@ == (VariableSetView {
            variables: without_variable(before.variables, added.name).push(added),
            ..before
        }));
    }
    match repository.update_environment(files, &document, fingerprint) {
        Ok(_) => Ok(message),
        Err(e) => Err(e.message()),
    }
}

fn remove(repository: &WorkspaceRepository, files: &mut FileTree, parts: &[String]) -> (r: Result<
    String,
    String,
>)
    requires
        old(files).wf(),
        parts@.len() > 0,
    ensures
        final(files).wf(),
        (outcome(r), final(files)@) == remove_done(old(files)@, repository@, texts(parts@)),
{
    let id = match find_id(parts, 1, "environment id") {
        Ok(v) => v,
        Err(e) => {
            return Err(e);
        },
    };
    let name = match find_part(parts, 2, "variable name") {
        Ok(v) => v,
        Err(e) => {
            return Err(e);
        },
    };
    let loaded = match repository.load_environment(files, &id) {
        Ok(d) => d,
        Err(e) => {
            return Err(e.message());
        },
    };
    let fingerprint = loaded.fingerprint;
    let mut document = loaded.value;
    let before: usize = document.variables.len();
    let ghost start = document@;
    remove_variable(&mut document.variables, name);
    assert(stored_views(document.variables@).len() == document.variables@.len());
    if document.variables.len() == before {
        return Err(concat3("variable '", name, "' was not found"));
    }
    assert(document@ == (VariableSetView {
        variables: without_variable(start.variables, name@),
        ..start
    }));
    match repository.update_environment(files, &document, fingerprint) {
        Ok(_) => Ok(concat5("Removed variable '", name, "' from '", id.as_str(), "'")),
        Err(e) => Err(e.message()),
    }
}

/// Carries out a command on environments.
pub fn apply_environment_operation(
    repository: &WorkspaceRepository,
    files: &mut FileTree,
    command: &str,
    nonce: u128,
) -> (r: Result<String, String>)
    requires
        old(files).wf(),
    ensures
        final(files).wf(),
        (outcome(r), final(files)@) == environment_done(old(files)@, repository@, command@, nonce),
{
    let list = split_command(command);
    let parts = list.as_slice();
    let ghost all = texts(parts@);
    assert(all[0] == parts@[0]@);
    let name = parts[0].as_str();
    if same_text(name, "create") {
        create(repository, files, parts)
    } else if same_text(name, "rename") {
        rename(repository, files, parts)
    } else if same_text(name, "delete") {
        delete(repository, files, parts, nonce)
    } else if same_text(name, "default") {
        choose_default(repository, files, parts)
    } else if same_text(name, "set") {
        set(repository, files, parts)
    } else if same_text(name, "remove") {
        remove(repository, files, parts)
    } else {
        Err(
            "environment command must be create, rename, delete, default, set, or remove".to_owned(),
        )
    }
}

/// No variable of a name is left once those of that name are taken out, and the others stay.
pub proof fn law_removed_variable_is_gone(list: Seq<StoredView>, name: Seq<char>)
    ensures
        forall|i: int|
            0 <= i < without_variable(list, name).len() ==> (#[trigger] without_variable(
                list,
                name,
            )[i]).name != name,
        forall|v: StoredView|
            v.name != name ==> (#[trigger] without_variable(list, name).contains(v)
                <==> list.contains(v)),
    decreases list.len(),
{
    if list.len() > 0 {
        let rest = list.drop_last();
        law_removed_variable_is_gone(rest, name);
        let kept = without_variable(rest, name);
        let all = without_variable(list, name);
        assert forall|v: StoredView| v.name != name implies (#[trigger] all.contains(v)
            <==> list.contains(v)) by {
            if list.contains(v) {
                let i = choose|i: int| 0 <= i < list.len() && list[i] == v;
                if i < rest.len() {
                    assert(rest[i] == v);
                    assert(kept.contains(v));
                    let j = choose|j: int| 0 <= j < kept.len() && kept[j] == v;
                    assert(all[j] == v);
                } else {
                    assert(all[kept.len() as int] == v);
                }
            }
            if all.contains(v) {
                let j = choose|j: int| 0 <= j < all.len() && all[j] == v;
                if j < kept.len() {
                    assert(kept[j] == v);
                    assert(kept.contains(v));
                    let i = choose|i: int| 0 <= i < rest.len() && rest[i] == v;
                    assert(list[i] == v);
                } else {
                    assert(list[list.len() - 1] == v);
                }
            }
        }
        assert forall|i: int| 0 <= i < all.len() implies (#[trigger] all[i]).name != name by {
            if i < kept.len() {
                assert(all[i] == kept[i]);
            }
        }
    }
}

/// A variable that is said to be secret is never written as a literal.
pub proof fn law_secrets_are_not_literals(parts: Seq<Seq<char>>)
    requires
        variable_said(parts) is Ok,
        variable_said(parts)->Ok_0.sensitivity == ValueSensitivity::Secret,
    ensures
        !(variable_said(parts)->Ok_0.source is Literal),
{
}

} // verus!
