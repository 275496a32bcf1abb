//! What the commands on a workspace and its environments ask for.
use crate::command_line::{command_parts, filled, items_in, segments};
use crate::domain::is_slug;
use crate::environment::{SourceView, StoredView, VariableSetView};
use crate::environment_operation::{environment_done, variable_said, without_variable};
use crate::files::FilesView;
use crate::flat::Fields;
use crate::paths::joined;
use crate::repository_documents::{environment_place, set_loaded};
use crate::repository_environments::{
    default_set, environment_deleted, environment_renamed, environment_saved, manifest_loaded,
};
use crate::text::{is_blank, split_all, split_once, trim};
use crate::value::ValueView;
use crate::workspace_operation::{operation_asked, AncestryView, OperationView};
use vstd::prelude::*;

verus! {

/// A word of a command: what stands between two bars, without the space around it.
pub open spec fn word(command: Seq<char>, index: int) -> Seq<char> {
    trim(split_all(command, '|')[index])
}

/// Whether a command has so many words besides its name, and none of them is empty.
pub open spec fn has_words(command: Seq<char>, count: int) -> bool {
    &&& split_all(command, '|').len() > count
    &&& forall|i: int| 1 <= i <= count ==> (#[trigger] word(command, i)).len() > 0
}

/// A command on a workspace asks for the change that it names, of what its words name, each
/// word in its place.
pub proof fn law_commands_ask_for_what_they_name(
    root: Seq<char>,
    command: Seq<char>,
    ancestry: Seq<AncestryView>,
)
    ensures
        operation_asked(root, command, ancestry) matches Ok(asked) ==> {
            let name = word(command, 0);
            let a = word(command, 1);
            let b = word(command, 2);
            let c = word(command, 3);
            let d = word(command, 4);
            match asked {
                OperationView::CreateCollection { slug, id, name: called } => name
                    == "create_collection"@ && slug == a && id == b && is_slug(b) && called == c,
                OperationView::RenameCollection { source, target } => name
                    == "rename_collection"@ && source == a && target == b,
                OperationView::DuplicateCollection { source, target } => name
                    == "duplicate_collection"@ && source == a && target == b,
                OperationView::DeleteCollection { slug } => name == "delete_collection"@ && slug
                    == a,
                OperationView::ArchiveCollection { slug, archived } => name
                    == "archive_collection"@ && slug == a && b == (if archived {
                    "true"@
                } else {
                    "false"@
                }),
                OperationView::CreateFolder { collection, folders, id, name: called } => name
                    == "create_folder"@ && collection == a && folders == segments(b) && id == c
                    && is_slug(c) && called == d,
                OperationView::RenameFolder { collection, folders, target } => name
                    == "rename_folder"@ && collection == a && folders == segments(b) && target
                    == c,
                OperationView::MoveFolder { collection, folders, parents, target } => name
                    == "move_folder"@ && collection == a && folders == segments(b) && parents
                    == segments(c) && target == d,
                OperationView::DuplicateFolder { collection, folders, parents, target } => name
                    == "duplicate_folder"@ && collection == a && folders == segments(b) && parents
                    == segments(c) && target == d,
                OperationView::DeleteFolder { collection, folders } => name == "delete_folder"@
                    && collection == a && folders == segments(b),
                OperationView::ArchiveFolder { collection, folders, archived } => name
                    == "archive_folder"@ && collection == a && folders == segments(b) && c == (
                if archived {
                    "true"@
                } else {
                    "false"@
                }),
                OperationView::CreateRequest { path, id, name: called, url } => name
                    == "create_request"@ && path == joined(root, trim(a)) && id == b && called == c
                    && url == d,
                OperationView::MoveRequest { source, target } => name == "move_request"@ && source
                    == joined(root, trim(a)) && target == joined(root, trim(b)),
                OperationView::DuplicateRequest { source, target } => name
                    == "duplicate_request"@ && source == joined(root, trim(a)) && target == joined(
                    root,
                    trim(b),
                ),
                OperationView::DeleteRequest { path } => name == "delete_request"@ && path
                    == joined(root, trim(a)),
                OperationView::SetOrder { collection, folders, items } => name == "set_order"@
                    && collection == a && (folders == segments(b) || folders.len() == 0 && segments(
                    b,
                ) == seq!["-"@]) && items == items_in(c, ','),
            }
        },
{
    let parts = command_parts(command);
    assert(parts[0] == word(command, 0));
    assert(parts.len() > 1 ==> parts[1] == word(command, 1));
    assert(parts.len() > 2 ==> parts[2] == word(command, 2));
    assert(parts.len() > 3 ==> parts[3] == word(command, 3));
    assert(parts.len() > 4 ==> parts[4] == word(command, 4));
}

/// The names of commands, by their lengths and some of their characters.
proof fn lemma_names()
    ensures
        "create_collection"@.len() == 17,
        "rename_collection"@.len() == 17,
        "duplicate_collection"@.len() == 20,
        "delete_collection"@.len() == 17,
        "archive_collection"@.len() == 18,
        "create_folder"@.len() == 13,
        "rename_folder"@.len() == 13,
        "move_folder"@.len() == 11,
        "duplicate_folder"@.len() == 16,
        "delete_folder"@.len() == 13,
        "archive_folder"@.len() == 14,
        "set_order"@.len() == 9,
        "create_collection"@[0] == 'c',
        "rename_collection"@[0] == 'r',
        "delete_collection"@[0] == 'd',
        "create_folder"@[0] == 'c',
        "rename_folder"@[0] == 'r',
        "delete_folder"@[0] == 'd',
        "create_request"@.len() == 14,
        "create_request"@[0] == 'c',
        "archive_folder"@[0] == 'a',
        "move_request"@.len() == 12,
        "duplicate_request"@.len() == 17,
        "duplicate_request"@[1] == 'u',
        "delete_collection"@[1] == 'e',
        "delete_request"@.len() == 14,
        "delete_request"@[0] == 'd',
{
    reveal_strlit("create_collection");
    reveal_strlit("rename_collection");
    reveal_strlit("duplicate_collection");
    reveal_strlit("delete_collection");
    reveal_strlit("archive_collection");
    reveal_strlit("create_folder");
    reveal_strlit("rename_folder");
    reveal_strlit("move_folder");
    reveal_strlit("duplicate_folder");
    reveal_strlit("delete_folder");
    reveal_strlit("archive_folder");
    reveal_strlit("set_order");
    reveal_strlit("create_request");
    reveal_strlit("move_request");
    reveal_strlit("duplicate_request");
    reveal_strlit("delete_request");
}

/// A command on collections and folders that has all its words is understood.
pub proof fn law_whole_commands_are_understood(
    root: Seq<char>,
    command: Seq<char>,
    ancestry: Seq<AncestryView>,
)
    requires
        ({
            let name = word(command, 0);
            ||| name == "create_collection"@ && has_words(command, 3) && is_slug(word(command, 2))
            ||| name == "rename_collection"@ && has_words(command, 2)
            ||| name == "duplicate_collection"@ && has_words(command, 2)
            ||| name == "delete_collection"@ && has_words(command, 1)
            ||| name == "create_folder"@ && has_words(command, 4) && is_slug(word(command, 3))
            ||| name == "rename_folder"@ && has_words(command, 3)
            ||| name == "move_folder"@ && has_words(command, 4)
            ||| name == "duplicate_folder"@ && has_words(command, 4)
            ||| name == "delete_folder"@ && has_words(command, 2)
            ||| name == "set_order"@ && has_words(command, 3)
            ||| name == "archive_collection"@ && has_words(command, 2) && (word(command, 2)
                == "true"@ || word(command, 2) == "false"@)
            ||| name == "archive_folder"@ && has_words(command, 3) && (word(command, 3)
                == "true"@ || word(command, 3) == "false"@)
        }),
    ensures
        operation_asked(root, command, ancestry) is Ok,
{
    let parts = command_parts(command);
    assert(parts[0] == word(command, 0));
    assert(parts.len() > 1 ==> parts[1] == word(command, 1));
    assert(parts.len() > 2 ==> parts[2] == word(command, 2));
    assert(parts.len() > 3 ==> parts[3] == word(command, 3));
    assert(parts.len() > 4 ==> parts[4] == word(command, 4));
    lemma_names();
}

/// The items of a text are what stands between its separators, without the space around it, but
/// for what is blank.
pub proof fn law_items_are_what_is_set_off(text: Seq<char>, separator: char)
    ensures
        items_in(text, separator) == split_all(text, separator).filter(
            |p: Seq<char>| !is_blank(p),
        ).map_values(|p: Seq<char>| trim(p)),
        segments(text) == items_in(text, '/'),
{
    lemma_filled(split_all(text, separator));
}

proof fn lemma_filled(pieces: Seq<Seq<char>>)
    ensures
        filled(pieces) == pieces.filter(|p: Seq<char>| !is_blank(p)).map_values(
            |p: Seq<char>| trim(p),
        ),
    decreases pieces.len(),
{
    let kept = |p: Seq<char>| !is_blank(p);
    let shown = |p: Seq<char>| trim(p);
    reveal(Seq::filter);
    if pieces.len() == 0 {
        assert(pieces.filter(kept).map_values(shown) =~= seq![]);
    } else {
        lemma_filled(pieces.drop_last());
        let front = pieces.drop_last().filter(kept);
        if kept(pieces.last()) {
            assert(pieces.filter(kept) =~= front.push(pieces.last()));
            assert(front.push(pieces.last()).map_values(shown) =~= front.map_values(shown).push(
                trim(pieces.last()),
            ));
        } else {
            assert(pieces.filter(kept) =~= front);
        }
    }
}

proof fn lemma_without(list: Seq<StoredView>, name: Seq<char>)
    ensures
        without_variable(list, name) == list.filter(|v: StoredView| v.name != name),
    decreases list.len(),
{
    reveal(Seq::filter);
    if list.len() > 0 {
        lemma_without(list.drop_last(), name);
    }
}

/// Whether variables are given a value in the way that words say.
pub open spec fn source_is_as_said(
    source: SourceView,
    kind: Seq<char>,
    value: Seq<char>,
) -> bool {
    match source {
        SourceView::Literal(v) => kind == "literal"@ && v == ValueView::String(value),
        SourceView::ProcessEnvironment { name } => kind == "env"@ && name == value,
        SourceView::Secret(s) => kind == "secret"@ && split_once(value, '/') == Some(
            (s.namespace, s.name),
        ),
    }
}

/// The variable that a command gives is the one that its words say: its name, where its value
/// comes from, how secret it is and whether it is in use.
pub proof fn law_variables_are_set_as_said(command: Seq<char>)
    ensures
        variable_said(command_parts(command)) matches Ok(v) ==> {
            &&& v.name == word(command, 2)
            &&& source_is_as_said(v.source, word(command, 3), word(command, 4))
            &&& (v.sensitivity is Public) <==> word(command, 5) == "public"@
            &&& (v.sensitivity is Sensitive) <==> word(command, 5) == "sensitive"@
            &&& (v.sensitivity is Secret) <==> word(command, 5) == "secret"@
            &&& v.enabled <==> word(command, 6) == "true"@
            &&& v.description is None
        },
{
    let parts = command_parts(command);
    assert(parts.len() > 2 ==> parts[2] == word(command, 2));
    assert(parts.len() > 3 ==> parts[3] == word(command, 3));
    assert(parts.len() > 4 ==> parts[4] == word(command, 4));
    assert(parts.len() > 5 ==> parts[5] == word(command, 5));
    assert(parts.len() > 6 ==> parts[6] == word(command, 6));
    reveal_strlit("public");
    reveal_strlit("sensitive");
    reveal_strlit("secret");
    reveal_strlit("true");
    reveal_strlit("false");
    reveal_strlit("literal");
    reveal_strlit("env");
    assert("public"@[0] == 'p' && "sensitive"@.len() == 9 && "secret"@[0] == 's');
    assert("public"@.len() == 6 && "secret"@.len() == 6);
    assert("true"@.len() == 4 && "false"@.len() == 5);
    assert("literal"@.len() == 7 && "env"@.len() == 3);
}

/// To set a variable of an environment is to write the environment again with all its other
/// variables, in order, and then the variable; nothing else of it changes.
pub proof fn law_setting_a_variable_keeps_the_others(
    files: FilesView,
    root: Seq<char>,
    command: Seq<char>,
    nonce: u128,
    document: VariableSetView,
)
    requires
        word(command, 0) == "set"@,
        environment_done(files, root, command, nonce).0 is Ok,
        set_loaded(files.nodes, root, environment_place(word(command, 1))) matches Ok(d) && {
            &&& document.id == d.value.id
            &&& document.name == d.value.name
            &&& document.schema_version == d.value.schema_version
            &&& document.unknown_fields == d.value.unknown_fields
            &&& document.variables == d.value.variables.filter(
                |v: StoredView| v.name != word(command, 2),
            ).push(variable_said(command_parts(command))->Ok_0)
        },
    ensures
        variable_said(command_parts(command)) is Ok,
        environment_done(files, root, command, nonce).1 == environment_saved(
            files,
            root,
            document,
            Some(set_loaded(files.nodes, root, environment_place(word(command, 1)))->Ok_0.fingerprint),
        ).1,
        environment_saved(
            files,
            root,
            document,
            Some(set_loaded(files.nodes, root, environment_place(word(command, 1)))->Ok_0.fingerprint),
        ).0 is Ok,
{
    let parts = command_parts(command);
    assert(parts[0] == word(command, 0));
    assert(parts.len() > 1 ==> parts[1] == word(command, 1));
    lemma_environment_names();
    law_variables_are_set_as_said(command);
    let d = set_loaded(files.nodes, root, environment_place(word(command, 1)))->Ok_0;
    lemma_without(d.value.variables, word(command, 2));
    let variable = variable_said(parts)->Ok_0;
    assert(document =~= VariableSetView {
        variables: without_variable(d.value.variables, variable.name).push(variable),
        ..d.value
    });
}

/// To remove a variable of an environment is to write the environment again with all its other
/// variables, in order; nothing else of it changes. A variable that is not there is refused.
pub proof fn law_removing_a_variable_keeps_the_others(
    files: FilesView,
    root: Seq<char>,
    command: Seq<char>,
    nonce: u128,
    document: VariableSetView,
)
    requires
        word(command, 0) == "remove"@,
        environment_done(files, root, command, nonce).0 is Ok,
        set_loaded(files.nodes, root, environment_place(word(command, 1))) matches Ok(d) && {
            &&& document.id == d.value.id
            &&& document.name == d.value.name
            &&& document.schema_version == d.value.schema_version
            &&& document.unknown_fields == d.value.unknown_fields
            &&& document.variables == d.value.variables.filter(
                |v: StoredView| v.name != word(command, 2),
            )
        },
    ensures
        environment_done(files, root, command, nonce).1 == environment_saved(
            files,
            root,
            document,
            Some(set_loaded(files.nodes, root, environment_place(word(command, 1)))->Ok_0.fingerprint),
        ).1,
        document.variables.len() != (set_loaded(
            files.nodes,
            root,
            environment_place(word(command, 1)),
        )->Ok_0.value.variables).len(),
{
    let parts = command_parts(command);
    assert(parts[0] == word(command, 0));
    assert(parts.len() > 1 ==> parts[1] == word(command, 1));
    assert(parts.len() > 2 ==> parts[2] == word(command, 2));
    lemma_environment_names();
    let d = set_loaded(files.nodes, root, environment_place(word(command, 1)))->Ok_0;
    lemma_without(d.value.variables, word(command, 2));
    assert(document =~= VariableSetView {
        variables: without_variable(d.value.variables, word(command, 2)),
        ..d.value
    });
}

proof fn lemma_environment_names()
    ensures
        "create"@.len() == 6,
        "create"@[0] == 'c',
        "rename"@.len() == 6,
        "rename"@[2] == 'n',
        "rename"@[0] == 'r',
        "delete"@.len() == 6,
        "delete"@[0] == 'd',
        "default"@.len() == 7,
        "set"@.len() == 3,
        "remove"@.len() == 6,
        "remove"@[2] == 'm',
        "remove"@[0] == 'r',
{
    reveal_strlit("create");
    reveal_strlit("rename");
    reveal_strlit("delete");
    reveal_strlit("default");
    reveal_strlit("set");
    reveal_strlit("remove");
}

/// The commands that make, rename and delete environments, and choose the one that is used by
/// default, do so with the environment that they name, as it is now.
pub proof fn law_environment_commands_do_what_they_name(
    files: FilesView,
    root: Seq<char>,
    command: Seq<char>,
    nonce: u128,
    document: VariableSetView,
)
    requires
        environment_done(files, root, command, nonce).0 is Ok,
        document.schema_version == crate::document::CURRENT_SCHEMA_VERSION,
        document.id == word(command, 1),
        document.name == word(command, 2),
        document.variables.len() == 0,
        document.unknown_fields == Fields::empty(),
    ensures
        ({
            let name = word(command, 0);
            let id = word(command, 1);
            let found = set_loaded(files.nodes, root, environment_place(id));
            let after = environment_done(files, root, command, nonce).1;
            &&& name == "create"@ || name == "rename"@ || name == "delete"@ || name == "default"@
                || name == "set"@ || name == "remove"@
            &&& name == "create"@ ==> after == environment_saved(files, root, document, None).1
            &&& name == "rename"@ ==> found is Ok && after == environment_renamed(
                files,
                root,
                id,
                word(command, 2),
                found->Ok_0.fingerprint,
            ).1
            &&& name == "delete"@ ==> found is Ok && after == environment_deleted(
                files,
                root,
                id,
                found->Ok_0.fingerprint,
                nonce,
            ).1
            &&& name == "default"@ ==> manifest_loaded(files.nodes, root) is Ok && after
                == default_set(
                files,
                root,
                if id == "none"@ {
                    None
                } else {
                    Some(id)
                },
                manifest_loaded(files.nodes, root)->Ok_0.fingerprint,
            ).1
        }),
{
    let parts = command_parts(command);
    assert(parts[0] == word(command, 0));
    assert(parts.len() > 1 ==> parts[1] == word(command, 1));
    assert(parts.len() > 2 ==> parts[2] == word(command, 2));
    lemma_environment_names();
    assert(document.variables =~= seq![]);
    assert(document =~= crate::environment_operation::new_environment(
        word(command, 1),
        word(command, 2),
    ));
}

} // verus!
