//! What making, renaming, changing and deleting environments promises.
use crate::environment::{set_text, set_value, source_regular, VariableSetView};
use crate::environment_laws::{
    json_kept, law_variable_set_rewrite_is_stable, numbers_kept, storable_set,
};
use crate::error::WorkspaceErrorView;
use crate::files::{
    effect, entry_names, entry_path, file_bytes, is_entry_name, is_there, performed, under,
    with_directories, without_tree, ActionView, FilesView, Nodes,
};
use crate::manifest::{law_manifest_rewrite_is_stable, manifest_value, ManifestView};
use crate::naming::temporary_place;
use crate::order::{lemma_sorted_texts, sorted_texts};
use crate::paths::{extension_of, joined};
use crate::repository::{digest_at, LoadedView, MAXIMUM_METADATA_BYTES};
use crate::repository_documents::{
    environment_place, optional_set_loaded, override_place, set_loaded,
};
use crate::repository_environments::{
    default_set, environment_deleted, environment_deletion, environment_renamed,
    environment_saved, environments_listed, file_deletion, manifest_loaded, override_deleted,
    override_saved, summaries_of, summary_of, trash_place, EnvironmentSummary, SummaryView,
};
use crate::repository_laws::{
    law_saved_manifest_is_loaded, law_saved_variables_are_loaded,
    law_write_leaves_other_files_alone, lemma_written_bytes,
};
use crate::sorting::{law_sorted, sorted};
use crate::tree_laws::lemma_one_change;
use vstd::prelude::*;
use vstd::utf8::encode_utf8;

verus! {

/// Whether a file of variables reads as it is once it was written: its numbers are written as
/// they were read, and so are its lists and objects.
pub open spec fn reads_as_written(d: VariableSetView) -> bool {
    &&& numbers_kept(d)
    &&& forall|i: int|
        0 <= i < d.variables.len() ==> source_regular((#[trigger] d.variables[i]).source)
            && json_kept(d.variables[i])
}

/// An environment that was made or written again is what is read of it.
pub proof fn law_saved_environment_is_loaded(
    files: FilesView,
    root: Seq<char>,
    document: VariableSetView,
    expected: Option<u64>,
)
    requires
        storable_set(document),
        forall|i: int|
            0 <= i < document.variables.len() ==> json_kept(#[trigger] document.variables[i]),
        encode_utf8(set_text(document)->Ok_0).len() <= MAXIMUM_METADATA_BYTES,
        environment_saved(files, root, document, expected).0 is Ok,
    ensures
        ({
            let (r, after) = environment_saved(files, root, document, expected);
            let place = "environments/"@ + document.id + ".toml"@;
            set_loaded(after.nodes, root, place) == Ok::<
                LoadedView<VariableSetView>,
                WorkspaceErrorView,
            >(LoadedView { value: document, path: joined(root, place), fingerprint: r->Ok_0 })
        }),
{
    law_saved_variables_are_loaded(
        files,
        root,
        environment_place(document.id),
        document,
        expected,
    );
    lemma_environment_place(document.id);
}

proof fn lemma_environment_place(id: Seq<char>)
    ensures
        environment_place(id) == "environments/"@ + id + ".toml"@,
        override_place(id) == ".apex/environments/"@ + id + ".local.toml"@,
        environment_place(id)[0] == 'e',
        override_place(id)[0] == '.',
        environment_place(id).len() > 0,
        override_place(id).len() > 0,
{
    reveal_strlit("environments/");
    reveal_strlit("environments");
    reveal_strlit(".apex/environments/");
    reveal_strlit(".apex/environments");
    assert(environment_place(id) =~= "environments/"@ + id + ".toml"@);
    assert(override_place(id) =~= ".apex/environments/"@ + id + ".local.toml"@);
}

/// An environment that was renamed has the new name, and keeps its identifier, each of its
/// variables in order, and what is unknown of it.
pub proof fn law_renamed_environment_keeps_its_variables(
    files: FilesView,
    root: Seq<char>,
    id: Seq<char>,
    name: Seq<char>,
    expected: u64,
)
    requires
        environment_renamed(files, root, id, name, expected).0 is Ok,
        reads_as_written(set_loaded(files.nodes, root, environment_place(id))->Ok_0.value),
    ensures
        ({
            let (r, after) = environment_renamed(files, root, id, name, expected);
            let place = "environments/"@ + id + ".toml"@;
            let before = set_loaded(files.nodes, root, place);
            &&& before is Ok
            &&& file_bytes(after.nodes, place) is Some
            &&& (file_bytes(after.nodes, place)->Some_0).len() <= MAXIMUM_METADATA_BYTES ==> {
                &&& set_loaded(after.nodes, root, place) is Ok
                &&& set_loaded(after.nodes, root, place)->Ok_0.fingerprint == r->Ok_0
                &&& set_loaded(after.nodes, root, place)->Ok_0.value.name == name
                &&& set_loaded(after.nodes, root, place)->Ok_0.value.id == before->Ok_0.value.id
                &&& set_loaded(after.nodes, root, place)->Ok_0.value.variables
                    == before->Ok_0.value.variables
                &&& set_loaded(after.nodes, root, place)->Ok_0.value.unknown_fields
                    == before->Ok_0.value.unknown_fields
                &&& set_loaded(after.nodes, root, place)->Ok_0.value.schema_version
                    == before->Ok_0.value.schema_version
            }
        }),
{
    let place = environment_place(id);
    lemma_environment_place(id);
    let d = set_loaded(files.nodes, root, place)->Ok_0.value;
    let text = crate::repository::settled_text(
        files.nodes,
        root,
        place,
        MAXIMUM_METADATA_BYTES,
    )->Ok_0;
    assert(set_value(text) == Ok::<VariableSetView, WorkspaceErrorView>(d));
    assert forall|i: int| 0 <= i < d.variables.len() implies source_regular(
        (#[trigger] d.variables[i]).source,
    ) && json_kept(d.variables[i]) by {}
    law_variable_set_rewrite_is_stable(text);
    let e = VariableSetView { name, ..d };
    assert(storable_set(e));
    lemma_written_bytes(files, place, encode_utf8(set_text(e)->Ok_0));
    if encode_utf8(set_text(e)->Ok_0).len() <= MAXIMUM_METADATA_BYTES {
        law_saved_variables_are_loaded(files, root, place, e, Some(expected));
    }
}

/// To rename an environment is to write it again under another name and otherwise as it is read.
pub proof fn law_renaming_is_writing_under_another_name(
    files: FilesView,
    root: Seq<char>,
    id: Seq<char>,
    document: VariableSetView,
    expected: u64,
)
    requires
        set_loaded(files.nodes, root, environment_place(id)) matches Ok(d) && {
            &&& d.fingerprint == expected
            &&& d.value.id == id
            &&& document.id == id
            &&& document.schema_version == d.value.schema_version
            &&& document.variables == d.value.variables
            &&& document.unknown_fields == d.value.unknown_fields
        },
    ensures
        environment_renamed(files, root, id, document.name, expected) == environment_saved(
            files,
            root,
            document,
            Some(expected),
        ),
{
    let d = set_loaded(files.nodes, root, environment_place(id))->Ok_0.value;
    assert(document =~= VariableSetView { name: document.name, ..d });
}

/// Local values that were saved are what is read of them, and the environment is as it was.
pub proof fn law_saved_local_values_are_loaded(
    files: FilesView,
    root: Seq<char>,
    id: Seq<char>,
    document: VariableSetView,
    expected: Option<u64>,
)
    requires
        storable_set(document),
        forall|i: int|
            0 <= i < document.variables.len() ==> json_kept(#[trigger] document.variables[i]),
        encode_utf8(set_text(document)->Ok_0).len() <= MAXIMUM_METADATA_BYTES,
        override_saved(files, root, id, document, expected).0 is Ok,
    ensures
        ({
            let (r, after) = override_saved(files, root, id, document, expected);
            let place = ".apex/environments/"@ + id + ".local.toml"@;
            &&& optional_set_loaded(after.nodes, root, place) == Ok::<
                Option<LoadedView<VariableSetView>>,
                WorkspaceErrorView,
            >(
                Some(
                    LoadedView {
                        value: document,
                        path: joined(root, place),
                        fingerprint: r->Ok_0,
                    },
                ),
            )
            &&& set_loaded(files.nodes, root, "environments/"@ + id + ".toml"@) is Ok
            &&& set_loaded(after.nodes, root, "environments/"@ + id + ".toml"@) == set_loaded(
                files.nodes,
                root,
                "environments/"@ + id + ".toml"@,
            )
        }),
{
    let place = override_place(id);
    lemma_environment_place(id);
    law_saved_variables_are_loaded(files, root, place, document, expected);
    lemma_written_bytes(files, place, encode_utf8(set_text(document)->Ok_0));
    law_write_leaves_other_files_alone(
        files,
        root,
        place,
        set_text(document)->Ok_0,
        expected,
        environment_place(id),
    );
}

/// Choosing the environment that is used by default changes nothing else of the manifest, and
/// only an environment that is there can be chosen.
pub proof fn law_chosen_default_is_loaded(
    files: FilesView,
    root: Seq<char>,
    id: Option<Seq<char>>,
    expected: u64,
)
    requires
        default_set(files, root, id, expected).0 is Ok,
    ensures
        ({
            let (r, after) = default_set(files, root, id, expected);
            let before = manifest_loaded(files.nodes, root);
            &&& before is Ok
            &&& before->Ok_0.fingerprint == expected
            &&& id matches Some(i) ==> set_loaded(
                files.nodes,
                root,
                "environments/"@ + i + ".toml"@,
            ) is Ok
            &&& file_bytes(after.nodes, "apex.toml"@) is Some
            &&& (file_bytes(after.nodes, "apex.toml"@)->Some_0).len() <= MAXIMUM_METADATA_BYTES
                ==> {
                &&& manifest_loaded(after.nodes, root) is Ok
                &&& manifest_loaded(after.nodes, root)->Ok_0.fingerprint == r->Ok_0
                &&& manifest_loaded(after.nodes, root)->Ok_0.value.default_environment == id
                &&& manifest_loaded(after.nodes, root)->Ok_0.value.id == before->Ok_0.value.id
                &&& manifest_loaded(after.nodes, root)->Ok_0.value.name == before->Ok_0.value.name
                &&& manifest_loaded(after.nodes, root)->Ok_0.value.trust
                    == before->Ok_0.value.trust
                &&& manifest_loaded(after.nodes, root)->Ok_0.value.unknown_fields
                    == before->Ok_0.value.unknown_fields
            }
        }),
{
    if let Some(i) = id {
        lemma_environment_place(i);
    }
    let d = manifest_loaded(files.nodes, root)->Ok_0.value;
    let text = crate::repository::settled_text(
        files.nodes,
        root,
        "apex.toml"@,
        MAXIMUM_METADATA_BYTES,
    )->Ok_0;
    assert(manifest_value(text) == Ok::<ManifestView, WorkspaceErrorView>(d));
    law_manifest_rewrite_is_stable(text);
    let m = ManifestView { default_environment: id, ..d };
    lemma_written_bytes(files, "apex.toml"@, encode_utf8(crate::manifest::manifest_text(m)));
    if encode_utf8(crate::manifest::manifest_text(m)).len() <= MAXIMUM_METADATA_BYTES {
        law_saved_manifest_is_loaded(files, root, m, Some(expected));
    }
}

/// Local values that were deleted are gone, and all else is as it was but what stood where they
/// are moved aside to.
pub proof fn law_deleted_local_values_are_gone(
    files: FilesView,
    root: Seq<char>,
    id: Seq<char>,
    expected: u64,
    nonce: u128,
    path: Seq<char>,
)
    requires
        override_deleted(files, root, id, expected, nonce).0 is Ok,
    ensures
        ({
            let after = override_deleted(files, root, id, expected, nonce).1.nodes;
            let place = ".apex/environments/"@ + id + ".local.toml"@;
            let aside = temporary_place(place, "delete"@, nonce);
            &&& digest_at(files.nodes, place) == expected
            &&& !after.dom().contains(place)
            &&& !under(place, path) && !under(aside, path) ==> (after.dom().contains(path)
                <==> files.nodes.dom().contains(path)) && (files.nodes.dom().contains(path)
                ==> after[path] == files.nodes[path])
        }),
{
    let place = override_place(id);
    lemma_environment_place(id);
    let aside = temporary_place(place, "delete"@, nonce);
    let all = file_deletion(place, nonce);
    assert(all.drop_last() =~= seq![all[0]]);
    assert(all.last() == ActionView::RemoveTree(aside));
    lemma_one_change(files, all[0]);
}

/// An environment that was deleted is gone with its local values. All else is as it was, but
/// what lies where deleted environments are kept; and the environment was not the one that is
/// used by default.
pub proof fn law_deleted_environment_is_gone(
    files: FilesView,
    root: Seq<char>,
    id: Seq<char>,
    expected: u64,
    nonce: u128,
    path: Seq<char>,
)
    requires
        environment_deleted(files, root, id, expected, nonce).0 is Ok,
    ensures
        ({
            let after = environment_deleted(files, root, id, expected, nonce).1.nodes;
            let place = "environments/"@ + id + ".toml"@;
            let local = ".apex/environments/"@ + id + ".local.toml"@;
            let trash = trash_place(id, nonce);
            &&& digest_at(files.nodes, place) == expected
            &&& manifest_loaded(files.nodes, root) matches Ok(m) && m.value.default_environment
                != Some(id)
            &&& !after.dom().contains(place)
            &&& !is_there(after, local)
            &&& !after.dom().contains(trash)
            &&& !under(place, path) && !under(local, path) && !under(path, trash) && !under(
                trash,
                path,
            ) ==> (after.dom().contains(path) <==> files.nodes.dom().contains(path)) && (
            files.nodes.dom().contains(path) ==> after[path] == files.nodes[path])
        }),
{
    let place = environment_place(id);
    let local = override_place(id);
    let trash = trash_place(id, nonce);
    lemma_environment_place(id);
    let kept = entry_path(trash, "environment.toml"@);
    let local_kept = entry_path(trash, "local.toml"@);
    reveal_strlit(".apex/trash/environments");
    reveal_strlit(".apex/environments");
    reveal_strlit("environment.toml");
    reveal_strlit("local.toml");
    assert(trash[0] == '.');
    assert(local[6] == 'e');
    assert(trash[6] == 't');
    crate::recovery_laws::lemma_apart_at(place, trash, 0);
    crate::recovery_laws::lemma_apart_at(local, trash, 6);
    crate::recovery_laws::lemma_apart_at(place, local, 0);
    assert(kept.take(trash.len() as int + 1) =~= trash + seq!['/']);
    assert(local_kept.take(trash.len() as int + 1) =~= trash + seq!['/']);
    assert(under(trash, kept) && under(trash, local_kept));
    let with_local = optional_set_loaded(files.nodes, root, local)->Ok_0 is Some;
    let all = environment_deletion(id, with_local, nonce);
    let made = with_directories(files.nodes, trash);
    let gone = effect(made, ActionView::Rename { from: place, to: kept });
    let first = seq![all[0]];
    let second = seq![all[0], all[1]];
    assert(first.drop_last() =~= seq![]);
    assert(performed(files, first.drop_last()) == files);
    assert(performed(files, first).nodes == made);
    assert(second.drop_last() =~= first);
    assert(performed(files, second).nodes == gone);
    let after = performed(files, all).nodes;
    if with_local {
        let third = seq![all[0], all[1], all[2]];
        assert(third.drop_last() =~= second);
        assert(all.drop_last() =~= third);
        let both = effect(gone, ActionView::Rename { from: local, to: local_kept });
        assert(performed(files, third).nodes == both);
        assert(after == without_tree(both, trash));
        lemma_kept_apart(trash, kept, path);
        lemma_kept_apart(trash, local_kept, path);
        lemma_kept_apart(trash, kept, place);
        lemma_kept_apart(trash, local_kept, place);
        lemma_kept_apart(trash, kept, local);
        lemma_kept_apart(trash, local_kept, local);
    } else {
        assert(all.drop_last() =~= second);
        assert(after == without_tree(gone, trash));
        lemma_kept_apart(trash, kept, path);
        lemma_kept_apart(trash, kept, place);
        lemma_kept_apart(trash, kept, local);
        assert(!is_there(files.nodes, local));
        assert(!under(local, trash));
    }
}

proof fn lemma_kept_apart(trash: Seq<char>, kept: Seq<char>, path: Seq<char>)
    requires
        under(trash, kept),
    ensures
        under(kept, path) ==> under(trash, path),
{
    if under(kept, path) {
        crate::files::lemma_under_transitive(trash, kept, path);
    }
}

proof fn lemma_summaries(nodes: Nodes, root: Seq<char>, names: Seq<Seq<char>>, s: SummaryView)
    requires
        summaries_of(nodes, root, names) is Ok,
    ensures
        summaries_of(nodes, root, names)->Ok_0.contains(s) <==> exists|i: int|
            0 <= i < names.len() && summary_of(nodes, root, #[trigger] names[i]) == Ok::<
                Option<SummaryView>,
                WorkspaceErrorView,
            >(Some(s)),
    decreases names.len(),
{
    let all = summaries_of(nodes, root, names)->Ok_0;
    if names.len() > 0 {
        let shorter = names.drop_last();
        lemma_summaries(nodes, root, shorter, s);
        let front = summaries_of(nodes, root, shorter)->Ok_0;
        if all.contains(s) {
            let k = choose|k: int| 0 <= k < all.len() && all[k] == s;
            if k < front.len() {
                assert(front[k] == s);
                assert(front.contains(s));
                let i = choose|i: int|
                    0 <= i < shorter.len() && summary_of(nodes, root, #[trigger] shorter[i])
                        == Ok::<Option<SummaryView>, WorkspaceErrorView>(Some(s));
                assert(names[i] == shorter[i]);
            } else {
                assert(names[names.len() - 1] == names.last());
            }
        }
        if exists|i: int|
            0 <= i < names.len() && summary_of(nodes, root, #[trigger] names[i]) == Ok::<
                Option<SummaryView>,
                WorkspaceErrorView,
            >(Some(s)) {
            let i = choose|i: int|
                0 <= i < names.len() && summary_of(nodes, root, #[trigger] names[i]) == Ok::<
                    Option<SummaryView>,
                    WorkspaceErrorView,
                >(Some(s));
            if i < shorter.len() {
                assert(shorter[i] == names[i]);
                assert(front.contains(s));
                let k = choose|k: int| 0 <= k < front.len() && front[k] == s;
                assert(all[k] == s);
            } else {
                assert(all[all.len() - 1] == s);
            }
        }
    }
}

/// Whether a summary is that of the environment whose file has some name.
pub open spec fn describes(nodes: Nodes, root: Seq<char>, name: Seq<char>, s: SummaryView) -> bool {
    let place = "environments/"@ + name;
    &&& is_entry_name(name)
    &&& nodes.dom().contains(place)
    &&& nodes[place] is File
    &&& extension_of(name) == Some("toml"@)
    &&& s.path == joined(root, place)
    &&& set_loaded(nodes, root, place) matches Ok(d) && {
        &&& s.id == d.value.id
        &&& s.name == d.value.name
        &&& s.variable_count == d.value.variables.len()
        &&& s.has_local_override == is_there(
            nodes,
            ".apex/environments/"@ + d.value.id + ".local.toml"@,
        )
    }
}

proof fn lemma_described(nodes: Nodes, root: Seq<char>, name: Seq<char>, s: SummaryView)
    requires
        is_entry_name(name),
    ensures
        entry_path("environments"@, name) == "environments/"@ + name,
        summary_of(nodes, root, name) == Ok::<Option<SummaryView>, WorkspaceErrorView>(Some(s))
            <==> describes(nodes, root, name, s),
{
    reveal_strlit("environments");
    reveal_strlit("environments/");
    let place = entry_path("environments"@, name);
    assert(place =~= "environments/"@ + name);
    if let Ok(d) = set_loaded(nodes, root, place) {
        lemma_environment_place(d.value.id);
        if describes(nodes, root, name, s) {
            assert(summary_of(nodes, root, name)->Ok_0->Some_0 =~= s);
        }
    }
}

proof fn lemma_sorted_contains(list: Seq<SummaryView>, s: SummaryView)
    ensures
        sorted::<EnvironmentSummary>(list).contains(s) <==> list.contains(s),
{
    broadcast use vstd::seq_lib::group_to_multiset_ensures;

    law_sorted::<EnvironmentSummary>(list);
    let all = sorted::<EnvironmentSummary>(list);
    assert(all.to_multiset().contains(s) <==> list.to_multiset().contains(s));
}

/// Every environment is listed, and nothing else: under its identifier and its name, with the
/// number of its variables and with whether there are local values for it.
pub proof fn law_every_environment_is_listed(nodes: Nodes, root: Seq<char>, s: SummaryView)
    requires
        nodes.dom().finite(),
        environments_listed(nodes, root) is Ok,
        is_there(nodes, "environments"@),
    ensures
        environments_listed(nodes, root)->Ok_0.contains(s) <==> exists|name: Seq<char>| #[trigger]
            describes(nodes, root, name, s),
{
    let held = entry_names(nodes, "environments"@);
    let names = sorted_texts(held);
    let list = summaries_of(nodes, root, names)->Ok_0;
    crate::files::lemma_entry_names_finite(nodes, "environments"@);
    lemma_sorted_texts(held);
    lemma_sorted_contains(list, s);
    lemma_summaries(nodes, root, names, s);
    if list.contains(s) {
        let i = choose|i: int|
            0 <= i < names.len() && summary_of(nodes, root, #[trigger] names[i]) == Ok::<
                Option<SummaryView>,
                WorkspaceErrorView,
            >(Some(s));
        assert(names.contains(names[i]));
        assert(held.contains(names[i]));
        lemma_described(nodes, root, names[i], s);
        assert(describes(nodes, root, names[i], s));
    }
    if exists|name: Seq<char>| #[trigger] describes(nodes, root, name, s) {
        let name = choose|name: Seq<char>| #[trigger] describes(nodes, root, name, s);
        lemma_described(nodes, root, name, s);
        assert(held.contains(name));
        assert(names.contains(name));
        let i = choose|i: int| 0 <= i < names.len() && names[i] == name;
        assert(summary_of(nodes, root, names[i]) == Ok::<Option<SummaryView>, WorkspaceErrorView>(
            Some(s),
        ));
    }
}

} // verus!
