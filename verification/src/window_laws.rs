//! What the windows of a client promise of what they show and run.
use crate::automation::{automation_of, automation_with, prepared_run, run_items, RunItemView};
use crate::browser::{
    browser_opened, environment_at, environment_shown, first_request, variables_for, BrowserView,
};
use crate::domain::{MethodView, RequestView};
use crate::editor_fields::{form_fields_of, headers_of};
use crate::editor_request::{next_method, request_edited, EditorView};
use crate::editor_settings::{authentication_of, settings_of};
use crate::files::Nodes;
use crate::number::parse_unsigned;
use crate::repository_documents::request_loaded;
use crate::repository_environments::{environments_listed, manifest_loaded, SummaryView};
use crate::repository_listing::{all_entries, RequestEntryView};
use crate::resolved_request::{resolved_request, RequestSurroundings};
use crate::scope::ContextView;
use crate::workspace_variables::{workspace_variables, BookView};
use vstd::prelude::*;

verus! {

/// The request that is typed is read text by text: the url and the documentation as they are
/// typed, the query, the headers, the authentication and the settings as their texts read. Its
/// identifier and its name stay.
pub proof fn law_typed_requests_are_read(base: RequestView, method: MethodView, texts: EditorView)
    ensures
        request_edited(base, method, texts) matches Ok(r) ==> {
            &&& r.id == base.id
            &&& r.name == base.name
            &&& r.method == method
            &&& r.url == texts.url
            &&& r.documentation == texts.documentation
            &&& form_fields_of(texts.query) == Ok::<
                Seq<crate::domain::FormFieldView>,
                Seq<char>,
            >(r.query)
            &&& headers_of(texts.headers) == Ok::<Seq<crate::domain::FormFieldView>, Seq<char>>(
                r.headers,
            )
            &&& authentication_of(texts.authentication) == Ok::<
                crate::domain::AuthenticationView,
                Seq<char>,
            >(r.authentication)
            &&& settings_of(texts.settings) == Ok::<crate::domain::RequestSettings, Seq<char>>(
                r.settings,
            )
        },
{
}

/// Going from method to method comes to each of the usual ones and back to the first.
pub proof fn law_methods_go_round(method: MethodView)
    ensures
        next_method(MethodView::Get) == MethodView::Post,
        next_method(next_method(next_method(next_method(next_method(MethodView::Get)))))
            == MethodView::Get,
        next_method(method) != method,
{
}

/// What is shown of a workspace is what is read of it: its name, its requests, its environments
/// and the environment that is used by default. What cannot be read is told.
pub proof fn law_workspaces_are_shown_as_they_are(root: Seq<char>, nodes: Nodes)
    requires
        root.len() > 0,
    ensures
        ({
            let shown = browser_opened(Some(root), nodes);
            let requests = all_entries(nodes, root);
            let environments = environments_listed(nodes, root);
            &&& shown.root == Some(root)
            &&& manifest_loaded(nodes, root) is Err ==> shown.error is Some && shown.requests.len()
                == 0 && shown.environments.len() == 0 && shown.label == root
            &&& manifest_loaded(nodes, root) matches Ok(m) ==> {
                &&& shown.label == m.value.name
                &&& shown.default_environment == m.value.default_environment
                &&& requests matches Ok(list) ==> shown.requests == list
                &&& environments matches Ok(list) ==> shown.environments == list
                &&& shown.error is None <==> requests is Ok && environments is Ok
            }
        }),
{
}

/// The request that is shown first is the first of the list, as it is read.
pub proof fn law_the_first_request_is_shown(v: BrowserView, nodes: Nodes)
    ensures
        first_request(v, nodes) matches Some((store, request, fingerprint)) ==> {
            &&& v.root == Some(store.root)
            &&& v.requests.len() > 0
            &&& store.path == v.requests[0].path
            &&& request_loaded(nodes, store.root, store.path) matches Ok(d) && d.value.request
                == request && d.fingerprint == fingerprint
        },
        v.root matches Some(root) ==> v.requests.len() > 0 && request_loaded(
            nodes,
            root,
            v.requests[0].path,
        ) is Ok ==> first_request(v, nodes) is Some,
{
}

/// Requests are resolved with the variables of the workspace, with those of the environment that
/// was chosen and with its local values.
pub proof fn law_requests_use_the_chosen_environment(
    v: BrowserView,
    nodes: Nodes,
    environment: Option<Seq<char>>,
    book: BookView,
)
    ensures
        v.root is None ==> variables_for(v, nodes, environment, book) == Ok::<
            ContextView,
            Seq<char>,
        >(ContextView::empty()),
        v.root matches Some(root) ==> match workspace_variables(
            nodes,
            root,
            environment,
            true,
            book,
        ) {
            Ok(loaded) => variables_for(v, nodes, environment, book) == Ok::<
                ContextView,
                Seq<char>,
            >(loaded.context),
            Err(_) => variables_for(v, nodes, environment, book) is Err,
        },
{
}

proof fn lemma_items(
    nodes: Nodes,
    root: Seq<char>,
    entries: Seq<RequestEntryView>,
    worlds: Seq<RequestSurroundings>,
)
    requires
        run_items(nodes, root, entries, worlds) is Ok,
    ensures
        (run_items(nodes, root, entries, worlds)->Ok_0).len() == entries.len(),
        forall|i: int|
            0 <= i < entries.len() ==> is_run_as(
                nodes,
                root,
                #[trigger] entries[i],
                worlds[i],
                (run_items(nodes, root, entries, worlds)->Ok_0)[i],
            ),
    decreases entries.len(),
{
    if entries.len() > 0 {
        let shorter = entries.drop_last();
        lemma_items(nodes, root, shorter, worlds);
        let front = run_items(nodes, root, shorter, worlds)->Ok_0;
        let all = run_items(nodes, root, entries, worlds)->Ok_0;
        assert forall|i: int| 0 <= i < entries.len() implies is_run_as(
            nodes,
            root,
            #[trigger] entries[i],
            worlds[i],
            all[i],
        ) by {
            if i < shorter.len() {
                assert(shorter[i] == entries[i]);
                assert(all[i] == front[i]);
            }
        }
    }
}

/// Whether what is run is the request of an entry, with the values of its variables.
pub open spec fn is_run_as(
    nodes: Nodes,
    root: Seq<char>,
    entry: RequestEntryView,
    world: RequestSurroundings,
    item: RunItemView,
) -> bool {
    &&& item.id == entry.relative_path
    &&& item.name == entry.name
    &&& request_loaded(nodes, root, entry.path) matches Ok(d) && (resolved_request(
        world,
        d.value.request,
    ) matches Ok(r) && item.request == r.request)
}

/// A run carries out every request of the workspace in turn, each as it is read and with the
/// values of its variables, in the way that is asked for. It does not begin while another is
/// carried out, nor without a workspace, nor without the variables.
pub proof fn law_every_request_is_run(
    running: bool,
    workspace: Option<(Nodes, Seq<char>)>,
    config: Seq<char>,
    variable_error: Option<Seq<char>>,
    worlds: Seq<RequestSurroundings>,
)
    ensures
        prepared_run(running, workspace, config, variable_error, worlds) matches Ok((asked, items))
            ==> {
            &&& !running
            &&& variable_error is None
            &&& automation_of(config) == Ok::<crate::automation::AutomationView, Seq<char>>(asked)
            &&& workspace matches Some((nodes, root)) && {
                let entries = all_entries(nodes, root);
                &&& entries is Ok
                &&& items.len() == (entries->Ok_0).len()
                &&& items.len() > 0
                &&& forall|i: int|
                    0 <= i < items.len() ==> is_run_as(
                        nodes,
                        root,
                        (entries->Ok_0)[i],
                        worlds[i],
                        #[trigger] items[i],
                    )
            }
        },
{
    if let Ok((asked, items)) = prepared_run(running, workspace, config, variable_error, worlds) {
        let (nodes, root) = workspace->Some_0;
        let entries = all_entries(nodes, root)->Ok_0;
        lemma_items(nodes, root, entries, worlds);
        assert forall|i: int| 0 <= i < items.len() implies is_run_as(
            nodes,
            root,
            entries[i],
            worlds[i],
            #[trigger] items[i],
        ) by {
            assert(is_run_as(nodes, root, entries[i], worlds[i], items[i]));
        }
    }
}

/// A run is asked for by its settings: how many requests run at once, how often one is tried
/// again, at most ten times, whether it goes on after a failure, and how it is reported.
pub proof fn law_runs_are_as_asked_for(m: Map<Seq<char>, Seq<char>>)
    ensures
        automation_with(m) matches Ok(a) ==> {
            &&& m.dom().contains("concurrency"@) && parse_unsigned(
                m["concurrency"@],
                usize::MAX as int,
            ) == Some(a.concurrency)
            &&& 1 <= a.concurrency <= 64
            &&& m.dom().contains("retries"@) && (parse_unsigned(
                m["retries"@],
                usize::MAX as int,
            ) matches Some(n) && a.retries == if n > 10 {
                10
            } else {
                n
            })
            &&& m.dom().contains("failure_policy"@) && (a.failure_policy is Continue
                <==> m["failure_policy"@] == "continue"@) && (a.failure_policy is Stop
                <==> m["failure_policy"@] == "stop"@)
            &&& m.dom().contains("report"@) && a.report == m["report"@]
            &&& a.report == "json"@ || a.report == "junit"@ || a.report == "html"@
        },
{
    reveal_strlit("continue");
    reveal_strlit("stop");
    assert("continue"@.len() == 8 && "stop"@.len() == 4);
}

/// An environment is called by its name, and by its identifier where it is not there.
pub proof fn law_environments_are_called_by_their_names(list: Seq<SummaryView>, id: Seq<char>)
    ensures
        (exists|i: int|
            0 <= i < list.len() && (#[trigger] list[i]).id == id && environment_shown(
                list,
                Some(id),
            ) == list[i].name) || (environment_shown(list, Some(id)) == id && forall|i: int|
            0 <= i < list.len() ==> (#[trigger] list[i]).id != id),
        environment_shown(list, None) == "No environment"@,
{
    lemma_environment(list, id);
    if let Some(i) = environment_at(list, id) {
        assert(list[i].id == id);
    }
}

proof fn lemma_environment(list: Seq<SummaryView>, id: Seq<char>)
    ensures
        match environment_at(list, id) {
            Some(i) => 0 <= i < list.len() && list[i].id == id,
            None => forall|i: int| 0 <= i < list.len() ==> (#[trigger] list[i]).id != id,
        },
    decreases list.len(),
{
    if list.len() > 0 {
        let front = list.drop_last();
        lemma_environment(front, id);
        if environment_at(list, id) is None {
            assert forall|i: int| 0 <= i < list.len() implies (#[trigger] list[i]).id != id by {
                if i < front.len() {
                    assert(front[i] == list[i]);
                }
            }
        }
    }
}

} // verus!
