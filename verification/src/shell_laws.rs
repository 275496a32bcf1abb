//! What the main window promises, and what importing requests does.
use crate::browser::{browser_opened, environment_after, environment_shown, variables_for};
use crate::browser_tree::shown_items;
use crate::document_store::{store_loaded, StoreView};
use crate::domain::BodyView;
use crate::files::{FilesView, Nodes};
use crate::import_export::{
    headers_made, import_path, imported, request_generated, GeneratedRequest,
};
use crate::paths::joined;
use crate::repository::{place_in, MAXIMUM_REQUEST_BYTES};
use crate::repository_documents::request_loaded;
use crate::repository_laws::{law_saved_request_is_loaded, law_write_leaves_other_files_alone};
use crate::repository_listing::{all_entries, RequestEntryView};
use crate::request::{request_text, RequestDocumentView};
use crate::request_laws::request_writable;
use crate::request_panel::PanelView;
use crate::request_panel_flow::document_opened;
use crate::scope::ContextView;
use crate::shell::{
    command_given, environment_cycled, index_applied, item_opened, monitor_heard, paths_of,
    shell_opened, CollectionsView, MonitorView, ShellView,
};
use crate::text::optional_text;
use crate::workspace_effect::{command_done, ReportView};
use crate::workspace_operation::AncestryView;
use crate::workspace_variables::BookView;
use vstd::prelude::*;
use vstd::utf8::encode_utf8;

verus! {

/// The window opens with the environment that was asked for, or else with the one that is used
/// by default, and with the variables of that environment; where they cannot be had, that is
/// told.
pub proof fn law_windows_open_with_their_environment(
    root: Option<Seq<char>>,
    nodes: Nodes,
    asked: Option<Seq<char>>,
    book: BookView,
    panel: PanelView,
    monitor: Option<Seq<char>>,
)
    ensures
        ({
            let v = shell_opened(root, nodes, asked, book, panel, monitor);
            let browser = browser_opened(root, nodes);
            let chosen = if asked is Some {
                asked
            } else {
                browser.default_environment
            };
            &&& v.browser == browser
            &&& v.panel == panel
            &&& v.environment == chosen
            &&& v.label == environment_shown(browser.environments, chosen)
            &&& v.collections.items == shown_items(browser.requests)
            &&& v.collections.error == browser.error
            &&& match variables_for(browser, nodes, chosen, book) {
                Ok(context) => v.context == context && v.variable_error is None,
                Err(e) => v.context == ContextView::empty() && v.variable_error == Some(e),
            }
        }),
{
}

/// Asking for the next environment makes it the chosen one, with its variables; where they
/// cannot be had, or there is none, nothing changes and that is told.
pub proof fn law_the_next_environment_is_chosen(v: ShellView, nodes: Nodes, book: BookView)
    ensures
        ({
            let (notice, after) = environment_cycled(v, nodes, book);
            match environment_after(v.browser.environments, v.environment) {
                None => notice is Info && after == v,
                Some(i) => match variables_for(
                    v.browser,
                    nodes,
                    Some(v.browser.environments[i].id),
                    book,
                ) {
                    Err(_) => notice is Failure && after == v,
                    Ok(context) => {
                        &&& notice is Success
                        &&& after.environment == Some(v.browser.environments[i].id)
                        &&& after.context == context
                        &&& after.variable_error is None
                        &&& after.panel == v.panel && after.collections == v.collections
                    },
                },
            }
        }),
{
}

proof fn lemma_paths_of(list: Seq<RequestEntryView>, i: int)
    requires
        0 <= i < list.len(),
        forall|a: int, b: int|
            0 <= a < b < list.len() ==> (#[trigger] list[a]).relative_path != (
            #[trigger] list[b]).relative_path,
    ensures
        paths_of(list).dom().contains(list[i].relative_path),
        paths_of(list)[list[i].relative_path] == list[i].path,
    decreases list.len(),
{
    let pairs = list.map_values(|e: RequestEntryView| (e.relative_path, e.path));
    let front = list.drop_last();
    assert(pairs.drop_last() =~= front.map_values(
        |e: RequestEntryView| (e.relative_path, e.path),
    ));
    assert(pairs.last() == (list.last().relative_path, list.last().path));
    if i < front.len() {
        assert forall|a: int, b: int| 0 <= a < b < front.len() implies (
        #[trigger] front[a]).relative_path != (#[trigger] front[b]).relative_path by {
            assert(front[a] == list[a] && front[b] == list[b]);
        }
        lemma_paths_of(front, i);
        assert(front[i] == list[i]);
        assert(list[i].relative_path != list[list.len() - 1].relative_path);
    }
}

/// Opening an entry of the list opens the request that it stands for, as it is read from where
/// it is kept; what stands for no request opens nothing.
pub proof fn law_entries_open_their_requests(
    v: ShellView,
    nodes: Nodes,
    list: Seq<RequestEntryView>,
    i: int,
    root: Seq<char>,
)
    requires
        0 <= i < list.len(),
        forall|a: int, b: int|
            0 <= a < b < list.len() ==> (#[trigger] list[a]).relative_path != (
            #[trigger] list[b]).relative_path,
        v.browser.root == Some(root),
    ensures
        ({
            let shown = ShellView {
                collections: index_applied(
                    v.collections,
                    Ok::<Seq<RequestEntryView>, Seq<char>>(list),
                ),
                ..v
            };
            let (notice, after) = item_opened(shown, nodes, list[i].relative_path);
            let store = StoreView { root, path: list[i].path };
            &&& notice is Some
            &&& after.panel == document_opened(v.panel, store, store_loaded(nodes, store)).1
            &&& notice->Some_0 is Success <==> document_opened(
                v.panel,
                store,
                store_loaded(nodes, store),
            ).0 is Ok
        }),
{
    lemma_paths_of(list, i);
}

/// A list that was read anew takes the place of the one that was shown; where it could not be
/// read, what was shown stays and the reason is told.
pub proof fn law_new_lists_are_shown(
    v: CollectionsView,
    list: Seq<RequestEntryView>,
    error: Seq<char>,
)
    ensures
        index_applied(v, Ok::<Seq<RequestEntryView>, Seq<char>>(list)).items == shown_items(list),
        index_applied(v, Ok::<Seq<RequestEntryView>, Seq<char>>(list)).error is None,
        index_applied(v, Err::<Seq<RequestEntryView>, Seq<char>>(error)).items == v.items,
        index_applied(v, Err::<Seq<RequestEntryView>, Seq<char>>(error)).error == Some(error),
{
}

/// A command that was carried out has the list read anew from what the files are now; one that
/// was not leaves the window as it is.
pub proof fn law_commands_refresh_the_list(
    v: ShellView,
    files: FilesView,
    command: Seq<char>,
    ancestry: Seq<AncestryView>,
    nonce: u128,
    ids: crate::naming::IdSource,
    leaks: Seq<Seq<Seq<char>>>,
    root: Seq<char>,
)
    requires
        v.browser.root == Some(root),
    ensures
        ({
            let (r, after, now) = command_given(v, files, command, ancestry, nonce, ids, leaks);
            let done = command_done(files, root, command, ancestry, nonce, ids, leaks);
            &&& after == done.1
            &&& r is Ok <==> done.0 is Ok
            &&& done.0 is Err ==> now == v
            &&& done.0 matches Ok(ReportView::Completed(_)) ==> (all_entries(after.nodes, root)
                matches Ok(list) ==> now.collections.items == shown_items(list))
            &&& now.panel == v.panel && now.context == v.context && now.environment
                == v.environment
        }),
{
}

/// What the watcher of a workspace tells is passed on: a new list is shown, and a change is
/// passed to the request that is edited. That watching failed is told.
pub proof fn law_the_watcher_is_heard(v: ShellView, message: MonitorView, root: Seq<char>)
    requires
        v.browser.root == Some(root),
    ensures
        ({
            let (check, after) = monitor_heard(v, message);
            match message {
                MonitorView::Failed(e) => check is None && after.watch == "watch error: "@ + e
                    && after.panel == v.panel && after.collections == v.collections,
                MonitorView::Update { change, requests } => {
                    &&& (check, after.panel) == crate::request_panel_flow::change_seen(
                        v.panel,
                        root,
                        change,
                    )
                    &&& requests matches Some(Ok(list)) ==> after.collections.items == shown_items(
                        list,
                    )
                    &&& requests is None ==> after.collections == v.collections
                    &&& after.context == v.context && after.environment == v.environment
                },
            }
        }),
{
}

proof fn lemma_imported_stays(
    files: FilesView,
    root: Seq<char>,
    destination: Seq<char>,
    documents: Seq<RequestDocumentView>,
    leaks: Seq<Seq<Seq<char>>>,
    i: int,
)
    requires
        imported(files, root, destination, documents, leaks).0 is Ok,
        0 <= i < documents.len(),
        forall|k: int| 0 <= k < documents.len() ==> request_writable(#[trigger] documents[k]),
        forall|k: int|
            0 <= k < documents.len() ==> encode_utf8(request_text(#[trigger] documents[k])).len()
                <= MAXIMUM_REQUEST_BYTES,
        forall|a: int, b: int|
            0 <= a < b < documents.len() ==> place_in(
                root,
                import_path(destination, #[trigger] documents[a]),
            ) != place_in(root, import_path(destination, #[trigger] documents[b])),
    ensures
        request_loaded(
            imported(files, root, destination, documents, leaks).1.nodes,
            root,
            import_path(destination, documents[i]),
        ) matches Ok(d) && d.value == documents[i],
    decreases documents.len(),
{
    let front = documents.drop_last();
    let before = imported(files, root, destination, front, leaks).1;
    let last = documents.last();
    let n = documents.len() - 1;
    assert(documents[n] == last);
    let path = import_path(destination, last);
    if i == n {
        law_saved_request_is_loaded(before, root, path, last, None, seq![]);
    } else {
        assert forall|k: int| 0 <= k < front.len() implies request_writable(#[trigger] front[k]) by {
            assert(front[k] == documents[k]);
        }
        assert forall|k: int| 0 <= k < front.len() implies encode_utf8(
            request_text(#[trigger] front[k]),
        ).len() <= MAXIMUM_REQUEST_BYTES by {
            assert(front[k] == documents[k]);
        }
        assert forall|a: int, b: int| 0 <= a < b < front.len() implies place_in(
            root,
            import_path(destination, #[trigger] front[a]),
        ) != place_in(root, import_path(destination, #[trigger] front[b])) by {
            assert(front[a] == documents[a] && front[b] == documents[b]);
        }
        lemma_imported_stays(files, root, destination, front, leaks, i);
        assert(front[i] == documents[i]);
        let mine = place_in(root, import_path(destination, documents[i]))->Some_0;
        let other = place_in(root, path)->Some_0;
        assert(place_in(root, import_path(destination, documents[i])) != place_in(
            root,
            import_path(destination, documents[n]),
        ));
        law_write_leaves_other_files_alone(before, root, other, request_text(last), None, mine);
    }
}

/// Requests that were imported are read at their places below the directory that was named, each
/// in a file that is called after its identifier, and are what was imported.
pub proof fn law_imported_requests_are_read(
    files: FilesView,
    root: Seq<char>,
    destination: Seq<char>,
    documents: Seq<RequestDocumentView>,
    leaks: Seq<Seq<Seq<char>>>,
    i: int,
)
    requires
        imported(files, root, destination, documents, leaks).0 is Ok,
        0 <= i < documents.len(),
        forall|k: int| 0 <= k < documents.len() ==> request_writable(#[trigger] documents[k]),
        forall|k: int|
            0 <= k < documents.len() ==> encode_utf8(request_text(#[trigger] documents[k])).len()
                <= MAXIMUM_REQUEST_BYTES,
        forall|a: int, b: int|
            0 <= a < b < documents.len() ==> place_in(
                root,
                joined(destination, (#[trigger] documents[a]).request.id + ".request.toml"@),
            ) != place_in(
                root,
                joined(destination, (#[trigger] documents[b]).request.id + ".request.toml"@),
            ),
    ensures
        request_loaded(
            imported(files, root, destination, documents, leaks).1.nodes,
            root,
            joined(destination, documents[i].request.id + ".request.toml"@),
        ) matches Ok(d) && d.value == documents[i],
{
    lemma_imported_stays(files, root, destination, documents, leaks, i);
}

/// A request that is made of an operation of an interface has the method, the url, the headers
/// and the body that were made for it, is called after the operation, and is known by the name
/// of its file.
pub proof fn law_made_requests_are_what_was_made(
    operation: Seq<char>,
    path: Seq<char>,
    generated: GeneratedRequest,
)
    ensures
        request_generated(operation, path, generated) matches Ok(r) ==> {
            &&& r.name == operation
            &&& r.url == generated.url@
            &&& crate::domain::parse_method(generated.method@) == Ok::<
                crate::domain::MethodView,
                crate::domain::DomainError,
            >(r.method)
            &&& r.headers.len() == generated.headers@.len()
            &&& forall|i: int|
                0 <= i < r.headers.len() ==> (#[trigger] r.headers[i]).name
                    == generated.headers@[i].0@ && r.headers[i].value == generated.headers@[i].1@
                    && r.headers[i].enabled
            &&& optional_text(generated.body) matches Some(text) ==> r.body == BodyView::Json(text)
            &&& optional_text(generated.body) is None ==> r.body is Empty
        },
{
    if request_generated(operation, path, generated) is Ok {
        lemma_headers_made(generated.headers@);
    }
}

proof fn lemma_headers_made(list: Seq<(String, String)>)
    requires
        headers_made(list) is Ok,
    ensures
        (headers_made(list)->Ok_0).len() == list.len(),
        forall|i: int|
            0 <= i < list.len() ==> (#[trigger] (headers_made(list)->Ok_0)[i]).name == list[i].0@
                && (headers_made(list)->Ok_0)[i].value == list[i].1@ && (headers_made(
                list,
            )->Ok_0)[i].enabled,
    decreases list.len(),
{
    if list.len() > 0 {
        lemma_headers_made(list.drop_last());
        let front = headers_made(list.drop_last())->Ok_0;
        let all = headers_made(list)->Ok_0;
        assert forall|i: int| 0 <= i < list.len() implies (#[trigger] all[i]).name == list[i].0@
            && all[i].value == list[i].1@ && all[i].enabled by {
            if i < front.len() {
                assert(all[i] == front[i]);
                assert(list.drop_last()[i] == list[i]);
            }
        }
    }
}

} // verus!
