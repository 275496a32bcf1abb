//! What the panel of a request promises of what it shows, saves and sends.
use crate::document_store::{path_in_workspace, StoreView};
use crate::domain::RequestView;
use crate::editor::draft_request;
use crate::editor_request::{request_edited, shown_texts};
use crate::external_state::ExternalView;
use crate::open_documents::OpenView;
use crate::paths::{components, joined};
use crate::reconcile::{reconciliation, ActionView};
use crate::request_panel::{
    active_key, active_resource, applied, beside, cancelled, edited, request_shown, snapshot,
    tab_activated, tab_shut, PanelView,
};
use crate::request_panel_flow::{
    change_seen, document_opened, draft_begun, file_checked, history_opened, message_heard,
    save_checked, send_in, CheckView, SendView,
};
use crate::resolved_request::{resolved_request, RequestSurroundings};
use crate::response::{NetworkMessage, ResponseState};
use crate::sections::RequestSection;
use crate::session::{
    key_of, lemma_tab_of, opened, sound, tab_of, IdentityView, SessionView, TabView,
};
use crate::session_laws::law_opened_tabs_are_shown;
use crate::watch::ChangeView;
use vstd::prelude::*;

verus! {

/// Whether a panel shows an open request: all that is typed is that of the request, and it is
/// kept, compared with its file and marked as the open request is.
pub open spec fn shows_document(v: PanelView, d: OpenView) -> bool {
    &&& v.base == d.request
    &&& v.method == d.request.method
    &&& v.texts == shown_texts(d.request)
    &&& v.store == d.store
    &&& v.fingerprint == d.fingerprint
    &&& v.error == d.document_error
    &&& v.external == d.external
    &&& v.section == d.section
    &&& v.dirty == d.dirty
    &&& !v.running
    &&& v.response.state is Idle
}

/// A tab that is made active shows the request that is open in it, and what was edited before
/// is kept under its own resource.
pub proof fn law_active_tabs_are_shown(v: PanelView, index: int)
    requires
        sound(v.session),
        0 <= index < v.session.tabs.len(),
        v.session.active != Some(index),
        v.documents.dom().contains(key_of(v.session.tabs[index].resource)),
    ensures
        ({
            let (r, after) = tab_activated(v, index);
            let key = key_of(v.session.tabs[index].resource);
            &&& r is Ok
            &&& after.session.active == Some(index)
            &&& shows_document(after, v.documents[key])
            &&& active_resource(v.session) matches Some(was) ==> {
                &&& after.documents.dom().contains(key_of(was))
                &&& after.documents[key_of(was)].request == request_shown(v)
                &&& after.documents[key_of(was)].dirty == v.dirty
                &&& after.documents[key_of(was)].store == v.store
                &&& after.documents[key_of(was)].fingerprint == v.fingerprint
                &&& after.documents[key_of(was)].external == v.external
            }
        }),
{
    let key = key_of(v.session.tabs[index].resource);
    if let Some(i) = v.session.active {
        assert(key_of(v.session.tabs[i].resource) != key) by {
            if i < index {
            } else {
            }
        }
    }
}

/// A request of a workspace that is opened is shown as it was read, without unsaved changes, in
/// a tab that is called after it. Where it is open already, its tab is shown. One that cannot
/// be read is not opened, and what is edited stays.
pub proof fn law_opened_requests_are_shown(
    v: PanelView,
    store: StoreView,
    loaded: Result<(RequestView, u64), Seq<char>>,
)
    requires
        sound(v.session),
    ensures
        ({
            let (r, after) = document_opened(v, store, loaded);
            let known = exists|k: int|
                0 <= k < v.session.tabs.len() && key_of((#[trigger] v.session.tabs[k]).resource)
                    == key_of(IdentityView::WorkspaceRequest(store.path));
            &&& !known && loaded is Err ==> r == Err::<(), Seq<char>>(loaded->Err_0) && after.base
                == v.base && after.texts == v.texts && after.session == v.session
            &&& !known ==> (loaded matches Ok((request, fingerprint)) ==> {
                &&& r is Ok
                &&& shows_document(
                    after,
                    OpenView {
                        request,
                        store: Some(store),
                        fingerprint: Some(fingerprint),
                        document_error: None,
                        external: ExternalView::InSync,
                        section: RequestSection::Params,
                        dirty: false,
                    },
                )
                &&& after.session.active matches Some(i) && after.session.tabs[i].title
                    == request.name && after.session.tabs[i].resource
                    == IdentityView::WorkspaceRequest(store.path) && !after.session.tabs[i].dirty
            })
            &&& known && r is Ok ==> active_key(after.session) == Some(
                key_of(IdentityView::WorkspaceRequest(store.path)),
            )
        }),
{
    let s = snapshot(v);
    let resource = IdentityView::WorkspaceRequest(store.path);
    lemma_tab_of(s.session.tabs, key_of(resource));
    if tab_of(s.session.tabs, key_of(resource)) is None {
        if let Ok((request, fingerprint)) = loaded {
            let tab = TabView {
                resource,
                title: request.name,
                dirty: false,
                pinned: false,
                preview: true,
            };
            law_opened_tabs_are_shown(s.session, tab);
        }
    }
}

/// A new draft begins with the request that drafts begin with, as a change that was not saved,
/// and is kept where drafts are. Where a draft is open already, it is shown.
pub proof fn law_new_drafts_are_shown(
    v: PanelView,
    kept: Result<(StoreView, Option<u64>), Seq<char>>,
)
    requires
        sound(v.session),
        forall|k: int|
            0 <= k < v.session.tabs.len() ==> key_of((#[trigger] v.session.tabs[k]).resource)
                != key_of(IdentityView::Draft(draft_request().id)),
    ensures
        ({
            let after = draft_begun(v, kept);
            &&& shows_document(
                after,
                OpenView {
                    request: draft_request(),
                    store: match kept {
                        Ok((store, _)) => Some(store),
                        Err(_) => None,
                    },
                    fingerprint: match kept {
                        Ok((_, f)) => f,
                        Err(_) => None,
                    },
                    document_error: match kept {
                        Ok(_) => None,
                        Err(e) => Some(e),
                    },
                    external: ExternalView::InSync,
                    section: RequestSection::Params,
                    dirty: true,
                },
            )
            &&& after.session.active matches Some(i) && after.session.tabs[i].dirty
                && after.session.tabs[i].resource == IdentityView::Draft(draft_request().id)
        }),
{
    let s = snapshot(v);
    lemma_tab_of(s.session.tabs, key_of(IdentityView::Draft(draft_request().id)));
    let tab = crate::request_panel_flow::draft_tab(draft_request().id, draft_request().name);
    law_opened_tabs_are_shown(s.session, tab);
}

/// A request out of the history is shown as a draft that was not saved, in a tab that says where
/// it comes from; unless a draft of it with unsaved changes is open, which is shown then.
pub proof fn law_requests_of_the_history_are_shown(
    v: PanelView,
    request: RequestView,
    kept: Result<(StoreView, Option<u64>), Seq<char>>,
)
    requires
        sound(v.session),
    ensures
        ({
            let (r, after) = history_opened(v, request, kept);
            let key = key_of(IdentityView::Draft(request.id));
            let unsaved = exists|k: int|
                0 <= k < v.session.tabs.len() && key_of((#[trigger] v.session.tabs[k]).resource)
                    == key && v.session.tabs[k].dirty;
            let known = exists|k: int|
                0 <= k < v.session.tabs.len() && key_of((#[trigger] v.session.tabs[k]).resource)
                    == key;
            &&& kept matches Err(e) ==> r == Err::<(), Seq<char>>(e) && after.base == v.base
            &&& !unsaved ==> (kept matches Ok((store, fingerprint)) ==> {
                &&& r is Ok
                &&& after.base == request
                &&& after.texts == shown_texts(request)
                &&& after.store == Some(store)
                &&& after.fingerprint == fingerprint
                &&& after.dirty
                &&& !known ==> (after.session.active matches Some(i)
                    && after.session.tabs[i].title == request.name + " (history)"@
                    && after.session.tabs[i].dirty)
            })
        }),
{
    let s = snapshot(v);
    let key = key_of(IdentityView::Draft(request.id));
    lemma_tab_of(s.session.tabs, key);
    if let Some(i) = tab_of(s.session.tabs, key) {
        assert forall|k: int|
            0 <= k < v.session.tabs.len() && key_of((#[trigger] v.session.tabs[k]).resource)
                == key implies k == i by {
            if k < i {
            } else if i < k {
            }
        }
    } else {
        let tab = crate::request_panel_flow::draft_tab(request.id, request.name + " (history)"@);
        law_opened_tabs_are_shown(s.session, tab);
    }
}

/// What is sent is the request as it is edited, with the values of its variables, and files are
/// looked for where the request is kept. Where it cannot be read, or its variables cannot be
/// had, or have no value, that is told and nothing is sent.
pub proof fn law_the_edited_request_is_sent(
    v: PanelView,
    variable_error: Option<Seq<char>>,
    w: RequestSurroundings,
)
    ensures
        ({
            let (step, after) = send_in(v, variable_error, w);
            let typed = request_edited(v.base, v.method, v.texts);
            &&& v.running ==> step is AlreadyRunning && after == v
            &&& !v.running && typed is Err ==> step == SendView::Invalid(typed->Err_0) && after == v
            &&& !v.running && typed is Ok && variable_error is Some ==> step
                == SendView::VariablesUnavailable(variable_error->Some_0) && after == v
            &&& !v.running && typed is Ok && variable_error is None ==> match resolved_request(
                w,
                typed->Ok_0,
            ) {
                Ok(r) => {
                    &&& step matches SendView::Send { request, resource_root, generation }
                        && request == r.request && (resource_root is Some <==> v.store is Some) && (
                    v.store is Some ==> resource_root == Some(v.store->Some_0.root)) && generation
                        == after.generation && generation != v.generation
                    &&& after.running && after.response.state is Running
                        && after.response.console.len() == 0
                    &&& after.base == v.base && after.texts == v.texts && after.dirty == v.dirty
                },
                Err(_) => step is Unresolved && after == v,
            }
        }),
{
}

/// What is heard of the request that is carried out is shown: events one after the other, and
/// then what it came to, after which it is not carried out any more.
pub proof fn law_what_is_heard_is_shown(v: PanelView, message: NetworkMessage)
    ensures
        ({
            let after = message_heard(v, v.generation, message);
            &&& message is Event ==> after.running == v.running && after.response.console.len()
                == v.response.console.len() + 1 && after.response.state == v.response.state
            &&& !(message is Event) ==> !after.running && after.response.console
                == v.response.console
            &&& message matches NetworkMessage::Completed(r) ==> after.response.state
                == ResponseState::Completed(r)
            &&& message is Cancelled ==> after.response.state is Cancelled
            &&& message matches NetworkMessage::Failed { category, message: m }
                ==> after.response.state == (ResponseState::Failed { category, message: m })
            &&& after.base == v.base && after.dirty == v.dirty && after.session == v.session
        }),
{
}

/// A request that is stopped is not carried out any more and reads as cancelled.
pub proof fn law_stopped_requests_are_cancelled(v: PanelView)
    ensures
        v.running ==> !cancelled(v).running && cancelled(v).response.state is Cancelled,
        !v.running ==> cancelled(v) == v,
        cancelled(cancelled(v)) == cancelled(v),
        cancelled(v).base == v.base && cancelled(v).dirty == v.dirty,
{
}

/// A version that was read from disk in place of what is edited is shown without unsaved
/// changes, in step with its file, in the active tab.
pub proof fn law_reloaded_requests_are_shown(
    v: PanelView,
    request: RequestView,
    store: StoreView,
    fingerprint: u64,
)
    requires
        sound(v.session),
    ensures
        ({
            let after = applied(v, request, store, fingerprint);
            &&& after.base == request
            &&& after.method == request.method
            &&& after.texts == shown_texts(request)
            &&& after.store == Some(store)
            &&& after.fingerprint == Some(fingerprint)
            &&& after.error is None
            &&& after.external is InSync
            &&& !after.dirty
            &&& !after.running
            &&& after.session.active == v.session.active
            &&& v.session.active matches Some(i) ==> !after.session.tabs[i].dirty
            &&& after.external_generation != v.external_generation
        }),
{
}

/// What is typed is an unsaved change of the active tab; a version on disk that could be read
/// before is in conflict with it.
pub proof fn law_typing_is_an_unsaved_change(v: PanelView)
    requires
        sound(v.session),
    ensures
        ({
            let after = edited(v);
            &&& after.dirty
            &&& v.session.active matches Some(i) ==> after.session.tabs[i].dirty
            &&& after.texts == v.texts && after.base == v.base
            &&& v.external matches ExternalView::ReloadAvailable(p) ==> after.external
                == ExternalView::Conflict(p)
            &&& !(v.external is ReloadAvailable) ==> after.external == v.external
        }),
{
}

/// A request that is saved is the one that is edited, at the place where it is kept and against
/// the version that was read last; it is in step with its file, or it is not saved.
pub proof fn law_the_edited_request_is_saved(v: PanelView)
    ensures
        save_checked(v) matches Ok((request, store)) ==> {
            &&& v.external is InSync
            &&& v.error is None
            &&& request_edited(v.base, v.method, v.texts) == Ok::<RequestView, Seq<char>>(request)
            &&& v.store == Some(store)
        },
        v.external is InSync && v.error is None && v.store is Some && request_edited(
            v.base,
            v.method,
            v.texts,
        ) is Ok ==> save_checked(v) is Ok,
{
}

/// A file that was looked at is in step exactly where it is where the request is kept and has
/// the fingerprint that was read last. Otherwise what was read is offered, as a conflict where
/// there are unsaved changes; what cannot be read is told.
pub proof fn law_looked_at_files_are_compared(
    v: PanelView,
    check: CheckView,
    found: Result<(RequestView, u64), Seq<char>>,
)
    requires
        check.generation == v.external_generation,
    ensures
        ({
            let after = file_checked(v, check, found).external;
            let unsaved = check.conflict_if_changed || v.dirty;
            &&& after is InSync <==> (found matches Ok((_, f)) && v.fingerprint == Some(f) && (
            v.store matches Some(s) && components(s.path) == components(check.store.path)))
            &&& found is Ok && !(after is InSync) ==> (after is Conflict <==> unsaved) && (
            after is ReloadAvailable <==> !unsaved)
            &&& after matches ExternalView::Conflict(p) ==> found == Ok::<
                (RequestView, u64),
                Seq<char>,
            >((p.request, p.fingerprint)) && p.store == check.store && p.reason == check.reason
            &&& after matches ExternalView::ReloadAvailable(p) ==> found == Ok::<
                (RequestView, u64),
                Seq<char>,
            >((p.request, p.fingerprint)) && p.store == check.store && p.reason == check.reason
            &&& found is Err ==> (after matches ExternalView::Failed { conflict, .. } && conflict
                == unsaved)
        }),
{
}

/// A change of the workspace that concerns the request has its file looked at where the request
/// is now; a request that was removed is told to be missing.
pub proof fn law_changes_have_files_looked_at(v: PanelView, root: Seq<char>, change: ChangeView)
    ensures
        ({
            let (check, after) = change_seen(v, root, change);
            let current = match v.store {
                Some(s) => path_in_workspace(s, root),
                None => None,
            };
            match reconciliation(current, v.dirty, change).document {
                ActionView::Unaffected => check is None && after == v,
                ActionView::Verify { path, reason, conflict_if_changed } => {
                    &&& check matches Some(c) && c.store.root == root && c.store.path == joined(
                        root,
                        path,
                    ) && c.reason == reason && c.conflict_if_changed == conflict_if_changed
                        && c.generation == after.external_generation
                    &&& after.external == ExternalView::Checking { reason }
                    &&& after.external_generation != v.external_generation
                },
                ActionView::Missing { had_unsaved_changes, .. } => {
                    &&& check is None
                    &&& after.external matches ExternalView::Missing { conflict, .. } && conflict
                        == had_unsaved_changes
                    &&& after.external_generation != v.external_generation
                },
            }
        }),
{
}

/// A tab that was closed is not kept open; where it was the active one, the request of the tab
/// that is active now is shown. One with unsaved changes stays.
pub proof fn law_shut_tabs_are_forgotten(v: PanelView, index: int)
    requires
        sound(v.session),
        0 <= index < v.session.tabs.len(),
    ensures
        ({
            let (r, after) = tab_shut(v, index);
            let key = key_of(v.session.tabs[index].resource);
            &&& v.session.tabs[index].dirty ==> r is Err && after.session == v.session && after.base
                == v.base
            &&& !v.session.tabs[index].dirty ==> {
                &&& r is Ok
                &&& !after.documents.dom().contains(key)
                &&& after.session.tabs.len() == v.session.tabs.len() - 1
                &&& v.session.active != Some(index) ==> after.base == v.base && after.texts
                    == v.texts && after.dirty == v.dirty
            }
            &&& !v.session.tabs[index].dirty && v.session.active == Some(index) ==> (active_key(
                after.session,
            ) matches Some(k) ==> (snapshot(v).documents.dom().contains(k) ==> shows_document(
                after,
                snapshot(v).documents[k],
            )))
        }),
{
    let s = snapshot(v);
    let key = key_of(v.session.tabs[index].resource);
    if !v.session.tabs[index].dirty {
        let (_, session) = crate::session::tab_closed(s.session, index);
        let i = v.session.active->Some_0;
        if i != index {
            crate::session::law_closing_keeps_the_active_tab(s.session, index);
            assert(active_key(session) == active_key(s.session));
        } else if session.tabs.len() > 0 {
            let j = session.active->Some_0;
            let x = if j < index {
                j
            } else {
                j + 1
            };
            assert(session.tabs[j] == v.session.tabs[x]);
            assert(key_of(v.session.tabs[x].resource) != key) by {
                if x < index {
                } else {
                }
            }
            assert(active_key(session) != active_key(s.session));
            let k = active_key(session)->Some_0;
            assert(k != key);
        }
    }
}

/// Going on from tab to tab goes round: as many steps forward as back lead to the same tab.
pub proof fn law_tabs_go_round(s: SessionView)
    requires
        sound(s),
    ensures
        s.tabs.len() < 2 ==> beside(s, true) is None && beside(s, false) is None,
        s.tabs.len() >= 2 ==> {
            let next = beside(s, true)->Some_0;
            let last = beside(s, false)->Some_0;
            &&& beside(s, true) is Some && beside(s, false) is Some
            &&& 0 <= next < s.tabs.len() && 0 <= last < s.tabs.len()
            &&& next != s.active->Some_0 && last != s.active->Some_0
            &&& beside(SessionView { active: Some(next), ..s }, false) == s.active
            &&& beside(SessionView { active: Some(last), ..s }, true) == s.active
            &&& s.active->Some_0 + 1 < s.tabs.len() ==> next == s.active->Some_0 + 1
        },
{
}

} // verus!
