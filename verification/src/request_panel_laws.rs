//! What holds of the request that is edited, whatever is done with it.
use crate::document_store::{plain_document, store_loaded};
use crate::domain::RequestView;
use crate::files::FilesView;
use crate::repository::MAXIMUM_REQUEST_BYTES;
use crate::repository_laws::law_saved_request_is_loaded;
use crate::request::request_text;
use crate::request_laws::request_writable;
use crate::request_panel::{request_shown, snapshot, tab_activated, PanelView};
use crate::request_panel_flow::{
    change_seen, file_checked, message_heard, request_kept, save_checked, send_in, CheckView,
};
use crate::resolved_request::RequestSurroundings;
use crate::response::NetworkMessage;
use crate::session::{key_of, sound};
use crate::watch::ChangeView;
use vstd::prelude::*;
use vstd::utf8::encode_utf8;

verus! {

/// Going to another tab and back loses nothing: the request is as it was edited, with its
/// unsaved changes, where it is kept and how it stands to its file.
pub proof fn law_switching_tabs_keeps_edits(v: PanelView, j: int)
    requires
        sound(v.session),
        v.session.active is Some,
        0 <= j < v.session.tabs.len(),
        v.session.active != Some(j),
        v.documents.dom().contains(key_of(v.session.tabs[j].resource)),
    ensures
        ({
            let i = v.session.active->Some_0;
            let (there, away) = tab_activated(v, j);
            let (back, now) = tab_activated(away, i);
            &&& there is Ok
            &&& back is Ok
            &&& now.base == request_shown(v)
            &&& now.dirty == v.dirty
            &&& now.store == v.store
            &&& now.fingerprint == v.fingerprint
            &&& now.error == v.error
            &&& now.external == v.external
            &&& now.section == v.section
            &&& now.session.active == Some(i)
        }),
{
    let i = v.session.active->Some_0;
    let ki = key_of(v.session.tabs[i].resource);
    let kj = key_of(v.session.tabs[j].resource);
    assert(ki != kj) by {
        if i < j {
        } else {
        }
    }
    let (there, away) = tab_activated(v, j);
    assert(away.session.tabs[j].resource == v.session.tabs[j].resource);
    assert(away.session.tabs[i].resource == v.session.tabs[i].resource);
    assert(away.documents[ki] == snapshot(v).documents[ki]);
    let s = snapshot(away);
    assert(s.documents[ki] == away.documents[ki]);
    assert(s.session.tabs[i].resource == v.session.tabs[i].resource);
}

/// A request that may not be saved stays as it is, and nothing is written.
pub proof fn law_refused_save_changes_nothing(v: PanelView, files: FilesView, leaks: Seq<Seq<char>>)
    requires
        save_checked(v) is Err,
    ensures
        request_kept(v, files, leaks).0 is Err,
        request_kept(v, files, leaks).1 == files,
        request_kept(v, files, leaks).2 == v,
{
}

/// A request that was saved has no unsaved changes, its tab says so, and reading it again gives
/// what was edited.
pub proof fn law_saved_request_is_clean(v: PanelView, files: FilesView, leaks: Seq<Seq<char>>)
    requires
        sound(v.session),
        request_kept(v, files, leaks).0 is Ok,
        request_writable(plain_document(save_checked(v)->Ok_0.0)),
        encode_utf8(request_text(plain_document(save_checked(v)->Ok_0.0))).len()
            <= MAXIMUM_REQUEST_BYTES,
    ensures
        ({
            let (request, store) = save_checked(v)->Ok_0;
            let (r, after, now) = request_kept(v, files, leaks);
            &&& !now.dirty
            &&& now.base == request
            &&& now.session.active matches Some(i) ==> !now.session.tabs[i].dirty
            &&& now.fingerprint is Some
            &&& store_loaded(after.nodes, store) == Ok::<(RequestView, u64), Seq<char>>(
                (request, now.fingerprint->Some_0),
            )
        }),
{
    let (request, store) = save_checked(v)->Ok_0;
    law_saved_request_is_loaded(
        files,
        store.root,
        store.path,
        plain_document(request),
        v.fingerprint,
        leaks,
    );
}

/// What happens on disk never changes what is edited: what is typed, the unsaved changes, the
/// tabs and the open requests stay.
pub proof fn law_outside_changes_keep_edits(
    v: PanelView,
    root: Seq<char>,
    change: ChangeView,
    check: CheckView,
    found: Result<(RequestView, u64), Seq<char>>,
)
    ensures
        ({
            let seen = change_seen(v, root, change).1;
            let checked = file_checked(v, check, found);
            &&& seen.texts == v.texts && checked.texts == v.texts
            &&& seen.base == v.base && checked.base == v.base
            &&& seen.method == v.method && checked.method == v.method
            &&& seen.dirty == v.dirty && checked.dirty == v.dirty
            &&& seen.session == v.session && checked.session == v.session
            &&& seen.documents == v.documents && checked.documents == v.documents
        }),
{
}

/// What is found or heard late, after something newer was begun, changes nothing.
pub proof fn law_late_answers_are_passed_over(
    v: PanelView,
    check: CheckView,
    found: Result<(RequestView, u64), Seq<char>>,
    generation: u64,
    message: NetworkMessage,
)
    ensures
        check.generation != v.external_generation ==> file_checked(v, check, found) == v,
        generation != v.generation ==> message_heard(v, generation, message) == v,
{
}

/// Another version on disk is taken for a conflict wherever there are unsaved changes.
pub proof fn law_unsaved_edits_make_a_conflict(
    v: PanelView,
    check: CheckView,
    found: Result<(RequestView, u64), Seq<char>>,
)
    requires
        v.dirty,
        check.generation == v.external_generation,
    ensures
        !(file_checked(v, check, found).external is ReloadAvailable),
{
}

/// No request is sent while another is being carried out, and one that is not sent is not being
/// carried out.
pub proof fn law_one_request_at_a_time(
    v: PanelView,
    variable_error: Option<Seq<char>>,
    w: RequestSurroundings,
)
    ensures
        v.running ==> send_in(v, variable_error, w).0 is AlreadyRunning,
        !v.running && !(send_in(v, variable_error, w).0 is Send) ==> !send_in(
            v,
            variable_error,
            w,
        ).1.running,
        send_in(v, variable_error, w).0 is Send ==> send_in(v, variable_error, w).1.running,
{
}

} // verus!
