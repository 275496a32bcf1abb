//! What following changes on disk promises of the request that is open.
use crate::lines::join;
use crate::paths::components;
use crate::reconcile::{reconciliation, ActionView, ReasonView};
use crate::watch::{event_change, ChangeView, FileEventView};
use crate::watch_laws::{
    law_changes_are_told_for_what_they_are, law_events_of_concern_are_reported, leads_below,
    of_concern, path_to,
};
use vstd::prelude::*;

verus! {

/// Whether a path stands among those of a change, however it is written.
pub open spec fn is_named(change: ChangeView, path: Seq<char>) -> bool {
    exists|i: int|
        0 <= i < change.paths.len() && components((#[trigger] change.paths[i]).relative_path)
            == components(path)
}

/// The open request is missing exactly where it was removed; it is read again exactly where it
/// was created or modified, where it was given another name or took one, and where all has to
/// be read again. Nothing else concerns it. The reason is what happened, and unsaved changes
/// are told of.
pub proof fn law_the_open_request_follows_the_disk(
    current: Seq<char>,
    dirty: bool,
    change: ChangeView,
)
    ensures
        ({
            let action = reconciliation(Some(current), dirty, change).document;
            &&& (action is Missing) <==> change.kind is Removed && is_named(change, current)
            &&& (action is Verify) <==> {
                ||| change.kind is RescanRequired
                ||| (change.kind is Created || change.kind is Modified) && is_named(
                    change,
                    current,
                )
                ||| change.kind is Renamed && change.paths.len() > 0 && components(
                    change.paths[0].relative_path,
                ) == components(current)
                ||| change.kind is Renamed && change.paths.len() > 1 && components(
                    change.paths[1].relative_path,
                ) == components(current)
            }
            &&& action matches ActionView::Missing { path, reason, had_unsaved_changes } ==> path
                == current && reason is Removed && had_unsaved_changes == dirty
            &&& action matches ActionView::Verify { path, reason, conflict_if_changed } ==> {
                &&& conflict_if_changed == dirty
                &&& (reason is Created) <==> change.kind is Created
                &&& (reason is Modified) <==> change.kind is Modified
                &&& (reason is RescanRequired) <==> change.kind is RescanRequired
                &&& (reason is Renamed) <==> change.kind is Renamed
                &&& !(change.kind is Renamed) ==> path == current
            }
        }),
{
}

/// An open request that was given another name is looked for under that name; one that took the
/// name of another is looked for where it is. The reason tells both names.
pub proof fn law_renamed_requests_are_followed(current: Seq<char>, dirty: bool, change: ChangeView)
    requires
        change.kind is Renamed,
        change.paths.len() > 1,
    ensures
        ({
            let from = change.paths[0].relative_path;
            let to = change.paths[1].relative_path;
            let action = reconciliation(Some(current), dirty, change).document;
            &&& components(from) == components(current) ==> action == (ActionView::Verify {
                path: to,
                reason: ReasonView::Renamed { from, to: Some(to) },
                conflict_if_changed: dirty,
            })
            &&& components(from) != components(current) && components(to) == components(current)
                ==> action == (ActionView::Verify {
                path: current,
                reason: ReasonView::Renamed { from, to: Some(to) },
                conflict_if_changed: dirty,
            })
        }),
{
}

/// The list of requests is read again exactly where a request or a collection changed, or all
/// has to be read again; whether a request is open does not matter.
pub proof fn law_the_list_follows_the_disk(
    current: Option<Seq<char>>,
    dirty: bool,
    change: ChangeView,
)
    ensures
        reconciliation(current, dirty, change).refresh_tree <==> (change.kind is RescanRequired
            || exists|i: int|
            0 <= i < change.paths.len() && ((#[trigger] change.paths[i]).resource is Request
                || change.paths[i].resource is Collection)),
        current is None ==> reconciliation(current, dirty, change).document is Unaffected,
{
}

/// Removing the file of the open request makes it missing.
pub proof fn law_removed_files_are_missing(
    root: Seq<char>,
    event: FileEventView,
    names: Seq<Seq<char>>,
    k: int,
    dirty: bool,
)
    requires
        leads_below(root, names),
        of_concern(names),
        0 <= k < event.paths.len(),
        event.paths[k] == path_to(root, names),
        event.kind is Remove,
        !event.need_rescan,
    ensures
        event_change(root, event) is Some,
        reconciliation(
            Some(join(names, seq!['/'])),
            dirty,
            event_change(root, event)->Some_0,
        ).document is Missing,
{
    law_events_of_concern_are_reported(root, event, names, k);
    law_changes_are_told_for_what_they_are(root, event);
    let change = event_change(root, event)->Some_0;
    let current = join(names, seq!['/']);
    let i = choose|i: int|
        0 <= i < change.paths.len() && (#[trigger] change.paths[i]).relative_path == current;
    assert(components(change.paths[i].relative_path) == components(current));
    assert(is_named(change, current));
    law_the_open_request_follows_the_disk(current, dirty, change);
}

} // verus!
