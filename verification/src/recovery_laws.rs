//! Laws of work on disk that fails half way.
use crate::collection::COLLECTION_FILE;
use crate::disk_plans::{
    clear, deletion_plan, making_plan, moving, removal_plan, shape_of, Removal, Shape,
};
use crate::disk_work::{
    advanced, failure_error, next_step, undo_steps, undoing, work_begun, FailureView,
    PlannedView, StageView, StepErrorView, StepView, Trouble, WorkView,
};
use crate::files::{
    below, effect, entry_path, file_bytes, lemma_performed, moved_path, performed, rooted,
    tree_order, under, with_directories, without_tree, ActionView, FilesView, NodeView, Nodes,
};
use crate::fingerprint::lemma_tree_order_is_there;
use crate::naming::{temporary_place, IdSource};
use crate::repository::{write_actions, written};
use crate::repository_collections::{
    creation_actions, deletion_actions, duplicated, lemma_temporary_not_empty,
    rekeyed_collection, rekeyed_files, tree_files, Rekeying,
};
use crate::repository_documents::{environment_place, override_place};
use crate::repository_environments::{environment_deletion, file_deletion, trash_place};
use crate::rooted_laws::law_nothing_lies_below_what_is_not_there;
use crate::tree_laws::{
    lemma_comparable, lemma_copies_finite, lemma_moved_there_and_back, lemma_one_change,
    lemma_tree_files_below, lemma_written_finite, vacant,
};
use vstd::prelude::*;
use vstd::utf8::encode_utf8;

verus! {

/// The work once events came in turn.
pub open spec fn run(w: WorkView, events: Seq<Option<StepErrorView>>) -> WorkView
    decreases events.len(),
{
    if events.len() == 0 {
        w
    } else {
        advanced(run(w, events.drop_last()), events.last())
    }
}

/// The steps that were tried while events came in turn.
pub open spec fn steps_tried(w: WorkView, events: Seq<Option<StepErrorView>>) -> Seq<StepView>
    decreases events.len(),
{
    if events.len() == 0 {
        seq![]
    } else {
        let before = steps_tried(w, events.drop_last());
        match next_step(run(w, events.drop_last())) {
            Some(step) => before.push(step),
            None => before,
        }
    }
}

/// The steps of a plan.
pub open spec fn steps_of(plan: Seq<PlannedView>) -> Seq<StepView> {
    plan.map_values(|p: PlannedView| p.step)
}

/// So many events of success.
pub open spec fn successes(n: nat) -> Seq<Option<StepErrorView>> {
    Seq::new(n, |i: int| None)
}

proof fn lemma_doing(plan: Seq<PlannedView>, aside: Seq<char>, n: nat)
    requires
        0 < plan.len(),
        n <= plan.len(),
    ensures
        run(work_begun(plan, aside), successes(n)) == (WorkView {
            stage: if n < plan.len() {
                StageView::Doing(n as int)
            } else {
                StageView::Finished(Ok(None))
            },
            ..work_begun(plan, aside)
        }),
        steps_tried(work_begun(plan, aside), successes(n)) == steps_of(plan).take(n as int),
    decreases n,
{
    let w = work_begun(plan, aside);
    if n > 0 {
        let m = (n - 1) as nat;
        lemma_doing(plan, aside, m);
        assert(successes(n).drop_last() =~= successes(m));
        assert(steps_of(plan).take(n as int) =~= steps_of(plan).take(m as int).push(
            plan[m as int].step,
        ));
    } else {
        assert(steps_of(plan).take(0) =~= seq![]);
    }
}

/// Where every step succeeds, the steps of the plan are done in turn, and nothing is left.
pub proof fn law_work_that_succeeds(plan: Seq<PlannedView>, aside: Seq<char>)
    requires
        0 < plan.len(),
    ensures
        ({
            let events = successes(plan.len());
            &&& steps_tried(work_begun(plan, aside), events) == steps_of(plan)
            &&& run(work_begun(plan, aside), events).stage == StageView::Finished(Ok(None))
        }),
{
    lemma_doing(plan, aside, plan.len());
    assert(steps_of(plan).take(plan.len() as int) =~= steps_of(plan));
}

/// The events of work of which a step fails, and of what that calls for.
pub open spec fn failure_events(
    failed: nat,
    error: StepErrorView,
    results: Seq<Option<StepErrorView>>,
) -> Seq<Option<StepErrorView>> {
    successes(failed).push(Some(error)) + results
}

proof fn lemma_undoing(
    plan: Seq<PlannedView>,
    aside: Seq<char>,
    failed: nat,
    error: StepErrorView,
    results: Seq<Option<StepErrorView>>,
)
    requires
        failed < plan.len(),
        results.len() <= undo_steps(plan[failed as int].on_failure).len(),
    ensures
        ({
            let w = work_begun(plan, aside);
            let events = failure_events(failed, error, results);
            &&& run(w, events) == (WorkView {
                stage: undoing(plan, aside, failed as int, error, results),
                ..w
            })
            &&& steps_tried(w, events) == steps_of(plan).take(failed as int + 1) + undo_steps(
                plan[failed as int].on_failure,
            ).take(results.len() as int)
        }),
    decreases results.len(),
{
    let w = work_begun(plan, aside);
    let events = failure_events(failed, error, results);
    let undo = undo_steps(plan[failed as int].on_failure);
    if results.len() == 0 {
        lemma_doing(plan, aside, failed);
        assert(events.drop_last() =~= successes(failed));
        assert(steps_of(plan).take(failed as int + 1) =~= steps_of(plan).take(failed as int).push(
            plan[failed as int].step,
        ));
        assert(undo.take(0) =~= seq![]);
        assert(steps_of(plan).take(failed as int + 1) + undo.take(0) =~= steps_of(plan).take(
            failed as int + 1,
        ));
        assert(results =~= seq![]);
    } else {
        lemma_undoing(plan, aside, failed, error, results.drop_last());
        assert(events.drop_last() =~= failure_events(failed, error, results.drop_last()));
        assert(results.drop_last().push(results.last()) =~= results);
        let n = results.len() as int;
        assert(undo.take(n) =~= undo.take(n - 1).push(undo[n - 1]));
        assert(steps_of(plan).take(failed as int + 1) + undo.take(n) =~= (steps_of(plan).take(
            failed as int + 1,
        ) + undo.take(n - 1)).push(undo[n - 1]));
    }
}

/// A step that fails is followed by all that it calls for, whatever comes of that, and by
/// nothing else. The error is that of the step, unless a move that puts things back failed too.
pub proof fn law_failure_is_followed_by_what_it_calls_for(
    plan: Seq<PlannedView>,
    aside: Seq<char>,
    failed: nat,
    error: StepErrorView,
    results: Seq<Option<StepErrorView>>,
)
    requires
        failed < plan.len(),
        plan[failed as int].on_failure is Restore,
        results.len() == undo_steps(plan[failed as int].on_failure).len(),
    ensures
        ({
            let w = work_begun(plan, aside);
            let events = failure_events(failed, error, results);
            let f = plan[failed as int].on_failure;
            &&& steps_tried(w, events) == steps_of(plan).take(failed as int + 1) + undo_steps(f)
            &&& f matches FailureView::Restore { moves, trouble, .. } && run(w, events).stage
                == StageView::Finished(Err(failure_error(aside, moves, trouble, error, results)))
        }),
{
    lemma_undoing(plan, aside, failed, error, results);
    let undo = undo_steps(plan[failed as int].on_failure);
    assert(undo.take(undo.len() as int) =~= undo);
}

/// Where the last step of the deletion of an environment fails, the environment is deleted all
/// the same, and what is left of it is named.
pub proof fn law_deleted_environment_names_what_is_left(
    r: Removal,
    aside: Seq<char>,
    error: StepErrorView,
)
    ensures
        ({
            let plan = removal_plan(r, aside);
            let last = (plan.len() - 1) as nat;
            &&& plan[last as int].step == StepView::Change(ActionView::RemoveTree(r.trash))
            &&& run(work_begun(plan, aside), failure_events(last, error, seq![])).stage
                == StageView::Finished(Ok(Some(aside)))
        }),
{
    let plan = removal_plan(r, aside);
    lemma_undoing(plan, aside, (plan.len() - 1) as nat, error, seq![]);
}

/// What steps that succeed make of the files.
pub open spec fn effects(nodes: Nodes, steps: Seq<StepView>) -> Nodes
    decreases steps.len(),
{
    if steps.len() == 0 {
        nodes
    } else {
        let before = effects(nodes, steps.drop_last());
        match steps.last() {
            StepView::Change(action) => effect(before, action),
            StepView::Settle(_) => before,
        }
    }
}

proof fn lemma_effects(nodes: Nodes, a: Seq<StepView>, b: Seq<StepView>)
    ensures
        effects(nodes, a + b) == effects(effects(nodes, a), b),
    decreases b.len(),
{
    if b.len() == 0 {
        assert(a + b =~= a);
    } else {
        assert((a + b).drop_last() =~= a + b.drop_last());
        lemma_effects(nodes, a, b.drop_last());
    }
}

/// Whether neither of two paths lies below the other.
pub open spec fn apart(a: Seq<char>, b: Seq<char>) -> bool {
    !under(a, b) && !under(b, a)
}

/// What is moved aside and back again stands as it stood.
pub proof fn law_move_there_and_back(nodes: Nodes, from: Seq<char>, to: Seq<char>)
    requires
        vacant(nodes, to),
        apart(from, to),
    ensures
        effect(effect(nodes, moving(from, to)), moving(to, from)) == nodes,
{
    let there = effect(nodes, moving(from, to));
    let back = effect(there, moving(to, from));
    assert forall|k: Seq<char>|
        (#[trigger] back.dom().contains(k) <==> nodes.dom().contains(k)) && (nodes.dom().contains(
            k,
        ) ==> back[k] == nodes[k]) by {
        if under(from, k) {
            lemma_moved_there_and_back(from, to, k);
            let m = moved_path(from, to, k);
            if under(to, k) {
                lemma_comparable(from, to, k);
            }
            if under(from, m) {
                lemma_comparable(from, to, m);
            }
        }
    }
    assert(back.dom() =~= nodes.dom());
    assert forall|k: Seq<char>| #[trigger] nodes.dom().contains(k) implies back[k] == nodes[k] by {
        assert(back.dom().contains(k));
    }
    assert(back =~= nodes);
}

/// A deletion that cannot be finished is taken back: once what is deleted was moved aside, and
/// its removal fails before anything of it is gone, all files stand as they stood.
pub proof fn law_failed_deletion_is_put_back(
    nodes: Nodes,
    place: Seq<char>,
    tombstone: Seq<char>,
    trouble: Trouble,
)
    requires
        rooted(nodes),
        tombstone.len() > 0,
        !nodes.dom().contains(tombstone),
        apart(place, tombstone),
    ensures
        ({
            let plan = deletion_plan(place, tombstone, trouble);
            effects(nodes, steps_of(plan).take(2) + undo_steps(plan[2].on_failure)) == nodes
        }),
{
    let plan = deletion_plan(place, tombstone, trouble);
    let steps = steps_of(plan).take(2) + undo_steps(plan[2].on_failure);
    assert(steps =~= seq![
        StepView::Change(moving(place, tombstone)),
        plan[1].step,
        StepView::Change(moving(tombstone, place)),
        plan[1].step,
    ]);
    reveal_with_fuel(effects, 6);
    assert(steps.drop_last().drop_last().drop_last().drop_last() =~= seq![]);
    law_nothing_lies_below_what_is_not_there(nodes, tombstone);
    law_move_there_and_back(nodes, place, tombstone);
}

/// Whether an environment and its local values can be kept aside apart from all else.
pub open spec fn can_be_kept_aside(nodes: Nodes, r: Removal) -> bool {
    &&& vacant(nodes, r.trash)
    &&& apart(r.environment.0, r.trash)
    &&& under(r.trash, r.environment.1)
    &&& r.environment.1 != r.trash
    &&& r.local matches Some(local) ==> {
        &&& apart(local.0, r.trash)
        &&& under(r.trash, local.1)
        &&& local.1 != r.trash
        &&& apart(r.environment.1, local.1)
        &&& apart(r.environment.0, local.0)
    }
}

/// The files once a directory was made and removed: those above it are left.
pub open spec fn made_and_removed(nodes: Nodes, trash: Seq<char>) -> Nodes {
    without_tree(with_directories(nodes, trash), trash)
}

proof fn lemma_outside(a: Seq<char>, trash: Seq<char>, kept: Seq<char>)
    requires
        apart(a, trash),
        under(trash, kept),
    ensures
        apart(a, kept),
{
    if under(a, kept) {
        lemma_comparable(a, trash, kept);
    }
    if under(kept, a) {
        crate::files::lemma_under_transitive(trash, kept, a);
    }
}

proof fn lemma_vacant_in_new(nodes: Nodes, trash: Seq<char>, kept: Seq<char>)
    requires
        vacant(nodes, trash),
        under(trash, kept),
        kept != trash,
    ensures
        vacant(with_directories(nodes, trash), kept),
{
    let made = with_directories(nodes, trash);
    assert forall|k: Seq<char>| #[trigger] under(kept, k) implies !made.dom().contains(k) by {
        crate::files::lemma_under_transitive(trash, kept, k);
        assert(k.len() >= kept.len() > trash.len());
    }
}

proof fn lemma_vacant_beside(nodes: Nodes, from: Seq<char>, to: Seq<char>, kept: Seq<char>)
    requires
        vacant(nodes, kept),
        apart(to, kept),
    ensures
        vacant(effect(nodes, moving(from, to)), kept),
{
    let after = effect(nodes, moving(from, to));
    assert forall|k: Seq<char>| #[trigger] under(kept, k) implies !after.dom().contains(k) by {
        if under(to, k) {
            lemma_comparable(to, kept, k);
        }
    }
}

/// The steps that move an environment aside.
pub open spec fn moved_aside(r: Removal) -> Seq<StepView> {
    seq![
        StepView::Change(ActionView::MakeDirectories(r.trash)),
        StepView::Change(moving(r.environment.0, r.environment.1)),
    ]
}

/// The steps that move an environment back and clear up.
pub open spec fn moved_back(r: Removal) -> Seq<StepView> {
    seq![
        StepView::Change(moving(r.environment.1, r.environment.0)),
        StepView::Change(ActionView::RemoveTree(r.trash)),
        StepView::Settle(crate::files::parent_place(r.environment.0)),
    ]
}

proof fn lemma_one_effect(nodes: Nodes, step: StepView)
    ensures
        effects(nodes, seq![step]) == (match step {
            StepView::Change(action) => effect(nodes, action),
            StepView::Settle(_) => nodes,
        }),
{
    assert(seq![step].drop_last() =~= seq![]);
    assert(effects(nodes, seq![step].drop_last()) == nodes);
}

proof fn lemma_environment_moved(nodes: Nodes, r: Removal)
    requires
        can_be_kept_aside(nodes, r),
    ensures
        effects(nodes, moved_aside(r)) == effect(
            with_directories(nodes, r.trash),
            moving(r.environment.0, r.environment.1),
        ),
        effects(effects(nodes, moved_aside(r)), moved_back(r)) == made_and_removed(
            nodes,
            r.trash,
        ),
{
    let made = with_directories(nodes, r.trash);
    let gone = effect(made, moving(r.environment.0, r.environment.1));
    let first = moved_aside(r);
    let rest = moved_back(r);
    lemma_one_effect(nodes, first[0]);
    lemma_one_effect(made, first[1]);
    lemma_effects(nodes, seq![first[0]], seq![first[1]]);
    assert(first =~= seq![first[0]] + seq![first[1]]);
    lemma_outside(r.environment.0, r.trash, r.environment.1);
    lemma_vacant_in_new(nodes, r.trash, r.environment.1);
    law_move_there_and_back(made, r.environment.0, r.environment.1);
    lemma_one_effect(gone, rest[0]);
    lemma_one_effect(made, rest[1]);
    lemma_one_effect(made_and_removed(nodes, r.trash), rest[2]);
    lemma_effects(gone, seq![rest[0]], seq![rest[1]]);
    lemma_effects(gone, seq![rest[0]] + seq![rest[1]], seq![rest[2]]);
    assert(rest =~= seq![rest[0]] + seq![rest[1]] + seq![rest[2]]);
}

proof fn lemma_local_moved(nodes: Nodes, r: Removal)
    requires
        can_be_kept_aside(nodes, r),
        r.local is Some,
    ensures
        ({
            let local = r.local->0;
            let gone = effects(nodes, moved_aside(r));
            let both = effects(gone, seq![StepView::Change(moving(local.0, local.1))]);
            effects(both, seq![StepView::Change(moving(local.1, local.0))]) == gone
        }),
{
    let local = r.local->0;
    let made = with_directories(nodes, r.trash);
    let gone = effects(nodes, moved_aside(r));
    lemma_environment_moved(nodes, r);
    lemma_outside(local.0, r.trash, local.1);
    lemma_vacant_in_new(nodes, r.trash, local.1);
    lemma_vacant_beside(made, r.environment.0, r.environment.1, local.1);
    law_move_there_and_back(gone, local.0, local.1);
    let both = effect(gone, moving(local.0, local.1));
    lemma_one_effect(gone, StepView::Change(moving(local.0, local.1)));
    lemma_one_effect(both, StepView::Change(moving(local.1, local.0)));
}

/// No file is lost where the deletion of an environment fails before it was made to last: once
/// the moves and the clearing up that follow are done, all files stand as they stood. Only the
/// directories above the one that kept things aside may be new.
pub proof fn law_failed_environment_deletion_is_put_back(
    nodes: Nodes,
    r: Removal,
    aside: Seq<char>,
    failed: int,
    path: Seq<char>,
)
    requires
        can_be_kept_aside(nodes, r),
        2 <= failed < removal_plan(r, aside).len() - 1,
    ensures
        ({
            let plan = removal_plan(r, aside);
            let after = effects(
                nodes,
                steps_of(plan).take(failed) + undo_steps(plan[failed].on_failure),
            );
            &&& after == made_and_removed(nodes, r.trash)
            &&& file_bytes(after, path) == file_bytes(nodes, path)
        }),
{
    let plan = removal_plan(r, aside);
    let steps = steps_of(plan).take(failed) + undo_steps(plan[failed].on_failure);
    let first = moved_aside(r);
    let rest = moved_back(r);
    let gone = effects(nodes, first);
    lemma_environment_moved(nodes, r);
    match r.local {
        None => {
            let settled = steps_of(plan).take(failed).skip(2);
            assert(steps =~= first + settled + rest);
            lemma_settling_changes_nothing(gone, settled);
            lemma_effects(nodes, first, settled);
            lemma_effects(nodes, first + settled, rest);
        },
        Some(local) => {
            if failed == 2 {
                assert(steps =~= first + rest);
                lemma_effects(nodes, first, rest);
            } else {
                let moved = seq![StepView::Change(moving(local.0, local.1))];
                let settled = steps_of(plan).take(failed).skip(3);
                let local_back = seq![StepView::Change(moving(local.1, local.0))];
                let tail = seq![StepView::Settle(crate::files::parent_place(local.0))];
                let both = effects(gone, moved);
                assert(steps =~= first + moved + settled + (local_back + rest + tail));
                lemma_settling_changes_nothing(both, settled);
                lemma_local_moved(nodes, r);
                lemma_effects(nodes, first, moved);
                lemma_effects(nodes, first + moved, settled);
                lemma_effects(nodes, first + moved + settled, local_back + rest + tail);
                lemma_effects(both, local_back, rest);
                lemma_effects(both, local_back + rest, tail);
                lemma_settling_changes_nothing(made_and_removed(nodes, r.trash), tail);
            }
        },
    }
}

proof fn lemma_settling_changes_nothing(nodes: Nodes, steps: Seq<StepView>)
    requires
        forall|k: int| 0 <= k < steps.len() ==> (#[trigger] steps[k]) is Settle,
    ensures
        effects(nodes, steps) == nodes,
    decreases steps.len(),
{
    if steps.len() > 0 {
        assert forall|k: int| 0 <= k < steps.drop_last().len() implies (
        #[trigger] steps.drop_last()[k]) is Settle by {
            assert(steps[k] is Settle);
        }
        assert(steps[steps.len() - 1] is Settle);
        lemma_settling_changes_nothing(nodes, steps.drop_last());
    }
}

/// Whether a change makes directories, or makes something at a path that is kept aside.
pub open spec fn works_aside(action: ActionView, aside: Seq<char>) -> bool {
    match action {
        ActionView::MakeDirectories(_) => true,
        ActionView::Write { path, .. } => under(aside, path),
        ActionView::CopyTree { to, .. } => to == aside,
        _ => false,
    }
}

proof fn lemma_work_aside(
    nodes: Nodes,
    actions: Seq<ActionView>,
    aside: Seq<char>,
    n: int,
    path: Seq<char>,
)
    requires
        0 <= n <= actions.len(),
        forall|k: int| 0 <= k < n ==> works_aside(#[trigger] actions[k], aside),
        !under(aside, path),
    ensures
        ({
            let after = effects(nodes, actions.take(n).map_values(|a: ActionView| StepView::Change(a)));
            &&& nodes.dom().contains(path) ==> after.dom().contains(path) && after[path]
                == nodes[path]
            &&& !nodes.dom().contains(path) && after.dom().contains(path) ==> after[path]
                == NodeView::Directory
        }),
    decreases n,
{
    let steps = actions.take(n).map_values(|a: ActionView| StepView::Change(a));
    if n > 0 {
        lemma_work_aside(nodes, actions, aside, n - 1, path);
        assert(steps.drop_last() =~= actions.take(n - 1).map_values(
            |a: ActionView| StepView::Change(a),
        ));
        assert(works_aside(actions[n - 1], aside));
        assert(steps.last() == StepView::Change(actions[n - 1]));
    }
}

/// What was begun aside and fails is cleared away: nothing of it is left, and every other file
/// stands as it stood. Only directories may be new.
pub proof fn law_failed_making_is_cleared_away(
    nodes: Nodes,
    actions: Seq<ActionView>,
    aside: Seq<char>,
    target: Seq<char>,
    failed: int,
    path: Seq<char>,
)
    requires
        0 <= failed < actions.len(),
        forall|k: int| 0 <= k < failed ==> works_aside(#[trigger] actions[k], aside),
        actions[failed] matches ActionView::MakeDirectories(made) ==> under(aside, made),
    ensures
        ({
            let plan = making_plan(actions, aside, target);
            let after = effects(
                nodes,
                steps_of(plan).take(failed) + undo_steps(plan[failed].on_failure),
            );
            &&& vacant(after, aside)
            &&& !under(aside, path) ==> file_bytes(after, path) == file_bytes(nodes, path)
            &&& !under(aside, path) && nodes.dom().contains(path) ==> after.dom().contains(path)
                && after[path] == nodes[path]
        }),
{
    let plan = making_plan(actions, aside, target);
    let first = steps_of(plan).take(failed);
    let clean = seq![StepView::Change(ActionView::RemoveTree(aside))];
    assert(plan[failed].on_failure == clear(aside));
    assert(undo_steps(clear(aside)) =~= clean);
    assert(first =~= actions.take(failed).map_values(|a: ActionView| StepView::Change(a)));
    lemma_effects(nodes, first, clean);
    let made = effects(nodes, first);
    assert(clean.drop_last() =~= seq![]);
    reveal_with_fuel(effects, 2);
    assert(effects(made, clean) == without_tree(made, aside));
    if !under(aside, path) {
        lemma_work_aside(nodes, actions, aside, failed, path);
    }
}

/// The changes by which things are deleted and made are planned as such, so that a failure is
/// put back.
pub proof fn law_changes_are_planned_as_what_they_are(
    place: Seq<char>,
    name: Seq<char>,
    text: Seq<char>,
    id: Seq<char>,
    nonce: u128,
)
    ensures
        shape_of(deletion_actions(place, nonce)) == (Shape::Deletion {
            place,
            tombstone: temporary_place(place, "delete"@, nonce),
        }),
        shape_of(file_deletion(place, nonce)) == (Shape::Deletion {
            place,
            tombstone: temporary_place(place, "delete"@, nonce),
        }),
        shape_of(creation_actions(place, name, text, nonce)) == (Shape::Making {
            aside: temporary_place(place, "create"@, nonce),
            target: place,
        }),
        shape_of(environment_deletion(id, false, nonce)) == Shape::Removal(
            environment_removal(id, false, nonce),
        ),
        shape_of(environment_deletion(id, true, nonce)) == Shape::Removal(
            environment_removal(id, true, nonce),
        ),
{
    assert(environment_deletion(id, false, nonce).len() == 3);
    assert(environment_deletion(id, true, nonce).len() == 4);
}

/// Where an environment goes that is deleted.
pub open spec fn environment_removal(id: Seq<char>, with_override: bool, nonce: u128) -> Removal {
    let trash = trash_place(id, nonce);
    Removal {
        environment: (environment_place(id), entry_path(trash, "environment.toml"@)),
        local: if with_override {
            Some((override_place(id), entry_path(trash, "local.toml"@)))
        } else {
            None
        },
        trash,
    }
}

/// Whether all that was done since works aside.
pub open spec fn worked_aside(before: FilesView, after: FilesView, aside: Seq<char>) -> bool {
    &&& before.journal.len() <= after.journal.len()
    &&& before.journal == after.journal.take(before.journal.len() as int)
    &&& forall|j: int|
        before.journal.len() <= j < after.journal.len() ==> works_aside(
            #[trigger] after.journal[j],
            aside,
        )
}

proof fn lemma_one_more(before: FilesView, files: FilesView, action: ActionView, aside: Seq<char>)
    requires
        worked_aside(before, files, aside),
    ensures
        performed(files, seq![action]).journal == files.journal.push(action),
        before.journal == files.journal.push(action).take(before.journal.len() as int),
        works_aside(action, aside) ==> worked_aside(
            before,
            performed(files, seq![action]),
            aside,
        ),
{
    let after = performed(files, seq![action]);
    lemma_one_change(files, action);
    assert(files.journal.push(action).take(before.journal.len() as int) =~= files.journal.take(
        before.journal.len() as int,
    ));
    assert forall|j: int|
        before.journal.len() <= j < after.journal.len() && works_aside(action, aside)
            implies works_aside(#[trigger] after.journal[j], aside) by {
        if j < files.journal.len() {
            assert(after.journal[j] == files.journal[j]);
        }
    }
}

proof fn lemma_write_aside(
    before: FilesView,
    files: FilesView,
    root: Seq<char>,
    place: Seq<char>,
    text: Seq<char>,
    expected: Option<u64>,
    aside: Seq<char>,
)
    requires
        worked_aside(before, files, aside),
        under(aside, place),
    ensures
        worked_aside(before, written(files, root, place, text, expected).1, aside),
{
    let all = write_actions(place, encode_utf8(text));
    let a = seq![all[0]];
    assert(a + seq![all[1]] =~= all);
    lemma_performed(files, a, seq![all[1]]);
    lemma_one_more(before, files, all[0], aside);
    lemma_one_more(before, performed(files, a), all[1], aside);
}

proof fn lemma_rekeying_works_aside(
    before: FilesView,
    state: Rekeying,
    root: Seq<char>,
    list: Seq<Seq<char>>,
    leaks: Seq<Seq<Seq<char>>>,
    aside: Seq<char>,
)
    requires
        worked_aside(before, state.files, aside),
        forall|i: int| 0 <= i < list.len() ==> under(aside, #[trigger] list[i]),
    ensures
        worked_aside(before, rekeyed_files(state, root, list, leaks).1.files, aside),
    decreases list.len(),
{
    if list.len() > 0 {
        let front = list.drop_last();
        assert forall|i: int| 0 <= i < front.len() implies under(aside, #[trigger] front[i]) by {
            assert(front[i] == list[i]);
        }
        lemma_rekeying_works_aside(before, state, root, front, leaks, aside);
        let (r, now) = rekeyed_files(state, root, front, leaks);
        let place = list[list.len() - 1];
        assert(under(aside, place));
        assert forall|text: Seq<char>, expected: Option<u64>| worked_aside(
            before,
            (#[trigger] written(now.files, root, place, text, expected)).1,
            aside,
        ) by {
            lemma_write_aside(before, now.files, root, place, text, expected, aside);
        }
    }
}

/// The changes by which a directory is copied are planned as the making of something aside, so
/// that a copy that fails on disk is cleared away.
pub proof fn law_copies_are_planned_as_made_aside(
    files: FilesView,
    root: Seq<char>,
    source: Seq<char>,
    target: Seq<char>,
    expected: u64,
    slug: Option<Seq<char>>,
    ids: IdSource,
    leaks: Seq<Seq<Seq<char>>>,
    nonce: u128,
)
    requires
        files.nodes.dom().finite(),
        duplicated(files, root, source, target, expected, slug, ids, leaks, nonce).0 is Ok,
    ensures
        ({
            let after = duplicated(
                files,
                root,
                source,
                target,
                expected,
                slug,
                ids,
                leaks,
                nonce,
            ).1;
            let aside = temporary_place(target, "copy"@, nonce);
            let actions = after.journal.skip(files.journal.len() as int);
            &&& shape_of(actions) == (Shape::Making { aside, target })
            &&& forall|k: int|
                0 <= k < actions.len() - 1 ==> works_aside(#[trigger] actions[k], aside)
        }),
{
    let aside = temporary_place(target, "copy"@, nonce);
    lemma_temporary_not_empty(target, "copy"@, nonce);
    let copy = ActionView::CopyTree { from: source, to: aside };
    assert(files.journal.take(files.journal.len() as int) =~= files.journal);
    lemma_one_more(files, files, copy, aside);
    let copied = performed(files, seq![copy]);
    lemma_one_change(files, copy);
    lemma_copies_finite(files.nodes, files.nodes, source, aside);
    let state = Rekeying { files: copied, source: ids, requests: 0 };
    let file = entry_path(aside, COLLECTION_FILE@);
    assert(file.take(aside.len() as int + 1) =~= aside + seq!['/']);
    assert forall|text: Seq<char>, check: Option<u64>| ({
        let after = (#[trigger] written(copied, root, file, text, check)).1;
        worked_aside(files, after, aside) && worked_aside(copied, after, aside)
            && after.nodes.dom().finite()
    }) by {
        assert(copied.journal.take(copied.journal.len() as int) =~= copied.journal);
        lemma_write_aside(files, copied, root, file, text, check, aside);
        lemma_write_aside(copied, copied, root, file, text, check, aside);
        lemma_written_finite(copied, root, file, text, check);
    }
    let (r, first) = rekeyed_collection(state, root, aside, slug);
    assert(copied.journal.take(copied.journal.len() as int) =~= copied.journal);
    let order = tree_order(first.files.nodes, aside);
    let list = tree_files(first.files.nodes, root, order)->Ok_0;
    lemma_tree_files_below(first.files.nodes, root, order);
    lemma_tree_order_is_there(first.files.nodes, aside);
    assert forall|i: int| 0 <= i < list.len() implies under(aside, #[trigger] list[i]) by {
        assert(order.contains(list[i]));
        let j = choose|j: int| 0 <= j < order.len() && order[j] == list[i];
        assert(below(first.files.nodes, aside).contains(order[j]));
    }
    lemma_rekeying_works_aside(files, first, root, list, leaks, aside);
    lemma_rekeying_works_aside(copied, first, root, list, leaks, aside);
    let done = rekeyed_files(first, root, list, leaks).1.files;
    let last = moving(aside, target);
    lemma_one_more(files, done, last, aside);
    let after = performed(done, seq![last]);
    let actions = after.journal.skip(files.journal.len() as int);
    assert(done.journal[files.journal.len() as int] == copy) by {
        assert(done.journal.take(copied.journal.len() as int)[files.journal.len() as int]
            == copied.journal[files.journal.len() as int]);
    }
    assert(actions[0] == copy);
    assert(actions.last() == last);
    assert(actions.len() >= 2);
    assert forall|k: int| 0 <= k < actions.len() - 1 implies works_aside(
        #[trigger] actions[k],
        aside,
    ) by {
        assert(actions[k] == done.journal[files.journal.len() + k]);
    }
}

pub proof fn lemma_apart_at(a: Seq<char>, b: Seq<char>, i: int)
    requires
        0 <= i < a.len(),
        i < b.len(),
        a[i] != b[i],
    ensures
        apart(a, b),
{
    if under(a, b) {
        let front = a + seq!['/'];
        assert(a != b);
        assert(b.take(front.len() as int)[i] == front[i]);
    }
    if under(b, a) {
        let front = b + seq!['/'];
        assert(a != b);
        assert(a.take(front.len() as int)[i] == front[i]);
    }
}

/// An environment that is deleted can be kept aside, with its local values, so long as nothing
/// stands where they go.
pub proof fn law_deleted_environments_can_be_kept_aside(
    nodes: Nodes,
    id: Seq<char>,
    with_override: bool,
    nonce: u128,
)
    requires
        rooted(nodes),
        !nodes.dom().contains(trash_place(id, nonce)),
    ensures
        can_be_kept_aside(nodes, environment_removal(id, with_override, nonce)),
{
    let trash = trash_place(id, nonce);
    let environment = environment_place(id);
    let local = override_place(id);
    let kept = entry_path(trash, "environment.toml"@);
    let local_kept = entry_path(trash, "local.toml"@);
    reveal_strlit("environments");
    reveal_strlit(".apex/environments");
    reveal_strlit(".apex/trash/environments");
    reveal_strlit("environment.toml");
    reveal_strlit("local.toml");
    law_nothing_lies_below_what_is_not_there(nodes, trash);
    assert(environment[0] == 'e');
    assert(trash[0] == '.');
    lemma_apart_at(environment, trash, 0);
    assert(local[6] == 'e');
    assert(trash[6] == 't');
    lemma_apart_at(local, trash, 6);
    lemma_apart_at(environment, local, 0);
    assert(kept.take(trash.len() as int + 1) =~= trash + seq!['/']);
    assert(local_kept.take(trash.len() as int + 1) =~= trash + seq!['/']);
    assert(kept[trash.len() as int + 1] == 'e');
    assert(local_kept[trash.len() as int + 1] == 'l');
    lemma_apart_at(kept, local_kept, trash.len() as int + 1);
}

} // verus!
