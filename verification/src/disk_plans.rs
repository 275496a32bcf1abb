//! Plans for changes of the files on disk: which steps they take, and what puts them back.
use crate::disk_work::{
    plan_view, step_views, DiskStep, DiskWork, FailureView, OnFailure, PlannedStep,
    PlannedView, StepView, Trouble,
};
use crate::files::{
    action_views, copy_bytes, lies_under, parent_of, parent_place, under, ActionView, FileAction,
};
use crate::lines::{has_prefix, starts_with};
use crate::paths::joined;
use crate::repository::WorkspaceRepository;
use crate::text::{chars_of, same_text};
use vstd::prelude::*;

verus! {

/// Nothing is put back.
pub open spec fn stop() -> FailureView {
    FailureView::Restore { moves: seq![], after: seq![], trouble: Trouble::DirectoryDeletion }
}

/// What was made aside is removed.
pub open spec fn clear(aside: Seq<char>) -> FailureView {
    FailureView::Restore {
        moves: seq![],
        after: seq![StepView::Change(ActionView::RemoveTree(aside))],
        trouble: Trouble::DirectoryDeletion,
    }
}

/// A planned change.
pub open spec fn changing(action: ActionView, on_failure: FailureView) -> PlannedView {
    PlannedView { step: StepView::Change(action), on_failure }
}

/// A planned settling.
pub open spec fn settling(path: Seq<char>, on_failure: FailureView) -> PlannedView {
    PlannedView { step: StepView::Settle(path), on_failure }
}

/// The move of something from one path to another.
pub open spec fn moving(from: Seq<char>, to: Seq<char>) -> ActionView {
    ActionView::Rename { from, to }
}

/// The plan of a move: both directories settle.
pub open spec fn move_plan(from: Seq<char>, to: Seq<char>) -> Seq<PlannedView> {
    let first = seq![changing(moving(from, to), stop()), settling(parent_place(to), stop())];
    if parent_place(from) == parent_place(to) {
        first
    } else {
        first.push(settling(parent_place(from), stop()))
    }
}

/// The plan of a deletion: what is deleted is moved aside and removed there. Where it cannot be
/// removed, it is moved back.
pub open spec fn deletion_plan(place: Seq<char>, tombstone: Seq<char>, trouble: Trouble) -> Seq<
    PlannedView,
> {
    let parent = parent_place(place);
    seq![
        changing(moving(place, tombstone), stop()),
        settling(parent, stop()),
        changing(
            ActionView::RemoveTree(tombstone),
            FailureView::Restore {
                moves: seq![StepView::Change(moving(tombstone, place))],
                after: seq![StepView::Settle(parent)],
                trouble,
            },
        ),
        settling(parent, stop()),
    ]
}

/// Where a deleted environment goes.
#[verifier::ext_equal]
pub struct Removal {
    /// Where the environment stands, and where it is kept aside.
    pub environment: (Seq<char>, Seq<char>),
    /// The same of its local values, where there are any.
    pub local: Option<(Seq<char>, Seq<char>)>,
    /// The directory that keeps both aside.
    pub trash: Seq<char>,
}

/// What puts an environment back whose local values could not be moved aside.
pub open spec fn environment_restored(r: Removal) -> FailureView {
    FailureView::Restore {
        moves: seq![StepView::Change(moving(r.environment.1, r.environment.0))],
        after: seq![
            StepView::Change(ActionView::RemoveTree(r.trash)),
            StepView::Settle(parent_place(r.environment.0)),
        ],
        trouble: Trouble::LocalValues,
    }
}

/// What puts an environment back, with its local values, once both were moved aside.
pub open spec fn removal_restored(r: Removal) -> FailureView {
    let environment = seq![StepView::Change(moving(r.environment.1, r.environment.0))];
    let after = seq![
        StepView::Change(ActionView::RemoveTree(r.trash)),
        StepView::Settle(parent_place(r.environment.0)),
    ];
    match r.local {
        Some(local) => FailureView::Restore {
            moves: seq![StepView::Change(moving(local.1, local.0))] + environment,
            after: after.push(StepView::Settle(parent_place(local.0))),
            trouble: Trouble::Durability,
        },
        None => FailureView::Restore { moves: environment, after, trouble: Trouble::Durability },
    }
}

/// The plan of the deletion of an environment: it is moved aside with its local values, and
/// that is made to last. From there on it is deleted, though what was moved aside may be left.
pub open spec fn removal_plan(r: Removal, aside: Seq<char>) -> Seq<PlannedView> {
    let first = seq![
        changing(ActionView::MakeDirectories(r.trash), stop()),
        changing(moving(r.environment.0, r.environment.1), stop()),
    ];
    let settled = settling(parent_place(r.environment.0), removal_restored(r));
    let last = seq![
        settling(r.trash, removal_restored(r)),
        changing(ActionView::RemoveTree(r.trash), FailureView::Leave(aside)),
    ];
    match r.local {
        Some(local) => first + seq![
            changing(moving(local.0, local.1), environment_restored(r)),
            settled,
            settling(parent_place(local.0), removal_restored(r)),
        ] + last,
        None => first + seq![settled] + last,
    }
}

/// What is done where a change fails that makes something aside.
pub open spec fn making_failure(action: ActionView, aside: Seq<char>) -> FailureView {
    match action {
        ActionView::MakeDirectories(path) => if under(aside, path) {
            clear(aside)
        } else {
            stop()
        },
        _ => clear(aside),
    }
}

/// The plan of changes that make something aside which then takes its place: where one fails,
/// what was made is removed.
pub open spec fn making_plan(
    actions: Seq<ActionView>,
    aside: Seq<char>,
    target: Seq<char>,
) -> Seq<PlannedView> {
    actions.map_values(|a: ActionView| changing(a, making_failure(a, aside))).push(
        settling(parent_place(target), clear(aside)),
    )
}

/// The plan of changes that nothing puts back.
pub open spec fn plain_plan(actions: Seq<ActionView>) -> Seq<PlannedView> {
    actions.map_values(|a: ActionView| changing(a, stop()))
}

/// What changes of the files do together.
#[verifier::ext_equal]
pub enum Shape {
    Move { from: Seq<char>, to: Seq<char> },
    Deletion { place: Seq<char>, tombstone: Seq<char> },
    Removal(Removal),
    Making { aside: Seq<char>, target: Seq<char> },
    Plain,
}

/// The environment that changes delete.
pub open spec fn removal_of(actions: Seq<ActionView>) -> Option<Removal> {
    let n = actions.len();
    if n < 3 || n > 4 {
        None
    } else {
        match (actions[0], actions[1], actions[n - 1]) {
            (
                ActionView::MakeDirectories(trash),
                ActionView::Rename { from, to },
                ActionView::RemoveTree(removed),
            ) => if removed != trash {
                None
            } else if n == 3 {
                Some(Removal { environment: (from, to), local: None, trash })
            } else {
                match actions[2] {
                    ActionView::Rename { from: local, to: kept } => Some(
                        Removal { environment: (from, to), local: Some((local, kept)), trash },
                    ),
                    _ => None,
                }
            },
            _ => None,
        }
    }
}

/// What changes of the files do together, told by their shape.
pub open spec fn shape_of(actions: Seq<ActionView>) -> Shape {
    let n = actions.len();
    if n == 0 {
        Shape::Plain
    } else {
        match removal_of(actions) {
            Some(r) => Shape::Removal(r),
            None => match (actions[0], actions[n - 1]) {
                (
                    ActionView::Rename { from, to },
                    ActionView::RemoveTree(removed),
                ) => if n == 2 && removed == to {
                    Shape::Deletion { place: from, tombstone: to }
                } else {
                    Shape::Plain
                },
                (_, ActionView::Rename { from, to }) => if n == 1 {
                    Shape::Move { from, to }
                } else {
                    Shape::Making { aside: from, target: to }
                },
                _ => Shape::Plain,
            },
        }
    }
}

/// How a deletion that fails is reported.
pub open spec fn deletion_trouble(place: Seq<char>) -> Trouble {
    if starts_with(place, "collections/"@) {
        Trouble::DirectoryDeletion
    } else {
        Trouble::FileDeletion
    }
}

/// The plan of changes of the files below a directory, and where to look for what they move
/// aside.
pub open spec fn plan_of(root: Seq<char>, actions: Seq<ActionView>) -> (
    Seq<PlannedView>,
    Seq<char>,
) {
    match shape_of(actions) {
        Shape::Move { from, to } => (move_plan(from, to), seq![]),
        Shape::Deletion { place, tombstone } => (
            deletion_plan(place, tombstone, deletion_trouble(place)),
            joined(root, tombstone),
        ),
        Shape::Removal(r) => (removal_plan(r, joined(root, r.trash)), joined(root, r.trash)),
        Shape::Making { aside, target } => (making_plan(actions, aside, target), seq![]),
        Shape::Plain => (plain_plan(actions), seq![]),
    }
}

fn copy_action(action: &FileAction) -> (r: FileAction)
    ensures
        r@ == action@,
{
    match action {
        FileAction::MakeDirectories(path) => FileAction::MakeDirectories(path.clone()),
        FileAction::Write { path, bytes } => FileAction::Write {
            path: path.clone(),
            bytes: copy_bytes(bytes.as_slice()),
        },
        FileAction::Rename { from, to } => FileAction::Rename {
            from: from.clone(),
            to: to.clone(),
        },
        FileAction::CopyTree { from, to } => FileAction::CopyTree {
            from: from.clone(),
            to: to.clone(),
        },
        FileAction::RemoveTree(path) => FileAction::RemoveTree(path.clone()),
    }
}

fn move_step(from: &str, to: &str) -> (r: DiskStep)
    ensures
        r@ == StepView::Change(moving(from@, to@)),
{
    DiskStep::Change(FileAction::Rename { from: from.to_owned(), to: to.to_owned() })
}

fn remove_step(path: &str) -> (r: DiskStep)
    ensures
        r@ == StepView::Change(ActionView::RemoveTree(path@)),
{
    DiskStep::Change(FileAction::RemoveTree(path.to_owned()))
}

fn settle_step(path: &str) -> (r: DiskStep)
    ensures
        r@ == StepView::Settle(parent_place(path@)),
{
    DiskStep::Settle(parent_of(path))
}

fn stopping() -> (r: OnFailure)
    ensures
        r@ == stop(),
{
    let r = OnFailure::Restore {
        moves: Vec::new(),
        after: Vec::new(),
        trouble: Trouble::DirectoryDeletion,
    };
    assert(r@ =~~= stop());
    r
}

fn clearing(aside: &str) -> (r: OnFailure)
    ensures
        r@ == clear(aside@),
{
    let r = OnFailure::Restore {
        moves: Vec::new(),
        after: vec![remove_step(aside)],
        trouble: Trouble::DirectoryDeletion,
    };
    assert(r@ =~~= clear(aside@));
    r
}

fn plan_move(from: &str, to: &str) -> (r: Vec<PlannedStep>)
    ensures
        plan_view(r@) == move_plan(from@, to@),
{
    let mut r = vec![
        PlannedStep { step: move_step(from, to), on_failure: stopping() },
        PlannedStep { step: settle_step(to), on_failure: stopping() },
    ];
    if !same_text(parent_of(from).as_str(), parent_of(to).as_str()) {
        r.push(PlannedStep { step: settle_step(from), on_failure: stopping() });
    }
    assert(plan_view(r@) =~= move_plan(from@, to@));
    r
}

fn plan_deletion(place: &str, tombstone: &str, trouble: Trouble) -> (r: Vec<PlannedStep>)
    ensures
        plan_view(r@) == deletion_plan(place@, tombstone@, trouble),
{
    let restore = OnFailure::Restore {
        moves: vec![move_step(tombstone, place)],
        after: vec![settle_step(place)],
        trouble,
    };
    proof {
        let expected = deletion_plan(place@, tombstone@, trouble)[2].on_failure;
        assert(restore@ =~~= expected);
    }
    let r = vec![
        PlannedStep { step: move_step(place, tombstone), on_failure: stopping() },
        PlannedStep { step: settle_step(place), on_failure: stopping() },
        PlannedStep { step: remove_step(tombstone), on_failure: restore },
        PlannedStep { step: settle_step(place), on_failure: stopping() },
    ];
    assert(plan_view(r@) =~= deletion_plan(place@, tombstone@, trouble));
    r
}

fn restoring(
    environment: (&str, &str),
    local: Option<(&str, &str)>,
    trash: &str,
) -> (r: OnFailure)
    ensures
        r@ == removal_restored(removal(environment, local, trash)),
{
    let mut moves: Vec<DiskStep> = Vec::new();
    let mut after: Vec<DiskStep> = vec![remove_step(trash), settle_step(environment.0)];
    if let Some(l) = local {
        moves.push(move_step(l.1, l.0));
        after.push(settle_step(l.0));
    }
    moves.push(move_step(environment.1, environment.0));
    let r = OnFailure::Restore { moves, after, trouble: Trouble::Durability };
    proof {
        match removal_restored(removal(environment, local, trash)) {
            FailureView::Restore { moves: m, after: a, .. } => {
                assert(step_views(moves@) =~= m);
                assert(step_views(after@) =~= a);
            },
            _ => {},
        }
    }
    r
}

/// The contents of where a deleted environment goes.
pub open spec fn removal(
    environment: (&str, &str),
    local: Option<(&str, &str)>,
    trash: &str,
) -> Removal {
    Removal {
        environment: (environment.0@, environment.1@),
        local: match local {
            Some(l) => Some((l.0@, l.1@)),
            None => None,
        },
        trash: trash@,
    }
}

fn plan_removal(
    environment: (&str, &str),
    local: Option<(&str, &str)>,
    trash: &str,
    aside: &str,
) -> (r: Vec<PlannedStep>)
    ensures
        plan_view(r@) == removal_plan(removal(environment, local, trash), aside@),
{
    let mut r = vec![
        PlannedStep {
            step: DiskStep::Change(FileAction::MakeDirectories(trash.to_owned())),
            on_failure: stopping(),
        },
        PlannedStep {
            step: move_step(environment.0, environment.1),
            on_failure: stopping(),
        },
    ];
    if let Some(l) = local {
        let back = OnFailure::Restore {
            moves: vec![move_step(environment.1, environment.0)],
            after: vec![remove_step(trash), settle_step(environment.0)],
            trouble: Trouble::LocalValues,
        };
        assert(back@ =~~= environment_restored(removal(environment, local, trash)));
        r.push(PlannedStep { step: move_step(l.0, l.1), on_failure: back });
    }
    r.push(
        PlannedStep {
            step: settle_step(environment.0),
            on_failure: restoring(environment, local, trash),
        },
    );
    if let Some(l) = local {
        r.push(
            PlannedStep {
                step: settle_step(l.0),
                on_failure: restoring(environment, local, trash),
            },
        );
    }
    r.push(
        PlannedStep {
            step: DiskStep::Settle(trash.to_owned()),
            on_failure: restoring(environment, local, trash),
        },
    );
    r.push(
        PlannedStep {
            step: remove_step(trash),
            on_failure: OnFailure::Leave(aside.to_owned()),
        },
    );
    assert(plan_view(r@) =~= removal_plan(removal(environment, local, trash), aside@));
    r
}

fn plan_making(actions: &[FileAction], aside: &str, target: &str) -> (r: Vec<PlannedStep>)
    ensures
        plan_view(r@) == making_plan(action_views(actions@), aside@, target@),
{
    let ghost all = making_plan(action_views(actions@), aside@, target@);
    let mut r: Vec<PlannedStep> = Vec::new();
    for i in 0..actions.len()
        invariant
            all == making_plan(action_views(actions@), aside@, target@),
            plan_view(r@) =~= all.take(i as int),
    {
        let ghost before = r@;
        let stops = match &actions[i] {
            FileAction::MakeDirectories(path) => !lies_under(
                chars_of(aside).as_slice(),
                chars_of(path.as_str()).as_slice(),
            ),
            _ => false,
        };
        let on_failure = if stops {
            stopping()
        } else {
            clearing(aside)
        };
        r.push(
            PlannedStep { step: DiskStep::Change(copy_action(&actions[i])), on_failure },
        );
        assert(action_views(actions@)[i as int] == actions@[i as int]@);
        assert(plan_view(r@) =~= plan_view(before).push(r@.last()@));
        assert(all.take(i + 1) =~= all.take(i as int).push(all[i as int]));
    }
    let ghost before = r@;
    r.push(PlannedStep { step: settle_step(target), on_failure: clearing(aside) });
    assert(plan_view(r@) =~= plan_view(before).push(r@.last()@));
    assert(all =~= all.take(actions@.len() as int).push(all.last()));
    r
}

fn plan_plain(actions: &[FileAction]) -> (r: Vec<PlannedStep>)
    ensures
        plan_view(r@) == plain_plan(action_views(actions@)),
{
    let ghost all = plain_plan(action_views(actions@));
    let mut r: Vec<PlannedStep> = Vec::new();
    for i in 0..actions.len()
        invariant
            all == plain_plan(action_views(actions@)),
            plan_view(r@) =~= all.take(i as int),
    {
        let ghost before = r@;
        r.push(
            PlannedStep {
                step: DiskStep::Change(copy_action(&actions[i])),
                on_failure: stopping(),
            },
        );
        assert(action_views(actions@)[i as int] == actions@[i as int]@);
        assert(plan_view(r@) =~= plan_view(before).push(r@.last()@));
        assert(all.take(i + 1) =~= all.take(i as int).push(all[i as int]));
    }
    assert(all.take(actions@.len() as int) =~= all);
    r
}

fn removal_in(actions: &[FileAction]) -> (r: Option<((&str, &str), Option<(&str, &str)>, &str)>)
    ensures
        match r {
            Some((environment, local, trash)) => removal_of(action_views(actions@)) == Some(
                removal(environment, local, trash),
            ),
            None => removal_of(action_views(actions@)) is None,
        },
{
    let n: usize = actions.len();
    if n < 3 || n > 4 {
        return None;
    }
    proof {
        let views = action_views(actions@);
        assert(views[0] == actions@[0]@);
        assert(views[1] == actions@[1]@);
        assert(views[2] == actions@[2]@);
        assert(views[n - 1] == actions@[n - 1]@);
    }
    match (&actions[0], &actions[1], &actions[n - 1]) {
        (
            FileAction::MakeDirectories(trash),
            FileAction::Rename { from, to },
            FileAction::RemoveTree(removed),
        ) => {
            if !same_text(removed.as_str(), trash.as_str()) {
                None
            } else if n == 3 {
                Some(((from.as_str(), to.as_str()), None, trash.as_str()))
            } else {
                match &actions[2] {
                    FileAction::Rename { from: local, to: kept } => Some(
                        (
                            (from.as_str(), to.as_str()),
                            Some((local.as_str(), kept.as_str())),
                            trash.as_str(),
                        ),
                    ),
                    _ => None,
                }
            }
        },
        _ => None,
    }
}

impl WorkspaceRepository {
    /// Plans how changes of the files, as a journal holds them, are made on disk.
    pub fn plan_changes(&self, actions: &[FileAction]) -> (r: DiskWork)
        ensures
            r.wf(),
            ({
                let (plan, aside) = plan_of(self@, action_views(actions@));
                r@ == crate::disk_work::work_begun(plan, aside)
            }),
    {
        let n: usize = actions.len();
        let none = String::new();
        assert(none@ =~= seq![]);
        if n == 0 {
            return DiskWork::new(plan_plain(actions), none);
        }
        proof {
            let views = action_views(actions@);
            assert(views[0] == actions@[0]@);
            assert(views[n - 1] == actions@[n - 1]@);
        }
        if let Some((environment, local, trash)) = removal_in(actions) {
            let aside = self.path_of(trash).as_text().to_owned();
            return DiskWork::new(
                plan_removal(environment, local, trash, aside.as_str()),
                aside,
            );
        }
        match (&actions[0], &actions[n - 1]) {
            (FileAction::Rename { from, to }, FileAction::RemoveTree(removed)) => {
                if n == 2 && same_text(removed.as_str(), to.as_str()) {
                    let trouble = if has_prefix(
                        chars_of(from.as_str()).as_slice(),
                        chars_of("collections/").as_slice(),
                    ) {
                        Trouble::DirectoryDeletion
                    } else {
                        Trouble::FileDeletion
                    };
                    let aside = self.path_of(to.as_str()).as_text().to_owned();
                    DiskWork::new(plan_deletion(from.as_str(), to.as_str(), trouble), aside)
                } else {
                    DiskWork::new(plan_plain(actions), none)
                }
            },
            (_, FileAction::Rename { from, to }) => {
                if n == 1 {
                    DiskWork::new(plan_move(from.as_str(), to.as_str()), none)
                } else {
                    DiskWork::new(plan_making(actions, from.as_str(), to.as_str()), none)
                }
            },
            _ => DiskWork::new(plan_plain(actions), none),
        }
    }
}

} // verus!
