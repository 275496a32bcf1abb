//! Work on a disk where any step may fail: what is done next, and what is put back.
//!
//! [`DiskWork`] holds a plan and how far it has come. The caller performs the step that
//! [`DiskWork::step`] names and hands back what came of it to [`DiskWork::advance`].
use crate::error::{WorkspaceError, WorkspaceErrorView};
use crate::files::{ActionView, FileAction};
use crate::message::{concat3, concat4, concat5};
use vstd::prelude::*;

verus! {

/// One step on disk.
#[derive(Clone, Debug, PartialEq, Eq)]
pub enum DiskStep {
    /// The files are changed.
    Change(FileAction),
    /// What was changed in a directory is made to last.
    Settle(String),
}

/// One step on disk, by its contents.
#[verifier::ext_equal]
pub enum StepView {
    Change(ActionView),
    Settle(Seq<char>),
}

impl View for DiskStep {
    type V = StepView;

    open spec fn view(&self) -> StepView {
        match self {
            DiskStep::Change(action) => StepView::Change(action@),
            DiskStep::Settle(path) => StepView::Settle(path@),
        }
    }
}

/// The contents of a list of steps.
pub open spec fn step_views(list: Seq<DiskStep>) -> Seq<StepView> {
    list.map_values(|s: DiskStep| s@)
}

/// Why a step failed: in words, and in detail.
#[derive(Clone, Debug, PartialEq, Eq)]
pub struct StepError {
    pub message: String,
    pub details: String,
}

/// Why a step failed, by its contents.
#[verifier::ext_equal]
pub struct StepErrorView {
    pub message: Seq<char>,
    pub details: Seq<char>,
}

impl View for StepError {
    type V = StepErrorView;

    open spec fn view(&self) -> StepErrorView {
        StepErrorView { message: self.message@, details: self.details@ }
    }
}

/// What a failure that could not be put back is reported as.
#[derive(Clone, Copy, Debug, PartialEq, Eq, Structural)]
pub enum Trouble {
    /// A directory was not deleted.
    DirectoryDeletion,
    /// The local values of an environment were not deleted.
    FileDeletion,
    /// The local values of an environment were not moved aside with it.
    LocalValues,
    /// The deletion of an environment was not made to last.
    Durability,
}

/// What is done where a step fails.
#[derive(Clone, Debug, PartialEq, Eq)]
pub enum OnFailure {
    /// The moves put things back, and what follows them clears up, whatever comes of it.
    Restore { moves: Vec<DiskStep>, after: Vec<DiskStep>, trouble: Trouble },
    /// The work is done all the same, and what stands at a path is left for later.
    Leave(String),
}

/// What is done where a step fails, by its contents.
#[verifier::ext_equal]
pub enum FailureView {
    Restore { moves: Seq<StepView>, after: Seq<StepView>, trouble: Trouble },
    Leave(Seq<char>),
}

impl View for OnFailure {
    type V = FailureView;

    open spec fn view(&self) -> FailureView {
        match self {
            OnFailure::Restore { moves, after, trouble } => FailureView::Restore {
                moves: step_views(moves@),
                after: step_views(after@),
                trouble: *trouble,
            },
            OnFailure::Leave(path) => FailureView::Leave(path@),
        }
    }
}

/// A step, with what is done where it fails.
#[derive(Clone, Debug, PartialEq, Eq)]
pub struct PlannedStep {
    pub step: DiskStep,
    pub on_failure: OnFailure,
}

/// A step with what is done where it fails, by its contents.
#[verifier::ext_equal]
pub struct PlannedView {
    pub step: StepView,
    pub on_failure: FailureView,
}

impl View for PlannedStep {
    type V = PlannedView;

    open spec fn view(&self) -> PlannedView {
        PlannedView { step: self.step@, on_failure: self.on_failure@ }
    }
}

/// The contents of a plan.
pub open spec fn plan_view(plan: Seq<PlannedStep>) -> Seq<PlannedView> {
    plan.map_values(|p: PlannedStep| p@)
}

/// The contents of an error that may be there.
pub open spec fn trouble_view(error: Option<StepError>) -> Option<StepErrorView> {
    match error {
        Some(e) => Some(e@),
        None => None,
    }
}

/// The contents of a list of errors that may be there.
pub open spec fn trouble_views(list: Seq<Option<StepError>>) -> Seq<Option<StepErrorView>> {
    list.map_values(|e: Option<StepError>| trouble_view(e))
}

/// How far work has come.
#[derive(Debug, PartialEq, Eq)]
pub enum Stage {
    /// A step of the plan is next.
    Doing(usize),
    /// A step of the plan failed, and what it calls for is done; `done` is what came of that
    /// so far.
    Undoing { failed: usize, error: StepError, done: Vec<Option<StepError>> },
    /// Nothing is left to do. What could not be removed may be left behind.
    Finished(Result<Option<String>, WorkspaceError>),
}

/// How far work has come, by its contents.
#[verifier::ext_equal]
pub enum StageView {
    Doing(int),
    Undoing { failed: int, error: StepErrorView, done: Seq<Option<StepErrorView>> },
    Finished(Result<Option<Seq<char>>, WorkspaceErrorView>),
}

/// The contents of what work came to.
pub open spec fn result_view(r: Result<Option<String>, WorkspaceError>) -> Result<
    Option<Seq<char>>,
    WorkspaceErrorView,
> {
    match r {
        Ok(Some(path)) => Ok(Some(path@)),
        Ok(None) => Ok(None),
        Err(e) => Err(e@),
    }
}

impl View for Stage {
    type V = StageView;

    open spec fn view(&self) -> StageView {
        match self {
            Stage::Doing(k) => StageView::Doing(*k as int),
            Stage::Undoing { failed, error, done } => StageView::Undoing {
                failed: *failed as int,
                error: error@,
                done: trouble_views(done@),
            },
            Stage::Finished(r) => StageView::Finished(result_view(*r)),
        }
    }
}

/// A plan, and how far it has come. `aside` is where to look for what was moved aside.
#[derive(Debug, PartialEq, Eq)]
pub struct DiskWork {
    pub plan: Vec<PlannedStep>,
    pub aside: String,
    pub stage: Stage,
}

/// Work by its contents.
#[verifier::ext_equal]
pub struct WorkView {
    pub plan: Seq<PlannedView>,
    pub aside: Seq<char>,
    pub stage: StageView,
}

impl View for DiskWork {
    type V = WorkView;

    open spec fn view(&self) -> WorkView {
        WorkView { plan: plan_view(self.plan@), aside: self.aside@, stage: self.stage@ }
    }
}

/// What is done where a step fails, in turn.
pub open spec fn undo_steps(f: FailureView) -> Seq<StepView> {
    match f {
        FailureView::Restore { moves, after, .. } => moves + after,
        FailureView::Leave(_) => seq![],
    }
}

/// Whether work has come to a stage that it can come to.
pub open spec fn sound(w: WorkView) -> bool {
    match w.stage {
        StageView::Doing(k) => 0 <= k < w.plan.len(),
        StageView::Undoing { failed, done, .. } => 0 <= failed < w.plan.len()
            && w.plan[failed].on_failure is Restore && done.len() < undo_steps(
            w.plan[failed].on_failure,
        ).len(),
        StageView::Finished(_) => true,
    }
}

/// The work on a plan of which nothing was done.
pub open spec fn work_begun(plan: Seq<PlannedView>, aside: Seq<char>) -> WorkView {
    WorkView {
        plan,
        aside,
        stage: if plan.len() == 0 {
            StageView::Finished(Ok(None))
        } else {
            StageView::Doing(0)
        },
    }
}

/// The step that is to be done next.
pub open spec fn next_step(w: WorkView) -> Option<StepView> {
    match w.stage {
        StageView::Doing(k) => Some(w.plan[k].step),
        StageView::Undoing { failed, done, .. } => Some(
            undo_steps(w.plan[failed].on_failure)[done.len() as int],
        ),
        StageView::Finished(_) => None,
    }
}

/// How the result of a move is written.
pub open spec fn result_text(r: Option<StepErrorView>) -> Seq<char> {
    match r {
        None => "Ok(())"@,
        Some(e) => "Err("@ + e.details + ")"@,
    }
}

/// What is said of a failure that could not be put back; `results` is what came of the moves.
pub open spec fn trouble_text(
    trouble: Trouble,
    aside: Seq<char>,
    error: StepErrorView,
    results: Seq<Option<StepErrorView>>,
) -> Seq<char> {
    let reason = match results.last() {
        Some(e) => e.message,
        None => seq![],
    };
    match trouble {
        Trouble::DirectoryDeletion => "deletion failed ("@ + error.message
            + ") and rollback failed ("@ + (reason + "); recover "@ + aside),
        Trouble::FileDeletion => "environment deletion failed ("@ + error.message
            + ") and rollback failed ("@ + (reason + "); recover "@ + aside),
        Trouble::LocalValues => "local override deletion failed ("@ + error.message
            + ") and environment rollback failed ("@ + (reason + "); recover "@ + aside),
        Trouble::Durability => "environment deletion durability failed (workspace I/O failed: "@
            + error.message + "); rollback results: local="@ + ((if results.len() > 1 {
            result_text(results[0])
        } else {
            "Ok(())"@
        }) + ", environment="@ + result_text(results.last()) + "; recover "@ + aside),
    }
}

/// Whether every move succeeded.
pub open spec fn all_moved(results: Seq<Option<StepErrorView>>) -> bool {
    forall|k: int| 0 <= k < results.len() ==> (#[trigger] results[k]) is None
}

/// The error of work of which a step failed, once all that it calls for was done.
pub open spec fn failure_error(
    aside: Seq<char>,
    moves: Seq<StepView>,
    trouble: Trouble,
    error: StepErrorView,
    done: Seq<Option<StepErrorView>>,
) -> WorkspaceErrorView {
    let results = done.take(moves.len() as int);
    if all_moved(results) {
        WorkspaceErrorView::Io(error.message)
    } else {
        WorkspaceErrorView::InvalidFormat(trouble_text(trouble, aside, error, results))
    }
}

/// The stage of work of which a step failed, once some of what it calls for was done.
pub open spec fn undoing(
    plan: Seq<PlannedView>,
    aside: Seq<char>,
    failed: int,
    error: StepErrorView,
    done: Seq<Option<StepErrorView>>,
) -> StageView {
    match plan[failed].on_failure {
        FailureView::Leave(path) => StageView::Finished(Ok(Some(path))),
        FailureView::Restore { moves, after, trouble } => if done.len() < moves.len()
            + after.len() {
            StageView::Undoing { failed, error, done }
        } else {
            StageView::Finished(Err(failure_error(aside, moves, trouble, error, done)))
        },
    }
}

/// What an event says of a step: nothing where it succeeded.
pub open spec fn event_view(event: Result<(), StepError>) -> Option<StepErrorView> {
    match event {
        Ok(_) => None,
        Err(e) => Some(e@),
    }
}

/// The work once the step that was next was tried.
pub open spec fn advanced(w: WorkView, event: Option<StepErrorView>) -> WorkView {
    WorkView {
        stage: match w.stage {
            StageView::Doing(k) => match event {
                None => if k + 1 < w.plan.len() {
                    StageView::Doing(k + 1)
                } else {
                    StageView::Finished(Ok(None))
                },
                Some(e) => undoing(w.plan, w.aside, k, e, seq![]),
            },
            StageView::Undoing { failed, error, done } => undoing(
                w.plan,
                w.aside,
                failed,
                error,
                done.push(event),
            ),
            StageView::Finished(r) => StageView::Finished(r),
        },
        ..w
    }
}

fn written_result(r: &Option<StepError>) -> (t: String)
    ensures
        t@ == result_text(trouble_view(*r)),
{
    match r {
        None => "Ok(())".to_owned(),
        Some(e) => concat3("Err(", e.details.as_str(), ")"),
    }
}

fn describe_trouble(
    trouble: Trouble,
    aside: &str,
    error: &StepError,
    done: &Vec<Option<StepError>>,
    moves: usize,
) -> (r: String)
    requires
        0 < moves <= done@.len(),
    ensures
        r@ == trouble_text(trouble, aside@, error@, trouble_views(done@).take(moves as int)),
{
    let ghost results = trouble_views(done@).take(moves as int);
    assert(results.last() == trouble_view(done@[moves - 1]));
    assert(results[0] == trouble_view(done@[0]));
    let reason: String = match &done[moves - 1] {
        Some(e) => e.message.clone(),
        None => {
            let none = String::new();
            assert(none@ =~= seq![]);
            none
        },
    };
    match trouble {
        Trouble::DirectoryDeletion => concat4(
            "deletion failed (",
            error.message.as_str(),
            ") and rollback failed (",
            concat3(reason.as_str(), "); recover ", aside).as_str(),
        ),
        Trouble::FileDeletion => concat4(
            "environment deletion failed (",
            error.message.as_str(),
            ") and rollback failed (",
            concat3(reason.as_str(), "); recover ", aside).as_str(),
        ),
        Trouble::LocalValues => concat4(
            "local override deletion failed (",
            error.message.as_str(),
            ") and environment rollback failed (",
            concat3(reason.as_str(), "); recover ", aside).as_str(),
        ),
        Trouble::Durability => {
            let local = if moves > 1 {
                written_result(&done[0])
            } else {
                "Ok(())".to_owned()
            };
            let last = written_result(&done[moves - 1]);
            concat4(
                "environment deletion durability failed (workspace I/O failed: ",
                error.message.as_str(),
                "); rollback results: local=",
                concat5(
                    local.as_str(),
                    ", environment=",
                    last.as_str(),
                    "; recover ",
                    aside,
                ).as_str(),
            )
        },
    }
}

fn settle(
    plan: &Vec<PlannedStep>,
    aside: &str,
    failed: usize,
    error: StepError,
    done: Vec<Option<StepError>>,
) -> (r: Stage)
    requires
        failed < plan@.len(),
    ensures
        r@ == undoing(
            plan_view(plan@),
            aside@,
            failed as int,
            error@,
            trouble_views(done@),
        ),
{
    assert(plan_view(plan@)[failed as int] == plan@[failed as int]@);
    match &plan[failed].on_failure {
        OnFailure::Leave(path) => Stage::Finished(Ok(Some(path.clone()))),
        OnFailure::Restore { moves, after, trouble } => {
            if done.len() < moves.len() || done.len() - moves.len() < after.len() {
                return Stage::Undoing { failed, error, done };
            }
            let ghost results = trouble_views(done@).take(moves@.len() as int);
            for k in 0..moves.len()
                invariant
                    moves@.len() <= done@.len(),
                    results == trouble_views(done@).take(moves@.len() as int),
                    forall|j: int| 0 <= j < k ==> (#[trigger] results[j]) is None,
                    failed < plan@.len(),
                    plan_view(plan@)[failed as int] == plan@[failed as int]@,
                    plan@[failed as int].on_failure == (OnFailure::Restore {
                        moves: *moves,
                        after: *after,
                        trouble: *trouble,
                    }),
                    done@.len() >= moves@.len() + after@.len(),
            {
                assert(results[k as int] == trouble_view(done@[k as int]));
                if done[k].is_some() {
                    assert(!all_moved(results));
                    return Stage::Finished(
                        Err(
                            WorkspaceError::InvalidFormat(
                                describe_trouble(*trouble, aside, &error, &done, moves.len()),
                            ),
                        ),
                    );
                }
            }
            Stage::Finished(Err(WorkspaceError::Io(error.message)))
        },
    }
}

impl DiskWork {
    pub open spec fn wf(&self) -> bool {
        sound(self@)
    }

    /// Begins the work on a plan.
    pub fn new(plan: Vec<PlannedStep>, aside: String) -> (r: Self)
        ensures
            r.wf(),
            r@ == work_begun(plan_view(plan@), aside@),
    {
        let stage = if plan.is_empty() {
            Stage::Finished(Ok(None))
        } else {
            Stage::Doing(0)
        };
        DiskWork { plan, aside, stage }
    }

    /// The step that is to be done next; none once the work is finished.
    pub fn step(&self) -> (r: Option<&DiskStep>)
        requires
            self.wf(),
        ensures
            match r {
                Some(s) => next_step(self@) == Some(s@),
                None => next_step(self@) is None,
            },
    {
        match &self.stage {
            Stage::Doing(k) => {
                assert(plan_view(self.plan@)[*k as int] == self.plan@[*k as int]@);
                Some(&self.plan[*k].step)
            },
            Stage::Undoing { failed, done, .. } => {
                assert(plan_view(self.plan@)[*failed as int] == self.plan@[*failed as int]@);
                match &self.plan[*failed].on_failure {
                    OnFailure::Restore { moves, after, .. } => {
                        let n: usize = done.len();
                        if n < moves.len() {
                            Some(&moves[n])
                        } else {
                            Some(&after[n - moves.len()])
                        }
                    },
                    OnFailure::Leave(_) => None,
                }
            },
            Stage::Finished(_) => None,
        }
    }

    /// Takes in what came of the step that was next.
    pub fn advance(self, event: Result<(), StepError>) -> (r: Self)
        requires
            self.wf(),
        ensures
            r.wf(),
            r@ == advanced(self@, event_view(event)),
    {
        let DiskWork { plan, aside, stage } = self;
        let stage = match stage {
            Stage::Doing(k) => match event {
                Ok(_) => if k < plan.len() - 1 {
                    Stage::Doing(k + 1)
                } else {
                    Stage::Finished(Ok(None))
                },
                Err(error) => {
                    let none: Vec<Option<StepError>> = Vec::new();
                    assert(trouble_views(none@) =~= seq![]);
                    settle(&plan, aside.as_str(), k, error, none)
                },
            },
            Stage::Undoing { failed, error, done } => {
                let mut done = done;
                let ghost before = done@;
                done.push(
                    match event {
                        Ok(_) => None,
                        Err(e) => Some(e),
                    },
                );
                assert(trouble_views(done@) =~= trouble_views(before).push(event_view(event)));
                settle(&plan, aside.as_str(), failed, error, done)
            },
            Stage::Finished(r) => Stage::Finished(r),
        };
        DiskWork { plan, aside, stage }
    }

    /// What the work came to, once it is finished.
    pub fn outcome(&self) -> (r: Option<&Result<Option<String>, WorkspaceError>>)
        ensures
            match r {
                Some(result) => self@.stage == StageView::Finished(result_view(*result)),
                None => !(self@.stage is Finished),
            },
    {
        match &self.stage {
            Stage::Finished(result) => Some(result),
            _ => None,
        }
    }
}

} // verus!
