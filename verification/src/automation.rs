//! Running all requests of a workspace: how it is asked for, and what is run.
use crate::domain::{HttpRequest, RequestView};
use crate::editor_fields::said;
use crate::editor_settings::{demand, demand_number, demanded, demanded_number, keyed, read_keyed};
use crate::error::{error_message, WorkspaceErrorView};
use crate::files::{FileTree, Nodes};
use crate::lines::{lines, split_lines};
use crate::message::{concat2, concat3};
use crate::number::{decimal, decimal_text};
use crate::repository::WorkspaceRepository;
use crate::repository_documents::request_loaded;
use crate::repository_listing::{all_entries, entry_views, RequestEntryView};
use crate::resolved_request::{
    request_heard, resolve_http_request, resolved_request, RequestSurroundings,
};
use crate::resolver::{variable_error_message, DynamicVariableProvider, ResolverOptions};
use crate::scope::{ContextView, VariableContext};
use crate::text::{chars_of, same_text};
use vstd::prelude::*;

verus! {

/// What happens after a request fails.
#[derive(Clone, Copy, Debug, PartialEq, Eq, Structural)]
pub enum FailurePolicy {
    Continue,
    Stop,
}

/// How a run is reported.
#[derive(Clone, Copy, Debug, PartialEq, Eq, Structural)]
pub enum ReportFormat {
    Json,
    Junit,
    Html,
}

/// The report of a name.
pub open spec fn report_named(name: Seq<char>) -> Option<ReportFormat> {
    if name == "json"@ {
        Some(ReportFormat::Json)
    } else if name == "junit"@ {
        Some(ReportFormat::Junit)
    } else if name == "html"@ {
        Some(ReportFormat::Html)
    } else {
        None
    }
}

/// Finds the report of a name.
pub fn report_format(name: &str) -> (r: Result<ReportFormat, String>)
    ensures
        said(r) == match report_named(name@) {
            Some(f) => Ok::<ReportFormat, Seq<char>>(f),
            None => Err::<ReportFormat, Seq<char>>(
                "unsupported report format '"@ + name@ + "'"@,
            ),
        },
{
    if same_text(name, "json") {
        Ok(ReportFormat::Json)
    } else if same_text(name, "junit") {
        Ok(ReportFormat::Junit)
    } else if same_text(name, "html") {
        Ok(ReportFormat::Html)
    } else {
        Err(concat3("unsupported report format '", name, "'"))
    }
}

/// How a run is asked for.
#[derive(Clone, Debug, PartialEq, Eq)]
pub struct AutomationConfig {
    pub concurrency: usize,
    pub retries: usize,
    pub failure_policy: FailurePolicy,
    pub report: String,
}

/// How a run is asked for, by its contents.
#[verifier::ext_equal]
pub struct AutomationView {
    pub concurrency: int,
    pub retries: int,
    pub failure_policy: FailurePolicy,
    pub report: Seq<char>,
}

impl View for AutomationConfig {
    type V = AutomationView;

    open spec fn view(&self) -> AutomationView {
        AutomationView {
            concurrency: self.concurrency as int,
            retries: self.retries as int,
            failure_policy: self.failure_policy,
            report: self.report@,
        }
    }
}

/// The policy of a name.
pub open spec fn policy_named(name: Seq<char>) -> Option<FailurePolicy> {
    if name == "continue"@ {
        Some(FailurePolicy::Continue)
    } else if name == "stop"@ {
        Some(FailurePolicy::Stop)
    } else {
        None
    }
}

/// How many requests run at once at most.
pub const MAXIMUM_CONCURRENCY: usize = 64;

/// How often a request is tried again at most.
pub const MAXIMUM_RETRIES: usize = 10;

/// How a run is asked for, with some settings.
pub open spec fn automation_with(m: Map<Seq<char>, Seq<char>>) -> Result<AutomationView, Seq<char>> {
    let missing = "automation settings are missing"@;
    match demanded_number(m, "concurrency"@, missing, usize::MAX as int) {
        Err(e) => Err(e),
        Ok(concurrency) => if concurrency < 1 || concurrency > MAXIMUM_CONCURRENCY {
            Err("concurrency must be between 1 and 64"@)
        } else {
            match demanded_number(m, "retries"@, missing, usize::MAX as int) {
                Err(e) => Err(e),
                Ok(retries) => match demanded(m, "failure_policy"@, missing) {
                    Err(e) => Err(e),
                    Ok(policy) => match policy_named(policy) {
                        None => Err("unknown failure_policy '"@ + policy + "'"@),
                        Some(failure_policy) => match demanded(m, "report"@, missing) {
                            Err(e) => Err(e),
                            Ok(report) => if report_named(report) is None {
                                Err("report must be json, junit, or html"@)
                            } else {
                                Ok(
                                    AutomationView {
                                        concurrency,
                                        retries: if retries > MAXIMUM_RETRIES {
                                            MAXIMUM_RETRIES as int
                                        } else {
                                            retries
                                        },
                                        failure_policy,
                                        report,
                                    },
                                )
                            },
                        },
                    },
                },
            }
        },
    }
}

/// How a run is asked for, as a text says it.
pub open spec fn automation_of(text: Seq<char>) -> Result<AutomationView, Seq<char>> {
    match keyed(lines(text), true, "automation setting"@) {
        Err(e) => Err(e),
        Ok(m) => automation_with(m),
    }
}

impl AutomationConfig {
    /// Reads how a run is asked for.
    pub fn parse(value: &str) -> (r: Result<AutomationConfig, String>)
        ensures
            crate::error::outcome(r) == automation_of(value@),
    {
        let chars = chars_of(value);
        let list = split_lines(chars.as_slice());
        let m = match read_keyed(list.as_slice(), true, "automation setting") {
            Ok(m) => m,
            Err(e) => {
                return Err(e);
            },
        };
        let missing = "automation settings are missing";
        let concurrency = match demand_number(&m, "concurrency", missing, usize::MAX as u64) {
            Ok(n) => n as usize,
            Err(e) => {
                return Err(e);
            },
        };
        if concurrency < 1 || concurrency > MAXIMUM_CONCURRENCY {
            return Err("concurrency must be between 1 and 64".to_owned());
        }
        let retries = match demand_number(&m, "retries", missing, usize::MAX as u64) {
            Ok(n) => n as usize,
            Err(e) => {
                return Err(e);
            },
        };
        let policy = match demand(&m, "failure_policy", missing) {
            Ok(t) => t,
            Err(e) => {
                return Err(e);
            },
        };
        let failure_policy = if same_text(policy, "continue") {
            FailurePolicy::Continue
        } else if same_text(policy, "stop") {
            FailurePolicy::Stop
        } else {
            return Err(concat3("unknown failure_policy '", policy, "'"));
        };
        let report = match demand(&m, "report", missing) {
            Ok(t) => t,
            Err(e) => {
                return Err(e);
            },
        };
        match report_format(report) {
            Ok(_) => {},
            Err(_) => {
                return Err("report must be json, junit, or html".to_owned());
            },
        }
        Ok(
            AutomationConfig {
                concurrency,
                retries: if retries > MAXIMUM_RETRIES {
                    MAXIMUM_RETRIES
                } else {
                    retries
                },
                failure_policy,
                report: report.to_owned(),
            },
        )
    }
}

/// A run never asks for more at once, or for more tries, than it may, and its report can be
/// written.
pub proof fn law_automation_is_bounded(text: Seq<char>)
    ensures
        automation_of(text) matches Ok(config) ==> 1 <= config.concurrency <= MAXIMUM_CONCURRENCY
            && config.retries <= MAXIMUM_RETRIES && report_named(config.report) is Some,
{
}

/// A request that is run.
#[derive(Clone, Debug, PartialEq, Eq)]
pub struct RunItem {
    pub id: String,
    pub name: String,
    pub request: HttpRequest,
}

/// A request that is run, by its contents.
#[verifier::ext_equal]
pub struct RunItemView {
    pub id: Seq<char>,
    pub name: Seq<char>,
    pub request: RequestView,
}

impl View for RunItem {
    type V = RunItemView;

    open spec fn view(&self) -> RunItemView {
        RunItemView { id: self.id@, name: self.name@, request: self.request@ }
    }
}

/// The contents of a list of requests that are run.
pub open spec fn run_item_views(list: Seq<RunItem>) -> Seq<RunItemView> {
    list.map_values(|i: RunItem| i@)
}

/// What is said where a run does not begin.
#[derive(Clone, Debug, PartialEq, Eq)]
pub enum RunRefusal {
    /// There is nothing to do.
    Idle(String),
    Failed(String),
}

/// What is said where a run does not begin, by its contents.
pub enum RefusalView {
    Idle(Seq<char>),
    Failed(Seq<char>),
}

impl View for RunRefusal {
    type V = RefusalView;

    open spec fn view(&self) -> RefusalView {
        match self {
            RunRefusal::Idle(t) => RefusalView::Idle(t@),
            RunRefusal::Failed(t) => RefusalView::Failed(t@),
        }
    }
}

/// The requests that are run: each is read and gets the values of its variables. `worlds` is
/// what resolving each depends on.
pub open spec fn run_items(
    nodes: Nodes,
    root: Seq<char>,
    entries: Seq<RequestEntryView>,
    worlds: Seq<RequestSurroundings>,
) -> Result<Seq<RunItemView>, RefusalView>
    decreases entries.len(),
{
    if entries.len() == 0 {
        Ok(seq![])
    } else {
        match run_items(nodes, root, entries.drop_last(), worlds) {
            Err(e) => Err(e),
            Ok(front) => {
                let entry = entries.last();
                match request_loaded(nodes, root, entry.path) {
                    Err(e) => Err(RefusalView::Failed(error_message(e))),
                    Ok(loaded) => match resolved_request(
                        worlds[entries.len() - 1],
                        loaded.value.request,
                    ) {
                        Err(e) => Err(
                            RefusalView::Failed(
                                entry.name + ": "@ + (e.field + ": "@ + variable_error_message(
                                    e.source,
                                )),
                            ),
                        ),
                        Ok(resolved) => Ok(
                            front.push(
                                RunItemView {
                                    id: entry.relative_path,
                                    name: entry.name,
                                    request: resolved.request,
                                },
                            ),
                        ),
                    },
                }
            },
        }
    }
}

/// The requests of a run whose variables get their values: those before the first that cannot
/// be read, and none after the first that cannot be resolved.
pub open spec fn requests_run(
    nodes: Nodes,
    root: Seq<char>,
    entries: Seq<RequestEntryView>,
    worlds: Seq<RequestSurroundings>,
) -> Seq<RequestView>
    decreases entries.len(),
{
    if entries.len() == 0 {
        seq![]
    } else {
        let front = requests_run(nodes, root, entries.drop_last(), worlds);
        match run_items(nodes, root, entries.drop_last(), worlds) {
            Err(_) => front,
            Ok(_) => match request_loaded(nodes, root, entries.last().path) {
                Err(_) => front,
                Ok(loaded) => front.push(loaded.value.request),
            },
        }
    }
}

/// Whether, for each request in turn, the answers are those that a source of dynamic variables
/// gave.
pub open spec fn worlds_heard<P: DynamicVariableProvider>(
    dynamic: &P,
    worlds: Seq<RequestSurroundings>,
    requests: Seq<RequestView>,
) -> bool {
    &&& worlds.len() == requests.len()
    &&& forall|k: int|
        0 <= k < worlds.len() ==> request_heard(dynamic, #[trigger] worlds[k], requests[k])
}

/// Whether all that resolving depends on is there: the variables, and the usual options.
pub open spec fn usual_worlds(worlds: Seq<RequestSurroundings>, context: ContextView) -> bool {
    forall|i: int|
        0 <= i < worlds.len() ==> (#[trigger] worlds[i]).context == context && worlds[i].options
            == (ResolverOptions {
            strict_unresolved: true,
            preserve_unresolved: false,
            maximum_depth: 32,
        })
}

/// What a run begins with, or why it does not.
pub open spec fn prepared_run(
    running: bool,
    workspace: Option<(Nodes, Seq<char>)>,
    config: Seq<char>,
    variable_error: Option<Seq<char>>,
    worlds: Seq<RequestSurroundings>,
) -> Result<(AutomationView, Seq<RunItemView>), RefusalView> {
    if running {
        Err(RefusalView::Idle("A collection run is already active"@))
    } else {
        match workspace {
            None => Err(RefusalView::Failed("No workspace is open"@)),
            Some((nodes, root)) => match automation_of(config) {
                Err(e) => Err(RefusalView::Failed(e)),
                Ok(config) => match variable_error {
                    Some(e) => Err(RefusalView::Failed(e)),
                    None => match all_entries(nodes, root) {
                        Err(e) => Err(RefusalView::Failed(error_message(e))),
                        Ok(entries) => match run_items(nodes, root, entries, worlds) {
                            Err(e) => Err(e),
                            Ok(items) => if items.len() == 0 {
                                Err(RefusalView::Idle("The workspace has no requests"@))
                            } else {
                                Ok((config, items))
                            },
                        },
                    },
                },
            },
        }
    }
}

/// The requests whose variables get their values when a run is prepared: none where it is
/// refused before.
pub open spec fn requests_prepared(
    running: bool,
    workspace: Option<(Nodes, Seq<char>)>,
    config: Seq<char>,
    variable_error: Option<Seq<char>>,
    worlds: Seq<RequestSurroundings>,
) -> Seq<RequestView> {
    match workspace {
        None => seq![],
        Some((nodes, root)) => if running || automation_of(config) is Err || variable_error is Some {
            seq![]
        } else {
            match all_entries(nodes, root) {
                Err(_) => seq![],
                Ok(entries) => requests_run(nodes, root, entries, worlds),
            }
        },
    }
}

proof fn lemma_run_items_error(
    nodes: Nodes,
    root: Seq<char>,
    entries: Seq<RequestEntryView>,
    worlds: Seq<RequestSurroundings>,
    k: int,
)
    requires
        0 <= k <= entries.len(),
        run_items(nodes, root, entries.take(k), worlds) is Err,
    ensures
        run_items(nodes, root, entries, worlds) == run_items(
            nodes,
            root,
            entries.take(k),
            worlds,
        ),
        requests_run(nodes, root, entries, worlds) == requests_run(
            nodes,
            root,
            entries.take(k),
            worlds,
        ),
    decreases entries.len() - k,
{
    if k < entries.len() {
        assert(entries.take(k + 1).drop_last() =~= entries.take(k));
        lemma_run_items_error(nodes, root, entries, worlds, k + 1);
    } else {
        assert(entries.take(k) =~= entries);
    }
}

/// What later requests depend on does not matter to earlier ones.
proof fn lemma_worlds_prefix(
    nodes: Nodes,
    root: Seq<char>,
    entries: Seq<RequestEntryView>,
    a: Seq<RequestSurroundings>,
    b: Seq<RequestSurroundings>,
)
    requires
        entries.len() <= a.len(),
        entries.len() <= b.len(),
        forall|i: int| 0 <= i < entries.len() ==> a[i] == b[i],
    ensures
        run_items(nodes, root, entries, a) == run_items(nodes, root, entries, b),
        requests_run(nodes, root, entries, a) == requests_run(nodes, root, entries, b),
    decreases entries.len(),
{
    if entries.len() > 0 {
        lemma_worlds_prefix(nodes, root, entries.drop_last(), a, b);
    }
}

/// Gathers what is run. The requests of the result are what the requests of the workspace stand
/// for under the answers that the source of dynamic variables gave.
fn gather_items<P: DynamicVariableProvider>(
    repository: &WorkspaceRepository,
    files: &FileTree,
    context: &VariableContext,
    dynamic: &P,
) -> (r: Result<Vec<RunItem>, RunRefusal>)
    requires
        files.wf(),
        context.wf(),
    ensures
        match all_entries(files@.nodes, repository@) {
            Err(e) => r matches Err(x) && x@ == RefusalView::Failed(error_message(e)),
            Ok(entries) => exists|worlds: Seq<RequestSurroundings>| #[trigger]
                usual_worlds(worlds, context@) && worlds_heard(
                    dynamic,
                    worlds,
                    requests_run(files@.nodes, repository@, entries, worlds),
                ) && match r {
                    Ok(list) => run_items(files@.nodes, repository@, entries, worlds) == Ok::<
                        Seq<RunItemView>,
                        RefusalView,
                    >(run_item_views(list@)),
                    Err(e) => run_items(files@.nodes, repository@, entries, worlds) == Err::<
                        Seq<RunItemView>,
                        RefusalView,
                    >(e@),
                },
        },
{
    let entries = match repository.list_requests(files) {
        Ok(list) => list,
        Err(e) => {
            return Err(RunRefusal::Failed(e.message()));
        },
    };
    let ghost nodes = files@.nodes;
    let ghost root = repository@;
    let ghost all = entry_views(entries@);
    let ghost mut worlds: Seq<RequestSurroundings> = seq![];
    let mut items: Vec<RunItem> = Vec::new();
    proof {
        assert(all.take(0) =~= seq![]);
        assert(run_item_views(items@) =~= seq![]);
    }
    for i in 0..entries.len()
        invariant
            files.wf(),
            context.wf(),
            nodes == files@.nodes,
            root == repository@,
            all == entry_views(entries@),
            all_entries(nodes, root) == Ok::<Seq<RequestEntryView>, WorkspaceErrorView>(all),
            worlds.len() == i,
            usual_worlds(worlds, context@),
            worlds_heard(dynamic, worlds, requests_run(nodes, root, all.take(i as int), worlds)),
            run_items(nodes, root, all.take(i as int), worlds) == Ok::<
                Seq<RunItemView>,
                RefusalView,
            >(run_item_views(items@)),
    {
        let entry = &entries[i];
        let ghost before = run_item_views(items@);
        proof {
            assert(all[i as int] == entry@);
            assert(all.take(i + 1).drop_last() =~= all.take(i as int));
            assert(all.take(i + 1).last() == entry@);
        }
        let loaded = match repository.load_request(files, &entry.path) {
            Ok(d) => d,
            Err(e) => {
                proof {
                    lemma_run_items_error(nodes, root, all, worlds, i + 1);
                }
                return Err(RunRefusal::Failed(e.message()));
            },
        };
        let options = ResolverOptions {
            strict_unresolved: true,
            preserve_unresolved: false,
            maximum_depth: 32,
        };
        let result = resolve_http_request(&loaded.value.request, context, dynamic, options);
        let ghost w = choose|w: RequestSurroundings|
            w.context == context@ && w.options == options && request_heard(
                dynamic,
                w,
                loaded.value.request@,
            ) && crate::error::outcome(result) == #[trigger] resolved_request(
                w,
                loaded.value.request@,
            );
        let ghost more = worlds.push(w);
        proof {
            lemma_worlds_prefix(nodes, root, all.take(i as int), worlds, more);
            assert(usual_worlds(more, context@)) by {
                assert forall|k: int| 0 <= k < more.len() implies (#[trigger] more[k]).context
                    == context@ && more[k].options == options by {
                    if k < worlds.len() {
                        assert(more[k] == worlds[k]);
                    }
                }
            }
        }
        proof {
            let asked = requests_run(nodes, root, all.take(i as int), worlds);
            let now = requests_run(nodes, root, all.take(i + 1), more);
            assert(now == asked.push(loaded.value.request@));
            assert forall|k: int| 0 <= k < more.len() implies request_heard(
                dynamic,
                #[trigger] more[k],
                now[k],
            ) by {
                if k < worlds.len() {
                    assert(more[k] == worlds[k]);
                    assert(now[k] == asked[k]);
                }
            }
        }
        match result {
            Ok(resolved) => {
                let item = RunItem {
                    id: entry.relative_path.as_text().to_owned(),
                    name: entry.name.clone(),
                    request: resolved.request,
                };
                let ghost v = item@;
                items.push(item);
                assert(run_item_views(items@) =~= before.push(v));
            },
            Err(e) => {
                proof {
                    lemma_run_items_error(nodes, root, all, more, i + 1);
                }
                return Err(
                    RunRefusal::Failed(
                        concat3(entry.name.as_str(), ": ", e.message().as_str()),
                    ),
                );
            },
        }
        proof {
            worlds = more;
        }
    }
    assert(all.take(entries@.len() as int) =~= all);
    Ok(items)
}

/// A run that can begin.
#[derive(Clone, Debug, PartialEq, Eq)]
pub struct PreparedRun {
    pub config: AutomationConfig,
    pub items: Vec<RunItem>,
}

/// Prepares a run of all requests of a workspace. The requests of the result are what those of
/// the workspace stand for under the answers that the source of dynamic variables gave, and it
/// is asked for nothing but what they lead to.
pub fn prepare_run<P: DynamicVariableProvider>(
    running: bool,
    workspace: Option<(&WorkspaceRepository, &FileTree)>,
    config: &str,
    variable_error: Option<&str>,
    context: &VariableContext,
    dynamic: &P,
) -> (r: Result<PreparedRun, RunRefusal>)
    requires
        workspace matches Some((_, files)) ==> files.wf(),
        context.wf(),
    ensures
        exists|worlds: Seq<RequestSurroundings>| #[trigger]
            usual_worlds(worlds, context@) && worlds_heard(
                dynamic,
                worlds,
                requests_prepared(
                    running,
                    workspace_view(workspace),
                    config@,
                    optional_str(variable_error),
                    worlds,
                ),
            ) && match r {
                Ok(p) => prepared_run(
                    running,
                    workspace_view(workspace),
                    config@,
                    optional_str(variable_error),
                    worlds,
                ) == Ok::<(AutomationView, Seq<RunItemView>), RefusalView>(
                    (p.config@, run_item_views(p.items@)),
                ),
                Err(e) => prepared_run(
                    running,
                    workspace_view(workspace),
                    config@,
                    optional_str(variable_error),
                    worlds,
                ) == Err::<(AutomationView, Seq<RunItemView>), RefusalView>(e@),
            },
{
    let ghost none: Seq<RequestSurroundings> = seq![];
    assert(usual_worlds(none, context@));
    assert(worlds_heard(dynamic, none, seq![]));
    if running {
        return Err(RunRefusal::Idle("A collection run is already active".to_owned()));
    }
    let (repository, files) = match workspace {
        Some(w) => w,
        None => {
            return Err(RunRefusal::Failed("No workspace is open".to_owned()));
        },
    };
    let parsed = match AutomationConfig::parse(config) {
        Ok(c) => c,
        Err(e) => {
            return Err(RunRefusal::Failed(e));
        },
    };
    if let Some(e) = variable_error {
        return Err(RunRefusal::Failed(e.to_owned()));
    }
    match gather_items(repository, files, context, dynamic) {
        Ok(items) => {
            let ghost worlds = choose|worlds: Seq<RequestSurroundings>| #[trigger]
                usual_worlds(worlds, context@) && worlds_heard(
                    dynamic,
                    worlds,
                    requests_run(
                        files@.nodes,
                        repository@,
                        all_entries(files@.nodes, repository@)->Ok_0,
                        worlds,
                    ),
                ) && run_items(
                    files@.nodes,
                    repository@,
                    all_entries(files@.nodes, repository@)->Ok_0,
                    worlds,
                ) == Ok::<Seq<RunItemView>, RefusalView>(run_item_views(items@));
            assert(usual_worlds(worlds, context@));
            assert(run_item_views(items@).len() == items@.len());
            if items.len() == 0 {
                return Err(RunRefusal::Idle("The workspace has no requests".to_owned()));
            }
            Ok(PreparedRun { config: parsed, items })
        },
        Err(e) => Err(e),
    }
}

/// The contents of an optional workspace.
pub open spec fn workspace_view(w: Option<(&WorkspaceRepository, &FileTree)>) -> Option<
    (Nodes, Seq<char>),
> {
    match w {
        Some((repository, files)) => Some((files@.nodes, repository@)),
        None => None,
    }
}

/// The contents of an optional text.
pub open spec fn optional_str(t: Option<&str>) -> Option<Seq<char>> {
    match t {
        Some(s) => Some(s@),
        None => None,
    }
}

/// What is said of a request that was run.
#[derive(Clone, Debug, PartialEq, Eq)]
pub struct RunVerdict {
    pub passed: bool,
    pub message: String,
}

/// Says of a request that was run how it went, by the status of the response: one that answers
/// with success, or with another place, has passed.
pub fn judge_status(status: Option<u16>) -> (r: RunVerdict)
    ensures
        ({
            let code = match status {
                Some(s) => s,
                None => 0u16,
            };
            &&& r.passed == (200 <= code < 400)
            &&& r.message@ == "HTTP "@ + decimal(code as nat)
        }),
{
    let code: u16 = match status {
        Some(s) => s,
        None => 0,
    };
    RunVerdict {
        passed: 200 <= code && code < 400,
        message: concat2("HTTP ", decimal_text(code as u64).as_str()),
    }
}

/// How a run ended.
#[derive(Debug, PartialEq, Eq)]
pub enum RunEnd {
    /// The run was made, with its report.
    Reported(String),
    /// The run, or the writing of its report, failed.
    Failed(String),
    /// Nothing came back from the run.
    Lost(String),
}

/// What is shown of a run.
#[derive(Debug, PartialEq, Eq)]
pub struct AutomationPanel {
    pub running: bool,
    pub output: String,
}

/// What is shown of a run, by its contents.
#[verifier::ext_equal]
pub struct AutomationPanelView {
    pub running: bool,
    pub output: Seq<char>,
}

impl View for AutomationPanel {
    type V = AutomationPanelView;

    open spec fn view(&self) -> AutomationPanelView {
        AutomationPanelView { running: self.running, output: self.output@ }
    }
}

/// What is shown of how a run ended.
pub open spec fn end_shown(end: RunEnd) -> Seq<char> {
    match end {
        RunEnd::Reported(report) => report@,
        RunEnd::Failed(error) => "Collection run failed: "@ + error@,
        RunEnd::Lost(error) => "Collection run channel failed: "@ + error@,
    }
}

/// What is shown once a run is to be cancelled; nothing changes where none is going on.
pub open spec fn cancellation_shown(v: AutomationPanelView) -> AutomationPanelView {
    if v.running {
        AutomationPanelView { running: false, output: "Cancellation requested\u{2026}"@ }
    } else {
        v
    }
}

/// Writes what is shown of how a run ended.
pub fn show_run_end(end: RunEnd) -> (r: String)
    ensures
        r@ == end_shown(end),
{
    match end {
        RunEnd::Reported(report) => report,
        RunEnd::Failed(error) => concat2("Collection run failed: ", error.as_str()),
        RunEnd::Lost(error) => concat2("Collection run channel failed: ", error.as_str()),
    }
}

impl AutomationPanel {
    /// The panel before any run.
    pub fn new() -> (r: AutomationPanel)
        ensures
            !r.running,
            r.output@ == "Run a workspace collection to inspect live progress and reports."@,
    {
        AutomationPanel {
            running: false,
            output: "Run a workspace collection to inspect live progress and reports.".to_owned(),
        }
    }

    /// Shows that a run of so many requests has begun.
    pub fn begin(&mut self, requests: usize)
        ensures
            final(self)@ == (AutomationPanelView {
                running: true,
                output: "Running "@ + decimal(requests as nat) + " request(s)\u{2026}"@,
            }),
    {
        self.running = true;
        self.output = concat3(
            "Running ",
            decimal_text(requests as u64).as_str(),
            " request(s)\u{2026}",
        );
    }

    /// Shows how a run ended.
    pub fn finish(&mut self, end: RunEnd)
        ensures
            final(self)@ == (AutomationPanelView { running: false, output: end_shown(end) }),
    {
        self.running = false;
        self.output = show_run_end(end);
    }

    /// Shows that a run is to be cancelled, and says whether there is one.
    pub fn cancel(&mut self) -> (r: bool)
        ensures
            r == old(self).running,
            final(self)@ == cancellation_shown(old(self)@),
    {
        if self.running {
            self.running = false;
            self.output = "Cancellation requested\u{2026}".to_owned();
            true
        } else {
            false
        }
    }
}

/// Once a run is to be cancelled none is going on, and cancelling once more changes nothing.
pub proof fn law_cancelling_twice_is_cancelling_once(v: AutomationPanelView)
    ensures
        !cancellation_shown(v).running,
        cancellation_shown(cancellation_shown(v)) == cancellation_shown(v),
{
}

} // verus!
