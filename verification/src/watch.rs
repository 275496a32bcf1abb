//! What changes on disk mean for a workspace.
use crate::lines::{ends_with, has_prefix, has_suffix, starts_with};
use crate::message::concat2;
use crate::paths::{
    below_root, climbs, component_views, components, components_below, joined, last_name,
    path_climbs, relative_path, relative_text, ComponentView, PathComponent, ResourcePath,
};
use crate::text::{chars_of, same_text};
use vstd::prelude::*;

verus! {

/// How many events wait before the rest is given up for a rescan.
pub const DEFAULT_WORKSPACE_WATCH_CAPACITY: usize = 1024;

/// What happened to resources of a workspace.
#[derive(Clone, Copy, Debug, PartialEq, Eq, Structural)]
pub enum WorkspaceChangeKind {
    Created,
    Modified,
    Removed,
    Renamed,
    RescanRequired,
}

/// What a path of a workspace stands for.
#[derive(Clone, Copy, Debug, PartialEq, Eq, Structural)]
pub enum WorkspaceResourceKind {
    Manifest,
    Variables,
    Environment,
    Request,
    Collection,
    Schema,
    Grpc,
    Mock,
    Profile,
    Other,
}

/// A path that changed, below the root of the workspace.
#[derive(Clone, Debug, PartialEq, Eq)]
pub struct WorkspaceChangedPath {
    pub relative_path: ResourcePath,
    pub resource: WorkspaceResourceKind,
}

/// A path that changed, by its contents.
#[verifier::ext_equal]
pub struct ChangedPathView {
    pub relative_path: Seq<char>,
    pub resource: WorkspaceResourceKind,
}

impl View for WorkspaceChangedPath {
    type V = ChangedPathView;

    open spec fn view(&self) -> ChangedPathView {
        ChangedPathView { relative_path: self.relative_path@, resource: self.resource }
    }
}

/// The contents of a list of paths that changed.
pub open spec fn changed_path_views(list: Seq<WorkspaceChangedPath>) -> Seq<ChangedPathView> {
    list.map_values(|p: WorkspaceChangedPath| p@)
}

/// A change of a workspace.
#[derive(Clone, Debug, PartialEq, Eq)]
pub struct WorkspaceChange {
    pub kind: WorkspaceChangeKind,
    pub paths: Vec<WorkspaceChangedPath>,
}

/// A change of a workspace, by its contents.
#[verifier::ext_equal]
pub struct ChangeView {
    pub kind: WorkspaceChangeKind,
    pub paths: Seq<ChangedPathView>,
}

impl View for WorkspaceChange {
    type V = ChangeView;

    open spec fn view(&self) -> ChangeView {
        ChangeView { kind: self.kind, paths: changed_path_views(self.paths@) }
    }
}

/// The kinds of events that a watcher of files tells apart.
#[derive(Clone, Copy, Debug, PartialEq, Eq, Structural)]
pub enum FileEventKind {
    Access,
    Create,
    Rename,
    Modify,
    Remove,
    Unclear,
}

/// An event that a watcher of files gives.
#[derive(Clone, Debug, PartialEq, Eq)]
pub struct FileEvent {
    pub kind: FileEventKind,
    /// Whether events were missed.
    pub need_rescan: bool,
    pub paths: Vec<ResourcePath>,
}

/// An event of a watcher, by its contents.
#[verifier::ext_equal]
pub struct FileEventView {
    pub kind: FileEventKind,
    pub need_rescan: bool,
    pub paths: Seq<Seq<char>>,
}

/// The contents of a list of paths.
pub open spec fn path_texts(list: Seq<ResourcePath>) -> Seq<Seq<char>> {
    list.map_values(|p: ResourcePath| p@)
}

impl View for FileEvent {
    type V = FileEventView;

    open spec fn view(&self) -> FileEventView {
        FileEventView {
            kind: self.kind,
            need_rescan: self.need_rescan,
            paths: path_texts(self.paths@),
        }
    }
}

/// Whether a name is that of a directory whose contents do not count.
pub open spec fn is_private_directory(name: Seq<char>) -> bool {
    name == ".git"@ || name == ".apex"@
}

/// Whether a name is that of a file that an editor or the system keeps for itself.
pub open spec fn is_transient_name(name: Seq<char>) -> bool {
    ||| name == ".DS_Store"@
    ||| starts_with(name, ".#"@)
    ||| starts_with(name, "#"@) && ends_with(name, "#"@)
    ||| ends_with(name, "~"@)
    ||| ends_with(name, ".swp"@)
    ||| ends_with(name, ".swo"@)
    ||| ends_with(name, ".swx"@)
    ||| ends_with(name, ".tmp"@)
}

/// Whether a change at a path does not count.
pub open spec fn is_ignored(list: Seq<ComponentView>) -> bool {
    ||| exists|i: int|
        0 <= i < list.len() && ((#[trigger] list[i]) matches ComponentView::Normal(name)
            && is_private_directory(name))
    ||| (last_name(list) matches Some(name) && is_transient_name(name))
}

/// What a path of a workspace stands for.
pub open spec fn resource_of(list: Seq<ComponentView>) -> WorkspaceResourceKind {
    if list == seq![ComponentView::Normal("apex.toml"@)] {
        WorkspaceResourceKind::Manifest
    } else if list == seq![ComponentView::Normal("variables.toml"@)] {
        WorkspaceResourceKind::Variables
    } else if list.len() == 0 {
        WorkspaceResourceKind::Other
    } else {
        match list[0] {
            ComponentView::Normal(first) => if first == "environments"@ {
                WorkspaceResourceKind::Environment
            } else if first == "collections"@ {
                match last_name(list) {
                    Some(name) => if ends_with(name, ".request.toml"@) {
                        WorkspaceResourceKind::Request
                    } else {
                        WorkspaceResourceKind::Collection
                    },
                    None => WorkspaceResourceKind::Collection,
                }
            } else if first == "schemas"@ {
                WorkspaceResourceKind::Schema
            } else if first == "grpc"@ {
                WorkspaceResourceKind::Grpc
            } else if first == "mocks"@ {
                WorkspaceResourceKind::Mock
            } else if first == "profiles"@ {
                WorkspaceResourceKind::Profile
            } else {
                WorkspaceResourceKind::Other
            },
            _ => WorkspaceResourceKind::Other,
        }
    }
}

fn text_ends_with(text: &[char], end: &str) -> (r: bool)
    ensures
        r == ends_with(text@, end@),
{
    has_suffix(text, chars_of(end).as_slice())
}

fn text_starts_with(text: &[char], start: &str) -> (r: bool)
    ensures
        r == starts_with(text@, start@),
{
    has_prefix(text, chars_of(start).as_slice())
}

fn transient_name(name: &str) -> (r: bool)
    ensures
        r == is_transient_name(name@),
{
    let chars = chars_of(name);
    let s = chars.as_slice();
    same_text(name, ".DS_Store") || text_starts_with(s, ".#") || (text_starts_with(s, "#")
        && text_ends_with(s, "#")) || text_ends_with(s, "~") || text_ends_with(s, ".swp")
        || text_ends_with(s, ".swo") || text_ends_with(s, ".swx") || text_ends_with(s, ".tmp")
}

/// The name of the last component.
fn last_component_name<'a>(list: &'a [PathComponent]) -> (r: Option<&'a String>)
    ensures
        match r {
            Some(name) => last_name(component_views(list@)) == Some(name@),
            None => last_name(component_views(list@)) is None,
        },
{
    if list.len() == 0 {
        return None;
    }
    assert(component_views(list@).last() == list@[list@.len() - 1]@);
    match &list[list.len() - 1] {
        PathComponent::Normal(name) => Some(name),
        _ => None,
    }
}

/// Whether a change at a path does not count.
pub fn is_ignored_path(list: &[PathComponent]) -> (r: bool)
    ensures
        r == is_ignored(component_views(list@)),
{
    let ghost all = component_views(list@);
    for i in 0..list.len()
        invariant
            all == component_views(list@),
            forall|k: int|
                0 <= k < i ==> !((#[trigger] all[k]) matches ComponentView::Normal(name)
                    && is_private_directory(name)),
    {
        assert(all[i as int] == list@[i as int]@);
        if let PathComponent::Normal(name) = &list[i] {
            if same_text(name.as_str(), ".git") || same_text(name.as_str(), ".apex") {
                return true;
            }
        }
    }
    match last_component_name(list) {
        Some(name) => transient_name(name.as_str()),
        None => false,
    }
}

/// Finds what a path below the root of a workspace stands for.
pub fn classify_components(list: &[PathComponent]) -> (r: WorkspaceResourceKind)
    ensures
        r == resource_of(component_views(list@)),
{
    let ghost all = component_views(list@);
    let ghost manifest = seq![ComponentView::Normal("apex.toml"@)];
    let ghost variables = seq![ComponentView::Normal("variables.toml"@)];
    assert(manifest[0] == ComponentView::Normal("apex.toml"@));
    assert(variables[0] == ComponentView::Normal("variables.toml"@));
    if list.len() == 0 {
        return WorkspaceResourceKind::Other;
    }
    assert(all[0] == list@[0]@);
    match &list[0] {
        PathComponent::Normal(first) => {
            let name = first.as_str();
            if list.len() == 1 && same_text(name, "apex.toml") {
                assert(all =~= manifest);
                return WorkspaceResourceKind::Manifest;
            }
            if list.len() == 1 && same_text(name, "variables.toml") {
                assert(all =~= variables);
                return WorkspaceResourceKind::Variables;
            }
            if same_text(name, "environments") {
                WorkspaceResourceKind::Environment
            } else if same_text(name, "collections") {
                match last_component_name(list) {
                    Some(last) => if text_ends_with(
                        chars_of(last.as_str()).as_slice(),
                        ".request.toml",
                    ) {
                        WorkspaceResourceKind::Request
                    } else {
                        WorkspaceResourceKind::Collection
                    },
                    None => WorkspaceResourceKind::Collection,
                }
            } else if same_text(name, "schemas") {
                WorkspaceResourceKind::Schema
            } else if same_text(name, "grpc") {
                WorkspaceResourceKind::Grpc
            } else if same_text(name, "mocks") {
                WorkspaceResourceKind::Mock
            } else if same_text(name, "profiles") {
                WorkspaceResourceKind::Profile
            } else {
                WorkspaceResourceKind::Other
            }
        },
        _ => WorkspaceResourceKind::Other,
    }
}

/// Finds what a path below the root of a workspace stands for.
pub fn classify_resource(path: &ResourcePath) -> (r: WorkspaceResourceKind)
    ensures
        r == resource_of(components(path@)),
{
    classify_components(path.components().as_slice())
}

/// What a path that changed means for a workspace: nothing where it lies outside of it or does
/// not count.
pub open spec fn changed_path(root: Seq<char>, path: Seq<char>) -> Option<ChangedPathView> {
    match components_below(root, joined(root, path)) {
        None => None,
        Some(rest) => if rest.len() == 0 || climbs(rest) || is_ignored(rest) {
            None
        } else {
            Some(
                ChangedPathView {
                    relative_path: relative_text(rest),
                    resource: resource_of(rest),
                },
            )
        },
    }
}

/// Finds what a path that changed means for a workspace.
pub fn normalize_path(root: &ResourcePath, path: &ResourcePath) -> (r: Option<WorkspaceChangedPath>)
    ensures
        match r {
            Some(p) => changed_path(root@, path@) == Some(p@),
            None => changed_path(root@, path@) is None,
        },
{
    let absolute = root.join(path.as_text());
    let rest = match below_root(root, &absolute) {
        Some(rest) => rest,
        None => {
            return None;
        },
    };
    let list = rest.as_slice();
    if list.len() == 0 || path_climbs(list) || is_ignored_path(list) {
        return None;
    }
    Some(
        WorkspaceChangedPath {
            relative_path: relative_path(list),
            resource: classify_components(list),
        },
    )
}

/// What the paths that changed mean for a workspace.
pub open spec fn changed_paths(root: Seq<char>, paths: Seq<Seq<char>>) -> Seq<ChangedPathView>
    decreases paths.len(),
{
    if paths.len() == 0 {
        seq![]
    } else {
        let front = changed_paths(root, paths.drop_last());
        match changed_path(root, paths.last()) {
            Some(p) => front.push(p),
            None => front,
        }
    }
}

/// The change that asks to read everything again.
pub open spec fn rescan() -> ChangeView {
    ChangeView { kind: WorkspaceChangeKind::RescanRequired, paths: seq![] }
}

/// Asks to read everything again.
pub fn rescan_change() -> (r: WorkspaceChange)
    ensures
        r@ == rescan(),
{
    let r = WorkspaceChange { kind: WorkspaceChangeKind::RescanRequired, paths: Vec::new() };
    assert(r@.paths =~= seq![]);
    r
}

/// What kind of change an event is; reading is none.
pub open spec fn change_kind(kind: FileEventKind) -> Option<WorkspaceChangeKind> {
    match kind {
        FileEventKind::Access => None,
        FileEventKind::Create => Some(WorkspaceChangeKind::Created),
        FileEventKind::Rename => Some(WorkspaceChangeKind::Renamed),
        FileEventKind::Modify => Some(WorkspaceChangeKind::Modified),
        FileEventKind::Remove => Some(WorkspaceChangeKind::Removed),
        FileEventKind::Unclear => Some(WorkspaceChangeKind::Modified),
    }
}

/// What an event means for a workspace.
pub open spec fn event_change(root: Seq<char>, event: FileEventView) -> Option<ChangeView> {
    if event.need_rescan {
        Some(rescan())
    } else {
        match change_kind(event.kind) {
            None => None,
            Some(kind) => {
                let paths = changed_paths(root, event.paths);
                if paths.len() == 0 {
                    None
                } else {
                    Some(ChangeView { kind, paths })
                }
            },
        }
    }
}

/// Finds what an event means for a workspace.
pub fn normalize_event(root: &ResourcePath, event: &FileEvent) -> (r: Option<WorkspaceChange>)
    ensures
        match r {
            Some(c) => event_change(root@, event@) == Some(c@),
            None => event_change(root@, event@) is None,
        },
{
    if event.need_rescan {
        return Some(rescan_change());
    }
    let kind = match event.kind {
        FileEventKind::Access => {
            return None;
        },
        FileEventKind::Create => WorkspaceChangeKind::Created,
        FileEventKind::Rename => WorkspaceChangeKind::Renamed,
        FileEventKind::Modify => WorkspaceChangeKind::Modified,
        FileEventKind::Remove => WorkspaceChangeKind::Removed,
        FileEventKind::Unclear => WorkspaceChangeKind::Modified,
    };
    let ghost all = path_texts(event.paths@);
    let mut paths: Vec<WorkspaceChangedPath> = Vec::new();
    assert(all.take(0) =~= seq![]);
    assert(changed_path_views(paths@) =~= seq![]);
    for i in 0..event.paths.len()
        invariant
            all == path_texts(event.paths@),
            changed_path_views(paths@) == changed_paths(root@, all.take(i as int)),
    {
        let ghost before = changed_path_views(paths@);
        proof {
            assert(all.take(i + 1).drop_last() =~= all.take(i as int));
            assert(all.take(i + 1).last() == event.paths@[i as int]@);
        }
        if let Some(path) = normalize_path(root, &event.paths[i]) {
            let ghost p = path@;
            paths.push(path);
            assert(changed_path_views(paths@) =~= before.push(p));
        }
    }
    assert(all.take(event.paths@.len() as int) =~= all);
    assert(changed_path_views(paths@).len() == paths@.len());
    if paths.len() == 0 {
        None
    } else {
        Some(WorkspaceChange { kind, paths })
    }
}

/// What waits to be read from a watcher.
#[derive(Clone, Debug, PartialEq, Eq)]
pub enum WatchSignal {
    Event(FileEvent),
    /// The watcher failed, for the given reason.
    Failed(String),
}

/// What waits to be read from a watcher, by its contents.
pub enum SignalView {
    Event(FileEventView),
    Failed(Seq<char>),
}

impl View for WatchSignal {
    type V = SignalView;

    open spec fn view(&self) -> SignalView {
        match self {
            WatchSignal::Event(e) => SignalView::Event(e@),
            WatchSignal::Failed(t) => SignalView::Failed(t@),
        }
    }
}

/// The contents of a list of signals.
pub open spec fn signal_views(list: Seq<WatchSignal>) -> Seq<SignalView> {
    list.map_values(|s: WatchSignal| s@)
}

/// Why a workspace is not watched.
#[derive(Clone, Debug, PartialEq, Eq)]
pub enum WorkspaceWatchError {
    Io(String),
    Backend(String),
    NotDirectory(ResourcePath),
    Disconnected,
}

/// Why a workspace is not watched, by its contents.
pub enum WatchErrorView {
    Io(Seq<char>),
    Backend(Seq<char>),
    NotDirectory(Seq<char>),
    Disconnected,
}

impl View for WorkspaceWatchError {
    type V = WatchErrorView;

    open spec fn view(&self) -> WatchErrorView {
        match self {
            WorkspaceWatchError::Io(t) => WatchErrorView::Io(t@),
            WorkspaceWatchError::Backend(t) => WatchErrorView::Backend(t@),
            WorkspaceWatchError::NotDirectory(p) => WatchErrorView::NotDirectory(p@),
            WorkspaceWatchError::Disconnected => WatchErrorView::Disconnected,
        }
    }
}

/// What an error of a watcher says.
pub open spec fn watch_message(error: WatchErrorView) -> Seq<char> {
    match error {
        WatchErrorView::Io(t) => "workspace watcher I/O failed: "@ + t,
        WatchErrorView::Backend(t) => "workspace watcher backend failed: "@ + t,
        WatchErrorView::NotDirectory(p) => "workspace watcher root is not a directory: "@ + p,
        WatchErrorView::Disconnected => "workspace watcher event channel disconnected"@,
    }
}

impl WorkspaceWatchError {
    /// What the error says.
    pub fn message(&self) -> (r: String)
        ensures
            r@ == watch_message(self@),
    {
        match self {
            WorkspaceWatchError::Io(t) => concat2("workspace watcher I/O failed: ", t.as_str()),
            WorkspaceWatchError::Backend(t) => concat2(
                "workspace watcher backend failed: ",
                t.as_str(),
            ),
            WorkspaceWatchError::NotDirectory(p) => concat2(
                "workspace watcher root is not a directory: ",
                p.as_text(),
            ),
            WorkspaceWatchError::Disconnected =>
                "workspace watcher event channel disconnected".to_owned(),
        }
    }
}

/// What a watcher gave and nobody has read yet: so many signals at most, and a note that there
/// were more.
#[derive(Debug)]
pub struct WatchQueue {
    capacity: usize,
    signals: Vec<WatchSignal>,
    overflowed: bool,
    closed: bool,
}

/// What waits to be read, by its contents.
#[verifier::ext_equal]
pub struct QueueView {
    pub capacity: nat,
    pub signals: Seq<SignalView>,
    pub overflowed: bool,
    pub closed: bool,
}

impl View for WatchQueue {
    type V = QueueView;

    closed spec fn view(&self) -> QueueView {
        QueueView {
            capacity: self.capacity as nat,
            signals: signal_views(self.signals@),
            overflowed: self.overflowed,
            closed: self.closed,
        }
    }
}

/// A signal is put at the end; one that does not fit is noted and dropped.
pub open spec fn enqueued(queue: QueueView, signal: SignalView) -> QueueView {
    if queue.signals.len() >= queue.capacity {
        QueueView { overflowed: true, ..queue }
    } else {
        QueueView { signals: queue.signals.push(signal), ..queue }
    }
}

/// What reading gives, and what is left: the note that signals were dropped comes first, and
/// signals that mean nothing are passed over.
pub open spec fn received(queue: QueueView, root: Seq<char>) -> (
    Result<Option<ChangeView>, WatchErrorView>,
    QueueView,
)
    decreases queue.signals.len(),
{
    if queue.overflowed {
        (Ok(Some(rescan())), QueueView { overflowed: false, ..queue })
    } else if queue.signals.len() == 0 {
        if queue.closed {
            (Err(WatchErrorView::Disconnected), queue)
        } else {
            (Ok(None), queue)
        }
    } else {
        let rest = QueueView { signals: queue.signals.skip(1), ..queue };
        match queue.signals[0] {
            SignalView::Failed(reason) => (Err(WatchErrorView::Backend(reason)), rest),
            SignalView::Event(event) => match event_change(root, event) {
                Some(change) => (Ok(Some(change)), rest),
                None => received(rest, root),
            },
        }
    }
}

/// The contents of an outcome that may be nothing.
pub open spec fn optional_change(r: Result<Option<WorkspaceChange>, WorkspaceWatchError>) -> Result<
    Option<ChangeView>,
    WatchErrorView,
> {
    match r {
        Ok(Some(c)) => Ok(Some(c@)),
        Ok(None) => Ok(None),
        Err(e) => Err(e@),
    }
}

impl WatchQueue {
    /// Nothing that waits.
    pub fn new(capacity: usize) -> (r: WatchQueue)
        ensures
            r@ == (QueueView {
                capacity: capacity as nat,
                signals: seq![],
                overflowed: false,
                closed: false,
            }),
    {
        let r = WatchQueue { capacity, signals: Vec::new(), overflowed: false, closed: false };
        assert(r@.signals =~= seq![]);
        r
    }

    /// Puts a signal at the end, where there is room; notes it where there is none.
    pub fn try_enqueue_event(&mut self, signal: WatchSignal)
        ensures
            final(self)@ == enqueued(old(self)@, signal@),
    {
        let ghost before = self@;
        assert(before.signals.len() == self.signals@.len());
        if self.signals.len() >= self.capacity {
            self.overflowed = true;
        } else {
            self.signals.push(signal);
            assert(self@.signals =~= before.signals.push(signal@));
        }
    }

    /// Notes that nothing more will come.
    pub fn close(&mut self)
        ensures
            final(self)@ == (QueueView { closed: true, ..old(self)@ }),
    {
        self.closed = true;
    }

    /// Asks to read everything again, where signals were dropped since this was last asked.
    pub fn take_overflow(&mut self) -> (r: Option<WorkspaceChange>)
        ensures
            final(self)@ == (QueueView { overflowed: false, ..old(self)@ }),
            match r {
                Some(c) => old(self)@.overflowed && c@ == rescan(),
                None => !old(self)@.overflowed,
            },
    {
        if self.overflowed {
            self.overflowed = false;
            Some(rescan_change())
        } else {
            None
        }
    }

    /// Reads the next change.
    pub fn try_recv(&mut self, root: &ResourcePath) -> (r: Result<
        Option<WorkspaceChange>,
        WorkspaceWatchError,
    >)
        ensures
            (optional_change(r), final(self)@) == received(old(self)@, root@),
    {
        let ghost start = self@;
        loop
            invariant
                start == old(self)@,
                received(start, root@) == received(self@, root@),
            decreases self.signals@.len(),
        {
            let ghost now = self@;
            assert(now.signals.len() == self.signals@.len());
            if let Some(change) = self.take_overflow() {
                return Ok(Some(change));
            }
            assert(self@ =~= now);
            if self.signals.len() == 0 {
                if self.closed {
                    return Err(WorkspaceWatchError::Disconnected);
                }
                return Ok(None);
            }
            let ghost first = self.signals@[0];
            let signal = self.signals.remove(0);
            proof {
                assert(signal == first);
                assert(now.signals[0] == first@);
                assert(self@.signals =~= now.signals.skip(1));
                assert(self@ =~= QueueView { signals: now.signals.skip(1), ..now });
            }
            match signal {
                WatchSignal::Failed(reason) => {
                    return Err(WorkspaceWatchError::Backend(reason));
                },
                WatchSignal::Event(event) => {
                    if let Some(change) = normalize_event(root, &event) {
                        return Ok(Some(change));
                    }
                },
            }
        }
    }
}

/// Signals that were dropped are never forgotten: the next thing that is read after one did not
/// fit is that everything has to be read again.
pub proof fn law_dropped_signals_ask_for_a_rescan(
    queue: QueueView,
    signal: SignalView,
    root: Seq<char>,
)
    requires
        queue.signals.len() >= queue.capacity,
    ensures
        received(enqueued(queue, signal), root) == (
            Ok::<Option<ChangeView>, WatchErrorView>(Some(rescan())),
            QueueView { overflowed: false, ..queue },
        ),
{
}

/// A queue never holds more than it was made for.
pub proof fn law_queue_stays_bounded(queue: QueueView, signal: SignalView, root: Seq<char>)
    requires
        queue.signals.len() <= queue.capacity,
    ensures
        enqueued(queue, signal).signals.len() <= queue.capacity,
        received(queue, root).1.signals.len() <= queue.signals.len(),
        received(queue, root).1.capacity == queue.capacity,
    decreases queue.signals.len(),
{
    if !queue.overflowed && queue.signals.len() > 0 {
        law_queue_stays_bounded(
            QueueView { signals: queue.signals.skip(1), ..queue },
            signal,
            root,
        );
    }
}

proof fn lemma_changed_paths(root: Seq<char>, paths: Seq<Seq<char>>)
    ensures
        forall|i: int|
            0 <= i < changed_paths(root, paths).len() ==> exists|k: int|
                0 <= k < paths.len() && changed_path(root, #[trigger] paths[k]) == Some(
                    #[trigger] changed_paths(root, paths)[i],
                ),
    decreases paths.len(),
{
    let all = changed_paths(root, paths);
    if paths.len() > 0 {
        let shorter = paths.drop_last();
        let front = changed_paths(root, shorter);
        lemma_changed_paths(root, shorter);
        assert forall|i: int| 0 <= i < all.len() implies exists|k: int|
            0 <= k < paths.len() && changed_path(root, #[trigger] paths[k]) == Some(
                #[trigger] all[i],
            ) by {
            if i < front.len() {
                assert(all[i] == front[i]);
                let k = choose|k: int|
                    0 <= k < shorter.len() && changed_path(root, #[trigger] shorter[k]) == Some(
                        front[i],
                    );
                assert(changed_path(root, paths[k]) == Some(all[i]));
            } else {
                assert(changed_path(root, paths[paths.len() - 1]) == Some(all[i]));
            }
        }
    }
}

/// Every path of a change comes from a path of the event that lies inside the workspace and
/// counts.
pub proof fn law_changes_stay_inside(root: Seq<char>, event: FileEventView, i: int)
    requires
        event_change(root, event) is Some,
        0 <= i < event_change(root, event)->Some_0.paths.len(),
    ensures
        exists|k: int|
            0 <= k < event.paths.len() && {
                let rest = components_below(root, joined(root, #[trigger] event.paths[k]));
                &&& rest is Some
                &&& !climbs(rest->Some_0)
                &&& !is_ignored(rest->Some_0)
                &&& event_change(root, event)->Some_0.paths[i].relative_path == relative_text(
                    rest->Some_0,
                )
            },
{
    lemma_changed_paths(root, event.paths);
    let all = changed_paths(root, event.paths);
    assert(all[i] == event_change(root, event)->Some_0.paths[i]);
    let k = choose|k: int|
        0 <= k < event.paths.len() && changed_path(root, #[trigger] event.paths[k]) == Some(all[i]);
    let rest = components_below(root, joined(root, event.paths[k]));
    assert(rest is Some && !climbs(rest->Some_0) && !is_ignored(rest->Some_0));
}

} // verus!
