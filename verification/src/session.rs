//! The requests that are open in tabs.
use crate::domain::StableId;
use crate::message::concat3;
use crate::number::{decimal, decimal_text};
use crate::paths::{components, ComponentView, ResourcePath};
use crate::text::same_text;
use vstd::prelude::*;

verus! {

/// What a tab shows: a request that was never saved, or one of the workspace.
#[derive(Clone, Debug, PartialEq, Eq, Hash)]
pub enum ResourceIdentity {
    Draft(StableId),
    WorkspaceRequest(ResourcePath),
}

/// What a tab shows, by its contents.
pub enum IdentityView {
    Draft(Seq<char>),
    WorkspaceRequest(Seq<char>),
}

/// What tells resources apart: an identifier, or the components of a path.
pub enum IdentityKey {
    Draft(Seq<char>),
    WorkspaceRequest(Seq<ComponentView>),
}

/// What tells a resource from others.
pub open spec fn key_of(identity: IdentityView) -> IdentityKey {
    match identity {
        IdentityView::Draft(id) => IdentityKey::Draft(id),
        IdentityView::WorkspaceRequest(path) => IdentityKey::WorkspaceRequest(components(path)),
    }
}

impl View for ResourceIdentity {
    type V = IdentityView;

    open spec fn view(&self) -> IdentityView {
        match self {
            ResourceIdentity::Draft(id) => IdentityView::Draft(id@),
            ResourceIdentity::WorkspaceRequest(path) => IdentityView::WorkspaceRequest(path@),
        }
    }
}

impl ResourceIdentity {
    /// The same resource.
    pub fn copy(&self) -> (r: ResourceIdentity)
        ensures
            r@ == self@,
    {
        match self {
            ResourceIdentity::Draft(id) => ResourceIdentity::Draft(id.copy()),
            ResourceIdentity::WorkspaceRequest(path) => ResourceIdentity::WorkspaceRequest(
                path.copy(),
            ),
        }
    }

    /// Whether two are the same resource.
    pub fn same(&self, other: &ResourceIdentity) -> (r: bool)
        ensures
            r == (key_of(self@) == key_of(other@)),
    {
        match (self, other) {
            (ResourceIdentity::Draft(a), ResourceIdentity::Draft(b)) => same_text(
                a.as_str(),
                b.as_str(),
            ),
            (
                ResourceIdentity::WorkspaceRequest(a),
                ResourceIdentity::WorkspaceRequest(b),
            ) => a.same_path(b),
            _ => false,
        }
    }
}

/// A tab.
#[derive(Clone, Debug, PartialEq, Eq)]
pub struct RequestTabState {
    pub resource: ResourceIdentity,
    pub title: String,
    pub dirty: bool,
    pub pinned: bool,
    pub preview: bool,
}

/// A tab, by its contents.
#[verifier::ext_equal]
pub struct TabView {
    pub resource: IdentityView,
    pub title: Seq<char>,
    pub dirty: bool,
    pub pinned: bool,
    pub preview: bool,
}

impl View for RequestTabState {
    type V = TabView;

    open spec fn view(&self) -> TabView {
        TabView {
            resource: self.resource@,
            title: self.title@,
            dirty: self.dirty,
            pinned: self.pinned,
            preview: self.preview,
        }
    }
}

/// The contents of a list of tabs.
pub open spec fn tab_views(list: Seq<RequestTabState>) -> Seq<TabView> {
    list.map_values(|t: RequestTabState| t@)
}

impl RequestTabState {
    /// A tab without unsaved changes.
    pub fn saved(resource: ResourceIdentity, title: &str) -> (r: RequestTabState)
        ensures
            r@ == (TabView {
                resource: resource@,
                title: title@,
                dirty: false,
                pinned: false,
                preview: false,
            }),
    {
        RequestTabState {
            resource,
            title: title.to_owned(),
            dirty: false,
            pinned: false,
            preview: false,
        }
    }

    /// A tab of a request that was never saved.
    pub fn draft(id: StableId, title: &str) -> (r: RequestTabState)
        ensures
            r@ == (TabView {
                resource: IdentityView::Draft(id@),
                title: title@,
                dirty: true,
                pinned: false,
                preview: false,
            }),
    {
        RequestTabState {
            resource: ResourceIdentity::Draft(id),
            title: title.to_owned(),
            dirty: true,
            pinned: false,
            preview: false,
        }
    }

    /// The same tab.
    pub fn copy(&self) -> (r: RequestTabState)
        ensures
            r@ == self@,
    {
        RequestTabState {
            resource: self.resource.copy(),
            title: self.title.clone(),
            dirty: self.dirty,
            pinned: self.pinned,
            preview: self.preview,
        }
    }
}

/// Why a tab cannot be closed or changed.
#[derive(Clone, Debug, PartialEq, Eq)]
pub enum CloseTabError {
    InvalidIndex(usize),
    UnsavedChanges { index: usize, title: String },
}

/// Why a tab cannot be closed or changed, by its contents.
pub enum TabErrorView {
    InvalidIndex(int),
    UnsavedChanges { index: int, title: Seq<char> },
}

impl View for CloseTabError {
    type V = TabErrorView;

    open spec fn view(&self) -> TabErrorView {
        match self {
            CloseTabError::InvalidIndex(index) => TabErrorView::InvalidIndex(*index as int),
            CloseTabError::UnsavedChanges { index, title } => TabErrorView::UnsavedChanges {
                index: *index as int,
                title: title@,
            },
        }
    }
}

/// What is said of a tab that cannot be closed or changed.
pub open spec fn tab_error_text(error: TabErrorView) -> Seq<char> {
    match error {
        TabErrorView::InvalidIndex(index) => "tab index "@ + decimal(index as nat)
            + " does not exist"@,
        TabErrorView::UnsavedChanges { title, .. } => "tab '"@ + title + "' has unsaved changes"@,
    }
}

impl CloseTabError {
    /// What the error says.
    pub fn message(&self) -> (r: String)
        ensures
            r@ == tab_error_text(self@),
    {
        match self {
            CloseTabError::InvalidIndex(index) => concat3(
                "tab index ",
                decimal_text(*index as u64).as_str(),
                " does not exist",
            ),
            CloseTabError::UnsavedChanges { title, .. } => concat3(
                "tab '",
                title.as_str(),
                "' has unsaved changes",
            ),
        }
    }
}

/// The tabs of a workspace: which one is active, and those that were closed last.
#[derive(Debug)]
pub struct WorkspaceSession {
    tabs: Vec<RequestTabState>,
    active_index: Option<usize>,
    /// The tabs that were closed, the last one first.
    recently_closed: Vec<RequestTabState>,
    maximum_recently_closed: usize,
}

/// The tabs of a workspace, by their contents.
#[verifier::ext_equal]
pub struct SessionView {
    pub tabs: Seq<TabView>,
    pub active: Option<int>,
    pub closed: Seq<TabView>,
    pub limit: nat,
}

impl View for WorkspaceSession {
    type V = SessionView;

    closed spec fn view(&self) -> SessionView {
        SessionView {
            tabs: tab_views(self.tabs@),
            active: match self.active_index {
                Some(i) => Some(i as int),
                None => None,
            },
            closed: tab_views(self.recently_closed@),
            limit: self.maximum_recently_closed as nat,
        }
    }
}

/// Whether the tabs are in order: no resource is open twice, one tab is active where there is
/// any, and no more closed tabs are kept than may be.
pub open spec fn sound(s: SessionView) -> bool {
    &&& forall|i: int, j: int|
        0 <= i < j < s.tabs.len() ==> key_of((#[trigger] s.tabs[i]).resource) != key_of(
            (#[trigger] s.tabs[j]).resource,
        )
    &&& match s.active {
        Some(a) => 0 <= a < s.tabs.len(),
        None => s.tabs.len() == 0,
    }
    &&& s.closed.len() <= s.limit
}

/// The first tab that shows a resource, counted from the given one.
pub open spec fn tab_of(tabs: Seq<TabView>, key: IdentityKey) -> Option<int>
    decreases tabs.len(),
{
    if tabs.len() == 0 {
        None
    } else {
        match tab_of(tabs.drop_last(), key) {
            Some(i) => Some(i),
            None => if key_of(tabs.last().resource) == key {
                Some(tabs.len() - 1)
            } else {
                None
            },
        }
    }
}

/// Whether a tab may give way to another preview.
pub open spec fn replaceable(tab: TabView) -> bool {
    tab.preview && !tab.dirty && !tab.pinned
}

/// The first tab that may give way to another preview.
pub open spec fn preview_tab(tabs: Seq<TabView>) -> Option<int>
    decreases tabs.len(),
{
    if tabs.len() == 0 {
        None
    } else {
        match preview_tab(tabs.drop_last()) {
            Some(i) => Some(i),
            None => if replaceable(tabs.last()) {
                Some(tabs.len() - 1)
            } else {
                None
            },
        }
    }
}

pub proof fn lemma_tab_of(tabs: Seq<TabView>, key: IdentityKey)
    ensures
        match tab_of(tabs, key) {
            Some(i) => 0 <= i < tabs.len() && key_of(tabs[i].resource) == key,
            None => forall|k: int|
                0 <= k < tabs.len() ==> key_of((#[trigger] tabs[k]).resource) != key,
        },
    decreases tabs.len(),
{
    if tabs.len() > 0 {
        let front = tabs.drop_last();
        lemma_tab_of(front, key);
        if tab_of(tabs, key) is None {
            assert forall|k: int| 0 <= k < tabs.len() implies key_of((#[trigger] tabs[k]).resource)
                != key by {
                if k < front.len() {
                    assert(front[k] == tabs[k]);
                }
            }
        }
    }
}

pub proof fn lemma_preview_tab(tabs: Seq<TabView>)
    ensures
        match preview_tab(tabs) {
            Some(i) => 0 <= i < tabs.len() && replaceable(tabs[i]),
            None => true,
        },
    decreases tabs.len(),
{
    if tabs.len() > 0 {
        lemma_preview_tab(tabs.drop_last());
    }
}

proof fn lemma_tab_of_found(tabs: Seq<TabView>, key: IdentityKey, k: int)
    requires
        0 <= k <= tabs.len(),
        tab_of(tabs.take(k), key) is Some,
    ensures
        tab_of(tabs, key) == tab_of(tabs.take(k), key),
    decreases tabs.len() - k,
{
    if k < tabs.len() {
        assert(tabs.take(k + 1).drop_last() =~= tabs.take(k));
        lemma_tab_of_found(tabs, key, k + 1);
    } else {
        assert(tabs.take(k) =~= tabs);
    }
}

proof fn lemma_preview_found(tabs: Seq<TabView>, k: int)
    requires
        0 <= k <= tabs.len(),
        preview_tab(tabs.take(k)) is Some,
    ensures
        preview_tab(tabs) == preview_tab(tabs.take(k)),
    decreases tabs.len() - k,
{
    if k < tabs.len() {
        assert(tabs.take(k + 1).drop_last() =~= tabs.take(k));
        lemma_preview_found(tabs, k + 1);
    } else {
        assert(tabs.take(k) =~= tabs);
    }
}

/// The tabs after one was opened, and which it is: a resource that is open already is only
/// shown, and a preview takes the place of one that may give way.
pub open spec fn opened(s: SessionView, tab: TabView) -> (int, SessionView) {
    match tab_of(s.tabs, key_of(tab.resource)) {
        Some(i) => (i, SessionView { active: Some(i), ..s }),
        None => if tab.preview && preview_tab(s.tabs) is Some {
            let i = preview_tab(s.tabs)->Some_0;
            (i, SessionView { tabs: s.tabs.update(i, tab), active: Some(i), ..s })
        } else {
            let kept = TabView { preview: tab.preview && !tab.pinned, ..tab };
            let i = s.tabs.len() as int;
            (i, SessionView { tabs: s.tabs.push(kept), active: Some(i), ..s })
        },
    }
}

/// The tab with unsaved changes or without.
pub open spec fn marked(tab: TabView, dirty: bool) -> TabView {
    TabView { dirty, preview: tab.preview && !dirty, ..tab }
}

/// The tab pinned or not.
pub open spec fn pinned_tab(tab: TabView, pinned: bool) -> TabView {
    TabView { pinned, preview: tab.preview && !pinned, ..tab }
}

/// Where a tab goes when another takes a place further on or further back.
pub open spec fn moved_index(active: int, from: int, to: int) -> int {
    if active == from {
        to
    } else if from < active <= to {
        active - 1
    } else if to <= active < from {
        active + 1
    } else {
        active
    }
}

/// The tabs with one of them in another place; the same tab stays active.
pub open spec fn reordered(s: SessionView, from: int, to: int) -> SessionView {
    SessionView {
        tabs: s.tabs.remove(from).insert(to, s.tabs[from]),
        active: match s.active {
            Some(a) => Some(moved_index(a, from, to)),
            None => None,
        },
        ..s
    }
}

/// The tabs that were closed, with one more.
pub open spec fn remembered(closed: Seq<TabView>, tab: TabView, limit: nat) -> Seq<TabView> {
    let all = seq![tab] + closed;
    if all.len() <= limit {
        all
    } else {
        all.take(limit as int)
    }
}

/// The tabs that were closed, with some more.
pub open spec fn all_remembered(closed: Seq<TabView>, list: Seq<TabView>, limit: nat) -> Seq<TabView>
    decreases list.len(),
{
    if list.len() == 0 {
        closed
    } else {
        remembered(all_remembered(closed, list.drop_last(), limit), list.last(), limit)
    }
}

/// The tabs without one of them: the same tab stays active, and where it was the active one,
/// the one that takes its place is.
pub open spec fn without_tab(s: SessionView, i: int) -> SessionView {
    let tabs = s.tabs.remove(i);
    SessionView {
        tabs,
        active: if tabs.len() == 0 {
            None
        } else {
            match s.active {
                Some(a) => Some(
                    if a == i {
                        if i < tabs.len() {
                            i
                        } else {
                            tabs.len() - 1
                        }
                    } else if a > i {
                        a - 1
                    } else {
                        a
                    },
                ),
                None => None,
            }
        },
        closed: remembered(s.closed, s.tabs[i], s.limit),
        ..s
    }
}

/// The first tab with unsaved changes from the given one on, but for one.
pub open spec fn dirty_from(tabs: Seq<TabView>, from: int, but: int) -> Option<int>
    decreases tabs.len() - from,
{
    if from < 0 || from >= tabs.len() {
        None
    } else if from != but && tabs[from].dirty {
        Some(from)
    } else {
        dirty_from(tabs, from + 1, but)
    }
}

proof fn lemma_dirty_from(tabs: Seq<TabView>, from: int, but: int)
    requires
        0 <= from,
    ensures
        match dirty_from(tabs, from, but) {
            Some(i) => from <= i < tabs.len() && i != but && tabs[i].dirty,
            None => forall|k: int|
                from <= k < tabs.len() && k != but ==> !(#[trigger] tabs[k]).dirty,
        },
    decreases tabs.len() - from,
{
    if from < tabs.len() && !(from != but && tabs[from].dirty) {
        lemma_dirty_from(tabs, from + 1, but);
    }
}

/// The outcome of closing all tabs but one.
pub open spec fn others_closed(s: SessionView, keep: int) -> (Result<(), TabErrorView>, SessionView) {
    if keep < 0 || keep >= s.tabs.len() {
        (Err(TabErrorView::InvalidIndex(keep)), s)
    } else {
        match dirty_from(s.tabs, 0, keep) {
            Some(i) => (
                Err(TabErrorView::UnsavedChanges { index: i, title: s.tabs[i].title }),
                s,
            ),
            None => (
                Ok(()),
                SessionView {
                    tabs: seq![s.tabs[keep]],
                    active: Some(0),
                    closed: all_remembered(s.closed, s.tabs.remove(keep), s.limit),
                    ..s
                },
            ),
        }
    }
}

/// The outcome of closing all tabs after one.
pub open spec fn right_closed(s: SessionView, index: int) -> (Result<(), TabErrorView>, SessionView) {
    if index < 0 || index >= s.tabs.len() {
        (Err(TabErrorView::InvalidIndex(index)), s)
    } else {
        match dirty_from(s.tabs, index + 1, -1) {
            Some(i) => (
                Err(TabErrorView::UnsavedChanges { index: i, title: s.tabs[i].title }),
                s,
            ),
            None => (
                Ok(()),
                SessionView {
                    tabs: s.tabs.take(index + 1),
                    active: match s.active {
                        Some(a) => Some(
                            if a < index {
                                a
                            } else {
                                index
                            },
                        ),
                        None => Some(index),
                    },
                    closed: all_remembered(s.closed, s.tabs.skip(index + 1), s.limit),
                    ..s
                },
            ),
        }
    }
}

/// The outcome of closing a tab, whatever it holds.
pub open spec fn force_closed(s: SessionView, index: int) -> (
    Result<TabView, TabErrorView>,
    SessionView,
) {
    if index < 0 || index >= s.tabs.len() {
        (Err(TabErrorView::InvalidIndex(index)), s)
    } else {
        (Ok(s.tabs[index]), without_tab(s, index))
    }
}

/// The outcome of closing a tab: one with unsaved changes stays.
pub open spec fn tab_closed(s: SessionView, index: int) -> (
    Result<TabView, TabErrorView>,
    SessionView,
) {
    if index < 0 || index >= s.tabs.len() {
        (Err(TabErrorView::InvalidIndex(index)), s)
    } else if s.tabs[index].dirty {
        (Err(TabErrorView::UnsavedChanges { index, title: s.tabs[index].title }), s)
    } else {
        force_closed(s, index)
    }
}

/// The outcome of opening the tab that was closed last.
pub open spec fn reopened(s: SessionView) -> (Option<int>, SessionView) {
    if s.closed.len() == 0 {
        (None, s)
    } else {
        let (i, after) = opened(SessionView { closed: s.closed.skip(1), ..s }, s.closed[0]);
        (Some(i), after)
    }
}

/// The contents of the outcome of an operation on tabs.
pub open spec fn tab_outcome(r: Result<(), CloseTabError>) -> Result<(), TabErrorView> {
    match r {
        Ok(_) => Ok(()),
        Err(e) => Err(e@),
    }
}

proof fn lemma_remembered_bounded(closed: Seq<TabView>, list: Seq<TabView>, limit: nat)
    requires
        closed.len() <= limit,
    ensures
        all_remembered(closed, list, limit).len() <= limit,
    decreases list.len(),
{
    if list.len() > 0 {
        lemma_remembered_bounded(closed, list.drop_last(), limit);
    }
}

impl WorkspaceSession {
    /// Whether the tabs are in order.
    pub open spec fn wf(&self) -> bool {
        sound(self@)
    }

    /// No tabs; as many closed ones are kept as is said.
    pub fn new(maximum_recently_closed: usize) -> (r: WorkspaceSession)
        ensures
            r.wf(),
            r@ == (SessionView {
                tabs: seq![],
                active: None,
                closed: seq![],
                limit: maximum_recently_closed as nat,
            }),
    {
        let r = WorkspaceSession {
            tabs: Vec::new(),
            active_index: None,
            recently_closed: Vec::new(),
            maximum_recently_closed,
        };
        assert(r@.tabs =~= seq![]);
        assert(r@.closed =~= seq![]);
        r
    }

    /// The tabs.
    pub fn tabs(&self) -> (r: &[RequestTabState])
        ensures
            tab_views(r@) == self@.tabs,
            r@.len() == self@.tabs.len(),
    {
        self.tabs.as_slice()
    }

    /// How many closed tabs are kept.
    pub fn recently_closed_count(&self) -> (r: usize)
        ensures
            r == self@.closed.len(),
    {
        self.recently_closed.len()
    }

    /// Which tab is active.
    pub fn active_index(&self) -> (r: Option<usize>)
        ensures
            self@.active == match r {
                Some(i) => Some(i as int),
                None => None,
            },
    {
        self.active_index
    }

    /// The tab that is active.
    pub fn active(&self) -> (r: Option<&RequestTabState>)
        requires
            self.wf(),
        ensures
            match r {
                Some(t) => self@.active is Some && t@ == self@.tabs[self@.active->Some_0],
                None => self@.active is None,
            },
    {
        match self.active_index {
            Some(i) => {
                assert(self@.tabs.len() == self.tabs@.len());
                Some(&self.tabs[i])
            },
            None => None,
        }
    }

    /// Makes a tab the active one.
    pub fn activate(&mut self, index: usize) -> (r: Result<(), CloseTabError>)
        requires
            old(self).wf(),
        ensures
            final(self).wf(),
            (tab_outcome(r), final(self)@) == (if index < old(self)@.tabs.len() {
                (Ok::<(), TabErrorView>(()), SessionView { active: Some(index as int), ..old(self)@ })
            } else {
                (Err::<(), TabErrorView>(TabErrorView::InvalidIndex(index as int)), old(self)@)
            }),
    {
        assert(self@.tabs.len() == self.tabs@.len());
        if index >= self.tabs.len() {
            return Err(CloseTabError::InvalidIndex(index));
        }
        self.active_index = Some(index);
        Ok(())
    }

    /// The tab that shows a resource, if any does.
    pub fn position(&self, resource: &ResourceIdentity) -> (r: Option<usize>)
        ensures
            tab_of(self@.tabs, key_of(resource@)) == match r {
                Some(i) => Some(i as int),
                None => None,
            },
    {
        let ghost all = self@.tabs;
        let ghost key = key_of(resource@);
        assert(all.take(0) =~= seq![]);
        for i in 0..self.tabs.len()
            invariant
                all == self@.tabs,
                all == tab_views(self.tabs@),
                key == key_of(resource@),
                tab_of(all.take(i as int), key) is None,
        {
            proof {
                assert(all[i as int] == self.tabs@[i as int]@);
                assert(all.take(i + 1).drop_last() =~= all.take(i as int));
                assert(all.take(i + 1).last() == all[i as int]);
            }
            if self.tabs[i].resource.same(resource) {
                proof {
                    lemma_tab_of_found(all, key, i + 1);
                }
                return Some(i);
            }
        }
        assert(all.take(self.tabs@.len() as int) =~= all);
        None
    }

    fn preview_position(&self) -> (r: Option<usize>)
        ensures
            preview_tab(self@.tabs) == match r {
                Some(i) => Some(i as int),
                None => None,
            },
    {
        let ghost all = self@.tabs;
        assert(all.take(0) =~= seq![]);
        for i in 0..self.tabs.len()
            invariant
                all == self@.tabs,
                all == tab_views(self.tabs@),
                preview_tab(all.take(i as int)) is None,
        {
            proof {
                assert(all[i as int] == self.tabs@[i as int]@);
                assert(all.take(i + 1).drop_last() =~= all.take(i as int));
                assert(all.take(i + 1).last() == all[i as int]);
            }
            let tab = &self.tabs[i];
            if tab.preview && !tab.dirty && !tab.pinned {
                proof {
                    lemma_preview_found(all, i + 1);
                }
                return Some(i);
            }
        }
        assert(all.take(self.tabs@.len() as int) =~= all);
        None
    }

    /// Opens a tab, or shows the one that is open already.
    pub fn open(&mut self, tab: RequestTabState) -> (index: usize)
        requires
            old(self).wf(),
            old(self)@.tabs.len() < usize::MAX,
        ensures
            final(self).wf(),
            (index as int, final(self)@) == opened(old(self)@, tab@),
    {
        let ghost start = self@;
        proof {
            lemma_tab_of(start.tabs, key_of(tab@.resource));
            lemma_preview_tab(start.tabs);
        }
        if let Some(index) = self.position(&tab.resource) {
            self.active_index = Some(index);
            return index;
        }
        if tab.preview {
            if let Some(index) = self.preview_position() {
                let ghost t = tab@;
                self.tabs.set(index, tab);
                self.active_index = Some(index);
                assert(self@.tabs =~= start.tabs.update(index as int, t));
                return index;
            }
        }
        let mut tab = tab;
        if tab.pinned {
            tab.preview = false;
        }
        let ghost t = tab@;
        let index: usize = self.tabs.len();
        self.tabs.push(tab);
        self.active_index = Some(index);
        assert(self@.tabs =~= start.tabs.push(t));
        index
    }

    /// Notes whether a tab has unsaved changes; one that has is no preview.
    pub fn mark_dirty(&mut self, index: usize, dirty: bool) -> (r: Result<(), CloseTabError>)
        requires
            old(self).wf(),
        ensures
            final(self).wf(),
            (tab_outcome(r), final(self)@) == (if index < old(self)@.tabs.len() {
                (
                    Ok::<(), TabErrorView>(()),
                    SessionView {
                        tabs: old(self)@.tabs.update(
                            index as int,
                            marked(old(self)@.tabs[index as int], dirty),
                        ),
                        ..old(self)@
                    },
                )
            } else {
                (Err::<(), TabErrorView>(TabErrorView::InvalidIndex(index as int)), old(self)@)
            }),
    {
        let ghost start = self@;
        assert(start.tabs.len() == self.tabs@.len());
        if index >= self.tabs.len() {
            return Err(CloseTabError::InvalidIndex(index));
        }
        let mut tab = self.tabs[index].copy();
        tab.dirty = dirty;
        if dirty {
            tab.preview = false;
        }
        let ghost t = tab@;
        self.tabs.set(index, tab);
        assert(self@.tabs =~= start.tabs.update(index as int, t));
        Ok(())
    }

    /// Pins a tab or not; one that is pinned is no preview.
    pub fn set_pinned(&mut self, index: usize, pinned: bool) -> (r: Result<(), CloseTabError>)
        requires
            old(self).wf(),
        ensures
            final(self).wf(),
            (tab_outcome(r), final(self)@) == (if index < old(self)@.tabs.len() {
                (
                    Ok::<(), TabErrorView>(()),
                    SessionView {
                        tabs: old(self)@.tabs.update(
                            index as int,
                            pinned_tab(old(self)@.tabs[index as int], pinned),
                        ),
                        ..old(self)@
                    },
                )
            } else {
                (Err::<(), TabErrorView>(TabErrorView::InvalidIndex(index as int)), old(self)@)
            }),
    {
        let ghost start = self@;
        assert(start.tabs.len() == self.tabs@.len());
        if index >= self.tabs.len() {
            return Err(CloseTabError::InvalidIndex(index));
        }
        let mut tab = self.tabs[index].copy();
        tab.pinned = pinned;
        if pinned {
            tab.preview = false;
        }
        let ghost t = tab@;
        self.tabs.set(index, tab);
        assert(self@.tabs =~= start.tabs.update(index as int, t));
        Ok(())
    }

    /// Gives a tab another place; the same tab stays active.
    pub fn reorder(&mut self, from: usize, to: usize) -> (r: Result<(), CloseTabError>)
        requires
            old(self).wf(),
        ensures
            final(self).wf(),
            (tab_outcome(r), final(self)@) == (if from >= old(self)@.tabs.len() {
                (Err::<(), TabErrorView>(TabErrorView::InvalidIndex(from as int)), old(self)@)
            } else if to >= old(self)@.tabs.len() {
                (Err::<(), TabErrorView>(TabErrorView::InvalidIndex(to as int)), old(self)@)
            } else {
                (Ok::<(), TabErrorView>(()), reordered(old(self)@, from as int, to as int))
            }),
    {
        let ghost start = self@;
        assert(start.tabs.len() == self.tabs@.len());
        if from >= self.tabs.len() {
            return Err(CloseTabError::InvalidIndex(from));
        }
        if to >= self.tabs.len() {
            return Err(CloseTabError::InvalidIndex(to));
        }
        if from == to {
            assert(start.tabs.remove(from as int).insert(to as int, start.tabs[from as int])
                =~= start.tabs);
            return Ok(());
        }
        let ghost t = start.tabs[from as int];
        let tab = self.tabs.remove(from);
        assert(tab@ == t);
        self.tabs.insert(to, tab);
        let ghost tabs = start.tabs.remove(from as int).insert(to as int, t);
        assert(tab_views(self.tabs@) =~= tabs);
        if let Some(a) = self.active_index {
            let moved: usize = if a == from {
                to
            } else if from < a && a <= to {
                a - 1
            } else if to <= a && a < from {
                a + 1
            } else {
                a
            };
            self.active_index = Some(moved);
        }
        proof {
            assert forall|i: int| 0 <= i < tabs.len() implies #[trigger] tabs[i]
                == start.tabs[moved_index(i, to as int, from as int)] by {}
            assert forall|i: int, j: int| 0 <= i < j < tabs.len() implies key_of(
                (#[trigger] tabs[i]).resource,
            ) != key_of((#[trigger] tabs[j]).resource) by {
                let x = moved_index(i, to as int, from as int);
                let y = moved_index(j, to as int, from as int);
                assert(tabs[i] == start.tabs[x] && tabs[j] == start.tabs[y]);
                assert(x != y);
                if x < y {
                    assert(key_of(start.tabs[x].resource) != key_of(start.tabs[y].resource));
                } else {
                    assert(key_of(start.tabs[y].resource) != key_of(start.tabs[x].resource));
                }
            }
        }
        Ok(())
    }

    fn remember_closed(&mut self, tab: RequestTabState)
        requires
            old(self)@.closed.len() <= old(self)@.limit,
        ensures
            final(self)@ == (SessionView {
                closed: remembered(old(self)@.closed, tab@, old(self)@.limit),
                ..old(self)@
            }),
    {
        let ghost start = self@;
        let ghost t = tab@;
        assert(start.closed.len() == self.recently_closed@.len());
        if self.maximum_recently_closed == 0 {
            assert(remembered(start.closed, t, start.limit) =~= start.closed);
            return;
        }
        if self.recently_closed.len() >= self.maximum_recently_closed {
            let _ = self.recently_closed.pop();
        }
        let ghost kept = tab_views(self.recently_closed@);
        self.recently_closed.insert(0, tab);
        proof {
            assert(tab_views(self.recently_closed@) =~= seq![t] + kept);
            assert(self@.closed =~= remembered(start.closed, t, start.limit));
        }
    }

    /// Closes a tab, unless it has unsaved changes.
    pub fn close(&mut self, index: usize) -> (r: Result<RequestTabState, CloseTabError>)
        requires
            old(self).wf(),
        ensures
            final(self).wf(),
            (crate::error::outcome(r), final(self)@) == tab_closed(old(self)@, index as int),
    {
        assert(self@.tabs.len() == self.tabs@.len());
        if index >= self.tabs.len() {
            return Err(CloseTabError::InvalidIndex(index));
        }
        assert(self@.tabs[index as int] == self.tabs@[index as int]@);
        if self.tabs[index].dirty {
            return Err(
                CloseTabError::UnsavedChanges { index, title: self.tabs[index].title.clone() },
            );
        }
        self.force_close(index)
    }

    /// Closes a tab, whatever it holds.
    pub fn force_close(&mut self, index: usize) -> (r: Result<RequestTabState, CloseTabError>)
        requires
            old(self).wf(),
        ensures
            final(self).wf(),
            (crate::error::outcome(r), final(self)@) == force_closed(old(self)@, index as int),
    {
        let ghost start = self@;
        assert(start.tabs.len() == self.tabs@.len());
        if index >= self.tabs.len() {
            return Err(CloseTabError::InvalidIndex(index));
        }
        let removed = self.tabs.remove(index);
        proof {
            assert(removed@ == start.tabs[index as int]);
            assert(tab_views(self.tabs@) =~= start.tabs.remove(index as int));
        }
        self.remember_closed(removed.copy());
        let left: usize = self.tabs.len();
        self.active_index = if left == 0 {
            None
        } else {
            match self.active_index {
                Some(a) => Some(
                    if a == index {
                        if index < left {
                            index
                        } else {
                            left - 1
                        }
                    } else if a > index {
                        a - 1
                    } else {
                        a
                    },
                ),
                None => None,
            }
        };
        proof {
            lemma_without_tab_sound(start, index as int);
            assert(self@ =~= without_tab(start, index as int));
        }
        Ok(removed)
    }

    fn dirty_position(&self, from: usize, but: usize) -> (r: Option<usize>)
        requires
            from <= self@.tabs.len(),
        ensures
            dirty_from(self@.tabs, from as int, but as int) == match r {
                Some(i) => Some(i as int),
                None => None,
            },
            r matches Some(i) ==> i < self@.tabs.len(),
    {
        let ghost all = self@.tabs;
        assert(all.len() == self.tabs@.len());
        for i in from..self.tabs.len()
            invariant
                all == self@.tabs,
                all == tab_views(self.tabs@),
                from <= self.tabs@.len(),
                dirty_from(all, from as int, but as int) == dirty_from(
                    all,
                    i as int,
                    but as int,
                ),
        {
            assert(all[i as int] == self.tabs@[i as int]@);
            if i != but && self.tabs[i].dirty {
                return Some(i);
            }
        }
        None
    }

    /// Closes all tabs but one, unless one of them has unsaved changes.
    pub fn close_others(&mut self, keep: usize) -> (r: Result<(), CloseTabError>)
        requires
            old(self).wf(),
        ensures
            final(self).wf(),
            (tab_outcome(r), final(self)@) == others_closed(old(self)@, keep as int),
    {
        let ghost start = self@;
        assert(start.tabs.len() == self.tabs@.len());
        if keep >= self.tabs.len() {
            return Err(CloseTabError::InvalidIndex(keep));
        }
        if let Some(index) = self.dirty_position(0, keep) {
            assert(start.tabs[index as int] == self.tabs@[index as int]@);
            return Err(
                CloseTabError::UnsavedChanges { index, title: self.tabs[index].title.clone() },
            );
        }
        let kept = self.tabs.remove(keep);
        let ghost k = kept@;
        let ghost rest = start.tabs.remove(keep as int);
        proof {
            assert(k == start.tabs[keep as int]);
            assert(tab_views(self.tabs@) =~= rest);
        }
        self.remember_all(0);
        self.tabs = vec![kept];
        self.active_index = Some(0);
        proof {
            assert(rest.skip(0) =~= rest);
            assert(tab_views(self.tabs@) =~= seq![k]);
            lemma_remembered_bounded(start.closed, rest, start.limit);
        }
        Ok(())
    }

    /// Notes the tabs from one on as closed.
    fn remember_all(&mut self, from: usize)
        requires
            from <= old(self)@.tabs.len(),
            old(self)@.closed.len() <= old(self)@.limit,
        ensures
            final(self)@ == (SessionView {
                closed: all_remembered(
                    old(self)@.closed,
                    old(self)@.tabs.skip(from as int),
                    old(self)@.limit,
                ),
                ..old(self)@
            }),
    {
        let ghost start = self@;
        let ghost list = start.tabs.skip(from as int);
        assert(start.tabs.len() == self.tabs@.len());
        assert(list.take(0) =~= seq![]);
        let count: usize = self.tabs.len();
        for i in from..count
            invariant
                start == old(self)@,
                count == start.tabs.len(),
                list == start.tabs.skip(from as int),
                from <= start.tabs.len(),
                start.tabs.len() == self.tabs@.len(),
                self@ == (SessionView {
                    closed: all_remembered(start.closed, list.take(i - from), start.limit),
                    ..start
                }),
                start.closed.len() <= start.limit,
        {
            proof {
                assert(list.take(i + 1 - from).drop_last() =~= list.take(i - from));
                assert(list.take(i + 1 - from).last() == list[i - from]);
                assert(self@.tabs[i as int] == self.tabs@[i as int]@);
                lemma_remembered_bounded(start.closed, list.take(i - from), start.limit);
            }
            let tab = self.tabs[i].copy();
            self.remember_closed(tab);
            assert(self@.tabs.len() == self.tabs@.len());
        }
        assert(list.take(start.tabs.len() - from) =~= list);
    }

    /// Closes all tabs after one, unless one of them has unsaved changes.
    pub fn close_to_right(&mut self, index: usize) -> (r: Result<(), CloseTabError>)
        requires
            old(self).wf(),
        ensures
            final(self).wf(),
            (tab_outcome(r), final(self)@) == right_closed(old(self)@, index as int),
    {
        let ghost start = self@;
        assert(start.tabs.len() == self.tabs@.len());
        let count: usize = self.tabs.len();
        if index >= count {
            return Err(CloseTabError::InvalidIndex(index));
        }
        proof {
            lemma_dirty_but(start.tabs, index + 1, count as int);
        }
        if let Some(at) = self.dirty_position(index + 1, count) {
            assert(start.tabs[at as int] == self.tabs@[at as int]@);
            return Err(
                CloseTabError::UnsavedChanges { index: at, title: self.tabs[at].title.clone() },
            );
        }
        self.remember_all(index + 1);
        self.tabs.truncate(index + 1);
        self.active_index = Some(
            match self.active_index {
                Some(a) => if a < index {
                    a
                } else {
                    index
                },
                None => index,
            },
        );
        proof {
            let tabs = start.tabs.take(index + 1);
            assert(tab_views(self.tabs@) =~= tabs);
            lemma_remembered_bounded(start.closed, start.tabs.skip(index + 1), start.limit);
            assert forall|i: int, j: int| 0 <= i < j < tabs.len() implies key_of(
                (#[trigger] tabs[i]).resource,
            ) != key_of((#[trigger] tabs[j]).resource) by {
                assert(tabs[i] == start.tabs[i] && tabs[j] == start.tabs[j]);
            }
        }
        Ok(())
    }

    /// Opens the tab that was closed last.
    pub fn reopen_closed(&mut self) -> (r: Option<usize>)
        requires
            old(self).wf(),
            old(self)@.tabs.len() < usize::MAX,
        ensures
            final(self).wf(),
            (match r {
                Some(i) => Some(i as int),
                None => None,
            }, final(self)@) == reopened(old(self)@),
    {
        let ghost start = self@;
        assert(start.closed.len() == self.recently_closed@.len());
        if self.recently_closed.len() == 0 {
            return None;
        }
        let tab = self.recently_closed.remove(0);
        proof {
            assert(tab@ == start.closed[0]);
            assert(self@.closed =~= start.closed.skip(1));
        }
        Some(self.open(tab))
    }
}

impl Default for WorkspaceSession {
    fn default() -> (r: WorkspaceSession)
        ensures
            r.wf(),
            r@ == (SessionView { tabs: seq![], active: None, closed: seq![], limit: 20 }),
    {
        WorkspaceSession::new(20)
    }
}

/// A tab that is not there changes nothing when it is left out.
proof fn lemma_dirty_but(tabs: Seq<TabView>, from: int, but: int)
    requires
        0 <= from,
        but >= tabs.len(),
    ensures
        dirty_from(tabs, from, but) == dirty_from(tabs, from, -1),
    decreases tabs.len() - from,
{
    if from < tabs.len() {
        lemma_dirty_but(tabs, from + 1, but);
    }
}

proof fn lemma_without_tab_sound(s: SessionView, i: int)
    requires
        sound(s),
        0 <= i < s.tabs.len(),
    ensures
        sound(without_tab(s, i)),
{
    let tabs = s.tabs.remove(i);
    assert forall|a: int, b: int| 0 <= a < b < tabs.len() implies key_of(
        (#[trigger] tabs[a]).resource,
    ) != key_of((#[trigger] tabs[b]).resource) by {
        let x = if a < i {
            a
        } else {
            a + 1
        };
        let y = if b < i {
            b
        } else {
            b + 1
        };
        assert(tabs[a] == s.tabs[x] && tabs[b] == s.tabs[y]);
    }
}

/// Unsaved changes are never given up in silence: whichever tabs are closed, other than by
/// force, and whatever is opened, a tab with unsaved changes is still there.
pub proof fn law_unsaved_tabs_stay(s: SessionView, index: int, tab: TabView, i: int)
    requires
        sound(s),
        0 <= i < s.tabs.len(),
        s.tabs[i].dirty,
    ensures
        tab_closed(s, index).1.tabs.contains(s.tabs[i]),
        right_closed(s, index).1.tabs.contains(s.tabs[i]),
        others_closed(s, index).1.tabs.contains(s.tabs[i]),
        opened(s, tab).1.tabs.contains(s.tabs[i]),
{
    let t = s.tabs[i];
    assert(s.tabs.contains(t));
    let a = tab_closed(s, index).1.tabs;
    if a != s.tabs {
        if i < index {
            assert(a[i] == t);
        } else {
            assert(a[i - 1] == t);
        }
    }
    let b = right_closed(s, index).1.tabs;
    if 0 <= index < s.tabs.len() {
        lemma_dirty_from(s.tabs, index + 1, -1);
        lemma_dirty_from(s.tabs, 0, index);
        if right_closed(s, index).0 is Ok {
            assert(i <= index);
            assert(b[i] == t);
        }
        if others_closed(s, index).0 is Ok {
            assert(i == index);
            assert(others_closed(s, index).1.tabs[0] == t);
        }
    }
    let c = opened(s, tab).1.tabs;
    lemma_preview_tab(s.tabs);
    lemma_tab_of(s.tabs, key_of(tab.resource));
    assert(c[i] == t);
}

/// A tab that was closed can be opened again as it was, and is then the active one, so long as
/// closed tabs are kept and it is no preview.
pub proof fn law_closed_tab_is_reopened(s: SessionView, index: int)
    requires
        sound(s),
        s.limit > 0,
        0 <= index < s.tabs.len(),
        !s.tabs[index].preview,
    ensures
        ({
            let (r, after) = reopened(force_closed(s, index).1);
            &&& r is Some
            &&& after.active == r
            &&& after.tabs[r->Some_0] == s.tabs[index]
            &&& after.tabs.len() == s.tabs.len()
        }),
{
    let closed = without_tab(s, index);
    let t = s.tabs[index];
    assert(closed.closed[0] == t);
    let start = SessionView { closed: closed.closed.skip(1), ..closed };
    lemma_tab_of(start.tabs, key_of(t.resource));
    if let Some(k) = tab_of(start.tabs, key_of(t.resource)) {
        let x = if k < index {
            k
        } else {
            k + 1
        };
        assert(start.tabs[k] == s.tabs[x]);
        if x < index {
            assert(key_of(s.tabs[x].resource) != key_of(s.tabs[index].resource));
        } else {
            assert(key_of(s.tabs[index].resource) != key_of(s.tabs[x].resource));
        }
    }
}

/// Closing another tab leaves the active one active.
pub proof fn law_closing_keeps_the_active_tab(s: SessionView, index: int)
    requires
        sound(s),
        0 <= index < s.tabs.len(),
        s.active is Some,
        s.active != Some(index),
    ensures
        ({
            let after = force_closed(s, index).1;
            &&& after.active is Some
            &&& after.tabs[after.active->Some_0] == s.tabs[s.active->Some_0]
        }),
{
}

/// Giving a tab another place leaves the active one active.
pub proof fn law_reordering_keeps_the_active_tab(s: SessionView, from: int, to: int)
    requires
        sound(s),
        0 <= from < s.tabs.len(),
        0 <= to < s.tabs.len(),
    ensures
        ({
            let after = reordered(s, from, to);
            &&& after.active is Some
            &&& after.tabs[after.active->Some_0] == s.tabs[s.active->Some_0]
        }),
{
}

/// A resource is never open in two tabs: opening one that is open shows the tab that is there.
pub proof fn law_opening_again_adds_nothing(s: SessionView, tab: TabView)
    requires
        sound(s),
    ensures
        opened(opened(s, tab).1, tab).1 == opened(s, tab).1,
{
    let (i, after) = opened(s, tab);
    lemma_tab_of(s.tabs, key_of(tab.resource));
    lemma_preview_tab(s.tabs);
    lemma_tab_of(after.tabs, key_of(tab.resource));
    assert(key_of(after.tabs[i].resource) == key_of(tab.resource));
    let k = tab_of(after.tabs, key_of(tab.resource))->Some_0;
    assert(k == i) by {
        if tab_of(s.tabs, key_of(tab.resource)) is None {
            if k != i {
                assert(after.tabs[k] == s.tabs[k]);
            }
        }
    }
}

} // verus!
