//! Tabs: opening, closing, marking and reordering them.
use apex_api::domain::StableId;
use apex_api::paths::ResourcePath;
use apex_api::session::{CloseTabError, RequestTabState, ResourceIdentity, WorkspaceSession};

fn id(value: &str) -> StableId {
    StableId::parse(value).expect("valid identifier")
}

fn draft(value: &str, title: &str) -> RequestTabState {
    RequestTabState::saved(ResourceIdentity::Draft(id(value)), title)
}

fn request(path: &str, title: &str) -> RequestTabState {
    RequestTabState::saved(
        ResourceIdentity::WorkspaceRequest(ResourcePath::new(path)),
        title,
    )
}

#[test]
fn opening_same_resource_activates_existing_tab() {
    let mut session = WorkspaceSession::default();
    let resource = ResourceIdentity::WorkspaceRequest(ResourcePath::new("users/get.request.toml"));
    assert_eq!(session.open(RequestTabState::saved(resource.clone(), "Get user")), 0);
    assert_eq!(session.open(RequestTabState::saved(resource, "Renamed")), 0);
    assert_eq!(session.tabs().len(), 1);
    assert_eq!(session.active().map(|tab| tab.title.as_str()), Some("Get user"));
}

#[test]
fn dirty_preview_becomes_permanent_and_cannot_close_silently() {
    let mut session = WorkspaceSession::default();
    let mut tab = request("users/get.request.toml", "Get user");
    tab.preview = true;
    let index = session.open(tab);
    session.mark_dirty(index, true).expect("marks dirty");
    assert!(!session.tabs()[index].preview);
    assert!(matches!(session.close(index), Err(CloseTabError::UnsavedChanges { .. })));
}

#[test]
fn preview_reuses_only_clean_unpinned_preview_tab() {
    let mut session = WorkspaceSession::default();
    let mut first = request("users/a.request.toml", "A");
    first.preview = true;
    session.open(first);
    let mut second = request("users/b.request.toml", "B");
    second.preview = true;
    let index = session.open(second);
    assert_eq!(index, 0);
    assert_eq!(session.tabs().len(), 1);
    assert_eq!(session.tabs()[0].title, "B");
}

#[test]
fn close_right_is_atomic_when_a_dirty_tab_exists() {
    let mut session = WorkspaceSession::default();
    session.open(draft("a", "A"));
    session.open(draft("b", "B"));
    session.open(RequestTabState::draft(id("c"), "C"));
    let error = session.close_to_right(0).expect_err("dirty tab blocks close");
    assert!(matches!(error, CloseTabError::UnsavedChanges { index: 2, .. }));
    assert_eq!(session.tabs().len(), 3);
}

#[test]
fn closed_tab_can_be_reopened_with_identity_intact() {
    let mut session = WorkspaceSession::default();
    let resource = ResourceIdentity::WorkspaceRequest(ResourcePath::new("users/get.request.toml"));
    session.open(RequestTabState::saved(resource.clone(), "Get user"));
    session.close(0).expect("closes");
    let index = session.reopen_closed().expect("reopens");
    assert_eq!(index, 0);
    assert_eq!(session.tabs()[0].resource, resource);
}

#[test]
fn closing_inactive_tab_preserves_active_resource() {
    let mut session = WorkspaceSession::default();
    session.open(draft("a", "A"));
    session.open(draft("b", "B"));
    session.open(draft("c", "C"));
    session.activate(1).expect("activates B");

    session.close(0).expect("closes inactive A");

    assert_eq!(session.active().map(|tab| tab.title.as_str()), Some("B"));
}

#[test]
fn closing_active_tab_selects_nearest_remaining_tab() {
    let mut session = WorkspaceSession::default();
    session.open(draft("a", "A"));
    session.open(draft("b", "B"));
    session.open(draft("c", "C"));
    session.activate(1).expect("activates B");

    session.close(1).expect("closes active B");

    assert_eq!(session.active().map(|tab| tab.title.as_str()), Some("C"));
}

#[test]
fn reorder_preserves_active_resource() {
    let mut session = WorkspaceSession::default();
    session.open(draft("a", "A"));
    session.open(draft("b", "B"));
    session.reorder(0, 1).expect("reorders");
    assert_eq!(session.active().map(|tab| tab.title.as_str()), Some("B"));
}

#[test]
fn an_index_that_is_not_there_is_refused() {
    let mut session = WorkspaceSession::default();
    session.open(draft("a", "A"));
    assert_eq!(session.activate(3), Err(CloseTabError::InvalidIndex(3)));
    assert_eq!(
        session.activate(3).map_err(|e| e.message()),
        Err("tab index 3 does not exist".to_owned())
    );
    assert_eq!(session.reorder(0, 1), Err(CloseTabError::InvalidIndex(1)));
    assert_eq!(session.set_pinned(1, true), Err(CloseTabError::InvalidIndex(1)));
    assert_eq!(session.close_others(9), Err(CloseTabError::InvalidIndex(9)));
    assert_eq!(session.tabs().len(), 1);
}

#[test]
fn unsaved_tab_says_its_title() {
    let mut session = WorkspaceSession::default();
    session.open(RequestTabState::draft(id("a"), "Draft A"));
    let error = session.close(0).expect_err("unsaved");
    assert_eq!(error.message(), "tab 'Draft A' has unsaved changes");
    assert_eq!(session.force_close(0).map(|tab| tab.title), Ok("Draft A".to_owned()));
    assert!(session.active().is_none());
}

#[test]
fn closed_tabs_are_kept_up_to_the_limit_and_come_back_last_first() {
    let mut session = WorkspaceSession::new(2);
    for name in ["a", "b", "c", "d"] {
        session.open(draft(name, name));
    }
    session.close_others(3).expect("closes the others");
    assert_eq!(session.recently_closed_count(), 2);
    let index = session.reopen_closed().expect("reopens");
    assert_eq!(session.tabs()[index].title, "c");
    let index = session.reopen_closed().expect("reopens");
    assert_eq!(session.tabs()[index].title, "b");
    assert_eq!(session.reopen_closed(), None);
}

#[test]
fn paths_with_the_same_components_are_one_resource() {
    let mut session = WorkspaceSession::default();
    assert_eq!(session.open(request("users/get.request.toml", "Get")), 0);
    assert_eq!(session.open(request("users//get.request.toml", "Get")), 0);
    assert_eq!(session.open(request("users/./get.request.toml", "Get")), 0);
    assert_eq!(session.tabs().len(), 1);
}

#[test]
fn pinned_tab_is_no_preview() {
    let mut session = WorkspaceSession::default();
    let mut tab = request("a.request.toml", "A");
    tab.preview = true;
    session.open(tab);
    session.set_pinned(0, true).expect("pins");
    assert!(!session.tabs()[0].preview);
    let mut next = request("b.request.toml", "B");
    next.preview = true;
    assert_eq!(session.open(next), 1);
}
