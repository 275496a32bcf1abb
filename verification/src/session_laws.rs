//! What opening, closing and arranging tabs promises.
use crate::session::{
    all_remembered, dirty_from, force_closed, key_of, lemma_preview_tab, lemma_tab_of, marked,
    opened, others_closed, pinned_tab, preview_tab, remembered, reopened, reordered, right_closed,
    sound, tab_closed, SessionView, TabErrorView, TabView,
};
use vstd::prelude::*;

verus! {

/// Opening a tab shows its resource: where it is open already nothing else changes; otherwise
/// the tab is put at the end, or in the place of a preview that nothing was done with, and all
/// other tabs stay where they are.
pub proof fn law_opened_tabs_are_shown(s: SessionView, tab: TabView)
    requires
        sound(s),
    ensures
        ({
            let (i, after) = opened(s, tab);
            let known = exists|k: int|
                0 <= k < s.tabs.len() && key_of((#[trigger] s.tabs[k]).resource) == key_of(
                    tab.resource,
                );
            &&& 0 <= i < after.tabs.len()
            &&& after.active == Some(i)
            &&& key_of(after.tabs[i].resource) == key_of(tab.resource)
            &&& after.closed == s.closed && after.limit == s.limit
            &&& known ==> after.tabs == s.tabs
            &&& !known ==> {
                &&& after.tabs[i].resource == tab.resource
                &&& after.tabs[i].title == tab.title
                &&& after.tabs[i].dirty == tab.dirty
                &&& after.tabs[i].pinned == tab.pinned
                &&& forall|k: int|
                    0 <= k < s.tabs.len() && k != i ==> #[trigger] after.tabs[k] == s.tabs[k]
                &&& i == s.tabs.len() ==> after.tabs.len() == s.tabs.len() + 1
                    && after.tabs[i].preview == (tab.preview && !tab.pinned)
                &&& i < s.tabs.len() ==> after.tabs.len() == s.tabs.len() && tab.preview
                    && s.tabs[i].preview && !s.tabs[i].dirty && !s.tabs[i].pinned
                &&& !tab.preview ==> i == s.tabs.len()
            }
        }),
{
    lemma_tab_of(s.tabs, key_of(tab.resource));
    lemma_preview_tab(s.tabs);
}

/// A preview takes the place of a preview that nothing was done with, so that there is but one.
pub proof fn law_previews_give_way(s: SessionView, tab: TabView, k: int)
    requires
        sound(s),
        tab.preview,
        0 <= k < s.tabs.len(),
        s.tabs[k].preview && !s.tabs[k].dirty && !s.tabs[k].pinned,
        forall|j: int|
            0 <= j < s.tabs.len() ==> key_of((#[trigger] s.tabs[j]).resource) != key_of(
                tab.resource,
            ),
    ensures
        opened(s, tab).1.tabs.len() == s.tabs.len(),
        opened(s, tab).1.tabs[opened(s, tab).0] == tab,
{
    lemma_tab_of(s.tabs, key_of(tab.resource));
    lemma_preview_tab(s.tabs);
    lemma_there_is_a_preview(s.tabs, k);
}

proof fn lemma_there_is_a_preview(tabs: Seq<TabView>, k: int)
    requires
        0 <= k < tabs.len(),
        tabs[k].preview && !tabs[k].dirty && !tabs[k].pinned,
    ensures
        preview_tab(tabs) is Some,
    decreases tabs.len(),
{
    if k < tabs.len() - 1 {
        assert(tabs.drop_last()[k] == tabs[k]);
        lemma_there_is_a_preview(tabs.drop_last(), k);
    }
}

/// A tab that is changed or pinned is no preview any more; nothing else of it changes.
pub proof fn law_tabs_in_use_are_no_previews(tab: TabView, on: bool)
    ensures
        marked(tab, on).dirty == on,
        pinned_tab(tab, on).pinned == on,
        on ==> !marked(tab, on).preview && !pinned_tab(tab, on).preview,
        !on ==> marked(tab, on).preview == tab.preview && pinned_tab(tab, on).preview
            == tab.preview,
        marked(tab, on).pinned == tab.pinned && pinned_tab(tab, on).dirty == tab.dirty,
        marked(tab, on).resource == tab.resource && pinned_tab(tab, on).resource == tab.resource,
        marked(tab, on).title == tab.title && pinned_tab(tab, on).title == tab.title,
{
}

/// A tab that is given another place stands there, and the others keep their order.
pub proof fn law_reordering_moves_one_tab(s: SessionView, from: int, to: int)
    requires
        0 <= from < s.tabs.len(),
        0 <= to < s.tabs.len(),
    ensures
        reordered(s, from, to).tabs.len() == s.tabs.len(),
        reordered(s, from, to).tabs[to] == s.tabs[from],
        reordered(s, from, to).tabs.remove(to) == s.tabs.remove(from),
        reordered(s, from, to).closed == s.closed,
{
    assert(reordered(s, from, to).tabs.remove(to) =~= s.tabs.remove(from));
}

/// A tab that is closed is given back and is the one that was closed last; the others keep
/// their order. Where it was the active one, the tab after it is, or the last.
pub proof fn law_closing_takes_one_tab_away(s: SessionView, index: int)
    requires
        sound(s),
        0 <= index < s.tabs.len(),
    ensures
        ({
            let (r, after) = force_closed(s, index);
            &&& r == Ok::<TabView, TabErrorView>(s.tabs[index])
            &&& after.tabs == s.tabs.remove(index)
            &&& after.limit == s.limit
            &&& s.limit > 0 ==> after.closed.len() > 0 && after.closed[0] == s.tabs[index]
            &&& forall|k: int|
                1 <= k < after.closed.len() ==> #[trigger] after.closed[k] == s.closed[k - 1]
            &&& after.closed.len() == if s.closed.len() < s.limit {
                s.closed.len() + 1
            } else {
                s.limit
            }
            &&& after.tabs.len() == 0 ==> after.active is None
            &&& after.tabs.len() > 0 && s.active == Some(index) ==> after.active == Some(
                if index < after.tabs.len() {
                    index
                } else {
                    after.tabs.len() - 1
                },
            )
        }),
{
}

/// A tab with unsaved changes is not closed; the refusal names it. Any other is closed.
pub proof fn law_unsaved_tabs_are_not_closed(s: SessionView, index: int)
    ensures
        !(0 <= index < s.tabs.len()) ==> tab_closed(s, index) == (
            Err::<TabView, TabErrorView>(TabErrorView::InvalidIndex(index)),
            s,
        ) && force_closed(s, index) == (
            Err::<TabView, TabErrorView>(TabErrorView::InvalidIndex(index)),
            s,
        ),
        0 <= index < s.tabs.len() && s.tabs[index].dirty ==> tab_closed(s, index) == (
            Err::<TabView, TabErrorView>(
                TabErrorView::UnsavedChanges { index, title: s.tabs[index].title },
            ),
            s,
        ),
        0 <= index < s.tabs.len() && !s.tabs[index].dirty ==> tab_closed(s, index) == force_closed(
            s,
            index,
        ),
{
}

/// No more than so many of some tabs.
pub open spec fn at_most(list: Seq<TabView>, limit: nat) -> Seq<TabView> {
    if list.len() <= limit {
        list
    } else {
        list.take(limit as int)
    }
}

proof fn lemma_all_remembered(closed: Seq<TabView>, list: Seq<TabView>, limit: nat)
    requires
        closed.len() <= limit,
    ensures
        all_remembered(closed, list, limit) == at_most(list.reverse() + closed, limit),
    decreases list.len(),
{
    if list.len() == 0 {
        assert(list.reverse() + closed =~= closed);
    } else {
        let front = list.drop_last();
        lemma_all_remembered(closed, front, limit);
        let before = front.reverse() + closed;
        let whole = list.reverse() + closed;
        assert(whole =~= seq![list.last()] + before);
        assert(all_remembered(closed, list, limit) =~= at_most(whole, limit));
    }
}

proof fn lemma_first_unsaved(tabs: Seq<TabView>, from: int, but: int)
    requires
        0 <= from,
    ensures
        match dirty_from(tabs, from, but) {
            Some(i) => {
                &&& from <= i < tabs.len()
                &&& i != but
                &&& tabs[i].dirty
                &&& forall|k: int| from <= k < i && k != but ==> !(#[trigger] tabs[k]).dirty
            },
            None => forall|k: int|
                from <= k < tabs.len() && k != but ==> !(#[trigger] tabs[k]).dirty,
        },
    decreases tabs.len() - from,
{
    if from < tabs.len() && !(from != but && tabs[from].dirty) {
        lemma_first_unsaved(tabs, from + 1, but);
    }
}

/// Closing all tabs but one leaves that one, which is active, and remembers the others, the
/// last one first. Where one of the others has unsaved changes, the first such is named and
/// nothing is closed.
pub proof fn law_closing_the_others_leaves_one(s: SessionView, keep: int)
    requires
        sound(s),
        0 <= keep < s.tabs.len(),
    ensures
        ({
            let (r, after) = others_closed(s, keep);
            &&& r is Ok <==> forall|k: int|
                0 <= k < s.tabs.len() && k != keep ==> !(#[trigger] s.tabs[k]).dirty
            &&& r is Ok ==> {
                &&& after.tabs == seq![s.tabs[keep]]
                &&& after.active == Some(0int)
                &&& after.closed == at_most(s.tabs.remove(keep).reverse() + s.closed, s.limit)
                &&& after.limit == s.limit
            }
            &&& r matches Err(e) ==> after == s && (e matches TabErrorView::UnsavedChanges {
                index,
                title,
            } && 0 <= index < s.tabs.len() && index != keep && s.tabs[index].dirty && title
                == s.tabs[index].title && forall|k: int|
                0 <= k < index && k != keep ==> !(#[trigger] s.tabs[k]).dirty)
        }),
{
    lemma_first_unsaved(s.tabs, 0, keep);
    lemma_all_remembered(s.closed, s.tabs.remove(keep), s.limit);
}

/// Closing all tabs after one leaves those up to it, and remembers the others, the last one
/// first. A tab that is left stays active; otherwise the one is. Where one of those after it
/// has unsaved changes, the first such is named and nothing is closed.
pub proof fn law_closing_to_the_right_leaves_the_left(s: SessionView, index: int)
    requires
        sound(s),
        0 <= index < s.tabs.len(),
    ensures
        ({
            let (r, after) = right_closed(s, index);
            &&& r is Ok <==> forall|k: int|
                index < k < s.tabs.len() ==> !(#[trigger] s.tabs[k]).dirty
            &&& r is Ok ==> {
                &&& after.tabs == s.tabs.take(index + 1)
                &&& s.active matches Some(a) && after.active == Some(
                    if a <= index {
                        a
                    } else {
                        index
                    },
                )
                &&& after.closed == at_most(s.tabs.skip(index + 1).reverse() + s.closed, s.limit)
                &&& after.limit == s.limit
            }
            &&& r matches Err(e) ==> after == s && (e matches TabErrorView::UnsavedChanges {
                index: i,
                title,
            } && index < i < s.tabs.len() && s.tabs[i].dirty && title == s.tabs[i].title
                && forall|k: int| index < k < i ==> !(#[trigger] s.tabs[k]).dirty)
        }),
{
    lemma_first_unsaved(s.tabs, index + 1, -1);
    lemma_all_remembered(s.closed, s.tabs.skip(index + 1), s.limit);
    if right_closed(s, index).0 is Err {
        let i = dirty_from(s.tabs, index + 1, -1)->Some_0;
        assert(s.tabs[i].dirty);
    }
}

/// Tabs are opened again in the order opposite to that of their closing: the one that was
/// closed last is shown, and is not remembered any more.
pub proof fn law_the_last_closed_comes_first(s: SessionView)
    requires
        sound(s),
    ensures
        s.closed.len() == 0 ==> reopened(s) == (None::<int>, s),
        s.closed.len() > 0 ==> {
            let (r, after) = reopened(s);
            &&& r is Some
            &&& after.active == r
            &&& key_of(after.tabs[r->Some_0].resource) == key_of(s.closed[0].resource)
            &&& after.closed == s.closed.skip(1)
        },
{
    if s.closed.len() > 0 {
        let start = SessionView { closed: s.closed.skip(1), ..s };
        law_opened_tabs_are_shown(start, s.closed[0]);
    }
}

} // verus!
