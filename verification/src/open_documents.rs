//! The requests that are open, by what tells them apart.
use crate::document_store::{optional_store, DocumentStore, StoreView};
use crate::domain::{HttpRequest, RequestView};
use crate::external_state::{ExternalView, RequestExternalState};
use crate::fingerprint::FileFingerprint;
use crate::repository::expected_number;
use crate::sections::RequestSection;
use crate::session::{key_of, tab_views, IdentityKey, IdentityView, RequestTabState, ResourceIdentity, TabView};
use crate::text::{copy_optional_text, optional_text};
use vstd::prelude::*;

verus! {

/// A request that is open.
#[derive(Debug, PartialEq, Eq)]
pub struct OpenRequestDocument {
    pub request: HttpRequest,
    pub store: Option<DocumentStore>,
    pub fingerprint: Option<FileFingerprint>,
    pub document_error: Option<String>,
    pub external_state: RequestExternalState,
    pub selected_section: RequestSection,
    pub dirty: bool,
}

/// A request that is open, by its contents.
pub struct OpenView {
    pub request: RequestView,
    pub store: Option<StoreView>,
    pub fingerprint: Option<u64>,
    pub document_error: Option<Seq<char>>,
    pub external: ExternalView,
    pub section: RequestSection,
    pub dirty: bool,
}

impl View for OpenRequestDocument {
    type V = OpenView;

    open spec fn view(&self) -> OpenView {
        OpenView {
            request: self.request@,
            store: optional_store(self.store),
            fingerprint: expected_number(self.fingerprint),
            document_error: optional_text(self.document_error),
            external: self.external_state@,
            section: self.selected_section,
            dirty: self.dirty,
        }
    }
}

/// A request that was just opened.
pub open spec fn opened_document(
    request: RequestView,
    store: Option<StoreView>,
    fingerprint: Option<u64>,
    error: Option<Seq<char>>,
    dirty: bool,
) -> OpenView {
    OpenView {
        request,
        store,
        fingerprint,
        document_error: error,
        external: ExternalView::InSync,
        section: RequestSection::Params,
        dirty,
    }
}

/// The same place of a request, if there is one.
pub fn copy_store(store: &Option<DocumentStore>) -> (r: Option<DocumentStore>)
    ensures
        optional_store(r) == optional_store(*store),
{
    match store {
        Some(s) => Some(s.copy()),
        None => None,
    }
}

impl OpenRequestDocument {
    /// A request that was just opened.
    pub fn opened(
        request: HttpRequest,
        store: Option<DocumentStore>,
        fingerprint: Option<FileFingerprint>,
        error: Option<String>,
        dirty: bool,
    ) -> (r: OpenRequestDocument)
        ensures
            r@ == opened_document(
                request@,
                optional_store(store),
                expected_number(fingerprint),
                optional_text(error),
                dirty,
            ),
    {
        OpenRequestDocument {
            request,
            store,
            fingerprint,
            document_error: error,
            external_state: RequestExternalState::InSync,
            selected_section: RequestSection::Params,
            dirty,
        }
    }

    /// The same request.
    pub fn copy(&self) -> (r: OpenRequestDocument)
        ensures
            r@ == self@,
    {
        OpenRequestDocument {
            request: self.request.copy(),
            store: copy_store(&self.store),
            fingerprint: self.fingerprint,
            document_error: copy_optional_text(&self.document_error),
            external_state: self.external_state.copy(),
            selected_section: self.selected_section,
            dirty: self.dirty,
        }
    }
}

/// The open requests, by what tells them apart.
pub type OpenTable = Map<IdentityKey, OpenView>;

/// The contents of a list of open requests.
pub open spec fn entry_contents(list: Seq<(ResourceIdentity, OpenRequestDocument)>) -> Seq<
    (IdentityView, OpenView),
> {
    list.map_values(|e: (ResourceIdentity, OpenRequestDocument)| (e.0@, e.1@))
}

/// Whether no resource occurs twice.
pub open spec fn told_apart(list: Seq<(IdentityView, OpenView)>) -> bool {
    forall|i: int, j: int|
        0 <= i < j < list.len() ==> key_of((#[trigger] list[i]).0) != key_of(
            (#[trigger] list[j]).0,
        )
}

/// The open requests of a list.
pub open spec fn table_of(list: Seq<(IdentityView, OpenView)>) -> OpenTable
    decreases list.len(),
{
    if list.len() == 0 {
        Map::empty()
    } else {
        table_of(list.drop_last()).insert(key_of(list.last().0), list.last().1)
    }
}

proof fn lemma_table(list: Seq<(IdentityView, OpenView)>)
    requires
        told_apart(list),
    ensures
        forall|i: int|
            0 <= i < list.len() ==> table_of(list).dom().contains(key_of((#[trigger] list[i]).0))
                && table_of(list)[key_of(list[i].0)] == list[i].1,
        forall|k: IdentityKey| #[trigger]
            table_of(list).dom().contains(k) ==> exists|i: int|
                0 <= i < list.len() && key_of((#[trigger] list[i]).0) == k,
    decreases list.len(),
{
    if list.len() > 0 {
        let rest = list.drop_last();
        assert forall|i: int, j: int| 0 <= i < j < rest.len() implies key_of(
            (#[trigger] rest[i]).0,
        ) != key_of((#[trigger] rest[j]).0) by {
            assert(rest[i] == list[i] && rest[j] == list[j]);
        }
        lemma_table(rest);
        assert forall|i: int| 0 <= i < list.len() implies table_of(list).dom().contains(
            key_of((#[trigger] list[i]).0),
        ) && table_of(list)[key_of(list[i].0)] == list[i].1 by {
            if i < rest.len() {
                assert(rest[i] == list[i]);
                assert(key_of(list[i].0) != key_of(list[list.len() - 1].0));
            }
        }
        assert forall|k: IdentityKey| #[trigger] table_of(list).dom().contains(k) implies exists|
            i: int,
        |
            0 <= i < list.len() && key_of((#[trigger] list[i]).0) == k by {
            if k == key_of(list.last().0) {
                assert(list[list.len() - 1] == list.last());
            } else {
                let i = choose|i: int| 0 <= i < rest.len() && key_of((#[trigger] rest[i]).0) == k;
                assert(list[i] == rest[i]);
            }
        }
    }
}

/// The requests that are open.
#[derive(Debug)]
pub struct OpenDocuments {
    entries: Vec<(ResourceIdentity, OpenRequestDocument)>,
}

impl View for OpenDocuments {
    type V = OpenTable;

    closed spec fn view(&self) -> OpenTable {
        table_of(entry_contents(self.entries@))
    }
}

/// The open requests whose resource some tab shows.
pub open spec fn kept_open(table: OpenTable, tabs: Seq<TabView>) -> OpenTable {
    table.restrict(Set::new(|k: IdentityKey| shows(tabs, k)))
}

/// Whether some tab shows a resource.
pub open spec fn shows(tabs: Seq<TabView>, key: IdentityKey) -> bool {
    exists|i: int| 0 <= i < tabs.len() && key_of((#[trigger] tabs[i]).resource) == key
}

impl OpenDocuments {
    /// Whether no resource occurs twice.
    pub closed spec fn wf(&self) -> bool {
        told_apart(entry_contents(self.entries@))
    }

    /// No request is open.
    pub fn new() -> (r: OpenDocuments)
        ensures
            r.wf(),
            r@ == OpenTable::empty(),
    {
        let r = OpenDocuments { entries: Vec::new() };
        assert(entry_contents(r.entries@) =~= seq![]);
        r
    }

    fn position(&self, resource: &ResourceIdentity) -> (r: usize)
        ensures
            r <= self.entries@.len(),
            r < self.entries@.len() ==> key_of(self.entries@[r as int].0@) == key_of(resource@),
            r == self.entries@.len() ==> forall|k: int|
                0 <= k < self.entries@.len() ==> key_of((#[trigger] self.entries@[k]).0@) != key_of(
                    resource@,
                ),
    {
        let mut i: usize = 0;
        while i < self.entries.len()
            invariant
                i <= self.entries@.len(),
                forall|k: int|
                    0 <= k < i ==> key_of((#[trigger] self.entries@[k]).0@) != key_of(resource@),
            decreases self.entries@.len() - i,
        {
            if self.entries[i].0.same(resource) {
                return i;
            }
            i = i + 1;
        }
        i
    }

    /// Whether a resource is open.
    pub fn has(&self, resource: &ResourceIdentity) -> (r: bool)
        requires
            self.wf(),
        ensures
            r == self@.dom().contains(key_of(resource@)),
    {
        self.get(resource).is_some()
    }

    /// The request of a resource that is open.
    pub fn get(&self, resource: &ResourceIdentity) -> (r: Option<&OpenRequestDocument>)
        requires
            self.wf(),
        ensures
            match r {
                Some(d) => self@.dom().contains(key_of(resource@)) && self@[key_of(resource@)]
                    == d@,
                None => !self@.dom().contains(key_of(resource@)),
            },
    {
        let ghost list = entry_contents(self.entries@);
        let i = self.position(resource);
        proof {
            lemma_table(list);
        }
        if i < self.entries.len() {
            assert(list[i as int] == (self.entries@[i as int].0@, self.entries@[i as int].1@));
            Some(&self.entries[i].1)
        } else {
            proof {
                if self@.dom().contains(key_of(resource@)) {
                    let k = choose|k: int|
                        0 <= k < list.len() && key_of((#[trigger] list[k]).0) == key_of(resource@);
                    assert(list[k].0 == self.entries@[k].0@);
                }
            }
            None
        }
    }

    /// Opens a request under a resource, in place of what was open under it.
    pub fn insert(&mut self, resource: ResourceIdentity, document: OpenRequestDocument)
        requires
            old(self).wf(),
        ensures
            final(self).wf(),
            final(self)@ == old(self)@.insert(key_of(resource@), document@),
    {
        let ghost before = entry_contents(self.entries@);
        let ghost key = key_of(resource@);
        let ghost value = document@;
        let i = self.position(&resource);
        proof {
            lemma_table(before);
        }
        if i < self.entries.len() {
            let ghost at = before[i as int].0;
            assert(before[i as int] == (self.entries@[i as int].0@, self.entries@[i as int].1@));
            self.entries[i].1 = document;
            proof {
                let after = entry_contents(self.entries@);
                assert(after =~= before.update(i as int, (at, value)));
                assert forall|a: int, b: int| 0 <= a < b < after.len() implies key_of(
                    (#[trigger] after[a]).0,
                ) != key_of((#[trigger] after[b]).0) by {
                    assert(after[a].0 == before[a].0 && after[b].0 == before[b].0);
                }
                lemma_table(after);
                lemma_same_table(before, after, key, value, i as int);
            }
        } else {
            self.entries.push((resource, document));
            proof {
                let after = entry_contents(self.entries@);
                assert(after =~= before.push((resource@, value)));
                assert(after.drop_last() =~= before);
                assert forall|a: int, b: int| 0 <= a < b < after.len() implies key_of(
                    (#[trigger] after[a]).0,
                ) != key_of((#[trigger] after[b]).0) by {
                    assert(after[a].0 == before[a].0);
                    if b < before.len() {
                        assert(after[b].0 == before[b].0);
                    }
                }
            }
        }
    }

    /// Closes what is open under a resource.
    pub fn remove(&mut self, resource: &ResourceIdentity)
        requires
            old(self).wf(),
        ensures
            final(self).wf(),
            final(self)@ == old(self)@.remove(key_of(resource@)),
    {
        let ghost before = entry_contents(self.entries@);
        let ghost key = key_of(resource@);
        let i = self.position(resource);
        proof {
            lemma_table(before);
        }
        if i < self.entries.len() {
            let _ = self.entries.remove(i);
            proof {
                let after = entry_contents(self.entries@);
                assert(after =~= before.remove(i as int));
                lemma_without(before, i as int);
                assert(before[i as int].0 == old(self).entries@[i as int].0@);
            }
        } else {
            proof {
                if self@.dom().contains(key) {
                    let k = choose|k: int|
                        0 <= k < before.len() && key_of((#[trigger] before[k]).0) == key;
                    assert(before[k].0 == self.entries@[k].0@);
                }
                assert(self@.remove(key) =~= self@);
            }
        }
    }

    /// Closes the requests that no tab shows.
    pub fn retain(&mut self, tabs: &[RequestTabState])
        requires
            old(self).wf(),
        ensures
            final(self).wf(),
            final(self)@ == kept_open(old(self)@, tab_views(tabs@)),
    {
        let ghost views = tab_views(tabs@);
        let ghost start = self@;
        let ghost all = entry_contents(self.entries@);
        proof {
            lemma_table(all);
        }
        let mut i: usize = 0;
        while i < self.entries.len()
            invariant
                views == tab_views(tabs@),
                self.wf(),
                i <= self.entries@.len(),
                forall|k: int|
                    0 <= k < i ==> shows(views, key_of((#[trigger] self.entries@[k]).0@)),
                forall|k: IdentityKey|
                    shows(views, k) ==> (#[trigger] self@.dom().contains(k) <==> start.dom().contains(
                        k,
                    )),
                forall|k: IdentityKey| #[trigger]
                    self@.dom().contains(k) ==> start.dom().contains(k) && self@[k] == start[k],
            decreases self.entries@.len() - i,
        {
            let shown = is_shown(tabs, &self.entries[i].0);
            let ghost key = key_of(self.entries@[i as int].0@);
            if shown {
                i = i + 1;
            } else {
                let ghost before = entry_contents(self.entries@);
                let ghost held = self@;
                proof {
                    lemma_table(before);
                    assert(before[i as int].0 == self.entries@[i as int].0@);
                }
                let ghost old_entries = self.entries@;
                let _ = self.entries.remove(i);
                proof {
                    let after = entry_contents(self.entries@);
                    assert(after =~= before.remove(i as int));
                    lemma_without(before, i as int);
                    assert(self@ == held.remove(key));
                    assert forall|k: int| 0 <= k < i implies shows(
                        views,
                        key_of((#[trigger] self.entries@[k]).0@),
                    ) by {
                        assert(self.entries@[k] == old_entries[k]);
                    }
                }
            }
        }
        proof {
            lemma_table(entry_contents(self.entries@));
            let after = entry_contents(self.entries@);
            assert forall|k: IdentityKey| #[trigger] self@.dom().contains(k) implies shows(
                views,
                k,
            ) by {
                let j = choose|j: int| 0 <= j < after.len() && key_of((#[trigger] after[j]).0) == k;
                assert(after[j].0 == self.entries@[j].0@);
            }
            assert(self@ =~= kept_open(start, views));
        }
    }
}

fn is_shown(tabs: &[RequestTabState], resource: &ResourceIdentity) -> (r: bool)
    ensures
        r == shows(tab_views(tabs@), key_of(resource@)),
{
    let ghost views = tab_views(tabs@);
    let mut i: usize = 0;
    while i < tabs.len()
        invariant
            views == tab_views(tabs@),
            i <= tabs@.len(),
            forall|k: int|
                0 <= k < i ==> key_of((#[trigger] views[k]).resource) != key_of(resource@),
        decreases tabs@.len() - i,
    {
        assert(views[i as int].resource == tabs@[i as int].resource@);
        if tabs[i].resource.same(resource) {
            return true;
        }
        i = i + 1;
    }
    false
}

proof fn lemma_same_table(
    before: Seq<(IdentityView, OpenView)>,
    after: Seq<(IdentityView, OpenView)>,
    key: IdentityKey,
    value: OpenView,
    i: int,
)
    requires
        told_apart(before),
        told_apart(after),
        0 <= i < before.len(),
        key_of(before[i].0) == key,
        after == before.update(i, (before[i].0, value)),
    ensures
        table_of(after) == table_of(before).insert(key, value),
{
    lemma_table(before);
    lemma_table(after);
    let a = table_of(after);
    let b = table_of(before).insert(key, value);
    assert forall|k: IdentityKey| a.dom().contains(k) <==> b.dom().contains(k) by {
        if a.dom().contains(k) {
            let j = choose|j: int| 0 <= j < after.len() && key_of((#[trigger] after[j]).0) == k;
            assert(before[j].0 == after[j].0);
        }
        if b.dom().contains(k) {
            if k == key {
                assert(after[i].0 == before[i].0);
            } else {
                let j = choose|j: int|
                    0 <= j < before.len() && key_of((#[trigger] before[j]).0) == k;
                assert(before[j].0 == after[j].0);
            }
        }
    }
    assert forall|k: IdentityKey| a.dom().contains(k) implies a[k] == b[k] by {
        let j = choose|j: int| 0 <= j < after.len() && key_of((#[trigger] after[j]).0) == k;
        assert(before[j].0 == after[j].0);
        if j != i {
            assert(before[j] == after[j]);
            assert(key_of(before[j].0) != key_of(before[i].0)) by {
                if j < i {
                } else {
                }
            }
        }
    }
    assert(a =~= b);
}

proof fn lemma_without(before: Seq<(IdentityView, OpenView)>, i: int)
    requires
        told_apart(before),
        0 <= i < before.len(),
    ensures
        told_apart(before.remove(i)),
        table_of(before.remove(i)) == table_of(before).remove(key_of(before[i].0)),
{
    let after = before.remove(i);
    assert forall|a: int, b: int| 0 <= a < b < after.len() implies key_of((#[trigger] after[a]).0)
        != key_of((#[trigger] after[b]).0) by {
        let x = if a < i { a } else { a + 1 };
        let y = if b < i { b } else { b + 1 };
        assert(after[a] == before[x] && after[b] == before[y]);
    }
    lemma_table(before);
    lemma_table(after);
    let key = key_of(before[i].0);
    let p = table_of(after);
    let q = table_of(before).remove(key);
    assert forall|k: IdentityKey| p.dom().contains(k) <==> q.dom().contains(k) by {
        if p.dom().contains(k) {
            let j = choose|j: int| 0 <= j < after.len() && key_of((#[trigger] after[j]).0) == k;
            let x = if j < i { j } else { j + 1 };
            assert(after[j] == before[x]);
            assert(key_of(before[x].0) != key_of(before[i].0));
        }
        if q.dom().contains(k) {
            let j = choose|j: int| 0 <= j < before.len() && key_of((#[trigger] before[j]).0) == k;
            let x = if j < i { j } else { j - 1 };
            assert(after[x] == before[j]);
        }
    }
    assert forall|k: IdentityKey| p.dom().contains(k) implies p[k] == q[k] by {
        let j = choose|j: int| 0 <= j < after.len() && key_of((#[trigger] after[j]).0) == k;
        let x = if j < i { j } else { j + 1 };
        assert(after[j] == before[x]);
    }
    assert(p =~= q);
}

} // verus!
