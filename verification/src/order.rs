//! The order of texts, and maps from texts kept in that order.
use crate::text::{chars_of, same_text};
use vstd::prelude::*;

verus! {

/// Whether a text comes before another: by the code points of the first
/// characters that differ, a beginning before what it begins.
pub open spec fn text_lt(a: Seq<char>, b: Seq<char>) -> bool
    decreases a.len(),
{
    if b.len() == 0 {
        false
    } else if a.len() == 0 {
        true
    } else if a[0] != b[0] {
        (a[0] as int) < b[0] as int
    } else {
        text_lt(a.drop_first(), b.drop_first())
    }
}

/// Whether a text comes before another or is the same.
pub open spec fn text_le(a: Seq<char>, b: Seq<char>) -> bool {
    a == b || text_lt(a, b)
}

/// No text comes before itself.
pub proof fn lemma_text_lt_irreflexive(a: Seq<char>)
    ensures
        !text_lt(a, a),
    decreases a.len(),
{
    if a.len() > 0 {
        lemma_text_lt_irreflexive(a.drop_first());
    }
}

/// The order of texts is transitive.
pub proof fn lemma_text_lt_transitive(a: Seq<char>, b: Seq<char>, c: Seq<char>)
    requires
        text_lt(a, b),
        text_lt(b, c),
    ensures
        text_lt(a, c),
    decreases a.len(),
{
    if a.len() > 0 && a[0] == b[0] && b[0] == c[0] {
        lemma_text_lt_transitive(a.drop_first(), b.drop_first(), c.drop_first());
    }
}

/// Of two different texts one comes before the other.
pub proof fn lemma_text_lt_total(a: Seq<char>, b: Seq<char>)
    ensures
        a == b || text_lt(a, b) || text_lt(b, a),
    decreases a.len(),
{
    if a.len() == 0 {
        if b.len() == 0 {
            assert(a =~= b);
        }
    } else if b.len() > 0 {
        if a[0] == b[0] {
            lemma_text_lt_total(a.drop_first(), b.drop_first());
            if a.drop_first() == b.drop_first() {
                assert(a =~= seq![a[0]] + a.drop_first());
                assert(b =~= seq![b[0]] + b.drop_first());
            }
        }
    }
}

/// Compares two texts.
pub fn less_chars(a: &[char], b: &[char]) -> (less: bool)
    ensures
        less == text_lt(a@, b@),
{
    let mut i: usize = 0;
    assert(a@.skip(0) =~= a@);
    assert(b@.skip(0) =~= b@);
    while i < a.len() && i < b.len() && a[i] == b[i]
        invariant
            i <= a@.len(),
            i <= b@.len(),
            text_lt(a@, b@) == text_lt(a@.skip(i as int), b@.skip(i as int)),
        decreases a@.len() - i,
    {
        assert(a@.skip(i as int).drop_first() =~= a@.skip(i + 1));
        assert(b@.skip(i as int).drop_first() =~= b@.skip(i + 1));
        i += 1;
    }
    if i >= b.len() {
        false
    } else if i >= a.len() {
        true
    } else {
        let x: char = a[i];
        let y: char = b[i];
        assert(a@.skip(i as int)[0] == x);
        assert(b@.skip(i as int)[0] == y);
        x < y
    }
}

/// Compares two texts.
pub fn less_text(a: &str, b: &str) -> (less: bool)
    ensures
        less == text_lt(a@, b@),
{
    let x = chars_of(a);
    let y = chars_of(b);
    less_chars(x.as_slice(), y.as_slice())
}

/// Whether the keys of a list of pairs stand in strictly ascending order.
pub open spec fn ascending<A>(s: Seq<(Seq<char>, A)>) -> bool {
    forall|i: int, j: int| 0 <= i < j < s.len() ==> text_lt((#[trigger] s[i]).0, (#[trigger] s[j]).0)
}

/// The map that a list of pairs makes when they are put in one after another.
pub open spec fn map_of<A>(s: Seq<(Seq<char>, A)>) -> Map<Seq<char>, A>
    decreases s.len(),
{
    if s.len() == 0 {
        Map::empty()
    } else {
        map_of(s.drop_last()).insert(s.last().0, s.last().1)
    }
}

/// The pairs of a map in the order of their keys.
pub open spec fn in_order<A>(m: Map<Seq<char>, A>) -> Seq<(Seq<char>, A)> {
    choose|s: Seq<(Seq<char>, A)>| ascending(s) && map_of(s) == m
}

/// Whether no key occurs twice.
pub open spec fn distinct_keys<A>(s: Seq<(Seq<char>, A)>) -> bool {
    forall|i: int, j: int| 0 <= i < j < s.len() ==> (#[trigger] s[i]).0 != (#[trigger] s[j]).0
}

pub proof fn lemma_ascending_distinct<A>(s: Seq<(Seq<char>, A)>)
    requires
        ascending(s),
    ensures
        distinct_keys(s),
{
    assert forall|i: int, j: int| 0 <= i < j < s.len() implies (#[trigger] s[i]).0 != (
    #[trigger] s[j]).0 by {
        assert(text_lt(s[i].0, s[j].0));
        lemma_text_lt_irreflexive(s[i].0);
    }
}

/// Where no key occurs twice, the map holds exactly the pairs of the list.
pub proof fn lemma_map_of<A>(s: Seq<(Seq<char>, A)>)
    requires
        distinct_keys(s),
    ensures
        forall|i: int|
            0 <= i < s.len() ==> map_of(s).dom().contains((#[trigger] s[i]).0) && map_of(s)[s[i].0]
                == s[i].1,
        forall|k: Seq<char>| #[trigger]
            map_of(s).dom().contains(k) ==> exists|i: int| 0 <= i < s.len() && (#[trigger] s[i]).0
                == k,
    decreases s.len(),
{
    if s.len() > 0 {
        let front = s.drop_last();
        assert forall|i: int, j: int| 0 <= i < j < front.len() implies (#[trigger] front[i]).0 != (
        #[trigger] front[j]).0 by {
            assert(front[i] == s[i]);
            assert(front[j] == s[j]);
        }
        lemma_map_of(front);
        assert forall|i: int| 0 <= i < s.len() implies map_of(s).dom().contains(
            (#[trigger] s[i]).0,
        ) && map_of(s)[s[i].0] == s[i].1 by {
            if i < s.len() - 1 {
                assert(front[i] == s[i]);
                assert(s[i].0 != s[s.len() - 1].0);
            }
        }
        assert forall|k: Seq<char>| #[trigger] map_of(s).dom().contains(k) implies exists|i: int|
            0 <= i < s.len() && (#[trigger] s[i]).0 == k by {
            if k == s.last().0 {
                assert(s[s.len() - 1].0 == k);
            } else {
                assert(map_of(front).dom().contains(k));
                let i = choose|i: int| 0 <= i < front.len() && (#[trigger] front[i]).0 == k;
                assert(s[i].0 == k);
            }
        }
    }
}

/// Two ascending lists that make the same map are the same list.
pub proof fn lemma_ascending_unique<A>(s: Seq<(Seq<char>, A)>, t: Seq<(Seq<char>, A)>)
    requires
        ascending(s),
        ascending(t),
        map_of(s) == map_of(t),
    ensures
        s == t,
    decreases s.len(),
{
    lemma_ascending_distinct(s);
    lemma_ascending_distinct(t);
    lemma_map_of(s);
    lemma_map_of(t);
    if s.len() == 0 {
        if t.len() > 0 {
            assert(map_of(t).dom().contains(t[0].0));
        }
        assert(s =~= t);
    } else if t.len() == 0 {
        assert(map_of(s).dom().contains(s[0].0));
    } else {
        let a = s.last().0;
        let b = t.last().0;
        assert(map_of(t).dom().contains(s[s.len() - 1].0));
        assert(map_of(s).dom().contains(t[t.len() - 1].0));
        let i = choose|i: int| 0 <= i < t.len() && (#[trigger] t[i]).0 == a;
        let j = choose|j: int| 0 <= j < s.len() && (#[trigger] s[j]).0 == b;
        if a != b {
            assert(i < t.len() - 1);
            assert(j < s.len() - 1);
            assert(text_lt(t[i].0, t[t.len() - 1].0));
            assert(text_lt(s[j].0, s[s.len() - 1].0));
            lemma_text_lt_transitive(a, b, a);
            lemma_text_lt_irreflexive(a);
        }
        assert(s.last() == t.last()) by {
            assert(map_of(s)[s[s.len() - 1].0] == s[s.len() - 1].1);
            assert(map_of(t)[t[t.len() - 1].0] == t[t.len() - 1].1);
        }
        let sf = s.drop_last();
        let tf = t.drop_last();
        assert forall|i: int, j: int| 0 <= i < j < sf.len() implies text_lt(
            (#[trigger] sf[i]).0,
            (#[trigger] sf[j]).0,
        ) by {
            assert(sf[i] == s[i] && sf[j] == s[j]);
        }
        assert forall|i: int, j: int| 0 <= i < j < tf.len() implies text_lt(
            (#[trigger] tf[i]).0,
            (#[trigger] tf[j]).0,
        ) by {
            assert(tf[i] == t[i] && tf[j] == t[j]);
        }
        lemma_drop_last_map(s);
        lemma_drop_last_map(t);
        lemma_ascending_unique(sf, tf);
        assert(s =~= sf.push(s.last()));
        assert(t =~= tf.push(t.last()));
    }
}

proof fn lemma_drop_last_map<A>(s: Seq<(Seq<char>, A)>)
    requires
        ascending(s),
        s.len() > 0,
    ensures
        map_of(s.drop_last()) == map_of(s).remove(s.last().0),
        ascending(s.drop_last()),
{
    let front = s.drop_last();
    assert forall|i: int, j: int| 0 <= i < j < front.len() implies text_lt(
        (#[trigger] front[i]).0,
        (#[trigger] front[j]).0,
    ) by {
        assert(front[i] == s[i] && front[j] == s[j]);
    }
    lemma_ascending_distinct(s);
    lemma_ascending_distinct(front);
    lemma_map_of(front);
    if map_of(front).dom().contains(s.last().0) {
        let i = choose|i: int| 0 <= i < front.len() && (#[trigger] front[i]).0 == s.last().0;
        assert(s[i].0 != s[s.len() - 1].0);
    }
    assert(map_of(front) =~= map_of(s).remove(s.last().0));
}

/// An ascending list is the list of its map in order.
pub proof fn lemma_in_order<A>(s: Seq<(Seq<char>, A)>)
    requires
        ascending(s),
    ensures
        in_order(map_of(s)) == s,
{
    let t = in_order(map_of(s));
    assert(ascending(s) && map_of(s) == map_of(s));
    lemma_ascending_unique(s, t);
}

/// An ascending list with one more pair.
spec fn with_pair<A>(s: Seq<(Seq<char>, A)>, k: Seq<char>, v: A) -> Seq<(Seq<char>, A)>
    decreases s.len(),
{
    if s.len() == 0 {
        seq![(k, v)]
    } else if text_lt(s.last().0, k) {
        s.push((k, v))
    } else {
        with_pair(s.drop_last(), k, v).push(s.last())
    }
}

proof fn lemma_with_pair<A>(s: Seq<(Seq<char>, A)>, k: Seq<char>, v: A)
    requires
        ascending(s),
        !map_of(s).dom().contains(k),
    ensures
        ascending(with_pair(s, k, v)),
        map_of(with_pair(s, k, v)) == map_of(s).insert(k, v),
        forall|i: int|
            0 <= i < with_pair(s, k, v).len() ==> (#[trigger] with_pair(s, k, v)[i]).0 == k || (s.len()
                > 0 && text_le(with_pair(s, k, v)[i].0, s.last().0)),
    decreases s.len(),
{
    let w = with_pair(s, k, v);
    if s.len() == 0 {
        assert(w.drop_last() =~= s);
        assert(map_of(w) =~= map_of(s).insert(k, v));
    } else {
        lemma_ascending_distinct(s);
        lemma_map_of(s);
        assert(map_of(s).dom().contains(s[s.len() - 1].0));
        let last = s.last();
        lemma_text_lt_total(last.0, k);
        if text_lt(last.0, k) {
            assert(w.drop_last() =~= s);
            assert forall|i: int, j: int| 0 <= i < j < w.len() implies text_lt(
                (#[trigger] w[i]).0,
                (#[trigger] w[j]).0,
            ) by {
                if j < s.len() {
                    assert(w[i] == s[i] && w[j] == s[j]);
                } else {
                    assert(w[i] == s[i]);
                    if i < s.len() - 1 {
                        assert(text_lt(s[i].0, s[s.len() - 1].0));
                        lemma_text_lt_transitive(s[i].0, last.0, k);
                    }
                }
            }
            assert forall|i: int| 0 <= i < w.len() implies (#[trigger] w[i]).0 == k || (s.len() > 0
                && text_le(w[i].0, s.last().0)) by {
                if i < s.len() - 1 {
                    assert(w[i] == s[i]);
                    assert(text_lt(s[i].0, s[s.len() - 1].0));
                }
            }
        } else {
            let front = s.drop_last();
            lemma_drop_last_map(s);
            lemma_with_pair(front, k, v);
            let u = with_pair(front, k, v);
            assert(w.drop_last() =~= u);
            assert forall|i: int| 0 <= i < u.len() implies text_lt((#[trigger] u[i]).0, last.0) by {
                if u[i].0 != k {
                    assert(front.last() == s[s.len() - 2]);
                    assert(text_lt(s[s.len() - 2].0, s[s.len() - 1].0));
                    if u[i].0 != front.last().0 {
                        lemma_text_lt_transitive(u[i].0, front.last().0, last.0);
                    }
                }
            }
            assert forall|i: int, j: int| 0 <= i < j < w.len() implies text_lt(
                (#[trigger] w[i]).0,
                (#[trigger] w[j]).0,
            ) by {
                assert(w[i] == u[i]);
                if j < u.len() {
                    assert(w[j] == u[j]);
                }
            }
            assert forall|i: int| 0 <= i < w.len() implies (#[trigger] w[i]).0 == k || (s.len() > 0
                && text_le(w[i].0, s.last().0)) by {
                if i < u.len() {
                    assert(w[i] == u[i]);
                }
            }
            assert(map_of(w) =~= map_of(s).insert(k, v));
        }
    }
}

/// The pairs of a finite map can be put in order.
pub proof fn lemma_in_order_exists<A>(m: Map<Seq<char>, A>)
    requires
        m.dom().finite(),
    ensures
        ascending(in_order(m)),
        map_of(in_order(m)) == m,
    decreases m.dom().len(),
{
    if m.dom().len() == 0 {
        let s = Seq::<(Seq<char>, A)>::empty();
        assert(m.dom() =~= Set::empty());
        assert(m =~= map_of(s));
        assert(ascending(s));
    } else {
        let k = m.dom().choose();
        let smaller = m.remove(k);
        lemma_in_order_exists(smaller);
        let s = in_order(smaller);
        lemma_with_pair(s, k, m[k]);
        assert(smaller.insert(k, m[k]) =~= m);
        let w = with_pair(s, k, m[k]);
        assert(ascending(w) && map_of(w) == m);
    }
}

/// A map from texts, its entries in ascending order of their keys.
#[derive(Clone, Debug, PartialEq, Eq)]
pub struct TextMap<V> {
    pub entries: Vec<(String, V)>,
}

impl<V: View> View for TextMap<V> {
    type V = Map<Seq<char>, V::V>;

    open spec fn view(&self) -> Map<Seq<char>, V::V> {
        map_of(self.pairs())
    }
}

impl<V: View> TextMap<V> {
    /// The entries, by their contents.
    pub open spec fn pairs(&self) -> Seq<(Seq<char>, V::V)> {
        Seq::new(
            self.entries@.len(),
            |i: int| (self.entries@[i].0@, self.entries@[i].1@),
        )
    }

    /// Whether the entries stand in ascending order.
    pub open spec fn wf(&self) -> bool {
        ascending(self.pairs())
    }

    /// What the map holds of its entries.
    pub proof fn lemma_entries(&self)
        requires
            self.wf(),
        ensures
            forall|i: int|
                0 <= i < self.entries@.len() ==> self@.dom().contains(
                    (#[trigger] self.entries@[i]).0@,
                ) && self@[self.entries@[i].0@] == self.entries@[i].1@,
            forall|k: Seq<char>| #[trigger]
                self@.dom().contains(k) ==> exists|i: int|
                    0 <= i < self.entries@.len() && (#[trigger] self.entries@[i]).0@ == k,
    {
        lemma_ascending_distinct(self.pairs());
        lemma_map_of(self.pairs());
        assert forall|i: int| 0 <= i < self.entries@.len() implies self@.dom().contains(
            (#[trigger] self.entries@[i]).0@,
        ) && self@[self.entries@[i].0@] == self.entries@[i].1@ by {
            assert(self.pairs()[i].0 == self.entries@[i].0@);
        }
        assert forall|k: Seq<char>| #[trigger] self@.dom().contains(k) implies exists|i: int|
            0 <= i < self.entries@.len() && (#[trigger] self.entries@[i]).0@ == k by {
            let i = choose|i: int| 0 <= i < self.pairs().len() && (#[trigger] self.pairs()[i]).0 == k;
            assert(self.entries@[i].0@ == k);
        }
    }

    /// An empty map.
    pub fn new() -> (m: TextMap<V>)
        ensures
            m.wf(),
            m@ == Map::<Seq<char>, V::V>::empty(),
            m.entries@.len() == 0,
    {
        TextMap { entries: Vec::new() }
    }

    /// The position of a key, or the position where it belongs.
    fn position(&self, key: &str) -> (r: (bool, usize))
        requires
            self.wf(),
        ensures
            r.1 <= self.entries@.len(),
            r.0 ==> r.1 < self.entries@.len() && self.entries@[r.1 as int].0@ == key@,
            forall|i: int| 0 <= i < r.1 ==> text_lt((#[trigger] self.entries@[i]).0@, key@),
            !r.0 ==> forall|i: int|
                r.1 <= i < self.entries@.len() ==> text_lt(key@, (#[trigger] self.entries@[i]).0@),
    {
        let mut i: usize = 0;
        while i < self.entries.len() && less_text(self.entries[i].0.as_str(), key)
            invariant
                i <= self.entries@.len(),
                forall|k: int| 0 <= k < i ==> text_lt((#[trigger] self.entries@[k]).0@, key@),
            decreases self.entries@.len() - i,
        {
            i += 1;
        }
        if i < self.entries.len() {
            if same_text(self.entries[i].0.as_str(), key) {
                return (true, i);
            }
            proof {
                lemma_text_lt_total(self.entries@[i as int].0@, key@);
                assert forall|k: int| i <= k < self.entries@.len() implies text_lt(
                    key@,
                    (#[trigger] self.entries@[k]).0@,
                ) by {
                    if k > i {
                        assert(text_lt(self.pairs()[i as int].0, self.pairs()[k].0));
                        lemma_text_lt_transitive(
                            key@,
                            self.entries@[i as int].0@,
                            self.entries@[k].0@,
                        );
                    }
                }
            }
        }
        (false, i)
    }

    /// The value of a key.
    pub fn get(&self, key: &str) -> (r: Option<&V>)
        requires
            self.wf(),
        ensures
            match r {
                Some(v) => self@.dom().contains(key@) && v@ == self@[key@],
                None => !self@.dom().contains(key@),
            },
    {
        proof {
            self.lemma_entries();
        }
        let (found, i) = self.position(key);
        if found {
            Some(&self.entries[i].1)
        } else {
            proof {
                if self@.dom().contains(key@) {
                    let k = choose|k: int|
                        0 <= k < self.entries@.len() && (#[trigger] self.entries@[k]).0@ == key@;
                    lemma_text_lt_irreflexive(key@);
                    assert(text_lt(self.entries@[k].0@, key@) || text_lt(
                        key@,
                        self.entries@[k].0@,
                    ));
                }
            }
            None
        }
    }

    /// Whether the map has a key.
    pub fn contains(&self, key: &str) -> (r: bool)
        requires
            self.wf(),
        ensures
            r == self@.dom().contains(key@),
    {
        self.get(key).is_some()
    }

    /// Puts a value under a key, in place of one already there.
    pub fn insert(&mut self, key: String, value: V)
        requires
            old(self).wf(),
        ensures
            final(self).wf(),
            final(self)@ == old(self)@.insert(key@, value@),
            old(self)@.dom().contains(key@) ==> final(self).entries@.len() == old(
                self,
            ).entries@.len(),
            !old(self)@.dom().contains(key@) ==> final(self).entries@.len() == old(
                self,
            ).entries@.len() + 1,
    {
        let ghost before = *self;
        let (found, i) = self.position(key.as_str());
        let ghost k = key@;
        let ghost v = value@;
        proof {
            before.lemma_entries();
            lemma_text_lt_irreflexive(k);
        }
        if found {
            self.entries.remove(i);
            self.entries.insert(i, (key, value));
        } else {
            proof {
                if before@.dom().contains(k) {
                    let j = choose|j: int|
                        0 <= j < before.entries@.len() && (#[trigger] before.entries@[j]).0@ == k;
                    assert(text_lt(before.entries@[j].0@, k) || text_lt(k, before.entries@[j].0@));
                }
            }
            self.entries.insert(i, (key, value));
        }
        proof {
            let p = self.pairs();
            let q = before.pairs();
            assert(p[i as int] == (k, v));
            assert forall|a: int, b: int| 0 <= a < b < p.len() implies text_lt(
                (#[trigger] p[a]).0,
                (#[trigger] p[b]).0,
            ) by {
                let shift: int = if found {
                    0
                } else {
                    1
                };
                let a0 = if a < i {
                    a
                } else {
                    a - shift
                };
                let b0 = if b < i {
                    b
                } else {
                    b - shift
                };
                if a != i {
                    assert(p[a] == q[a0]);
                }
                if b != i {
                    assert(p[b] == q[b0]);
                }
                if a == i {
                    if found {
                        assert(text_lt(q[i as int].0, q[b0].0));
                    } else {
                        assert(text_lt(k, before.entries@[b0].0@));
                    }
                } else if b == i {
                    assert(text_lt(before.entries@[a0].0@, k));
                } else {
                    assert(text_lt(q[a0].0, q[b0].0));
                }
            }
            self.lemma_entries();
            assert(self@ =~= before@.insert(k, v)) by {
                assert forall|x: Seq<char>| self@.dom().contains(x) <==> before@.insert(
                    k,
                    v,
                ).dom().contains(x) by {
                    if self@.dom().contains(x) && x != k {
                        let j = choose|j: int|
                            0 <= j < self.entries@.len() && (#[trigger] self.entries@[j]).0@ == x;
                        let j0 = if j < i || found {
                            j
                        } else {
                            j - 1
                        };
                        assert(p[j].0 == x);
                        assert(before.entries@[j0].0@ == x);
                    }
                    if before@.dom().contains(x) && x != k {
                        let j = choose|j: int|
                            0 <= j < before.entries@.len() && (#[trigger] before.entries@[j]).0@
                                == x;
                        let j0 = if j < i || found {
                            j
                        } else {
                            j + 1
                        };
                        assert(self.entries@[j0].0@ == x);
                    }
                    if x == k {
                        assert(self.entries@[i as int].0@ == x);
                    }
                }
                assert forall|x: Seq<char>| self@.dom().contains(x) implies self@[x]
                    == before@.insert(k, v)[x] by {
                    let j = choose|j: int|
                        0 <= j < self.entries@.len() && (#[trigger] self.entries@[j]).0@ == x;
                    if x == k {
                        assert(self.entries@[i as int].0@ == x);
                    } else {
                        let j0 = if j < i || found {
                            j
                        } else {
                            j - 1
                        };
                        assert(before.entries@[j0].0@ == x);
                        assert(before.entries@[j0] == self.entries@[j]);
                    }
                }
            }
        }
    }

    /// Takes a key and its value out.
    pub fn remove(&mut self, key: &str)
        requires
            old(self).wf(),
        ensures
            final(self).wf(),
            final(self)@ == old(self)@.remove(key@),
    {
        let ghost before = *self;
        let ghost k = key@;
        proof {
            before.lemma_entries();
            lemma_text_lt_irreflexive(k);
        }
        let (found, i) = self.position(key);
        if found {
            self.entries.remove(i);
        } else {
            proof {
                if before@.dom().contains(k) {
                    let j = choose|j: int|
                        0 <= j < before.entries@.len() && (#[trigger] before.entries@[j]).0@ == k;
                    assert(text_lt(before.entries@[j].0@, k) || text_lt(k, before.entries@[j].0@));
                }
                assert(before@.remove(k) =~= before@);
            }
        }
        proof {
            if found {
                let p = self.pairs();
                let q = before.pairs();
                assert forall|a: int, b: int| 0 <= a < b < p.len() implies text_lt(
                    (#[trigger] p[a]).0,
                    (#[trigger] p[b]).0,
                ) by {
                    let a0 = if a < i {
                        a
                    } else {
                        a + 1
                    };
                    let b0 = if b < i {
                        b
                    } else {
                        b + 1
                    };
                    assert(p[a] == q[a0] && p[b] == q[b0]);
                    assert(text_lt(q[a0].0, q[b0].0));
                }
                self.lemma_entries();
                assert(before.entries@[i as int].0@ == k);
                assert(self@ =~= before@.remove(k)) by {
                    assert forall|x: Seq<char>| self@.dom().contains(x) <==> before@.remove(
                        k,
                    ).dom().contains(x) by {
                        if self@.dom().contains(x) {
                            let j = choose|j: int|
                                0 <= j < self.entries@.len() && (#[trigger] self.entries@[j]).0@
                                    == x;
                            let j0 = if j < i {
                                j
                            } else {
                                j + 1
                            };
                            assert(before.entries@[j0].0@ == x);
                            lemma_ascending_distinct(q);
                            assert(q[j0].0 == x && q[i as int].0 == k);
                            if x == k {
                                if j0 < i {
                                    assert(q[j0].0 != q[i as int].0);
                                } else {
                                    assert(q[i as int].0 != q[j0].0);
                                }
                            }
                        }
                        if before@.dom().contains(x) && x != k {
                            let j = choose|j: int|
                                0 <= j < before.entries@.len() && (#[trigger] before.entries@[j]).0@
                                    == x;
                            let j0 = if j < i {
                                j
                            } else {
                                j - 1
                            };
                            assert(self.entries@[j0].0@ == x);
                        }
                    }
                    assert forall|x: Seq<char>| self@.dom().contains(x) implies self@[x]
                        == before@.remove(k)[x] by {
                        let j = choose|j: int|
                            0 <= j < self.entries@.len() && (#[trigger] self.entries@[j]).0@ == x;
                        let j0 = if j < i {
                            j
                        } else {
                            j + 1
                        };
                        assert(before.entries@[j0].0@ == x);
                        assert(before.entries@[j0] == self.entries@[j]);
                    }
                }
            }
        }
    }
}

/// A map from texts to texts.
pub type FieldMap = TextMap<String>;

/// A set of texts as a map.
pub open spec fn flags(s: Set<Seq<char>>) -> Map<Seq<char>, bool> {
    Map::new(|k: Seq<char>| s.contains(k), |k: Seq<char>| true)
}

/// The keys of a list of pairs.
pub open spec fn keys_of<A>(s: Seq<(Seq<char>, A)>) -> Seq<Seq<char>> {
    s.map_values(|p: (Seq<char>, A)| p.0)
}

/// The texts of a set in ascending order.
pub open spec fn sorted_texts(s: Set<Seq<char>>) -> Seq<Seq<char>> {
    keys_of(in_order(flags(s)))
}

/// A set of texts, kept in ascending order.
#[derive(Clone, Debug, PartialEq, Eq)]
pub struct TextSet {
    map: TextMap<bool>,
}

impl View for TextSet {
    type V = Set<Seq<char>>;

    closed spec fn view(&self) -> Set<Seq<char>> {
        self.map@.dom()
    }
}

impl TextSet {
    /// Whether the texts are in order.
    pub closed spec fn wf(&self) -> bool {
        self.map.wf() && self.map@ == flags(self.map@.dom())
    }

    /// An empty set.
    pub fn new() -> (r: TextSet)
        ensures
            r.wf(),
            r@ == Set::<Seq<char>>::empty(),
    {
        let r = TextSet { map: TextMap::new() };
        assert(r.map@ =~= flags(r.map@.dom()));
        assert(r@ =~= Set::<Seq<char>>::empty());
        r
    }

    /// Puts a text in; tells whether it was not there before.
    pub fn insert(&mut self, text: String) -> (added: bool)
        requires
            old(self).wf(),
        ensures
            final(self).wf(),
            final(self)@ == old(self)@.insert(text@),
            added == !old(self)@.contains(text@),
    {
        let ghost before = self.map@;
        let ghost t = text@;
        let added = !self.map.contains(text.as_str());
        self.map.insert(text, true);
        proof {
            assert(self.map@.dom() =~= before.dom().insert(t));
            assert(self.map@ =~= flags(self.map@.dom()));
        }
        added
    }

    /// Whether a text is in the set.
    pub fn contains(&self, text: &str) -> (r: bool)
        requires
            self.wf(),
        ensures
            r == self@.contains(text@),
    {
        self.map.contains(text)
    }

    /// Whether the set is empty.
    pub fn is_empty(&self) -> (r: bool)
        requires
            self.wf(),
        ensures
            r == (self@ == Set::<Seq<char>>::empty()),
    {
        proof {
            self.map.lemma_entries();
            if self.map.entries@.len() > 0 {
                assert(self@.contains(self.map.entries@[0].0@));
            } else {
                assert(self@ =~= Set::<Seq<char>>::empty());
            }
        }
        self.map.entries.len() == 0
    }

    /// The texts in ascending order.
    pub fn to_texts(&self) -> (r: Vec<String>)
        requires
            self.wf(),
        ensures
            crate::text::texts(r@) == sorted_texts(self@),
    {
        let mut r: Vec<String> = Vec::new();
        for i in 0..self.map.entries.len()
            invariant
                r@.len() == i,
                forall|k: int| 0 <= k < i ==> (#[trigger] r@[k])@ == self.map.entries@[k].0@,
        {
            r.push(self.map.entries[i].0.clone());
        }
        proof {
            lemma_in_order(self.map.pairs());
            assert(crate::text::texts(r@) =~= keys_of(self.map.pairs()));
        }
        r
    }
}

/// No texts, put in order, are none.
pub proof fn lemma_sorted_nothing()
    ensures
        sorted_texts(Set::<Seq<char>>::empty()) == Seq::<Seq<char>>::empty(),
{
    let none = Seq::<(Seq<char>, bool)>::empty();
    assert(map_of(none) =~= flags(Set::<Seq<char>>::empty()));
    lemma_in_order(none);
    assert(keys_of(none) =~= Seq::<Seq<char>>::empty());
}

/// The keys of a map stand in its list, and no others do.
pub proof fn lemma_keys_in_order<A>(m: Map<Seq<char>, A>)
    requires
        m.dom().finite(),
    ensures
        forall|k: Seq<char>| #[trigger]
            m.dom().contains(k) <==> keys_of(in_order(m)).contains(k),
{
    let list = in_order(m);
    let keys = keys_of(list);
    lemma_in_order_exists(m);
    lemma_ascending_distinct(list);
    lemma_map_of(list);
    assert forall|k: Seq<char>| #[trigger] m.dom().contains(k) <==> keys.contains(k) by {
        if m.dom().contains(k) {
            let i = choose|i: int| 0 <= i < list.len() && (#[trigger] list[i]).0 == k;
            assert(keys[i] == k);
        }
        if keys.contains(k) {
            let i = choose|i: int| 0 <= i < keys.len() && keys[i] == k;
            assert(list[i].0 == k);
        }
    }
}

/// No text of a set is listed twice.
pub proof fn lemma_sorted_once(s: Set<Seq<char>>)
    requires
        s.finite(),
    ensures
        sorted_texts(s).no_duplicates(),
{
    let list = in_order(flags(s));
    assert(flags(s).dom() =~= s);
    lemma_in_order_exists(flags(s));
    lemma_ascending_distinct(list);
    let all = sorted_texts(s);
    assert forall|i: int, j: int| 0 <= i < all.len() && 0 <= j < all.len() && i != j implies all[i]
        != all[j] by {
        assert(list[i].0 == all[i] && list[j].0 == all[j]);
    }
}

/// Every text of a set is listed once.
pub proof fn lemma_sorted_count(s: Set<Seq<char>>)
    requires
        s.finite(),
    ensures
        sorted_texts(s).len() == s.len(),
{
    lemma_sorted_texts(s);
    lemma_sorted_once(s);
    let all = sorted_texts(s);
    all.unique_seq_to_set();
    assert(all.to_set() =~= s);
}

/// Whether texts stand in ascending order, each but once.
pub open spec fn texts_ascend(list: Seq<Seq<char>>) -> bool {
    forall|i: int, j: int|
        0 <= i < j < list.len() ==> text_lt(#[trigger] list[i], #[trigger] list[j])
}

/// The texts of a set, put in order, ascend.
pub proof fn lemma_sorted_ascend(s: Set<Seq<char>>)
    requires
        s.finite(),
    ensures
        texts_ascend(sorted_texts(s)),
{
    let list = in_order(flags(s));
    assert(flags(s).dom() =~= s);
    lemma_in_order_exists(flags(s));
    let all = sorted_texts(s);
    assert forall|i: int, j: int| 0 <= i < j < all.len() implies text_lt(
        #[trigger] all[i],
        #[trigger] all[j],
    ) by {
        assert(all[i] == list[i].0);
        assert(all[j] == list[j].0);
    }
}

/// The texts of a set, put in order, are those of the set.
pub proof fn lemma_sorted_texts(s: Set<Seq<char>>)
    requires
        s.finite(),
    ensures
        forall|t: Seq<char>| sorted_texts(s).contains(t) <==> #[trigger] s.contains(t),
{
    let list = in_order(flags(s));
    assert(flags(s).dom() =~= s);
    lemma_in_order_exists(flags(s));
    lemma_ascending_distinct(list);
    lemma_map_of(list);
    assert forall|t: Seq<char>| sorted_texts(s).contains(t) <==> #[trigger] s.contains(t) by {
        if sorted_texts(s).contains(t) {
            let i = choose|i: int| 0 <= i < sorted_texts(s).len() && sorted_texts(s)[i] == t;
            assert(list[i].0 == t);
            assert(map_of(list).dom().contains(t));
        }
        if s.contains(t) {
            assert(map_of(list).dom().contains(t));
            let i = choose|i: int| 0 <= i < list.len() && list[i].0 == t;
            assert(sorted_texts(s)[i] == t);
        }
    }
}

} // verus!
