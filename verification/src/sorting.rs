//! Putting lists in order; what is equal in rank keeps its order.
use vstd::prelude::*;

verus! {

/// What has a rank among its like.
pub trait Ranked: View + Sized {
    /// Whether one comes before another.
    spec fn before(a: Self::V, b: Self::V) -> bool;

    /// The rank puts all in a row: of two at most one comes before the other, and what does
    /// not come before something does not come before what follows it.
    proof fn lemma_rank(a: Self::V, b: Self::V, c: Self::V)
        ensures
            Self::before(a, b) ==> !Self::before(b, a),
            !Self::before(b, a) && !Self::before(c, b) ==> !Self::before(c, a),
    ;

    /// Whether this one comes before another.
    fn comes_before(&self, other: &Self) -> (r: bool)
        ensures
            r == Self::before(self@, other@),
    ;
}

/// The contents of a list.
pub open spec fn views<T: View>(list: Seq<T>) -> Seq<T::V> {
    list.map_values(|t: T| t@)
}

/// Where something goes in a list in order: before the first that it comes before.
pub open spec fn slot<T: Ranked>(list: Seq<T::V>, item: T::V) -> int
    decreases list.len(),
{
    if list.len() == 0 || !T::before(item, list.last()) {
        list.len() as int
    } else {
        slot::<T>(list.drop_last(), item)
    }
}

/// A list with its items put in order one after the other.
pub open spec fn sorted<T: Ranked>(list: Seq<T::V>) -> Seq<T::V>
    decreases list.len(),
{
    if list.len() == 0 {
        seq![]
    } else {
        let front = sorted::<T>(list.drop_last());
        front.insert(slot::<T>(front, list.last()), list.last())
    }
}

/// Whether no item of a list comes before an earlier one.
pub open spec fn in_rank<T: Ranked>(list: Seq<T::V>) -> bool {
    forall|i: int, j: int|
        0 <= i < j < list.len() ==> !T::before(#[trigger] list[j], #[trigger] list[i])
}

proof fn lemma_slot<T: Ranked>(list: Seq<T::V>, item: T::V)
    requires
        in_rank::<T>(list),
    ensures
        0 <= slot::<T>(list, item) <= list.len(),
        forall|i: int|
            slot::<T>(list, item) <= i < list.len() ==> T::before(item, #[trigger] list[i]),
        forall|i: int|
            0 <= i < slot::<T>(list, item) ==> !T::before(item, #[trigger] list[i]),
    decreases list.len(),
{
    if list.len() > 0 {
        let front = list.drop_last();
        if T::before(item, list.last()) {
            assert(in_rank::<T>(front)) by {
                assert forall|i: int, j: int| 0 <= i < j < front.len() implies !T::before(
                    #[trigger] front[j],
                    #[trigger] front[i],
                ) by {
                    assert(front[i] == list[i] && front[j] == list[j]);
                }
            }
            lemma_slot::<T>(front, item);
            let k = slot::<T>(front, item);
            assert forall|i: int| k <= i < list.len() implies T::before(
                item,
                #[trigger] list[i],
            ) by {
                if i < front.len() {
                    assert(front[i] == list[i]);
                }
            }
            assert forall|i: int| 0 <= i < k implies !T::before(item, #[trigger] list[i]) by {
                assert(front[i] == list[i]);
            }
        } else {
            assert forall|i: int| 0 <= i < list.len() implies !T::before(
                item,
                #[trigger] list[i],
            ) by {
                if i < list.len() - 1 {
                    assert(!T::before(list[list.len() - 1], list[i]));
                    T::lemma_rank(list[i], list.last(), item);
                }
            }
        }
    }
}

/// A list that was put in order holds what it held, and no item comes before an earlier one.
pub proof fn law_sorted<T: Ranked>(list: Seq<T::V>)
    ensures
        in_rank::<T>(sorted::<T>(list)),
        sorted::<T>(list).len() == list.len(),
        sorted::<T>(list).to_multiset() == list.to_multiset(),
    decreases list.len(),
{
    broadcast use vstd::seq_lib::group_to_multiset_ensures;

    if list.len() > 0 {
        let shorter = list.drop_last();
        law_sorted::<T>(shorter);
        let front = sorted::<T>(shorter);
        let item = list.last();
        lemma_slot::<T>(front, item);
        let k = slot::<T>(front, item);
        let whole = front.insert(k, item);
        assert forall|i: int, j: int| 0 <= i < j < whole.len() implies !T::before(
            #[trigger] whole[j],
            #[trigger] whole[i],
        ) by {
            if i < k && j < k {
                assert(whole[i] == front[i] && whole[j] == front[j]);
            } else if i < k && j == k {
                assert(whole[i] == front[i]);
            } else if i < k && j > k {
                assert(whole[i] == front[i] && whole[j] == front[j - 1]);
            } else if i == k {
                assert(whole[j] == front[j - 1]);
                T::lemma_rank(item, front[j - 1], item);
            } else {
                assert(whole[i] == front[i - 1] && whole[j] == front[j - 1]);
            }
        }
        assert(whole.to_multiset() =~= front.to_multiset().insert(item)) by {
            vstd::seq_lib::to_multiset_insert(front, k, item);
        }
        assert(shorter.push(item) =~= list);
        assert(list.to_multiset() =~= shorter.to_multiset().insert(item));
    } else {
        assert(list =~= seq![]);
    }
}

/// Puts a list in order.
pub fn sort_stable<T: Ranked>(list: Vec<T>) -> (r: Vec<T>)
    ensures
        views(r@) == sorted::<T>(views(list@)),
{
    let ghost all = views(list@);
    let mut r: Vec<T> = Vec::new();
    assert(all.take(0) =~= seq![]);
    assert(views(r@) =~= seq![]);
    for item in it: list
        invariant
            all == views(it.seq()),
            views(r@) == sorted::<T>(all.take(it.index() as int)),
    {
        let ghost i = it.index() as int;
        proof {
            assert(all.take(i + 1).drop_last() =~= all.take(i));
            assert(all.take(i + 1).last() == item@);
        }
        let ghost front = views(r@);
        let mut k: usize = r.len();
        assert(front.take(front.len() as int) =~= front);
        while k > 0 && item.comes_before(&r[k - 1])
            invariant
                k <= r@.len(),
                front == views(r@),
                slot::<T>(front.take(k as int), item@) == slot::<T>(front, item@),
            decreases k,
        {
            proof {
                let now = front.take(k as int);
                assert(now.last() == r@[k - 1]@);
                assert(now.drop_last() =~= front.take(k - 1));
            }
            k = k - 1;
        }
        proof {
            if k > 0 {
                let now = front.take(k as int);
                assert(now.last() == r@[k - 1]@);
            }
            assert(slot::<T>(front, item@) == k);
        }
        let ghost before = r@;
        let ghost v = item@;
        r.insert(k, item);
        assert(views(r@) =~= front.insert(k as int, v));
    }
    assert(all.take(all.len() as int) =~= all);
    r
}

} // verus!
