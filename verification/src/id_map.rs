//! A table keyed by small integer ids.
use std::collections::BTreeMap;
use vstd::prelude::*;
use vstd::std_specs::cmp::OrdSpec;
use vstd::std_specs::iter::IteratorSpec;

verus! {

broadcast use {
    vstd::laws_cmp::group_laws_cmp,
    vstd::std_specs::btree::group_btree_axioms,
};

/// `list` holds the members of `ids`, each once, from the smallest to the largest.
pub open spec fn ascending(list: Seq<usize>, ids: Set<usize>) -> bool {
    &&& forall|i: int, j: int| 0 <= i < j < list.len() ==> list[i] < list[j]
    &&& forall|k: usize| ids.contains(k) <==> list.contains(k)
}

/// The members of `ids` from the smallest to the largest.
pub open spec fn in_order(ids: Set<usize>) -> Seq<usize> {
    choose|list: Seq<usize>| ascending(list, ids)
}

/// A set has at most one ascending listing.
pub proof fn lemma_ascending_unique(a: Seq<usize>, b: Seq<usize>, ids: Set<usize>)
    requires
        ascending(a, ids),
        ascending(b, ids),
    ensures
        a == b,
    decreases a.len(),
{
    if a.len() == 0 {
        if b.len() > 0 {
            assert(b.contains(b[0]));
            assert(a.contains(b[0]));
        }
    } else {
        assert(a.contains(a.last()));
        assert(b.contains(a.last()));
        assert(b.contains(b.last()));
        assert(a.contains(b.last()));
        assert(a.last() == b.last());
        let x = a.last();
        let a1 = a.drop_last();
        let b1 = b.drop_last();
        let rest = ids.remove(x);
        assert(ascending(a1, rest)) by {
            assert forall|k: usize| rest.contains(k) <==> a1.contains(k) by {
                if rest.contains(k) {
                    let i = choose|i: int| 0 <= i < a.len() && a[i] == k;
                    assert(a1[i] == k);
                }
                if a1.contains(k) {
                    let i = choose|i: int| 0 <= i < a1.len() && a1[i] == k;
                    assert(a[i] == k);
                    assert(a.contains(k));
                }
            }
        }
        assert(ascending(b1, rest)) by {
            assert forall|k: usize| rest.contains(k) <==> b1.contains(k) by {
                if rest.contains(k) {
                    let i = choose|i: int| 0 <= i < b.len() && b[i] == k;
                    assert(b1[i] == k);
                }
                if b1.contains(k) {
                    let i = choose|i: int| 0 <= i < b1.len() && b1[i] == k;
                    assert(b[i] == k);
                    assert(b.contains(k));
                }
            }
        }
        lemma_ascending_unique(a1, b1, rest);
        assert(a =~= a1.push(x));
        assert(b =~= b1.push(x));
    }
}

proof fn lemma_ids_below(n: nat)
    requires
        n <= usize::MAX + 1,
    ensures
        Set::new(|k: usize| k < n).finite(),
        Set::new(|k: usize| k < n).len() == n,
    decreases n,
{
    let below = Set::new(|k: usize| k < n);
    if n == 0 {
        assert(below =~= Set::empty());
    } else {
        let last = (n - 1) as usize;
        let fewer = Set::new(|k: usize| k < (n - 1) as nat);
        lemma_ids_below((n - 1) as nat);
        assert(below =~= fewer.insert(last));
    }
}

/// There are finitely many ids.
pub proof fn lemma_finitely_many_ids(ids: Set<usize>)
    ensures
        ids.finite(),
        ids.len() <= usize::MAX + 1,
{
    let n = (usize::MAX + 1) as nat;
    let all = Set::new(|k: usize| k < n);
    lemma_ids_below(n);
    assert(ids.subset_of(all));
    vstd::set_lib::lemma_len_subset(ids, all);
}

/// What `in_order` gives for a set that has an ascending listing.
pub proof fn lemma_in_order(list: Seq<usize>, ids: Set<usize>)
    requires
        ascending(list, ids),
    ensures
        in_order(ids) == list,
{
    lemma_ascending_unique(in_order(ids), list, ids);
}

/// Every finite set has an ascending listing.
pub proof fn lemma_listing_exists(ids: Set<usize>)
    requires
        ids.finite(),
    ensures
        ascending(in_order(ids), ids),
    decreases ids.len(),
{
    if ids.is_empty() {
        assert(ascending(Seq::empty(), ids));
    } else {
        let top = lemma_greatest(ids);
        let rest = ids.remove(top);
        lemma_listing_exists(rest);
        let front = in_order(rest);
        let list = front.push(top);
        assert forall|i: int, j: int| 0 <= i < j < list.len() implies list[i] < list[j] by {
            assert(front.contains(front[i]));
            assert(rest.contains(front[i]));
        }
        assert forall|k: usize| ids.contains(k) <==> list.contains(k) by {
            if ids.contains(k) {
                if k == top {
                    assert(list[list.len() - 1] == k);
                } else {
                    assert(rest.contains(k));
                    let i = front.index_of(k);
                    assert(list[i] == k);
                }
            }
            if list.contains(k) {
                let i = list.index_of(k);
                if i < front.len() {
                    assert(front[i] == k);
                    assert(front.contains(k));
                }
            }
        }
        assert(ascending(list, ids));
    }
}

/// A finite set that is not empty has a greatest member.
proof fn lemma_greatest(ids: Set<usize>) -> (top: usize)
    requires
        ids.finite(),
        !ids.is_empty(),
    ensures
        ids.contains(top),
        forall|k: usize| #[trigger] ids.contains(k) ==> k <= top,
    decreases ids.len(),
{
    let one = ids.choose();
    let rest = ids.remove(one);
    if rest.is_empty() {
        assert forall|k: usize| #[trigger] ids.contains(k) implies k <= one by {
            if k != one {
                assert(rest.contains(k));
            }
        }
        one
    } else {
        let other = lemma_greatest(rest);
        assert forall|k: usize| #[trigger] ids.contains(k) implies k <= (if one < other {
            other
        } else {
            one
        }) by {
            if k != one {
                assert(rest.contains(k));
            }
        }
        if one < other {
            other
        } else {
            one
        }
    }
}

/// Those of the ids that are wanted, in their order.
pub open spec fn picked(ids: Seq<usize>, wanted: Set<usize>) -> Seq<usize> {
    ids.filter(|id: usize| wanted.contains(id))
}

pub proof fn lemma_picked_none(ids: Seq<usize>, wanted: Set<usize>)
    ensures
        picked(ids.take(0), wanted) == Seq::<usize>::empty(),
{
    reveal(Seq::filter);
}

pub proof fn lemma_picked_step(ids: Seq<usize>, n: int, wanted: Set<usize>)
    requires
        0 <= n < ids.len(),
    ensures
        picked(ids.take(n + 1), wanted) == (if wanted.contains(ids[n]) {
            picked(ids.take(n), wanted).push(ids[n])
        } else {
            picked(ids.take(n), wanted)
        }),
{
    reveal(Seq::filter);
    let more = ids.take(n + 1);
    assert(more.drop_last() =~= ids.take(n));
    assert(more.last() == ids[n]);
}

/// The wanted ones of an ascending list are listed in ascending order.
pub proof fn lemma_picked(ids: Seq<usize>, all: Set<usize>, wanted: Set<usize>)
    requires
        ascending(ids, all),
        wanted.subset_of(all),
    ensures
        picked(ids, wanted) == in_order(wanted),
        ascending(picked(ids, wanted), wanted),
{
    let list = picked(ids, wanted);
    lemma_picked_rises(ids, wanted);
    assert forall|k: usize| wanted.contains(k) <==> list.contains(k) by {
        if wanted.contains(k) {
            assert(all.contains(k));
            assert(ids.contains(k));
        }
    }
    lemma_in_order(list, wanted);
}

proof fn lemma_picked_rises(ids: Seq<usize>, wanted: Set<usize>)
    requires
        forall|i: int, j: int| 0 <= i < j < ids.len() ==> ids[i] < ids[j],
    ensures
        forall|k: usize| #[trigger]
            picked(ids, wanted).contains(k) <==> ids.contains(k) && wanted.contains(k),
        forall|i: int, j: int|
            0 <= i < j < picked(ids, wanted).len() ==> picked(ids, wanted)[i] < picked(ids, wanted)[j],
    decreases ids.len(),
{
    reveal(Seq::filter);
    let now = picked(ids, wanted);
    if ids.len() > 0 {
        let rest = ids.drop_last();
        lemma_picked_rises(rest, wanted);
        let then = picked(rest, wanted);
        assert forall|k: usize| #[trigger] now.contains(k) <==> ids.contains(k) && wanted.contains(
            k,
        ) by {
            if ids.contains(k) && wanted.contains(k) {
                let i = ids.index_of(k);
                if i < rest.len() {
                    assert(rest[i] == k);
                    assert(then.contains(k));
                    let j = then.index_of(k);
                    assert(now[j] == k);
                } else {
                    assert(now[now.len() - 1] == k);
                }
            }
            if now.contains(k) {
                let j = now.index_of(k);
                if j < then.len() {
                    assert(then[j] == k);
                    assert(then.contains(k));
                    let i = rest.index_of(k);
                    assert(ids[i] == k);
                } else {
                    assert(ids[ids.len() - 1] == k);
                }
            }
        }
        assert forall|i: int, j: int| 0 <= i < j < now.len() implies now[i] < now[j] by {
            if j < then.len() {
                assert(then[i] < then[j]);
            } else {
                assert(then.contains(then[i]));
                let n = rest.index_of(then[i]);
                assert(ids[n] < ids[ids.len() - 1]);
            }
        }
    }
}

/// A map from ids to values, walked from the smallest id to the largest.
pub struct IdMap<V> {
    inner: BTreeMap<usize, V>,
}

impl<V> View for IdMap<V> {
    type V = Map<usize, V>;

    closed spec fn view(&self) -> Map<usize, V> {
        self.inner@
    }
}

impl<V> IdMap<V> {
    /// A table holds finitely many ids.
    pub proof fn lemma_finite(&self)
        ensures
            self@.dom().finite(),
    {
    }

    pub fn new() -> (map: Self)
        ensures
            map@ == Map::<usize, V>::empty(),
    {
        IdMap { inner: BTreeMap::new() }
    }

    pub fn is_empty(&self) -> (empty: bool)
        ensures
            empty == self@.dom().is_empty(),
    {
        assert(self@.is_empty() == self@.dom().is_empty());
        self.inner.is_empty()
    }

    pub fn contains(&self, id: usize) -> (found: bool)
        ensures
            found == self@.contains_key(id),
    {
        self.inner.contains_key(&id)
    }

    pub fn get(&self, id: usize) -> (value: Option<&V>)
        ensures
            match value {
                Some(v) => self@.contains_key(id) && self@[id] == *v,
                None => !self@.contains_key(id),
            },
    {
        self.inner.get(&id)
    }

    pub fn insert(&mut self, id: usize, value: V)
        ensures
            final(self)@ == old(self)@.insert(id, value),
    {
        let _ = self.inner.insert(id, value);
    }

    pub fn remove(&mut self, id: usize) -> (value: Option<V>)
        ensures
            final(self)@ == old(self)@.remove(id),
            match value {
                Some(v) => old(self)@.contains_key(id) && old(self)@[id] == v,
                None => !old(self)@.contains_key(id),
            },
    {
        self.inner.remove(&id)
    }

    /// The ids in the table, from the smallest to the largest.
    pub fn ids(&self) -> (ids: Vec<usize>)
        ensures
            ids@ == in_order(self@.dom()),
            ascending(ids@, self@.dom()),
    {
        let mut ids: Vec<usize> = Vec::new();
        let walk = self.inner.iter();
        let ghost pairs = walk.remaining();
        let ghost keys = pairs.map_values(|kv: (&usize, &V)| *kv.0);
        for kv in it: walk
            invariant
                pairs == it.seq(),
                keys == pairs.map_values(|kv: (&usize, &V)| *kv.0),
                ids@ == keys.take(it.index()),
        {
            ids.push(*kv.0);
        }
        proof {
            assert(ids@ =~= keys);
            assert(ascending(keys, self@.dom())) by {
                assert(vstd::std_specs::btree::increasing_seq(keys));
                assert forall|i: int, j: int| 0 <= i < j < keys.len() implies keys[i] < keys[j] by {
                    assert(keys[i].cmp_spec(&keys[j]) is Less);
                }
                assert forall|k: usize| self@.dom().contains(k) <==> keys.contains(k) by {
                    if self@.contains_key(k) {
                        let i = pairs.index_of((&k, &self@[k]));
                        assert(keys[i] == k);
                    }
                    if keys.contains(k) {
                        let i = keys.index_of(k);
                        assert(self@.contains_key(*pairs[i].0));
                    }
                }
            }
            lemma_in_order(ids@, self@.dom());
        }
        ids
    }
}

} // verus!
