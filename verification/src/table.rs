//! A small map for keys that are compared, not hashed: a list of slots that is
//! searched from the newest slot back.
//!
//! The keys of this crate are hashes and versions, values with byte strings
//! inside that are told apart by their views. A table compares them by a
//! verified `same`, so what it holds is proved from that comparison alone and
//! rests on no hashing of the keys.

use vstd::prelude::*;

verus! {

/// A value with a mathematical view that can be copied.
pub trait Plain: View + Sized {
    /// A copy with the same view.
    fn copy(&self) -> (r: Self)
        ensures
            r@ == self@,
    ;
}

impl Plain for () {
    fn copy(&self) -> (r: ()) {
        ()
    }
}

/// A key: a plain value whose view decides equality.
pub trait Id: Plain {
    /// Whether the two keys have the same view.
    fn same(&self, other: &Self) -> (r: bool)
        ensures
            r == (self@ == other@),
    ;
}

/// One key with its value.
pub struct Slot<K, V> {
    pub key: K,
    pub value: V,
}

/// The value of the newest slot that holds the key.
pub open spec fn lookup<K: Id, V: View>(s: Seq<Slot<K, V>>, k: K::V) -> Option<V::V>
    decreases s.len(),
{
    if s.len() == 0 {
        None
    } else if s.last().key@ == k {
        Some(s.last().value@)
    } else {
        lookup(s.drop_last(), k)
    }
}

/// The map from the keys of the slots to their values.
pub open spec fn slots_map<K: Id, V: View>(s: Seq<Slot<K, V>>) -> Map<K::V, V::V> {
    Map::new(|k: K::V| lookup(s, k) is Some, |k: K::V| lookup(s, k).unwrap())
}

/// No slot after position `i` holds the key.
pub open spec fn newest_at<K: Id, V: View>(s: Seq<Slot<K, V>>, i: int, k: K::V) -> bool {
    &&& 0 <= i < s.len()
    &&& s[i].key@ == k
    &&& forall|j: int| i < j < s.len() ==> (#[trigger] s[j]).key@ != k
}

proof fn lemma_lookup_absent<K: Id, V: View>(s: Seq<Slot<K, V>>, k: K::V)
    requires
        forall|j: int| 0 <= j < s.len() ==> (#[trigger] s[j]).key@ != k,
    ensures
        lookup(s, k) is None,
    decreases s.len(),
{
    if s.len() > 0 {
        assert(s.last() == s[s.len() - 1]);
        assert forall|j: int| 0 <= j < s.drop_last().len() implies (#[trigger] s.drop_last()[j]).key@
            != k by {
            assert(s.drop_last()[j] == s[j]);
        }
        lemma_lookup_absent(s.drop_last(), k);
    }
}

proof fn lemma_lookup_newest<K: Id, V: View>(s: Seq<Slot<K, V>>, i: int, k: K::V)
    requires
        newest_at(s, i, k),
    ensures
        lookup(s, k) == Some(s[i].value@),
    decreases s.len(),
{
    if i == s.len() - 1 {
    } else {
        assert(s.last() == s[s.len() - 1]);
        assert forall|j: int| i < j < s.drop_last().len() implies (#[trigger] s.drop_last()[j]).key@
            != k by {
            assert(s.drop_last()[j] == s[j]);
        }
        lemma_lookup_newest(s.drop_last(), i, k);
    }
}

proof fn lemma_lookup_push<K: Id, V: View>(s: Seq<Slot<K, V>>, slot: Slot<K, V>, k: K::V)
    ensures
        lookup(s.push(slot), k) == if slot.key@ == k {
            Some(slot.value@)
        } else {
            lookup(s, k)
        },
{
    assert(s.push(slot).drop_last() =~= s);
}

proof fn lemma_lookup_update<K: Id, V: View>(
    s: Seq<Slot<K, V>>,
    i: int,
    slot: Slot<K, V>,
    k: K::V,
)
    requires
        newest_at(s, i, slot.key@),
    ensures
        lookup(s.update(i, slot), k) == if slot.key@ == k {
            Some(slot.value@)
        } else {
            lookup(s, k)
        },
    decreases s.len(),
{
    let t = s.update(i, slot);
    if i == s.len() - 1 {
        assert(t.drop_last() =~= s.drop_last());
    } else {
        assert(s.last() == s[s.len() - 1]);
        assert(t.last() == s.last());
        assert(t.drop_last() =~= s.drop_last().update(i, slot));
        assert forall|j: int| i < j < s.drop_last().len() implies (#[trigger] s.drop_last()[j]).key@
            != slot.key@ by {
            assert(s.drop_last()[j] == s[j]);
        }
        lemma_lookup_update(s.drop_last(), i, slot, k);
    }
}

proof fn lemma_lookup_remove<K: Id, V: View>(s: Seq<Slot<K, V>>, i: int, k: K::V)
    requires
        0 <= i < s.len(),
        forall|j: int| i < j < s.len() ==> (#[trigger] s[j]).key@ != s[i].key@,
    ensures
        s[i].key@ != k ==> lookup(s.remove(i), k) == lookup(s, k),
        forall|j: int| i <= j < s.remove(i).len() ==> (#[trigger] s.remove(i)[j]).key@ != s[i].key@,
    decreases s.len(),
{
    let t = s.remove(i);
    assert forall|j: int| i <= j < t.len() implies (#[trigger] t[j]).key@ != s[i].key@ by {
        assert(t[j] == s[j + 1]);
    }
    if i == s.len() - 1 {
        assert(t =~= s.drop_last());
    } else {
        assert(t.last() == s.last());
        assert(t.drop_last() =~= s.drop_last().remove(i));
        assert(s.drop_last()[i] == s[i]);
        assert forall|j: int| i < j < s.drop_last().len() implies (#[trigger] s.drop_last()[j]).key@
            != s.drop_last()[i].key@ by {
            assert(s.drop_last()[j] == s[j]);
        }
        lemma_lookup_remove(s.drop_last(), i, k);
    }
}

proof fn lemma_lookup_same<K: Id, V: View>(a: Seq<Slot<K, V>>, b: Seq<Slot<K, V>>, k: K::V)
    requires
        a.len() == b.len(),
        forall|j: int|
            0 <= j < a.len() ==> (#[trigger] a[j]).key@ == b[j].key@ && a[j].value@ == b[j].value@,
    ensures
        lookup(a, k) == lookup(b, k),
    decreases a.len(),
{
    if a.len() > 0 {
        assert(a.last() == a[a.len() - 1]);
        assert(b.last() == b[b.len() - 1]);
        assert forall|j: int| 0 <= j < a.drop_last().len() implies (#[trigger] a.drop_last()[j]).key@
            == b.drop_last()[j].key@ && a.drop_last()[j].value@ == b.drop_last()[j].value@ by {
            assert(a.drop_last()[j] == a[j]);
            assert(b.drop_last()[j] == b[j]);
        }
        lemma_lookup_same(a.drop_last(), b.drop_last(), k);
    }
}

/// A map from keys to values.
pub struct Table<K: Id, V: View> {
    slots: Vec<Slot<K, V>>,
}

impl<K: Id, V: View> View for Table<K, V> {
    type V = Map<K::V, V::V>;

    closed spec fn view(&self) -> Map<K::V, V::V> {
        slots_map(self.slots@)
    }
}

impl<K: Id, V: View> Table<K, V> {
    /// The empty table.
    pub fn new() -> (t: Self)
        ensures
            t@ == Map::<K::V, V::V>::empty(),
    {
        let t = Table { slots: Vec::new() };
        assert(t@ =~= Map::<K::V, V::V>::empty());
        t
    }

    fn find(&self, k: &K) -> (r: Option<usize>)
        ensures
            r matches Some(i) ==> newest_at(self.slots@, i as int, k@) && lookup(self.slots@, k@)
                == Some(self.slots@[i as int].value@),
            r is None ==> lookup(self.slots@, k@) is None,
    {
        let mut i: usize = self.slots.len();
        while i > 0
            invariant
                i <= self.slots.len(),
                forall|j: int| i <= j < self.slots.len() ==> (#[trigger] self.slots@[j]).key@ != k@,
            decreases i,
        {
            i -= 1;
            if self.slots[i].key.same(k) {
                proof {
                    lemma_lookup_newest(self.slots@, i as int, k@);
                }
                return Some(i);
            }
        }
        proof {
            lemma_lookup_absent(self.slots@, k@);
        }
        None
    }

    /// Whether the table holds no key.
    pub fn is_empty(&self) -> (r: bool)
        ensures
            r <==> self@.dom() == Set::<K::V>::empty(),
    {
        let r = self.slots.len() == 0;
        proof {
            if r {
                assert(self@.dom() =~= Set::<K::V>::empty());
            } else {
                assert(lookup(self.slots@, self.slots@.last().key@) is Some);
                assert(self@.dom().contains(self.slots@.last().key@));
            }
        }
        r
    }

    /// Whether the table holds the key.
    pub fn contains(&self, k: &K) -> (r: bool)
        ensures
            r == self@.contains_key(k@),
    {
        self.find(k).is_some()
    }

    /// The value stored under the key, if there is one.
    pub fn get(&self, k: &K) -> (r: Option<&V>)
        ensures
            r is Some <==> self@.contains_key(k@),
            r matches Some(v) ==> v@ == self@[k@],
    {
        match self.find(k) {
            None => None,
            Some(i) => Some(&self.slots[i].value),
        }
    }

    /// Stores `v` under `k`, replacing what was stored there.
    pub fn insert(&mut self, k: K, v: V)
        ensures
            final(self)@ == old(self)@.insert(k@, v@),
    {
        let ghost before = self.slots@;
        let ghost slot = Slot { key: k, value: v };
        match self.find(&k) {
            None => {
                self.slots.push(Slot { key: k, value: v });
                proof {
                    assert forall|x: K::V| lookup(self.slots@, x) == if slot.key@ == x {
                        Some(slot.value@)
                    } else {
                        lookup(before, x)
                    } by {
                        lemma_lookup_push(before, slot, x);
                    }
                }
            },
            Some(i) => {
                self.slots.set(i, Slot { key: k, value: v });
                proof {
                    assert forall|x: K::V| lookup(self.slots@, x) == if slot.key@ == x {
                        Some(slot.value@)
                    } else {
                        lookup(before, x)
                    } by {
                        lemma_lookup_update(before, i as int, slot, x);
                    }
                }
            },
        }
        assert(self@ =~= old(self)@.insert(k@, v@));
    }

    /// Removes the key and hands back what was stored under it.
    pub fn remove(&mut self, k: &K) -> (r: Option<V>)
        ensures
            final(self)@ == old(self)@.remove(k@),
            r is Some <==> old(self)@.contains_key(k@),
            r matches Some(v) ==> v@ == old(self)@[k@],
    {
        let mut found: Option<V> = None;
        let mut i: usize = self.slots.len();
        while i > 0
            invariant
                i <= self.slots.len(),
                forall|j: int| i <= j < self.slots.len() ==> (#[trigger] self.slots@[j]).key@ != k@,
                forall|x: K::V| x != k@ ==> lookup(self.slots@, x) == lookup(old(self).slots@, x),
                found matches Some(v) ==> Some(v@) == lookup(old(self).slots@, k@),
                found is None ==> forall|j: int|
                    i <= j < old(self).slots@.len() ==> (#[trigger] old(self).slots@[j]).key@ != k@,
                found is None ==> self.slots@ == old(self).slots@,
            decreases i,
        {
            i -= 1;
            if self.slots[i].key.same(k) {
                let ghost before = self.slots@;
                proof {
                    assert forall|x: K::V| x != k@ implies lookup(before.remove(i as int), x)
                        == lookup(before, x) by {
                        lemma_lookup_remove(before, i as int, x);
                    }
                    lemma_lookup_remove(before, i as int, k@);
                    if found is None {
                        lemma_lookup_newest(before, i as int, k@);
                    }
                }
                let slot = self.slots.remove(i);
                if found.is_none() {
                    found = Some(slot.value);
                }
            }
        }
        proof {
            lemma_lookup_absent(self.slots@, k@);
            if found is None {
                lemma_lookup_absent(old(self).slots@, k@);
            }
            assert(self@ =~= old(self)@.remove(k@));
        }
        found
    }
}

impl<K: Id, V: Plain> Table<K, V> {
    /// A copy of the table.
    pub fn copy(&self) -> (t: Self)
        ensures
            t@ == self@,
    {
        let mut slots: Vec<Slot<K, V>> = Vec::new();
        let mut i: usize = 0;
        while i < self.slots.len()
            invariant
                i <= self.slots.len(),
                slots.len() == i,
                forall|j: int|
                    0 <= j < i ==> (#[trigger] slots@[j]).key@ == self.slots@[j].key@
                        && slots@[j].value@ == self.slots@[j].value@,
            decreases self.slots.len() - i,
        {
            let slot = Slot { key: self.slots[i].key.copy(), value: self.slots[i].value.copy() };
            slots.push(slot);
            i += 1;
        }
        proof {
            assert forall|k: K::V| lookup(slots@, k) == lookup(self.slots@, k) by {
                lemma_lookup_same(slots@, self.slots@, k);
            }
            assert(slots_map(slots@) =~= slots_map(self.slots@));
        }
        Table { slots }
    }
}

} // verus!
