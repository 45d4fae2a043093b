//! A small map that remembers the order in which its keys were added.

use vstd::prelude::*;

use crate::address::IpAddress;
use crate::text::same_text;

verus! {

/// A value that can be looked up: equality is decided by its model.
pub trait Key: Sized {
    /// What the key stands for.
    type Model;

    /// The model of this key.
    spec fn model(&self) -> Self::Model;

    /// Whether two keys stand for the same thing.
    fn same_key(&self, other: &Self) -> (r: bool)
        ensures
            r == (self.model() == other.model()),
    ;
}

impl Key for String {
    type Model = Seq<char>;

    open spec fn model(&self) -> Seq<char> {
        self@
    }

    fn same_key(&self, other: &Self) -> (r: bool) {
        same_text(self.as_str(), other.as_str())
    }
}

impl Key for IpAddress {
    type Model = IpAddress;

    open spec fn model(&self) -> IpAddress {
        *self
    }

    fn same_key(&self, other: &Self) -> (r: bool) {
        self.same(other)
    }
}

/// A destination as a client names it: host and port.
#[derive(Debug)]
pub struct HostPort {
    /// The host, by name or address.
    pub host: String,
    /// The port.
    pub port: u16,
}

impl Key for HostPort {
    type Model = (Seq<char>, u16);

    open spec fn model(&self) -> (Seq<char>, u16) {
        (self.host@, self.port)
    }

    fn same_key(&self, other: &Self) -> (r: bool) {
        self.port == other.port && same_text(self.host.as_str(), other.host.as_str())
    }
}

/// A map from keys to values, in the order in which the keys were first added.
#[derive(Debug)]
pub struct Table<K, V> {
    entries: Vec<(K, V)>,
}

impl<K: Key, V> Table<K, V> {
    /// The models of the keys, in order.
    pub closed spec fn keys(&self) -> Seq<K::Model> {
        Seq::new(self.entries@.len(), |i: int| self.entries@[i].0.model())
    }

    /// The values, in the order of their keys.
    pub closed spec fn values(&self) -> Seq<V> {
        Seq::new(self.entries@.len(), |i: int| self.entries@[i].1)
    }

    /// No key occurs twice, and every key has its value.
    pub open spec fn wf(&self) -> bool {
        &&& self.keys().no_duplicates()
        &&& self.keys().len() == self.values().len()
    }

    /// Whether `k` is a key of the table.
    pub open spec fn has(&self, k: K::Model) -> bool {
        self.keys().contains(k)
    }

    /// The value of a key of the table.
    pub open spec fn at(&self, k: K::Model) -> V {
        self.values()[self.keys().index_of(k)]
    }

    /// The table as a map.
    pub open spec fn view(&self) -> Map<K::Model, V> {
        Map::new(|k: K::Model| self.has(k), |k: K::Model| self.at(k))
    }

    /// An empty table.
    pub fn new() -> (r: Self)
        ensures
            r.wf(),
            r.keys() == Seq::<K::Model>::empty(),
            r.values() == Seq::<V>::empty(),
            r@ == Map::<K::Model, V>::empty(),
    {
        let r = Table { entries: Vec::new() };
        assert(r.keys() =~= Seq::<K::Model>::empty());
        assert(r.values() =~= Seq::<V>::empty());
        assert(r@ =~= Map::<K::Model, V>::empty());
        r
    }

    /// How many keys the table has.
    pub fn len(&self) -> (n: usize)
        ensures
            n == self.keys().len(),
            n == self.values().len(),
    {
        self.entries.len()
    }

    /// The key at position `i`.
    pub fn key_at(&self, i: usize) -> (k: &K)
        requires
            i < self.keys().len(),
        ensures
            k.model() == self.keys()[i as int],
    {
        &self.entries[i].0
    }

    /// The value at position `i`.
    pub fn value_at(&self, i: usize) -> (v: &V)
        requires
            i < self.keys().len(),
        ensures
            *v == self.values()[i as int],
    {
        &self.entries[i].1
    }

    /// Where a key stands in the table, if it does.
    pub fn find(&self, k: &K) -> (r: Option<usize>)
        requires
            self.wf(),
        ensures
            match r {
                Some(i) => i < self.keys().len() && self.keys()[i as int] == k.model() && self.has(
                    k.model(),
                ) && self.keys().index_of(k.model()) == i,
                None => !self.has(k.model()),
            },
    {
        let mut i: usize = 0;
        while i < self.entries.len()
            invariant
                self.wf(),
                i <= self.entries@.len(),
                forall|j: int| 0 <= j < i ==> self.keys()[j] != k.model(),
            decreases self.entries@.len() - i,
        {
            if self.entries[i].0.same_key(k) {
                assert(self.keys()[i as int] == k.model());
                return Some(i);
            }
            i += 1;
        }
        None
    }

    /// The value of a key, if the table has it.
    pub fn get(&self, k: &K) -> (r: Option<&V>)
        requires
            self.wf(),
        ensures
            match r {
                Some(v) => self@.contains_key(k.model()) && *v == self@[k.model()],
                None => !self@.contains_key(k.model()),
            },
    {
        match self.find(k) {
            Some(i) => Some(self.value_at(i)),
            None => None,
        }
    }

    /// Gives a key its value: a new key goes last, a known one keeps its place.
    pub fn insert(&mut self, k: K, v: V)
        requires
            old(self).wf(),
        ensures
            final(self).wf(),
            final(self)@ == old(self)@.insert(k.model(), v),
            old(self).has(k.model()) ==> {
                &&& final(self).keys() == old(self).keys()
                &&& final(self).values() == old(self).values().update(
                    old(self).keys().index_of(k.model()),
                    v,
                )
            },
            !old(self).has(k.model()) ==> {
                &&& final(self).keys() == old(self).keys().push(k.model())
                &&& final(self).values() == old(self).values().push(v)
            },
    {
        match self.find(&k) {
            Some(i) => {
                self.entries[i].1 = v;
                assert(self.keys() =~= old(self).keys());
                assert(self.values() =~= old(self).values().update(i as int, v));
            },
            None => {
                self.entries.push((k, v));
                assert(self.keys() =~= old(self).keys().push(k.model()));
                assert(self.values() =~= old(self).values().push(v));
            },
        }
        proof {
            insert_is_map_insert(*old(self), *self, k.model(), v);
        }
    }

    /// Takes the entry at position `i` out of the table.
    pub fn remove_at(&mut self, i: usize) -> (v: V)
        requires
            old(self).wf(),
            i < old(self).keys().len(),
        ensures
            final(self).wf(),
            v == old(self).values()[i as int],
            final(self)@ == old(self)@.remove(old(self).keys()[i as int]),
            final(self).keys() == old(self).keys().remove(i as int),
            final(self).values() == old(self).values().remove(i as int),
    {
        let (k, v) = self.entries.remove(i);
        assert(self.keys() =~= old(self).keys().remove(i as int));
        assert(self.values() =~= old(self).values().remove(i as int));
        proof {
            removal_is_map_removal(*old(self), *self, i as int);
        }
        v
    }
}

proof fn insert_is_map_insert<K: Key, V>(
    before: Table<K, V>,
    after: Table<K, V>,
    k: K::Model,
    v: V,
)
    requires
        before.wf(),
        after.wf(),
        before.has(k) ==> after.keys() == before.keys() && after.values()
            == before.values().update(before.keys().index_of(k), v),
        !before.has(k) ==> after.keys() == before.keys().push(k) && after.values()
            == before.values().push(v),
    ensures
        after@ == before@.insert(k, v),
{
    let n = before.keys().len() as int;
    if before.has(k) {
        assert(after@ =~= before@.insert(k, v));
    } else {
        assert(after.keys()[n] == k);
        assert forall|other: K::Model| other != k implies {
            &&& after.has(other) == before.has(other)
            &&& before.has(other) ==> after.at(other) == before.at(other)
        } by {
            if before.has(other) {
                assert(after.keys()[before.keys().index_of(other)] == other);
            }
            if after.has(other) {
                assert(before.keys()[after.keys().index_of(other)] == other);
            }
        }
        assert(after@ =~= before@.insert(k, v));
    }
}

proof fn removal_is_map_removal<K: Key, V>(before: Table<K, V>, after: Table<K, V>, i: int)
    requires
        before.wf(),
        after.wf(),
        0 <= i < before.keys().len(),
        after.keys() == before.keys().remove(i),
        after.values() == before.values().remove(i),
    ensures
        after@ == before@.remove(before.keys()[i]),
{
    let k = before.keys()[i];
    assert forall|other: K::Model| after.has(other) implies {
        &&& other != k
        &&& before.has(other)
        &&& after.at(other) == before.at(other)
    } by {
        let j = after.keys().index_of(other);
        let home = if j < i {
            j
        } else {
            j + 1
        };
        assert(before.keys()[home] == other);
        assert(before.keys().index_of(other) == home);
    }
    assert forall|other: K::Model| before.has(other) && other != k implies after.has(other) by {
        let j = before.keys().index_of(other);
        if j < i {
            assert(after.keys()[j] == other);
        } else {
            assert(after.keys()[j - 1] == other);
        }
    }
    assert(after@ =~= before@.remove(k));
}

} // verus!
