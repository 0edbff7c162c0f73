//! Ordered tables keyed by raw identifiers, and ascending listings.

use std::collections::BTreeMap;
use vstd::prelude::*;
use vstd::std_specs::iter::IteratorSpec;

verus! {

broadcast use {vstd::std_specs::btree::group_btree_axioms, vstd::laws_cmp::group_laws_cmp};

/// Every element is less than every later one.
pub open spec fn is_ascending(s: Seq<u64>) -> bool {
    forall|i: int, j: int| 0 <= i < j < s.len() ==> (#[trigger] s[i]) < (#[trigger] s[j])
}

/// The members of a finite set in ascending order.
pub open spec fn ascending(set: Set<u64>) -> Seq<u64> {
    choose|s: Seq<u64>| #[trigger] is_ascending(s) && s.to_set() == set
}

/// The number of elements that satisfy a condition.
pub open spec fn tally(s: Seq<u64>, condition: spec_fn(u64) -> bool) -> nat
    decreases s.len(),
{
    if s.len() == 0 {
        0
    } else {
        tally(s.drop_last(), condition) + if condition(s.last()) {
            1nat
        } else {
            0nat
        }
    }
}

/// The tally of an ascending listing is the size of the set of the elements
/// that satisfy the condition.
pub proof fn tally_counts(s: Seq<u64>, condition: spec_fn(u64) -> bool)
    requires
        is_ascending(s),
    ensures
        Set::new(|x: u64| s.contains(x) && condition(x)).finite(),
        Set::new(|x: u64| s.contains(x) && condition(x)).len() == tally(s, condition),
    decreases s.len(),
{
    let set = Set::new(|x: u64| s.contains(x) && condition(x));
    if s.len() == 0 {
        assert(set =~= Set::empty());
    } else {
        let earlier = s.drop_last();
        let rest = Set::new(|x: u64| earlier.contains(x) && condition(x));
        assert forall|i: int, j: int| 0 <= i < j < earlier.len() implies (#[trigger] earlier[i])
            < (#[trigger] earlier[j]) by {
            assert(s[i] < s[j]);
        }
        tally_counts(earlier, condition);
        assert(!earlier.contains(s.last())) by {
            if earlier.contains(s.last()) {
                let i = earlier.index_of(s.last());
                assert(s[i] < s[s.len() - 1]);
            }
        }
        assert forall|x: u64| s.contains(x) <==> earlier.contains(x) || x == s.last() by {
            if s.contains(x) && x != s.last() {
                let i = s.index_of(x);
                assert(earlier[i] == x);
            }
            if earlier.contains(x) {
                let i = earlier.index_of(x);
                assert(s[i] == x);
            }
            assert(s[s.len() - 1] == s.last());
        }
        if condition(s.last()) {
            assert(set =~= rest.insert(s.last()));
        } else {
            assert(set =~= rest);
        }
    }
}

/// A set has one ascending listing.
pub proof fn ascending_is(s: Seq<u64>, set: Set<u64>)
    requires
        is_ascending(s),
        s.to_set() == set,
    ensures
        ascending(set) == s,
{
    same_listing(ascending(set), s);
}

proof fn same_listing(a: Seq<u64>, b: Seq<u64>)
    requires
        is_ascending(a),
        is_ascending(b),
        a.to_set() == b.to_set(),
    ensures
        a == b,
    decreases a.len(),
{
    if a.len() == 0 {
        if b.len() > 0 {
            assert(b.to_set().contains(b[0]));
            assert(a.contains(b[0]));
        }
        assert(a =~= b);
    } else if b.len() == 0 {
        assert(a.to_set().contains(a[0]));
        assert(b.contains(a[0]));
    } else {
        let x = a.last();
        let y = b.last();
        assert(a.to_set().contains(x));
        assert(b.contains(x));
        assert(b.to_set().contains(y));
        assert(a.contains(y));
        let i = choose|i: int| 0 <= i < b.len() && b[i] == x;
        let j = choose|j: int| 0 <= j < a.len() && a[j] == y;
        assert(x == y) by {
            if i < b.len() - 1 {
                assert(b[i] < b[b.len() - 1]);
            }
            if j < a.len() - 1 {
                assert(a[j] < a[a.len() - 1]);
            }
        }
        let a1 = a.drop_last();
        let b1 = b.drop_last();
        assert forall|v: u64| a1.to_set().contains(v) == b1.to_set().contains(v) by {
            if a1.contains(v) {
                let k = choose|k: int| 0 <= k < a1.len() && a1[k] == v;
                assert(a[k] < a[a.len() - 1]);
                assert(a.contains(v));
                assert(b.to_set().contains(v));
                let m = choose|m: int| 0 <= m < b.len() && b[m] == v;
                assert(b1[m] == v);
            }
            if b1.contains(v) {
                let k = choose|k: int| 0 <= k < b1.len() && b1[k] == v;
                assert(b[k] < b[b.len() - 1]);
                assert(b.contains(v));
                assert(a.to_set().contains(v));
                let m = choose|m: int| 0 <= m < a.len() && a[m] == v;
                assert(a1[m] == v);
            }
        }
        assert(a1.to_set() =~= b1.to_set());
        same_listing(a1, b1);
        assert(a =~= a1.push(x));
        assert(b =~= b1.push(y));
    }
}

/// A finite set has an ascending listing.
pub proof fn ascending_lists(set: Set<u64>)
    requires
        set.finite(),
    ensures
        is_ascending(ascending(set)),
        ascending(set).to_set() == set,
        ascending(set).len() == set.len(),
    decreases set.len(),
{
    let s = listing_of(set);
    assert(is_ascending(s) && s.to_set() == set);
    let q = ascending(set);
    assert forall|i: int, j: int| 0 <= i < q.len() && 0 <= j < q.len() && i != j implies q[i]
        != q[j] by {
        if i < j {
            assert(q[i] < q[j]);
        } else {
            assert(q[j] < q[i]);
        }
    }
    assert(q.no_duplicates());
    q.unique_seq_to_set();
}

proof fn listing_of(set: Set<u64>) -> (s: Seq<u64>)
    requires
        set.finite(),
    ensures
        is_ascending(s),
        s.to_set() == set,
    decreases set.len(),
{
    if set.len() == 0 {
        let s = Seq::<u64>::empty();
        assert(s.to_set() =~= set);
        s
    } else {
        let x = greatest(set);
        let rest = listing_of(set.remove(x));
        let s = rest.push(x);
        assert forall|i: int, j: int| 0 <= i < j < s.len() implies (#[trigger] s[i]) < (
        #[trigger] s[j]) by {
            if j == s.len() - 1 {
                assert(rest.contains(rest[i]));
                assert(rest.to_set().contains(rest[i]));
            }
        }
        assert forall|v: u64| s.to_set().contains(v) == set.contains(v) by {
            if set.contains(v) {
                if v == x {
                    assert(s[s.len() - 1] == v);
                } else {
                    assert(rest.to_set().contains(v));
                    let k = choose|k: int| 0 <= k < rest.len() && rest[k] == v;
                    assert(s[k] == v);
                }
            }
            if s.contains(v) {
                let k = choose|k: int| 0 <= k < s.len() && s[k] == v;
                if k < rest.len() {
                    assert(rest[k] == v);
                    assert(rest.to_set().contains(v));
                }
            }
        }
        assert(s.to_set() =~= set);
        s
    }
}

proof fn greatest(set: Set<u64>) -> (x: u64)
    requires
        set.finite(),
        set.len() > 0,
    ensures
        set.contains(x),
        forall|v: u64| set.contains(v) ==> v <= x,
    decreases set.len(),
{
    let a = set.choose();
    assert(set.contains(a));
    let rest = set.remove(a);
    if rest.len() == 0 {
        assert forall|v: u64| set.contains(v) implies v <= a by {
            if v != a {
                assert(rest.contains(v));
                assert(rest.len() != 0) by {
                    vstd::set_lib::axiom_is_empty(rest);
                }
            }
        }
        a
    } else {
        let b = greatest(rest);
        let x = if a < b {
            b
        } else {
            a
        };
        assert forall|v: u64| set.contains(v) implies v <= x by {
            if v != a {
                assert(rest.contains(v));
            }
        }
        x
    }
}

proof fn increasing_is_ascending(s: Seq<u64>)
    requires
        vstd::std_specs::btree::increasing_seq(s),
    ensures
        is_ascending(s),
{
    assert forall|i: int, j: int| 0 <= i < j < s.len() implies (#[trigger] s[i]) < (
    #[trigger] s[j]) by {
        assert(vstd::laws_cmp::obeys_cmp::<u64>());
        assert(vstd::std_specs::cmp::OrdSpec::cmp_spec(&s[i], &s[j]) is Less);
    }
}

/// Taking a thing out and putting one back in is replacing it.
pub broadcast proof fn put_back<V>(m: Map<u64, V>, k: u64, v: V)
    ensures
        #[trigger] m.remove(k).insert(k, v) == m.insert(k, v),
{
    assert(m.remove(k).insert(k, v) =~= m.insert(k, v));
}

/// A table of things keyed by raw identifiers.
pub struct Table<T> {
    map: BTreeMap<u64, T>,
}

/// The contents of a map of viewable things.
pub open spec fn keyed<T: View>(m: Map<u64, T>) -> Map<u64, T::V> {
    Map::new(|k: u64| m.contains_key(k), |k: u64| m[k]@)
}

impl<T: View> View for Table<T> {
    type V = Map<u64, T::V>;

    closed spec fn view(&self) -> Map<u64, T::V> {
        keyed(self.map@)
    }
}

impl<T: View> Table<T> {
    /// The things in the table themselves.
    pub closed spec fn things(&self) -> Map<u64, T> {
        self.map@
    }

    /// An empty table.
    pub fn new() -> (table: Table<T>)
        ensures
            table@ == Map::<u64, T::V>::empty(),
    {
        let table = Table { map: BTreeMap::new() };
        assert(table@ =~= Map::empty());
        table
    }

    /// The number of things in the table.
    pub fn len(&self) -> (count: usize)
        ensures
            count == self@.len(),
            self@.dom().finite(),
    {
        assert(self@.dom() =~= self.map@.dom());
        self.map.len()
    }

    /// Whether `key` is present.
    pub fn contains(&self, key: u64) -> (present: bool)
        ensures
            present == self@.contains_key(key),
    {
        self.map.contains_key(&key)
    }

    /// The thing under `key`, if present.
    pub fn get(&self, key: u64) -> (found: Option<&T>)
        ensures
            match found {
                Some(thing) => self@.contains_key(key) && self@[key] == thing@ && *thing
                    == self.things()[key],
                None => !self@.contains_key(key),
            },
    {
        self.map.get(&key)
    }

    /// Puts a thing under `key`, replacing any earlier one.
    pub fn insert(&mut self, key: u64, thing: T)
        ensures
            final(self)@ == old(self)@.insert(key, thing@),
    {
        self.map.insert(key, thing);
        assert(self@ =~= old(self)@.insert(key, thing@));
    }

    /// Takes the thing under `key` out.
    pub fn remove(&mut self, key: u64) -> (taken: Option<T>)
        ensures
            final(self)@ == old(self)@.remove(key),
            match taken {
                Some(thing) => old(self)@.contains_key(key) && old(self)@[key] == thing@,
                None => !old(self)@.contains_key(key),
            },
    {
        let taken = self.map.remove(&key);
        assert(self@ =~= old(self)@.remove(key));
        taken
    }

    /// The keys in ascending order.
    pub fn keys(&self) -> (keys: Vec<u64>)
        ensures
            keys@ == ascending(self@.dom()),
            is_ascending(keys@),
            keys@.to_set() == self@.dom(),
            self@.dom().finite(),
    {
        let mut keys: Vec<u64> = Vec::new();
        let pairs = self.map.iter();
        let ghost all = pairs.remaining();
        let ghost listed = all.map_values(|kv: (&u64, &T)| *kv.0);
        proof {
            assert(self@.dom() =~= self.map@.dom());
            increasing_is_ascending(listed);
        }
        for kv in it: pairs
            invariant
                it.seq().map_values(|kv: (&u64, &T)| *kv.0) == listed,
                keys@ == listed.take(it.index() as int),
        {
            keys.push(*kv.0);
            assert(keys@ =~= listed.take(it.index() + 1));
        }
        proof {
            assert(keys@ =~= listed);
            assert forall|k: u64| keys@.to_set().contains(k) == self@.dom().contains(k) by {
                if self.map@.contains_key(k) {
                    assert(all.contains((&k, &self.map@[k])));
                    let i = choose|i: int| 0 <= i < all.len() && all[i] == (&k, &self.map@[k]);
                    assert(listed[i] == k);
                }
                if keys@.contains(k) {
                    let i = choose|i: int| 0 <= i < listed.len() && listed[i] == k;
                    assert(self.map@.contains_key(*all[i].0));
                }
            }
            assert(keys@.to_set() =~= self@.dom());
            ascending_is(keys@, self@.dom());
        }
        keys
    }
}

/// A set of raw identifiers.
pub struct IdSet {
    table: Table<()>,
}

impl View for IdSet {
    type V = Set<u64>;

    closed spec fn view(&self) -> Set<u64> {
        self.table@.dom()
    }
}

impl IdSet {
    /// An empty set.
    pub fn new() -> (set: IdSet)
        ensures
            set@ == Set::<u64>::empty(),
    {
        let set = IdSet { table: Table::new() };
        assert(set@ =~= Set::empty());
        set
    }

    /// Adds a member.
    pub fn insert(&mut self, id: u64)
        ensures
            final(self)@ == old(self)@.insert(id),
    {
        self.table.insert(id, ());
        assert(self@ =~= old(self)@.insert(id));
    }

    /// Takes a member out.
    pub fn remove(&mut self, id: u64)
        ensures
            final(self)@ == old(self)@.remove(id),
    {
        self.table.remove(id);
        assert(self@ =~= old(self)@.remove(id));
    }

    /// Whether `id` is a member.
    pub fn contains(&self, id: u64) -> (member: bool)
        ensures
            member == self@.contains(id),
    {
        self.table.contains(id)
    }

    /// The number of members.
    pub fn len(&self) -> (count: usize)
        ensures
            count == self@.len(),
            self@.finite(),
    {
        self.table.len()
    }

    /// The members in ascending order.
    pub fn members(&self) -> (ids: Vec<u64>)
        ensures
            ids@ == ascending(self@),
            is_ascending(ids@),
            ids@.to_set() == self@,
            self@.finite(),
    {
        self.table.keys()
    }
}

} // verus!
