use vstd::prelude::*;
use crate::ids::CarID;

verus! {

/// The map denoted by a sequence of `(car, value)` entries; a later entry for
/// the same car wins, though a well-formed table keeps its keys distinct.
pub open spec fn entries_map<V>(s: Seq<(CarID, V)>) -> Map<CarID, V>
    decreases s.len(),
{
    if s.len() == 0 {
        Map::empty()
    } else {
        entries_map(s.drop_last()).insert(s.last().0, s.last().1)
    }
}

/// Some entry of `s` carries the car `c`.
pub open spec fn seq_has_key<V>(s: Seq<(CarID, V)>, c: CarID) -> bool {
    exists|i: int| 0 <= i < s.len() && (#[trigger] s[i]).0 == c
}

/// No two entries carry the same car.
pub open spec fn distinct_keys<V>(s: Seq<(CarID, V)>) -> bool {
    forall|i: int, j: int|
        0 <= i < j < s.len() ==> (#[trigger] s[i]).0 != (#[trigger] s[j]).0
}

/// A car is in the denoted map's domain exactly when some entry carries it.
pub proof fn lemma_entries_map_dom<V>(s: Seq<(CarID, V)>, c: CarID)
    ensures
        entries_map(s).dom().contains(c) <==> exists|i: int|
            0 <= i < s.len() && (#[trigger] s[i]).0 == c,
    decreases s.len(),
{
    if s.len() > 0 {
        lemma_entries_map_dom(s.drop_last(), c);
        if s.last().0 == c {
            assert((s[s.len() - 1]).0 == c);
        } else {
            if entries_map(s).dom().contains(c) {
                let i = choose|i: int|
                    0 <= i < s.drop_last().len() && (#[trigger] s.drop_last()[i]).0 == c;
                assert((s[i]).0 == c);
            }
            if exists|i: int| 0 <= i < s.len() && (#[trigger] s[i]).0 == c {
                let i = choose|i: int| 0 <= i < s.len() && (#[trigger] s[i]).0 == c;
                assert(i < s.len() - 1);
                assert((s.drop_last()[i]).0 == c);
            }
        }
    }
}

/// With distinct keys, each entry gives the denoted map's value for its car.
pub proof fn lemma_entries_map_at<V>(s: Seq<(CarID, V)>, i: int)
    requires
        distinct_keys(s),
        0 <= i < s.len(),
    ensures
        entries_map(s).dom().contains((s[i]).0),
        entries_map(s)[(s[i]).0] == (s[i]).1,
    decreases s.len(),
{
    if i < s.len() - 1 {
        assert(distinct_keys(s.drop_last()));
        lemma_entries_map_at(s.drop_last(), i);
        assert((s.drop_last()[i]) == s[i]);
        assert((s[s.len() - 1]).0 != (s[i]).0);
    }
}

proof fn lemma_entries_map_update<V>(s: Seq<(CarID, V)>, i: int, v: V)
    requires
        distinct_keys(s),
        0 <= i < s.len(),
    ensures
        entries_map(s.update(i, ((s[i]).0, v))) == entries_map(s).insert((s[i]).0, v),
        distinct_keys(s.update(i, ((s[i]).0, v))),
    decreases s.len(),
{
    let c = (s[i]).0;
    let s2 = s.update(i, (c, v));
    assert(distinct_keys(s2));
    if i == s.len() - 1 {
        assert(s2.drop_last() =~= s.drop_last());
        assert(entries_map(s2) =~= entries_map(s).insert(c, v));
    } else {
        assert(distinct_keys(s.drop_last()));
        assert(s2.drop_last() =~= s.drop_last().update(i, (c, v)));
        lemma_entries_map_update(s.drop_last(), i, v);
        assert((s[s.len() - 1]).0 != c);
        assert(entries_map(s2) =~= entries_map(s).insert(c, v));
    }
}

proof fn lemma_entries_map_remove<V>(s: Seq<(CarID, V)>, i: int)
    requires
        distinct_keys(s),
        0 <= i < s.len(),
    ensures
        entries_map(s.remove(i)) == entries_map(s).remove((s[i]).0),
        distinct_keys(s.remove(i)),
    decreases s.len(),
{
    let c = (s[i]).0;
    assert(distinct_keys(s.remove(i)));
    if i == s.len() - 1 {
        assert(s.remove(i) =~= s.drop_last());
        lemma_entries_map_dom(s.drop_last(), c);
        assert(!entries_map(s.drop_last()).dom().contains(c));
        assert(entries_map(s.remove(i)) =~= entries_map(s).remove(c));
    } else {
        assert(distinct_keys(s.drop_last()));
        assert(s.remove(i).drop_last() =~= s.drop_last().remove(i));
        lemma_entries_map_remove(s.drop_last(), i);
        assert((s[s.len() - 1]).0 != c);
        assert(s.remove(i).last() == s.last());
        assert(entries_map(s.remove(i)) =~= entries_map(s).remove(c));
    }
}

proof fn lemma_entries_map_push<V>(s: Seq<(CarID, V)>, c: CarID, v: V)
    ensures
        entries_map(s.push((c, v))) == entries_map(s).insert(c, v),
{
    assert(s.push((c, v)).drop_last() =~= s);
}

/// A mapping keyed by [`CarID`], stored as a vector of entries so that
/// iteration order is the deterministic insertion order.
pub struct CarMap<V> {
    entries: Vec<(CarID, V)>,
}

impl<V: Copy> CarMap<V> {
    /// The entries, oldest first.
    pub closed spec fn seq(self) -> Seq<(CarID, V)> {
        self.entries@
    }

    /// The mapping denoted.
    pub open spec fn as_map(self) -> Map<CarID, V> {
        entries_map(self.seq())
    }

    /// Keys are distinct, so each car denotes one value.
    pub open spec fn wf(self) -> bool {
        distinct_keys(self.seq())
    }

    /// A mapping holding exactly `entries`, whose keys must be distinct.
    pub fn from_entries(entries: Vec<(CarID, V)>) -> (r: Self)
        requires
            distinct_keys(entries@),
        ensures
            r.wf(),
            r.seq() == entries@,
    {
        CarMap { entries }
    }

    /// An empty mapping.
    pub fn new() -> (r: Self)
        ensures
            r.wf(),
            r.seq() == Seq::<(CarID, V)>::empty(),
            r.as_map() == Map::<CarID, V>::empty(),
    {
        CarMap { entries: Vec::new() }
    }

    /// Number of cars in the mapping.
    pub fn len(&self) -> (r: usize)
        ensures
            r == self.seq().len(),
    {
        self.entries.len()
    }

    /// The `i`th entry in insertion order.
    pub fn entry_at(&self, i: usize) -> (r: (CarID, V))
        requires
            i < self.seq().len(),
        ensures
            r == self.seq()[i as int],
    {
        self.entries[i]
    }

    /// Position of the entry for `c`, if any.
    fn index_of(&self, c: CarID) -> (r: Option<usize>)
        ensures
            match r {
                Some(i) => i < self.seq().len() && (self.seq()[i as int]).0 == c,
                None => forall|j: int| 0 <= j < self.seq().len() ==> (#[trigger] self.seq()[j]).0 != c,
            },
    {
        let n = self.entries.len();
        let mut i: usize = 0;
        while i < n
            invariant
                i <= n,
                n == self.seq().len(),
                forall|j: int| 0 <= j < i ==> (#[trigger] self.seq()[j]).0 != c,
            decreases n - i,
        {
            if self.entries[i].0 == c {
                return Some(i);
            }
            i += 1;
        }
        None
    }

    /// Whether `c` is present.
    pub fn contains_key(&self, c: CarID) -> (r: bool)
        ensures
            r == self.as_map().dom().contains(c),
    {
        proof {
            lemma_entries_map_dom(self.seq(), c);
        }
        self.index_of(c).is_some()
    }

    /// The value for `c`, if present.
    pub fn get(&self, c: CarID) -> (r: Option<V>)
        requires
            self.wf(),
        ensures
            match r {
                Some(v) => self.as_map().dom().contains(c) && self.as_map()[c] == v,
                None => !self.as_map().dom().contains(c),
            },
    {
        proof {
            lemma_entries_map_dom(self.seq(), c);
        }
        match self.index_of(c) {
            Some(i) => {
                proof {
                    lemma_entries_map_at(self.seq(), i as int);
                }
                Some(self.entries[i].1)
            },
            None => None,
        }
    }

    /// Record `v` for `c`, replacing any previous value.
    pub fn insert(&mut self, c: CarID, v: V)
        requires
            old(self).wf(),
        ensures
            final(self).wf(),
            final(self).as_map() == old(self).as_map().insert(c, v),
    {
        match self.index_of(c) {
            Some(i) => {
                proof {
                    lemma_entries_map_update(self.seq(), i as int, v);
                }
                self.entries[i] = (c, v);
            },
            None => {
                proof {
                    lemma_entries_map_push(self.seq(), c, v);
                    lemma_entries_map_dom(self.seq(), c);
                    assert(distinct_keys(self.seq().push((c, v))));
                }
                self.entries.push((c, v));
            },
        }
    }

    /// Drop the entry for `c`, if any.
    pub fn remove(&mut self, c: CarID)
        requires
            old(self).wf(),
        ensures
            final(self).wf(),
            final(self).as_map() == old(self).as_map().remove(c),
    {
        match self.index_of(c) {
            Some(i) => {
                proof {
                    lemma_entries_map_remove(self.seq(), i as int);
                }
                self.entries.remove(i);
            },
            None => {
                proof {
                    lemma_entries_map_dom(self.seq(), c);
                    assert(self.as_map() =~= self.as_map().remove(c));
                }
            },
        }
    }

    /// A copy of the entries in insertion order.
    pub fn to_entries(&self) -> (r: Vec<(CarID, V)>)
        ensures
            r@ == self.seq(),
    {
        let n = self.entries.len();
        let mut out: Vec<(CarID, V)> = Vec::new();
        let mut i: usize = 0;
        while i < n
            invariant
                i <= n,
                n == self.seq().len(),
                out@ == self.seq().subrange(0, i as int),
            decreases n - i,
        {
            out.push(self.entries[i]);
            proof {
                assert(out@ =~= self.seq().subrange(0, i + 1 as int));
            }
            i += 1;
        }
        proof {
            assert(out@ =~= self.seq());
        }
        out
    }
}

/// Whether some entry of `entries` carries the car `c`.
fn has_key_in<V: Copy>(entries: &Vec<(CarID, V)>, c: CarID) -> (r: bool)
    ensures
        r == seq_has_key(entries@, c),
{
    let n = entries.len();
    let mut i: usize = 0;
    while i < n
        invariant
            i <= n,
            n == entries@.len(),
            forall|j: int| 0 <= j < i ==> (#[trigger] entries@[j]).0 != c,
        decreases n - i,
    {
        if entries[i].0 == c {
            return true;
        }
        i += 1;
    }
    false
}

/// Whether the entries of `entries` carry pairwise distinct cars.
pub fn keys_distinct<V: Copy>(entries: &Vec<(CarID, V)>) -> (r: bool)
    ensures
        r == distinct_keys(entries@),
{
    let n = entries.len();
    let mut i: usize = 0;
    while i < n
        invariant
            i <= n,
            n == entries@.len(),
            forall|x: int, y: int|
                0 <= x < y < n && x < i ==> (#[trigger] entries@[x]).0 != (#[trigger] entries@[y]).0,
        decreases n - i,
    {
        let mut j: usize = i + 1;
        while j < n
            invariant
                i < j <= n,
                i < n,
                n == entries@.len(),
                forall|y: int| i < y < j ==> (#[trigger] entries@[y]).0 != entries@[i as int].0,
            decreases n - j,
        {
            if entries[j].0 == entries[i].0 {
                return false;
            }
            j += 1;
        }
        i += 1;
    }
    true
}

/// Whether `a` and `b` carry exactly the same set of cars.
pub fn same_key_sets<V1: Copy, V2: Copy>(a: &Vec<(CarID, V1)>, b: &Vec<(CarID, V2)>) -> (r: bool)
    ensures
        r == (forall|c: CarID| #[trigger] seq_has_key(a@, c) <==> #[trigger] seq_has_key(b@, c)),
{
    let na = a.len();
    let mut i: usize = 0;
    while i < na
        invariant
            i <= na,
            na == a@.len(),
            forall|j: int| 0 <= j < i ==> seq_has_key(b@, (#[trigger] a@[j]).0),
        decreases na - i,
    {
        if !has_key_in(b, a[i].0) {
            proof {
                assert(seq_has_key(a@, a@[i as int].0));
            }
            return false;
        }
        i += 1;
    }
    let nb = b.len();
    let mut j: usize = 0;
    while j < nb
        invariant
            j <= nb,
            nb == b@.len(),
            forall|x: int| 0 <= x < a@.len() ==> seq_has_key(b@, (#[trigger] a@[x]).0),
            forall|x: int| 0 <= x < j ==> seq_has_key(a@, (#[trigger] b@[x]).0),
        decreases nb - j,
    {
        if !has_key_in(a, b[j].0) {
            proof {
                assert(seq_has_key(b@, b@[j as int].0));
            }
            return false;
        }
        j += 1;
    }
    proof {
        assert forall|c: CarID| #[trigger] seq_has_key(a@, c) <==> #[trigger] seq_has_key(b@, c) by {
            if seq_has_key(a@, c) {
                let x = choose|x: int| 0 <= x < a@.len() && (#[trigger] a@[x]).0 == c;
                assert(seq_has_key(b@, a@[x].0));
            }
            if seq_has_key(b@, c) {
                let x = choose|x: int| 0 <= x < b@.len() && (#[trigger] b@[x]).0 == c;
                assert(seq_has_key(a@, b@[x].0));
            }
        }
    }
    true
}

/// Whether no car is carried by both `a` and `b`.
pub fn disjoint_key_sets<V1: Copy, V2: Copy>(
    a: &Vec<(CarID, V1)>,
    b: &Vec<(CarID, V2)>,
) -> (r: bool)
    ensures
        r == (forall|c: CarID| !(#[trigger] seq_has_key(a@, c) && seq_has_key(b@, c))),
{
    let na = a.len();
    let mut i: usize = 0;
    while i < na
        invariant
            i <= na,
            na == a@.len(),
            forall|j: int| 0 <= j < i ==> !seq_has_key(b@, (#[trigger] a@[j]).0),
        decreases na - i,
    {
        if has_key_in(b, a[i].0) {
            proof {
                assert(seq_has_key(a@, a@[i as int].0));
            }
            return false;
        }
        i += 1;
    }
    proof {
        assert forall|c: CarID| !(#[trigger] seq_has_key(a@, c) && seq_has_key(b@, c)) by {
            if seq_has_key(a@, c) {
                let x = choose|x: int| 0 <= x < a@.len() && (#[trigger] a@[x]).0 == c;
                assert(!seq_has_key(b@, a@[x].0));
            }
        }
    }
    true
}

} // verus!
