use vstd::prelude::*;
use crate::ids::TurnID;

verus! {

/// The per-intersection view of the map layer: each turn's traversal length
/// and a symmetric conflict relation over turns. Turns are numbered `0..n`
/// and a [`TurnID`] indexes into this table.
pub struct GeomMap {
    n: usize,
    lengths: Vec<u64>,
    conflicts: Vec<bool>,
}

impl GeomMap {
    /// How many turns this table describes.
    pub closed spec fn num_turns(self) -> int {
        self.n as int
    }

    /// `t` names a turn of this table.
    pub open spec fn valid_turn(self, t: TurnID) -> bool {
        t.0 < self.num_turns()
    }

    /// Traversal length of `t`, in distance units.
    pub closed spec fn turn_length(self, t: TurnID) -> int {
        self.lengths@[t.0 as int] as int
    }

    /// Whether executing `a` and `b` simultaneously is physically unsafe.
    pub closed spec fn conflict(self, a: TurnID, b: TurnID) -> bool {
        self.conflicts@[(a.0 as int) * (self.n as int) + (b.0 as int)]
    }

    /// The conflict matrix is square and symmetric.
    pub closed spec fn wf(self) -> bool {
        &&& self.lengths@.len() == (self.n as int)
        &&& self.conflicts@.len() == (self.n as int) * (self.n as int)
        &&& forall|i: int, j: int|
            0 <= i < (self.n as int) && 0 <= j < (self.n as int) ==> #[trigger] self.conflicts@[i
                * (self.n as int) + j] == self.conflicts@[j * (self.n as int) + i]
    }

    /// The conflict relation is symmetric.
    pub proof fn lemma_conflict_symmetric(self, a: TurnID, b: TurnID)
        requires
            self.wf(),
            self.valid_turn(a),
            self.valid_turn(b),
        ensures
            self.conflict(a, b) == self.conflict(b, a),
    {
    }

    /// A table with the given per-turn lengths and no conflicts at all.
    pub fn new(lengths: Vec<u64>) -> (r: GeomMap)
        requires
            lengths@.len() * lengths@.len() <= usize::MAX,
        ensures
            r.wf(),
            r.num_turns() == lengths@.len(),
            forall|t: TurnID| r.valid_turn(t) ==> #[trigger] r.turn_length(t) == lengths@[t.0 as int],
            forall|a: TurnID, b: TurnID|
                r.valid_turn(a) && r.valid_turn(b) ==> !(#[trigger] r.conflict(a, b)),
    {
        let n = lengths.len();
        proof {
            assert(n * n <= usize::MAX);
        }
        let total: usize = n * n;
        let mut conflicts: Vec<bool> = Vec::new();
        let mut k: usize = 0;
        while k < total
            invariant
                k <= total,
                conflicts@.len() == k as int,
                forall|x: int| 0 <= x < k ==> !(#[trigger] conflicts@[x]),
            decreases total - k,
        {
            conflicts.push(false);
            k += 1;
        }
        let r = GeomMap { n, lengths, conflicts };
        proof {
            assert forall|i: int, j: int|
                0 <= i < (n as int) && 0 <= j < (n as int) implies #[trigger] r.conflicts@[i * (
            r.n as int) + j] == r.conflicts@[j * (r.n as int) + i] by {
                lemma_flat_index_bounds(i, j, n as int);
                lemma_flat_index_bounds(j, i, n as int);
            }
            assert(r.wf());
            assert forall|a: TurnID, b: TurnID|
                r.valid_turn(a) && r.valid_turn(b) implies !(#[trigger] r.conflict(a, b)) by {
                assert((a.0 as int) * (n as int) + (b.0 as int) < (n as int) * (n as int)) by (nonlinear_arith)
                    requires
                        (a.0 as int) < (n as int),
                        (b.0 as int) < (n as int),
                ;
                assert(0 <= (a.0 as int) * (n as int) + (b.0 as int)) by (nonlinear_arith)
                    requires
                        0 <= (a.0 as int),
                        0 <= (b.0 as int),
                        0 <= (n as int),
                ;
            }
        }
        r
    }

    /// Mark `a` and `b` as conflicting, in both directions.
    pub fn add_conflict(&mut self, a: TurnID, b: TurnID)
        requires
            old(self).wf(),
            old(self).valid_turn(a),
            old(self).valid_turn(b),
        ensures
            final(self).wf(),
            final(self).num_turns() == old(self).num_turns(),
            forall|t: TurnID| final(self).valid_turn(t) ==> #[trigger] final(self).turn_length(t)
                == old(self).turn_length(t),
            forall|x: TurnID, y: TurnID|
                final(self).valid_turn(x) && final(self).valid_turn(y)
                    ==> #[trigger] final(self).conflict(x, y) == (old(self).conflict(x, y) || (x
                    == a && y == b) || (x == b && y == a)),
    {
        let n = self.n;
        let cap = self.conflicts.len();
        proof {
            lemma_flat_index_bounds(a.0 as int, b.0 as int, n as int);
            lemma_flat_index_bounds(b.0 as int, a.0 as int, n as int);
            assert((n as int) * (n as int) == cap as int);
        }
        let i1: usize = a.0 * n + b.0;
        let i2: usize = b.0 * n + a.0;
        self.conflicts[i1] = true;
        self.conflicts[i2] = true;
        proof {
            assert forall|x: int, y: int| 0 <= x < (n as int) && 0 <= y < (n as int) implies {
                &&& #[trigger] self.conflicts@[x * (n as int) + y] == self.conflicts@[y * (n as int)
                    + x]
                &&& self.conflicts@[x * (n as int) + y] == (old(self).conflicts@[x * (n as int) + y]
                    || (x == (a.0 as int) && y == (b.0 as int)) || (x == (b.0 as int) && y == (a.0 as int)))
            } by {
                lemma_flat_index_bounds(x, y, n as int);
                lemma_flat_index_bounds(y, x, n as int);
                lemma_flat_index_injective(x, y, a.0 as int, b.0 as int, n as int);
                lemma_flat_index_injective(y, x, a.0 as int, b.0 as int, n as int);
                lemma_flat_index_injective(x, y, b.0 as int, a.0 as int, n as int);
                lemma_flat_index_injective(y, x, b.0 as int, a.0 as int, n as int);
            }
        }
    }

    /// Whether `a` and `b` conflict.
    pub fn conflicts_between(&self, a: TurnID, b: TurnID) -> (r: bool)
        requires
            self.wf(),
            self.valid_turn(a),
            self.valid_turn(b),
        ensures
            r == self.conflict(a, b),
    {
        let cap = self.conflicts.len();
        proof {
            lemma_flat_index_bounds(a.0 as int, b.0 as int, self.n as int);
            assert((self.n as int) * (self.n as int) == cap as int);
        }
        self.conflicts[a.0 * self.n + b.0]
    }

    /// Traversal length of `a`, in distance units.
    pub fn get_length(&self, a: TurnID) -> (r: u64)
        requires
            self.wf(),
            self.valid_turn(a),
        ensures
            r as int == self.turn_length(a),
    {
        self.lengths[a.0]
    }

    /// How many turns this table describes.
    pub fn turn_count(&self) -> (r: usize)
        ensures
            r as int == self.num_turns(),
    {
        self.n
    }
}

proof fn lemma_flat_index_bounds(i: int, j: int, n: int)
    requires
        0 <= i < n,
        0 <= j < n,
    ensures
        0 <= i * n + j < n * n,
{
    assert(0 <= i * n + j < n * n) by (nonlinear_arith)
        requires
            0 <= i < n,
            0 <= j < n,
    ;
}

proof fn lemma_flat_index_injective(i: int, j: int, x: int, y: int, n: int)
    requires
        0 <= i < n,
        0 <= j < n,
        0 <= x < n,
        0 <= y < n,
    ensures
        (i * n + j == x * n + y) <==> (i == x && j == y),
{
    assert((i * n + j == x * n + y) <==> (i == x && j == y)) by (nonlinear_arith)
        requires
            0 <= i < n,
            0 <= j < n,
            0 <= x < n,
            0 <= y < n,
    ;
}

} // verus!
