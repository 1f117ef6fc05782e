//! Signed balance changes and per-account tables of them.
use crate::keys::PublicKey;
use vstd::prelude::*;

verus! {

/// A signed quantity kept as a sign and a magnitude.
#[derive(Debug, PartialEq, Eq, Clone, Copy, Structural)]
pub enum BalanceDelta {
    Pos(u64),
    Neg(u64),
}

impl BalanceDelta {
    /// The signed integer this delta stands for.
    pub open spec fn value(self) -> int {
        match self {
            BalanceDelta::Pos(a) => a as int,
            BalanceDelta::Neg(b) => -(b as int),
        }
    }

    /// Whether adding `rhs` keeps the magnitude within `u64`.
    pub open spec fn can_add(self, rhs: BalanceDelta) -> bool {
        match (self, rhs) {
            (BalanceDelta::Pos(a), BalanceDelta::Pos(b)) => a + b <= u64::MAX,
            (BalanceDelta::Neg(a), BalanceDelta::Neg(b)) => a + b <= u64::MAX,
            _ => true,
        }
    }

    /// Addition by cases: like signs add magnitudes; unlike signs cancel, and
    /// the sign of the left operand is kept only while it strictly dominates.
    pub open spec fn spec_add(self, rhs: BalanceDelta) -> BalanceDelta {
        match (self, rhs) {
            (BalanceDelta::Pos(a), BalanceDelta::Pos(b)) => BalanceDelta::Pos((a + b) as u64),
            (BalanceDelta::Pos(a), BalanceDelta::Neg(b)) => if a > b {
                BalanceDelta::Pos((a - b) as u64)
            } else {
                BalanceDelta::Neg((b - a) as u64)
            },
            (BalanceDelta::Neg(a), BalanceDelta::Pos(b)) => if a > b {
                BalanceDelta::Neg((a - b) as u64)
            } else {
                BalanceDelta::Pos((b - a) as u64)
            },
            (BalanceDelta::Neg(a), BalanceDelta::Neg(b)) => BalanceDelta::Neg((a + b) as u64),
        }
    }

    /// Whether the delta is not below zero.
    pub open spec fn nonneg(self) -> bool {
        match self {
            BalanceDelta::Pos(_) => true,
            BalanceDelta::Neg(a) => a == 0,
        }
    }

    pub fn add(self, rhs: BalanceDelta) -> (r: BalanceDelta)
        requires
            self.can_add(rhs),
        ensures
            r == self.spec_add(rhs),
            r.value() == self.value() + rhs.value(),
    {
        match (self, rhs) {
            (BalanceDelta::Pos(a), BalanceDelta::Pos(b)) => BalanceDelta::Pos(a + b),
            (BalanceDelta::Pos(a), BalanceDelta::Neg(b)) => if a > b {
                BalanceDelta::Pos(a - b)
            } else {
                BalanceDelta::Neg(b - a)
            },
            (BalanceDelta::Neg(a), BalanceDelta::Pos(b)) => if a > b {
                BalanceDelta::Neg(a - b)
            } else {
                BalanceDelta::Pos(b - a)
            },
            (BalanceDelta::Neg(a), BalanceDelta::Neg(b)) => BalanceDelta::Neg(a + b),
        }
    }

    /// The sum, or `None` where the magnitude would leave `u64`.
    pub fn checked_add(self, rhs: BalanceDelta) -> (r: Option<BalanceDelta>)
        ensures
            r == (if self.can_add(rhs) {
                Some(self.spec_add(rhs))
            } else {
                None::<BalanceDelta>
            }),
    {
        match (self, rhs) {
            (BalanceDelta::Pos(a), BalanceDelta::Pos(b)) => if a <= u64::MAX - b {
                Some(self.add(rhs))
            } else {
                None
            },
            (BalanceDelta::Neg(a), BalanceDelta::Neg(b)) => if a <= u64::MAX - b {
                Some(self.add(rhs))
            } else {
                None
            },
            _ => Some(self.add(rhs)),
        }
    }

    /// The amount of a delta that is not below zero (a negative zero is
    /// zero); `None` for a negative one.
    pub fn to_u64(self) -> (r: Option<u64>)
        ensures
            r == (match self {
                BalanceDelta::Pos(a) => Some(a),
                BalanceDelta::Neg(b) => if b == 0 {
                    Some(0u64)
                } else {
                    None::<u64>
                },
            }),
            r is Some <==> self.nonneg(),
            r matches Some(a) ==> a == self.value(),
    {
        match self {
            BalanceDelta::Pos(a) => Some(a),
            BalanceDelta::Neg(b) => if b == 0 {
                Some(0)
            } else {
                None
            },
        }
    }

    /// The solvency test: positive, or a negative zero.
    pub fn is_positive_or_nil(&self) -> (r: bool)
        ensures
            r == self.nonneg(),
            r == (self.value() >= 0),
    {
        match self {
            BalanceDelta::Pos(_) => true,
            BalanceDelta::Neg(a) => *a == 0,
        }
    }
}

impl Default for BalanceDelta {
    fn default() -> (r: Self)
        ensures
            r == BalanceDelta::Pos(0),
    {
        BalanceDelta::Pos(0)
    }
}

/// Addition is commutative, except on two magnitudes that are equal with
/// opposite signs, where the result is a zero carrying the sign of the right
/// operand; it is always commutative as a signed value.
pub proof fn lemma_add_commutative(a: BalanceDelta, b: BalanceDelta)
    requires
        a.can_add(b),
        !(a.value() + b.value() == 0 && (a is Pos) != (b is Pos)),
    ensures
        b.can_add(a),
        a.spec_add(b) == b.spec_add(a),
        a.spec_add(b).value() == b.spec_add(a).value(),
{
}

/// Adding in either order gives the same signed value.
pub proof fn lemma_add_value(a: BalanceDelta, b: BalanceDelta)
    requires
        a.can_add(b),
    ensures
        a.spec_add(b).value() == a.value() + b.value(),
        a.spec_add(b).value() == b.spec_add(a).value(),
{
}

/// `Pos(0)` is a left identity of addition, and a right identity of every
/// delta but the negative zero.
pub proof fn lemma_zero_identity(a: BalanceDelta)
    ensures
        BalanceDelta::Pos(0).can_add(a),
        a.can_add(BalanceDelta::Pos(0)),
        BalanceDelta::Pos(0).spec_add(a) == a,
        a != BalanceDelta::Neg(0) ==> a.spec_add(BalanceDelta::Pos(0)) == a,
{
}

/// A table from account (the key bytes) to balance delta, with one entry per
/// account.
pub struct BalanceTable {
    keys: Vec<PublicKey>,
    deltas: Vec<BalanceDelta>,
}

impl View for BalanceTable {
    type V = Map<Seq<u8>, BalanceDelta>;

    closed spec fn view(&self) -> Map<Seq<u8>, BalanceDelta> {
        Map::new(
            |k: Seq<u8>| exists|i: int| 0 <= i < self.keys@.len() && self.keys@[i]@ == k,
            |k: Seq<u8>|
                self.deltas@[choose|i: int| 0 <= i < self.keys@.len() && self.keys@[i]@ == k],
        )
    }
}

impl BalanceTable {
    /// The internal invariant: parallel vectors, one entry per account.
    pub closed spec fn wf(&self) -> bool {
        &&& self.keys@.len() == self.deltas@.len()
        &&& forall|i: int, j: int|
            0 <= i < self.keys@.len() && 0 <= j < self.keys@.len() && i != j ==> self.keys@[i]@
                != self.keys@[j]@
    }

    proof fn lemma_lookup(&self, i: int)
        requires
            self.wf(),
            0 <= i < self.keys@.len(),
        ensures
            self@.contains_key(self.keys@[i]@),
            self@[self.keys@[i]@] == self.deltas@[i],
    {
        let k = self.keys@[i]@;
        assert(exists|j: int| 0 <= j < self.keys@.len() && self.keys@[j]@ == k);
        let c = choose|j: int| 0 <= j < self.keys@.len() && self.keys@[j]@ == k;
        assert(c == i);
    }

    pub fn new() -> (r: BalanceTable)
        ensures
            r.wf(),
            r@ == Map::<Seq<u8>, BalanceDelta>::empty(),
    {
        let r = BalanceTable { keys: Vec::new(), deltas: Vec::new() };
        assert(r@ =~= Map::<Seq<u8>, BalanceDelta>::empty());
        r
    }

    fn position(&self, k: &PublicKey) -> (r: Option<usize>)
        requires
            self.wf(),
        ensures
            match r {
                Some(i) => i < self.keys@.len() && self.keys@[i as int]@ == k@,
                None => !self@.contains_key(k@),
            },
    {
        let mut i: usize = 0;
        while i < self.keys.len()
            invariant
                self.wf(),
                i <= self.keys@.len(),
                forall|j: int| 0 <= j < i ==> self.keys@[j]@ != k@,
            decreases self.keys@.len() - i,
        {
            if self.keys[i] == *k {
                return Some(i);
            }
            i = i + 1;
        }
        None
    }

    /// The delta recorded for `k`, if any.
    pub fn get(&self, k: &PublicKey) -> (r: Option<BalanceDelta>)
        requires
            self.wf(),
        ensures
            r == (if self@.contains_key(k@) {
                Some(self@[k@])
            } else {
                None::<BalanceDelta>
            }),
    {
        match self.position(k) {
            Some(i) => {
                proof {
                    self.lemma_lookup(i as int);
                }
                Some(self.deltas[i])
            },
            None => None,
        }
    }

    /// Records `d` as the delta of `k`.
    pub fn insert(&mut self, k: &PublicKey, d: BalanceDelta)
        requires
            old(self).wf(),
        ensures
            final(self).wf(),
            final(self)@ == old(self)@.insert(k@, d),
    {
        match self.position(k) {
            Some(i) => {
                self.deltas.set(i, d);
                proof {
                    let m = old(self)@.insert(k@, d);
                    assert forall|x: Seq<u8>| #[trigger] self@.contains_key(x) <==> m.contains_key(x) by {
                        if m.contains_key(x) && x != k@ {
                            let j = choose|j: int| 0 <= j < old(self).keys@.len() && old(self).keys@[j]@ == x;
                            assert(self.keys@[j]@ == x);
                        }
                        if x == k@ {
                            assert(self.keys@[i as int]@ == x);
                        }
                    }
                    assert forall|x: Seq<u8>| #[trigger] self@.contains_key(x) implies self@[x] == m[x] by {
                        let j = choose|j: int| 0 <= j < self.keys@.len() && self.keys@[j]@ == x;
                        self.lemma_lookup(j);
                        if x != k@ {
                            old(self).lemma_lookup(j);
                        }
                    }
                    assert(self@ =~= m);
                }
            },
            None => {
                let kc = k.clone();
                self.keys.push(kc);
                self.deltas.push(d);
                proof {
                    let n = old(self).keys@.len() as int;
                    let m = old(self)@.insert(k@, d);
                    assert forall|x: Seq<u8>| #[trigger] self@.contains_key(x) <==> m.contains_key(x) by {
                        if m.contains_key(x) && x != k@ {
                            let j = choose|j: int| 0 <= j < old(self).keys@.len() && old(self).keys@[j]@ == x;
                            assert(self.keys@[j]@ == x);
                        }
                        if x == k@ {
                            assert(self.keys@[n]@ == x);
                        }
                    }
                    assert forall|x: Seq<u8>| #[trigger] self@.contains_key(x) implies self@[x] == m[x] by {
                        let j = choose|j: int| 0 <= j < self.keys@.len() && self.keys@[j]@ == x;
                        self.lemma_lookup(j);
                        if x != k@ {
                            old(self).lemma_lookup(j);
                        }
                    }
                    assert(self@ =~= m);
                }
            },
        }
    }

    /// The number of entries.
    pub closed spec fn size(&self) -> nat {
        self.keys@.len()
    }

    /// The account of the `i`-th entry.
    pub closed spec fn key_spec(&self, i: int) -> Seq<u8> {
        self.keys@[i]@
    }

    /// Every account of the table is the account of some entry, and each
    /// entry's delta is the table's delta of its account.
    pub proof fn lemma_entries(&self)
        requires
            self.wf(),
        ensures
            forall|k: Seq<u8>| #[trigger]
                self@.contains_key(k) ==> exists|i: int| 0 <= i < self.size() && self.key_spec(i) == k,
            forall|i: int| 0 <= i < self.size() ==> #[trigger] self@.contains_key(self.key_spec(i)),
            forall|i: int, j: int|
                0 <= i < self.size() && 0 <= j < self.size() && i != j ==> self.key_spec(i)
                    != self.key_spec(j),
    {
        assert forall|i: int| 0 <= i < self.size() implies #[trigger] self@.contains_key(self.key_spec(i)) by {
            self.lemma_lookup(i);
        }
        assert forall|k: Seq<u8>| #[trigger] self@.contains_key(k) implies exists|i: int| 0 <= i < self.size() && self.key_spec(i) == k by {
            let i = choose|i: int| 0 <= i < self.keys@.len() && self.keys@[i]@ == k;
            assert(self.key_spec(i) == k);
        }
    }

    pub fn len(&self) -> (r: usize)
        ensures
            r == self.size(),
    {
        self.keys.len()
    }

    /// The `i`-th entry.
    pub fn entry(&self, i: usize) -> (r: (&PublicKey, BalanceDelta))
        requires
            self.wf(),
            i < self.size(),
        ensures
            r.0@ == self.key_spec(i as int),
            self@.contains_key(r.0@),
            r.1 == self@[r.0@],
    {
        proof {
            self.lemma_lookup(i as int);
        }
        (&self.keys[i], self.deltas[i])
    }
}

} // verus!
