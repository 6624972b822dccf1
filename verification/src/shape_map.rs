//! A map keyed by draw shapes, held in the order of its keys: lookups are binary
//! searches, and a walk over the map is sorted.
use vstd::prelude::*;

verus! {

/// A draw shape key: DRAWMODE0, DRAWMODE1 and CLIPMODE.
pub type Shape = (u32, u32, u32);

/// The place of a shape in the order of shapes: DRAWMODE0 counts first, then
/// DRAWMODE1, then CLIPMODE.
pub open spec fn rank(k: Shape) -> int {
    k.0 * 0x1_0000_0000_0000_0000 + k.1 * 0x1_0000_0000 + k.2
}

/// Distinct shapes have distinct places.
pub proof fn lemma_rank_is_injective(a: Shape, b: Shape)
    requires
        rank(a) == rank(b),
    ensures
        a == b,
{
}

/// Shapes are ordered by DRAWMODE0; those that agree there by DRAWMODE1, and those that agree
/// there too by CLIPMODE.
pub proof fn law_order_of_shapes(a: Shape, b: Shape)
    ensures
        rank(a) < rank(b) <==> a.0 < b.0 || (a.0 == b.0 && (a.1 < b.1 || (a.1 == b.1 && a.2
            < b.2))),
        rank(a) == rank(b) <==> a == b,
{
}

/// The shapes come in ascending order, none of them twice.
pub open spec fn ascending(s: Seq<Shape>) -> bool {
    forall|i: int, j: int| 0 <= i < j < s.len() ==> rank(#[trigger] s[i]) < rank(#[trigger] s[j])
}

/// A map from draw shapes to values.
pub struct ShapeMap<V> {
    keys: Vec<Shape>,
    vals: Vec<V>,
}

impl<V> View for ShapeMap<V> {
    type V = Map<Shape, V>;

    closed spec fn view(&self) -> Map<Shape, V> {
        Map::new(
            |k: Shape| self.keys@.contains(k),
            |k: Shape| self.vals@[self.keys@.index_of(k)],
        )
    }
}

fn comes_before(a: Shape, b: Shape) -> (r: bool)
    ensures
        r == (rank(a) < rank(b)),
{
    if a.0 != b.0 {
        a.0 < b.0
    } else if a.1 != b.1 {
        a.1 < b.1
    } else {
        a.2 < b.2
    }
}

impl<V> ShapeMap<V> {
    /// The keys are in order and each has a value.
    pub closed spec fn wf(self) -> bool {
        self.keys.len() == self.vals.len() && ascending(self.keys@)
    }

    /// The keys in ascending order.
    pub closed spec fn sorted_keys(self) -> Seq<Shape> {
        self.keys@
    }

    /// The keys in order are the keys of the map, each once.
    pub proof fn lemma_sorted_keys(self)
        requires
            self.wf(),
        ensures
            ascending(self.sorted_keys()),
            self.sorted_keys().no_duplicates(),
            self.sorted_keys().to_set() =~= self@.dom(),
            self@.dom().finite(),
            self@.dom().len() == self.sorted_keys().len(),
    {
        let s = self.keys@;
        assert forall|i: int, j: int| 0 <= i < s.len() && 0 <= j < s.len() && i != j implies s[i]
            != s[j] by {
            if i < j {
                assert(rank(s[i]) < rank(s[j]));
            } else {
                assert(rank(s[j]) < rank(s[i]));
            }
        }
        assert(s.to_set() =~= self@.dom());
        s.unique_seq_to_set();
    }

    proof fn lemma_at(self, i: int)
        requires
            self.wf(),
            0 <= i < self.keys.len(),
        ensures
            self@.contains_key(self.keys@[i]),
            self@[self.keys@[i]] == self.vals@[i],
    {
        let k = self.keys@[i];
        let j = self.keys@.index_of(k);
        assert(0 <= j < self.keys@.len() && self.keys@[j] == k);
        if i < j {
            assert(rank(self.keys@[i]) < rank(self.keys@[j]));
        } else if j < i {
            assert(rank(self.keys@[j]) < rank(self.keys@[i]));
        }
    }

    pub fn new() -> (r: Self)
        ensures
            r.wf(),
            r@ == Map::<Shape, V>::empty(),
    {
        let r = ShapeMap { keys: Vec::new(), vals: Vec::new() };
        proof {
            assert(r@ =~= Map::<Shape, V>::empty());
        }
        r
    }

    /// The number of keys.
    pub fn len(&self) -> (r: usize)
        requires
            self.wf(),
        ensures
            r == self@.dom().len(),
            r == self.sorted_keys().len(),
    {
        proof {
            self.lemma_sorted_keys();
        }
        self.keys.len()
    }

    /// The first place whose key does not come before `k`.
    fn lower_bound(&self, k: Shape) -> (r: usize)
        requires
            self.wf(),
        ensures
            r <= self.keys.len(),
            forall|i: int| 0 <= i < r ==> rank(#[trigger] self.keys@[i]) < rank(k),
            forall|i: int| r <= i < self.keys.len() ==> rank(k) <= rank(#[trigger] self.keys@[i]),
    {
        let mut lo: usize = 0;
        let mut hi: usize = self.keys.len();
        while lo < hi
            invariant
                self.wf(),
                lo <= hi <= self.keys.len(),
                forall|i: int| 0 <= i < lo ==> rank(#[trigger] self.keys@[i]) < rank(k),
                forall|i: int|
                    hi <= i < self.keys.len() ==> rank(k) <= rank(#[trigger] self.keys@[i]),
            decreases hi - lo,
        {
            let mid: usize = lo + (hi - lo) / 2;
            let at = self.keys[mid];
            if comes_before(at, k) {
                lo = mid + 1;
            } else {
                hi = mid;
            }
        }
        lo
    }

    /// The place of `k`, if the map has it.
    fn place(&self, k: Shape) -> (r: Option<usize>)
        requires
            self.wf(),
        ensures
            match r {
                Some(i) => i < self.keys.len() && self.keys@[i as int] == k,
                None => !self@.contains_key(k),
            },
    {
        let at: usize = self.lower_bound(k);
        if at < self.keys.len() {
            let found = self.keys[at];
            if found.0 == k.0 && found.1 == k.1 && found.2 == k.2 {
                return Some(at);
            }
        }
        proof {
            if self.keys@.contains(k) {
                let j = self.keys@.index_of(k);
                assert(self.keys@[j] == k);
                if j < at {
                    assert(false);
                } else {
                    if at < j {
                        assert(rank(self.keys@[at as int]) < rank(self.keys@[j]));
                    }
                    assert(at == j);
                }
            }
        }
        None
    }

    /// Whether the map has `k`.
    pub fn contains_key(&self, k: Shape) -> (r: bool)
        requires
            self.wf(),
        ensures
            r == self@.contains_key(k),
    {
        match self.place(k) {
            Some(i) => {
                proof {
                    self.lemma_at(i as int);
                }
                true
            },
            None => false,
        }
    }

    /// The value of `k`.
    pub fn get(&self, k: Shape) -> (r: Option<&V>)
        requires
            self.wf(),
        ensures
            match r {
                Some(v) => self@.contains_key(k) && *v == self@[k],
                None => !self@.contains_key(k),
            },
    {
        match self.place(k) {
            Some(i) => {
                proof {
                    self.lemma_at(i as int);
                }
                Some(&self.vals[i])
            },
            None => None,
        }
    }

    /// The key at a place of the order.
    pub fn key_at(&self, i: usize) -> (r: Shape)
        requires
            self.wf(),
            i < self.sorted_keys().len(),
        ensures
            r == self.sorted_keys()[i as int],
            self@.contains_key(r),
    {
        proof {
            self.lemma_at(i as int);
        }
        self.keys[i]
    }

    /// The value at a place of the order.
    pub fn value_at(&self, i: usize) -> (r: &V)
        requires
            self.wf(),
            i < self.sorted_keys().len(),
        ensures
            *r == self@[self.sorted_keys()[i as int]],
    {
        proof {
            self.lemma_at(i as int);
        }
        &self.vals[i]
    }

    /// Gives `k` the value `v`, in place of any that it had.
    pub fn insert(&mut self, k: Shape, v: V)
        requires
            old(self).wf(),
        ensures
            final(self).wf(),
            final(self)@ == old(self)@.insert(k, v),
    {
        let ghost before = *self;
        match self.place(k) {
            Some(i) => {
                self.vals.set(i, v);
                proof {
                    assert forall|q: Shape| self@.contains_key(q) implies #[trigger] self@[q]
                        == before@.insert(k, v)[q] by {
                        let j = self.keys@.index_of(q);
                        self.lemma_at(j);
                        before.lemma_at(j);
                        if q == k {
                            if i < j {
                                assert(rank(self.keys@[i as int]) < rank(self.keys@[j]));
                            } else if j < i {
                                assert(rank(self.keys@[j]) < rank(self.keys@[i as int]));
                            }
                        }
                    }
                    assert(self@ =~= before@.insert(k, v));
                }
            },
            None => {
                let at: usize = self.lower_bound(k);
                self.keys.insert(at, k);
                self.vals.insert(at, v);
                proof {
                    let s = before.keys@;
                    let n = self.keys@;
                    assert(n =~= s.insert(at as int, k));
                    assert forall|i: int, j: int| 0 <= i < j < n.len() implies rank(#[trigger] n[i])
                        < rank(#[trigger] n[j]) by {
                        let a = if i < at { i } else { i - 1 };
                        let b = if j < at { j } else { j - 1 };
                        if i == at {
                            assert(n[j] == s[b]);
                            if rank(s[b]) == rank(k) {
                                lemma_rank_is_injective(s[b], k);
                                assert(before.keys@.contains(k));
                            }
                        } else if j == at {
                            assert(n[i] == s[a]);
                        } else {
                            assert(n[i] == s[a] && n[j] == s[b]);
                        }
                    }
                    assert(self.wf());
                    assert forall|q: Shape| self@.contains_key(q) == before@.insert(
                        k,
                        v,
                    ).contains_key(q) by {
                        if n.contains(q) && q != k {
                            let i = n.index_of(q);
                            let a = if i < at { i } else { i - 1 };
                            assert(s[a] == q);
                        }
                        if s.contains(q) {
                            let a = s.index_of(q);
                            let i = if a < at { a } else { a + 1 };
                            assert(n[i] == q);
                        }
                        if q == k {
                            assert(n[at as int] == k);
                        }
                    }
                    assert forall|q: Shape| self@.contains_key(q) implies #[trigger] self@[q]
                        == before@.insert(k, v)[q] by {
                        let i = n.index_of(q);
                        self.lemma_at(i);
                        if i == at {
                        } else {
                            let a = if i < at { i } else { i - 1 };
                            before.lemma_at(a);
                            assert(s[a] == q);
                        }
                    }
                    assert(self@ =~= before@.insert(k, v));
                }
            },
        }
    }

    /// Takes `k` out of the map.
    pub fn remove(&mut self, k: Shape)
        requires
            old(self).wf(),
        ensures
            final(self).wf(),
            final(self)@ == old(self)@.remove(k),
    {
        let ghost before = *self;
        match self.place(k) {
            Some(at) => {
                self.keys.remove(at);
                self.vals.remove(at);
                proof {
                    let s = before.keys@;
                    let n = self.keys@;
                    assert(n =~= s.remove(at as int));
                    assert forall|i: int, j: int| 0 <= i < j < n.len() implies rank(#[trigger] n[i])
                        < rank(#[trigger] n[j]) by {
                        let a = if i < at { i } else { i + 1 };
                        let b = if j < at { j } else { j + 1 };
                        assert(n[i] == s[a] && n[j] == s[b]);
                    }
                    assert(self.wf());
                    assert forall|q: Shape| self@.contains_key(q) == before@.remove(
                        k,
                    ).contains_key(q) by {
                        if n.contains(q) {
                            let i = n.index_of(q);
                            let a = if i < at { i } else { i + 1 };
                            assert(s[a] == q);
                            if a < at {
                                assert(rank(s[a]) < rank(s[at as int]));
                            } else {
                                assert(rank(s[at as int]) < rank(s[a]));
                            }
                        }
                        if s.contains(q) && q != k {
                            let a = s.index_of(q);
                            let i = if a < at { a } else { a - 1 };
                            assert(n[i] == q);
                        }
                    }
                    assert forall|q: Shape| self@.contains_key(q) implies #[trigger] self@[q]
                        == before@.remove(k)[q] by {
                        let i = n.index_of(q);
                        self.lemma_at(i);
                        let a = if i < at { i } else { i + 1 };
                        before.lemma_at(a);
                        assert(s[a] == q);
                    }
                    assert(self@ =~= before@.remove(k));
                }
            },
            None => {
                proof {
                    assert(self@ =~= before@.remove(k));
                }
            },
        }
    }
}

} // verus!
