//! The hits of a ray with an object, and the choice of a hit among several.
//!
//! Choices go by rank: an integer that orders hits by their distance along
//! the ray (a larger rank is farther). A hit that cannot be chosen has no
//! rank (`None`).
use vstd::prelude::*;

verus! {

/// How many hits a [`HitVec`] holds at most.
pub const HITVEC_SIZE: usize = 6;

/// The hits of a ray with one object, at most [`HITVEC_SIZE`] of them, in
/// the order in which they were added.
pub struct HitVec<H> {
    hits: Vec<H>,
}

impl<H> View for HitVec<H> {
    type V = Seq<H>;

    closed spec fn view(&self) -> Seq<H> {
        self.hits@
    }
}

impl<H> HitVec<H> {
    #[verifier::type_invariant]
    spec fn bounded(&self) -> bool {
        self.hits@.len() <= HITVEC_SIZE
    }

    pub fn new() -> (r: Self)
        ensures
            r@ == Seq::<H>::empty(),
    {
        HitVec { hits: Vec::new() }
    }

    /// Adds a hit; there must be room for it.
    pub fn push(&mut self, hit: H)
        requires
            old(self)@.len() < HITVEC_SIZE,
        ensures
            final(self)@ == old(self)@.push(hit),
    {
        let mut hits: Vec<H> = Vec::new();
        std::mem::swap(&mut hits, &mut self.hits);
        hits.push(hit);
        self.hits = hits;
    }

    pub fn len(&self) -> (r: usize)
        ensures
            r == self@.len(),
            r <= HITVEC_SIZE,
    {
        proof {
            use_type_invariant(self);
        }
        self.hits.len()
    }

    pub fn is_empty(&self) -> (r: bool)
        ensures
            r == (self@.len() == 0),
    {
        self.hits.len() == 0
    }

    /// The `i`-th hit.
    pub fn get(&self, i: usize) -> (r: &H)
        requires
            i < self@.len(),
        ensures
            *r == self@[i as int],
    {
        &self.hits[i]
    }

    /// The hits, in order.
    pub fn into_vec(self) -> (r: Vec<H>)
        ensures
            r@ == self@,
            r@.len() <= HITVEC_SIZE,
    {
        proof {
            use_type_invariant(&self);
        }
        self.hits
    }
}

/// The first hit of least rank: index `i` is chosen when its rank is no
/// larger than any other and smaller than every rank before it.
pub open spec fn is_first_nearest(keys: Seq<Option<u64>>, i: int) -> bool {
    &&& 0 <= i < keys.len()
    &&& keys[i] is Some
    &&& forall|j: int|
        0 <= j < keys.len() && (#[trigger] keys[j]) is Some ==> keys[i]->0 <= keys[j]->0
    &&& forall|j: int| 0 <= j < i && (#[trigger] keys[j]) is Some ==> keys[i]->0 < keys[j]->0
}

/// The last hit of greatest rank.
pub open spec fn is_last_farthest(keys: Seq<Option<u64>>, i: int) -> bool {
    &&& 0 <= i < keys.len()
    &&& keys[i] is Some
    &&& forall|j: int|
        0 <= j < keys.len() && (#[trigger] keys[j]) is Some ==> keys[j]->0 <= keys[i]->0
    &&& forall|j: int| i < j < keys.len() && (#[trigger] keys[j]) is Some ==> keys[j]->0 < keys[i]->0
}

/// The last hit of least rank.
pub open spec fn is_last_nearest(keys: Seq<Option<u64>>, i: int) -> bool {
    &&& 0 <= i < keys.len()
    &&& keys[i] is Some
    &&& forall|j: int|
        0 <= j < keys.len() && (#[trigger] keys[j]) is Some ==> keys[i]->0 <= keys[j]->0
    &&& forall|j: int| i < j < keys.len() && (#[trigger] keys[j]) is Some ==> keys[i]->0 < keys[j]->0
}

pub open spec fn none_ranked(keys: Seq<Option<u64>>) -> bool {
    forall|j: int| 0 <= j < keys.len() ==> (#[trigger] keys[j]) is None
}

/// Picks the nearest hit, the earliest one among equals, as a scan that
/// keeps a hit only when it is strictly nearer than the one kept.
pub fn select_first_hit(keys: &Vec<Option<u64>>) -> (r: Option<usize>)
    ensures
        match r {
            Some(i) => is_first_nearest(keys@, i as int),
            None => none_ranked(keys@),
        },
{
    let mut best: Option<usize> = None;
    let mut k: usize = 0;
    while k < keys.len()
        invariant
            k <= keys@.len(),
            match best {
                Some(i) => is_first_nearest(keys@.take(k as int), i as int),
                None => none_ranked(keys@.take(k as int)),
            },
        decreases keys@.len() - k,
    {
        let ghost prefix = keys@.take(k + 1);
        assert(forall|j: int| 0 <= j < k ==> prefix[j] == keys@.take(k as int)[j]);
        match keys[k] {
            Some(rank) => {
                match best {
                    Some(i) => {
                        let current = keys[i].unwrap();
                        if rank < current {
                            best = Some(k);
                        }
                    },
                    None => {
                        best = Some(k);
                    },
                }
            },
            None => {},
        }
        k += 1;
    }
    assert(keys@.take(k as int) =~= keys@);
    best
}

/// Picks the farthest hit, the latest one among equals, as a scan that
/// replaces the kept hit unless it is strictly farther.
pub fn select_last_farthest(keys: &Vec<Option<u64>>) -> (r: Option<usize>)
    ensures
        match r {
            Some(i) => is_last_farthest(keys@, i as int),
            None => none_ranked(keys@),
        },
{
    let mut best: Option<usize> = None;
    let mut k: usize = 0;
    while k < keys.len()
        invariant
            k <= keys@.len(),
            match best {
                Some(i) => is_last_farthest(keys@.take(k as int), i as int),
                None => none_ranked(keys@.take(k as int)),
            },
        decreases keys@.len() - k,
    {
        let ghost prefix = keys@.take(k + 1);
        assert(forall|j: int| 0 <= j < k ==> prefix[j] == keys@.take(k as int)[j]);
        match keys[k] {
            Some(rank) => {
                match best {
                    Some(i) => {
                        let current = keys[i].unwrap();
                        if !(current > rank) {
                            best = Some(k);
                        }
                    },
                    None => {
                        best = Some(k);
                    },
                }
            },
            None => {},
        }
        k += 1;
    }
    assert(keys@.take(k as int) =~= keys@);
    best
}

/// Picks the nearest hit, the latest one among equals, as a scan that
/// replaces the kept hit unless it is strictly nearer.
pub fn select_last_nearest(keys: &Vec<Option<u64>>) -> (r: Option<usize>)
    ensures
        match r {
            Some(i) => is_last_nearest(keys@, i as int),
            None => none_ranked(keys@),
        },
{
    let mut best: Option<usize> = None;
    let mut k: usize = 0;
    while k < keys.len()
        invariant
            k <= keys@.len(),
            match best {
                Some(i) => is_last_nearest(keys@.take(k as int), i as int),
                None => none_ranked(keys@.take(k as int)),
            },
        decreases keys@.len() - k,
    {
        let ghost prefix = keys@.take(k + 1);
        assert(forall|j: int| 0 <= j < k ==> prefix[j] == keys@.take(k as int)[j]);
        match keys[k] {
            Some(rank) => {
                match best {
                    Some(i) => {
                        let current = keys[i].unwrap();
                        if !(current < rank) {
                            best = Some(k);
                        }
                    },
                    None => {
                        best = Some(k);
                    },
                }
            },
            None => {},
        }
        k += 1;
    }
    assert(keys@.take(k as int) =~= keys@);
    best
}

} // verus!
