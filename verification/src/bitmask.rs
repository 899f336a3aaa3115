//! Compact per-lane match summary.
//!
//! A comparison over a group of `WIDTH` control bytes answers one bit per
//! lane. The answers are packed into a single machine word in which each
//! lane occupies a fixed stride of four bits and only the top bit of each
//! stride carries the answer, so lane `i` is reported by bit `4 * i + 3`.
//! That physical layout is an implementation detail: callers observe a
//! `BitMask` only as the set of matching lane indices, through the
//! membership and iteration operations below.

use vstd::prelude::*;

verus! {

/// True when lane `i` is reported as set in the packed word `w`.
pub open spec fn lane_bit(w: u64, i: u64) -> bool {
    w & (1u64 << ((4 * i + 3) as u64)) != 0
}

/// `i` is the smallest lane index contained in `s`.
pub open spec fn is_lowest(s: Set<int>, i: int) -> bool {
    s.contains(i) && (forall|j: int| 0 <= j < i ==> !s.contains(j))
}

/// Set of lanes reported by a comparison over one group.
///
/// Logically a set of lane indices in `[0, WIDTH)`; physically one word
/// with one surviving bit per lane at a regular stride.
#[derive(Clone, Copy)]
pub struct BitMask(pub(crate) u64);

impl View for BitMask {
    type V = Set<int>;

    closed spec fn view(&self) -> Set<int> {
        Set::new(|i: int| 0 <= i < 16 && lane_bit(self.0, i as u64))
    }
}

proof fn lemma_lane_zero()
    by (bit_vector)
    ensures
        forall|i: u64| i < 16 ==> !lane_bit(0u64, i),
{
}

proof fn lemma_lane_set(w: u64, j: u64)
    by (bit_vector)
    requires
        j < 16,
    ensures
        lane_bit(w | (1u64 << ((4 * j + 3) as u64)), j),
        forall|i: u64|
            i < 16 && i != j ==> lane_bit(w | (1u64 << ((4 * j + 3) as u64)), i) == lane_bit(w, i),
{
}

proof fn lemma_lane_clear(w: u64, j: u64)
    by (bit_vector)
    requires
        j < 16,
    ensures
        !lane_bit(w & !(1u64 << ((4 * j + 3) as u64)), j),
        forall|i: u64|
            i < 16 && i != j ==> lane_bit(w & !(1u64 << ((4 * j + 3) as u64)), i) == lane_bit(w, i),
{
}

impl BitMask {
    /// Packs one answer per lane into a `BitMask`.
    ///
    /// This is the width-reduction step: of the four stride bits a lane
    /// occupies, exactly one survives, and it is set exactly when the
    /// lane's answer is true.
    pub(crate) fn narrow(lanes: &[bool; 16]) -> (r: BitMask)
        ensures
            forall|i: int| 0 <= i < 16 ==> (r@.contains(i) <==> lanes@[i]),
            forall|i: int| r@.contains(i) ==> 0 <= i < 16,
    {
        let mut w: u64 = 0;
        proof {
            lemma_lane_zero();
        }
        let mut j: usize = 0;
        while j < 16
            invariant
                j <= 16,
                forall|i: u64| i < j ==> (lane_bit(w, i) <==> lanes@[i as int]),
                forall|i: u64| j <= i < 16 ==> !lane_bit(w, i),
            decreases 16 - j,
        {
            if lanes[j] {
                let sh: u64 = 4 * (j as u64) + 3;
                let w2: u64 = w | (1u64 << sh);
                proof {
                    lemma_lane_set(w, j as u64);
                    assert(lane_bit(w2, j as u64));
                    assert(forall|i: u64|
                        i < 16 && i != j as u64 ==> lane_bit(w2, i) == lane_bit(w, i));
                }
                w = w2;
            }
            j += 1;
        }
        BitMask(w)
    }

    /// True when at least one lane matched.
    pub fn any_bit_set(&self) -> (r: bool)
        ensures
            r <==> exists|i: int| self@.contains(i),
    {
        self.lowest_set_bit().is_some()
    }

    /// Index of the lowest matching lane, or `None` when no lane matched.
    pub fn lowest_set_bit(&self) -> (r: Option<usize>)
        ensures
            match r {
                Some(i) => i < 16 && is_lowest(self@, i as int),
                None => self@ == Set::<int>::empty(),
            },
    {
        let mut i: usize = 0;
        while i < 16
            invariant
                i <= 16,
                forall|j: int| 0 <= j < i ==> !self@.contains(j),
            decreases 16 - i,
        {
            let sh: u64 = 4 * (i as u64) + 3;
            if self.0 & (1u64 << sh) != 0 {
                return Some(i);
            }
            i += 1;
        }
        proof {
            assert(self@ =~= Set::<int>::empty());
        }
        None
    }

    /// Copy of this mask with the lowest matching lane removed; a mask
    /// with no matching lane is returned unchanged.
    pub fn remove_lowest_bit(&self) -> (r: BitMask)
        ensures
            self@ == Set::<int>::empty() ==> r@ == self@,
            forall|i: int| is_lowest(self@, i) ==> r@ == self@.remove(i),
    {
        match self.lowest_set_bit() {
            None => BitMask(self.0),
            Some(i) => {
                proof {
                    lemma_lane_clear(self.0, i as u64);
                }
                let sh: u64 = 4 * (i as u64) + 3;
                let r = BitMask(self.0 & !(1u64 << sh));
                proof {
                    assert(r@ =~= self@.remove(i as int));
                    assert forall|k: int| is_lowest(self@, k) implies k == i as int by {
                        assert(!self@.contains(k) || !(k < i as int));
                        assert(!self@.contains(i as int) || !((i as int) < k));
                    }
                }
                r
            },
        }
    }

    /// All matching lane indices, in ascending order, each exactly once.
    pub fn lane_indices(&self) -> (r: Vec<usize>)
        ensures
            forall|k: int|
                0 <= k < r@.len() ==> #[trigger] r@[k] < 16 && self@.contains(r@[k] as int),
            forall|i: int|
                #[trigger] self@.contains(i) ==> exists|k: int| 0 <= k < r@.len() && r@[k] == i,
            forall|k1: int, k2: int| 0 <= k1 < k2 < r@.len() ==> r@[k1] < r@[k2],
    {
        let mut r: Vec<usize> = Vec::new();
        let mut i: usize = 0;
        while i < 16
            invariant
                i <= 16,
                forall|k: int|
                    0 <= k < r@.len() ==> #[trigger] r@[k] < i && self@.contains(r@[k] as int),
                forall|j: int|
                    0 <= j < i && #[trigger] self@.contains(j) ==> exists|k: int|
                        0 <= k < r@.len() && r@[k] == j,
                forall|k1: int, k2: int| 0 <= k1 < k2 < r@.len() ==> r@[k1] < r@[k2],
            decreases 16 - i,
        {
            let sh: u64 = 4 * (i as u64) + 3;
            let set: bool = self.0 & (1u64 << sh) != 0;
            proof {
                assert(set == lane_bit(self.0, i as u64));
                assert(set == self@.contains(i as int));
            }
            if set {
                let ghost prefix = r@;
                r.push(i);
                proof {
                    assert forall|j: int|
                        0 <= j < i + 1 && #[trigger] self@.contains(j) implies exists|k: int|
                        0 <= k < r@.len() && r@[k] == j by {
                        if j == i as int {
                            assert(r@[r@.len() - 1] == i);
                        } else {
                            let k = choose|k: int| 0 <= k < prefix.len() && prefix[k] == j;
                            assert(r@[k] == j);
                        }
                    }
                }
            }
            i += 1;
        }
        r
    }
}

} // verus!
