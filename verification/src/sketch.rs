//! A count-min sketch of 8-bit saturating counters: a fixed grid of rows,
//! each key mapping to one slot per row, estimated as the minimum counter
//! over its slots. Counters are halved (aged) after a fixed number of
//! recorded touches, bounding staleness.

use vstd::prelude::*;

use crate::router::hash_bytes;
use crate::router::hash_bytes_spec;

verus! {

/// Per-row slot salt multiplier.
pub const ROW_SALT: u64 = 40503;

pub struct FrequencySketch {
    pub rows: Vec<Vec<u8>>,
    pub width: usize,
    pub ops: usize,
    pub sample: usize,
}

/// A row after one recorded touch at `slot`: that counter bumped,
/// saturating at the maximum, every other counter unchanged.
pub open spec fn touch_row(row: Seq<u8>, slot: int) -> Seq<u8> {
    row.update(slot, crate::types::bump(row[slot]))
}

/// A row with every counter halved.
pub open spec fn halve_row(row: Seq<u8>) -> Seq<u8> {
    Seq::new(row.len(), |j: int| row[j] / 2)
}

/// Exact relation between a sketch and the same sketch after one recorded
/// touch of `k`: the key's slot in every row is bumped (saturating at the
/// maximum), every other counter is unchanged, and when the touch count
/// reaches the sample size the whole grid is aged by halving and the count
/// restarts at zero.
pub open spec fn sketch_touched(a: FrequencySketch, b: FrequencySketch, k: Seq<u8>) -> bool {
    &&& b.width == a.width
    &&& b.sample == a.sample
    &&& b.rows@.len() == a.rows@.len()
    &&& (forall|i: int| #![auto]
        0 <= i < a.rows@.len() ==> b.rows@[i]@ == (if a.ops + 1 >= a.sample {
            halve_row(touch_row(a.rows@[i]@, a.slot_spec(k, i)))
        } else {
            touch_row(a.rows@[i]@, a.slot_spec(k, i))
        }))
    &&& b.ops == (if a.ops + 1 >= a.sample {
        0int
    } else {
        a.ops + 1
    })
}

impl FrequencySketch {
    pub open spec fn wf(self) -> bool {
        &&& self.width > 0
        &&& 0 < self.rows@.len() <= 16
        &&& 0 < self.sample
        &&& self.ops < self.sample
        &&& forall|i: int| #![auto]
            0 <= i < self.rows@.len() ==> self.rows@[i]@.len() == self.width
    }

    /// The slot of key `k` in row `i`.
    pub open spec fn slot_spec(self, k: Seq<u8>, i: int) -> int {
        (hash_bytes_spec(k) + (i + 1) * 40503) % (self.width as int)
    }

    /// Minimum counter over rows `i..`.
    pub open spec fn est_rec(self, k: Seq<u8>, i: int) -> u8
        decreases self.rows@.len() - i,
    {
        if i < 0 || i >= self.rows@.len() {
            255u8
        } else {
            let c = self.rows@[i]@[self.slot_spec(k, i)];
            let rest = self.est_rec(k, i + 1);
            if c < rest {
                c
            } else {
                rest
            }
        }
    }

    /// The sketch's frequency estimate for a key.
    pub open spec fn estimate_spec(self, k: Seq<u8>) -> u8 {
        self.est_rec(k, 0)
    }

    /// Rows of `width` counters each; `depth` rows; aged every `sample`
    /// touches.
    pub fn new(width: usize, depth: usize, sample: usize) -> (s: Self)
        requires
            width > 0,
            0 < depth <= 16,
            sample > 0,
        ensures
            s.wf(),
            s.width == width,
            s.sample == sample,
            s.rows@.len() == depth,
            forall|i: int, j: int| #![auto]
                0 <= i < depth && 0 <= j < width ==> s.rows@[i]@[j] == 0,
            forall|k: Seq<u8>| #![auto] s.estimate_spec(k) == 0,
    {
        let mut rows: Vec<Vec<u8>> = Vec::new();
        let mut i: usize = 0;
        while i < depth
            invariant
                i <= depth,
                rows@.len() == i,
                forall|j: int| #![auto] 0 <= j < i ==> rows@[j]@.len() == width,
                forall|j: int, t: int| #![auto]
                    0 <= j < i && 0 <= t < width ==> rows@[j]@[t] == 0,
            decreases depth - i,
        {
            let mut row: Vec<u8> = Vec::new();
            let mut j: usize = 0;
            while j < width
                invariant
                    j <= width,
                    row@.len() == j,
                    forall|t: int| 0 <= t < j ==> row@[t] == 0,
                decreases width - j,
            {
                row.push(0);
                j = j + 1;
            }
            rows.push(row);
            i = i + 1;
        }
        let s = FrequencySketch { rows, width, ops: 0, sample };
        proof {
            assert forall|k: Seq<u8>| #![auto] s.estimate_spec(k) == 0 by {
                s.lemma_estimate_zero(k, 0);
            }
        }
        s
    }

    /// Every counter zero gives estimate zero for every key.
    proof fn lemma_estimate_zero(self, k: Seq<u8>, i: int)
        requires
            self.wf(),
            forall|a: int, b: int| #![auto]
                0 <= a < self.rows@.len() && 0 <= b < self.width ==> self.rows@[a]@[b] == 0,
            0 <= i < self.rows@.len(),
        ensures
            self.est_rec(k, i) == 0,
        decreases self.rows@.len() - i,
    {
        assert(0 <= self.slot_spec(k, i) < self.width);
        if i + 1 < self.rows@.len() {
            self.lemma_estimate_zero(k, i + 1);
        }
    }

    fn slot(&self, key: &Vec<u8>, i: usize) -> (r: usize)
        requires
            self.wf(),
            i < self.rows@.len(),
        ensures
            r == self.slot_spec(key@, i as int),
            r < self.width,
    {
        let h = hash_bytes(key);
        let salted = h + (i as u64 + 1) * ROW_SALT;
        (salted % (self.width as u64)) as usize
    }

    pub fn estimate(&self, key: &Vec<u8>) -> (r: u8)
        requires
            self.wf(),
        ensures
            r == self.estimate_spec(key@),
    {
        let mut m: u8 = 255;
        let mut i: usize = 0;
        while i < self.rows.len()
            invariant
                self.wf(),
                i <= self.rows@.len(),
                self.estimate_spec(key@) == if m < self.est_rec(key@, i as int) {
                    m
                } else {
                    self.est_rec(key@, i as int)
                },
            decreases self.rows@.len() - i,
        {
            let j = self.slot(key, i);
            let c = self.rows[i][j];
            if c < m {
                m = c;
            }
            i = i + 1;
        }
        m
    }

    /// Records one touch of the key: bumps its counter in every row,
    /// saturating at the maximum, and ages the sketch after `sample` touches.
    /// `sketch_touched` pins the resulting counter grid exactly.
    pub fn increment(&mut self, key: &Vec<u8>)
        requires
            old(self).wf(),
        ensures
            final(self).wf(),
            sketch_touched(*old(self), *final(self), key@),
    {
        let ghost orig = *old(self);
        let mut i: usize = 0;
        while i < self.rows.len()
            invariant
                self.wf(),
                self.width == orig.width,
                self.sample == orig.sample,
                self.ops == orig.ops,
                self.rows@.len() == orig.rows@.len(),
                forall|x: int| #![auto]
                    0 <= x < i ==> self.rows@[x]@ == touch_row(
                        orig.rows@[x]@,
                        orig.slot_spec(key@, x),
                    ),
                forall|x: int| #![auto]
                    i <= x < self.rows@.len() ==> self.rows@[x] == orig.rows@[x],
            decreases self.rows@.len() - i,
        {
            let j = self.slot(key, i);
            proof {
                assert(self.slot_spec(key@, i as int) == orig.slot_spec(key@, i as int));
            }
            let ghost rows0 = self.rows@;
            let mut row = self.rows.remove(i);
            let ghost row0 = row@;
            let c = row[j];
            if c < 255 {
                row[j] = c + 1;
            }
            proof {
                assert(row@ =~= touch_row(row0, j as int));
            }
            let ghost grow = row@;
            self.rows.insert(i, row);
            proof {
                assert(self.rows@ =~= rows0.update(i as int, self.rows@[i as int]));
                assert(self.rows@[i as int]@ == grow);
            }
            i = i + 1;
        }
        if self.ops + 1 >= self.sample {
            self.age();
            self.ops = 0;
        } else {
            self.ops = self.ops + 1;
        }
    }

    /// Halves every counter of every row.
    fn age(&mut self)
        requires
            old(self).wf(),
        ensures
            final(self).wf(),
            final(self).width == old(self).width,
            final(self).sample == old(self).sample,
            final(self).ops == old(self).ops,
            final(self).rows@.len() == old(self).rows@.len(),
            forall|i: int| #![auto]
                0 <= i < old(self).rows@.len() ==> final(self).rows@[i]@ == halve_row(
                    old(self).rows@[i]@,
                ),
    {
        let ghost orig = *old(self);
        let mut i: usize = 0;
        while i < self.rows.len()
            invariant
                self.wf(),
                self.width == orig.width,
                self.sample == orig.sample,
                self.ops == orig.ops,
                self.rows@.len() == orig.rows@.len(),
                forall|x: int| #![auto]
                    0 <= x < i ==> self.rows@[x]@ == halve_row(orig.rows@[x]@),
                forall|x: int| #![auto]
                    i <= x < self.rows@.len() ==> self.rows@[x] == orig.rows@[x],
            decreases self.rows@.len() - i,
        {
            let ghost rows0 = self.rows@;
            let mut row = self.rows.remove(i);
            let ghost row0 = row@;
            let mut j: usize = 0;
            while j < row.len()
                invariant
                    row@.len() == row0.len(),
                    forall|t: int| 0 <= t < j ==> row@[t] == row0[t] / 2,
                    forall|t: int| j <= t < row@.len() ==> row@[t] == row0[t],
                decreases row@.len() - j,
            {
                let c = row[j];
                row[j] = c / 2;
                j = j + 1;
            }
            proof {
                assert(row@ =~= halve_row(row0));
            }
            let ghost grow = row@;
            self.rows.insert(i, row);
            proof {
                assert(self.rows@ =~= rows0.update(i as int, self.rows@[i as int]));
                assert(self.rows@[i as int]@ == grow);
            }
            i = i + 1;
        }
    }
}

} // verus!
