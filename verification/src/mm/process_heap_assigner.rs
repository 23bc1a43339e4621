//! Hands out process heap slots: the free slots are kept as a sorted list of runs ("holes").
use vstd::prelude::*;

verus! {

/// A hole.
#[derive(Debug, Clone, Copy, PartialEq, Eq, Structural)]
struct Hole {
    /// The starting point of this hole.
    start: u16,
    /// The length of this hole.
    len: u16,
}

/// End of a hole (one past its last slot).
spec fn hole_end(h: Hole) -> int {
    h.start + h.len
}

/// The holes are non-empty, fit the slot numbers, are sorted and never touch each other.
spec fn holes_wf(s: Seq<Hole>) -> bool {
    &&& forall|i: int| 0 <= i < s.len() ==> #[trigger] s[i].len > 0 && hole_end(s[i]) <= u16::MAX
    &&& forall|i: int, j: int| 0 <= i < j < s.len() ==> #[trigger] hole_end(s[i]) < #[trigger] s[j].start
}

/// The free slots described by the holes.
spec fn free_slots(s: Seq<Hole>) -> Set<int> {
    Set::new(|a: int| exists|i: int| 0 <= i < s.len() && #[trigger] s[i].start <= a < hole_end(s[i]))
}

#[derive(Debug)]
pub struct ProcessHeapAssigner {
    /// A sorted vector of holes.
    holes: Vec<Hole>,
}

impl View for ProcessHeapAssigner {
    type V = Set<int>;

    /// The free slots.
    closed spec fn view(&self) -> Set<int> {
        free_slots(self.holes@)
    }
}

impl ProcessHeapAssigner {
    /// Well-formedness of the list of holes.
    pub closed spec fn wf(&self) -> bool {
        holes_wf(self.holes@)
    }

    /// Construct a new process heap assigner with slots `0..free_amount` free.
    pub fn new(free_amount: u16) -> (r: Self)
        requires
            0 < free_amount,
        ensures
            r.wf(),
            r@ == Set::new(|a: int| 0 <= a < free_amount),
    {
        let mut holes: Vec<Hole> = Vec::new();
        holes.push(Hole { start: 0, len: free_amount });
        let r = Self { holes };
        proof {
            assert forall|a: int| #[trigger] r@.contains(a) == (0 <= a < free_amount) by {
                if 0 <= a < free_amount {
                    assert(r.holes@[0].start <= a < hole_end(r.holes@[0]));
                }
            }
            assert(r@ =~= Set::new(|a: int| 0 <= a < free_amount));
        }
        r
    }

    /// The runs of free slots, in order, as `(start, length)` pairs.
    pub closed spec fn spec_holes(&self) -> Seq<(u16, u16)> {
        self.holes@.map_values(|h: Hole| (h.start, h.len))
    }

    /// The runs are the free slots: a slot is free exactly when it lies in a run; the runs are
    /// non-empty, in order, and never touch.
    pub proof fn lemma_holes_are_free_slots(&self)
        requires
            self.wf(),
        ensures
            forall|a: int| #[trigger] self@.contains(a) <==> exists|i: int| 0 <= i < self.spec_holes().len()
                && #[trigger] self.spec_holes()[i].0 <= a < self.spec_holes()[i].0 + self.spec_holes()[i].1,
            forall|i: int| 0 <= i < self.spec_holes().len() ==> #[trigger] self.spec_holes()[i].1 > 0,
            forall|i: int, j: int| 0 <= i < j < self.spec_holes().len() ==> #[trigger] self.spec_holes()[i].0
                + self.spec_holes()[i].1 < #[trigger] self.spec_holes()[j].0,
    {
        let h = self.spec_holes();
        assert forall|i: int| 0 <= i < h.len() implies #[trigger] h[i] == (self.holes@[i].start, self.holes@[i].len) by {}
        assert forall|a: int| #[trigger] self@.contains(a) <==> exists|i: int| 0 <= i < h.len()
            && #[trigger] h[i].0 <= a < h[i].0 + h[i].1 by {
            if self@.contains(a) {
                let i = choose|i: int| 0 <= i < self.holes@.len() && #[trigger] self.holes@[i].start <= a < hole_end(self.holes@[i]);
                assert(h[i].0 <= a < h[i].0 + h[i].1);
            }
            if exists|i: int| 0 <= i < h.len() && #[trigger] h[i].0 <= a < h[i].0 + h[i].1 {
                let i = choose|i: int| 0 <= i < h.len() && #[trigger] h[i].0 <= a < h[i].0 + h[i].1;
                assert(self.holes@[i].start <= a < hole_end(self.holes@[i]));
            }
        }
        assert forall|i: int, j: int| 0 <= i < j < h.len() implies #[trigger] h[i].0 + h[i].1 < #[trigger] h[j].0 by {
            assert(hole_end(self.holes@[i]) < self.holes@[j].start);
        }
    }

    /// The runs of free slots, in order, as `(start, length)` pairs: they never touch, so
    /// they are determined by the free slots.
    pub fn holes(&self) -> (r: Vec<(u16, u16)>)
        ensures
            r@ == self.spec_holes(),
    {
        let mut r: Vec<(u16, u16)> = Vec::new();
        let mut i: usize = 0;
        while i < self.holes.len()
            invariant
                i <= self.holes@.len(),
                r@.len() == i,
                forall|j: int| 0 <= j < i ==> #[trigger] r@[j] == (self.holes@[j].start, self.holes@[j].len),
            decreases self.holes@.len() - i,
        {
            r.push((self.holes[i].start, self.holes[i].len));
            i = i + 1;
        }
        assert(r@ =~= self.spec_holes());
        r
    }

    /// Assign a heap: hands out the highest free slot.
    pub fn assign(&mut self) -> (r: Option<u16>)
        requires
            old(self).wf(),
        ensures
            final(self).wf(),
            r is None <==> old(self)@ =~= Set::empty(),
            r is None ==> final(self)@ == old(self)@,
            r matches Some(i) ==> old(self)@.contains(i as int) && (forall|j: int| #[trigger]
                old(self)@.contains(j) ==> j <= i) && final(self)@ == old(self)@.remove(i as int),
    {
        let ghost s = self.holes@;
        let len = self.holes.len();

        if len == 0 {
            proof {
                assert forall|a: int| !#[trigger] free_slots(s).contains(a) by {}
            }
            None
        } else {
            let mut hole = self.holes[len - 1];
            let my_start = hole.start + hole.len - 1;
            proof {
                assert(s[len - 1] == hole);
            }
            if hole.len > 1 {
                hole.len = hole.len - 1;
                self.holes.set(len - 1, hole);
            } else {
                self.holes.pop();
            }
            proof {
                let n = self.holes@;
                assert(free_slots(s).contains(my_start as int));
                assert forall|j: int| #[trigger] free_slots(s).contains(j) implies j <= my_start by {
                    let i = choose|i: int| 0 <= i < s.len() && #[trigger] s[i].start <= j < hole_end(s[i]);
                    if i < len - 1 {
                        assert(hole_end(s[i]) < s[len - 1].start);
                    }
                }
                assert forall|a: int| #[trigger] free_slots(n).contains(a) == free_slots(s).remove(
                    my_start as int,
                ).contains(a) by {
                    if free_slots(n).contains(a) {
                        let i = choose|i: int| 0 <= i < n.len() && #[trigger] n[i].start <= a < hole_end(n[i]);
                        assert(s[i].start <= a < hole_end(s[i]));
                        if i < len - 1 {
                            assert(hole_end(s[i]) < s[len - 1].start);
                        }
                    }
                    if free_slots(s).contains(a) && a != my_start {
                        let i = choose|i: int| 0 <= i < s.len() && #[trigger] s[i].start <= a < hole_end(s[i]);
                        assert(n[i].start <= a < hole_end(n[i]));
                    }
                }
                assert(free_slots(n) =~= free_slots(s).remove(my_start as int));
            }
            Some(my_start)
        }
    }

    /// Binary search for a hole ending at `index`: `Ok` with its position, or `Err` with the
    /// position of the first hole that ends after `index`.
    fn search_end(&self, index: u16) -> (r: Result<usize, usize>)
        requires
            self.wf(),
        ensures
            r matches Ok(i) ==> i < self.holes@.len() && hole_end(self.holes@[i as int]) == index,
            r matches Err(i) ==> i <= self.holes@.len() && (forall|j: int|
                0 <= j < i ==> hole_end(#[trigger] self.holes@[j]) < index) && (forall|j: int|
                i <= j < self.holes@.len() ==> hole_end(#[trigger] self.holes@[j]) > index),
    {
        let ghost s = self.holes@;
        let mut lo: usize = 0;
        let mut hi: usize = self.holes.len();
        while lo < hi
            invariant
                0 <= lo <= hi <= s.len(),
                s == self.holes@,
                holes_wf(s),
                forall|j: int| 0 <= j < lo ==> hole_end(#[trigger] s[j]) < index,
                forall|j: int| hi <= j < s.len() ==> hole_end(#[trigger] s[j]) > index,
            decreases hi - lo,
        {
            let mid = lo + (hi - lo) / 2;
            let h = self.holes[mid];
            let end = h.start + h.len;
            if end == index {
                return Ok(mid);
            } else if end < index {
                proof {
                    assert forall|j: int| 0 <= j < mid + 1 implies hole_end(#[trigger] s[j]) < index by {
                        if j < mid {
                            assert(hole_end(s[j]) < s[mid as int].start);
                        }
                    }
                }
                lo = mid + 1;
            } else {
                proof {
                    assert forall|j: int| mid <= j < s.len() implies hole_end(#[trigger] s[j]) > index by {
                        if j > mid {
                            assert(hole_end(s[mid as int]) < s[j].start);
                        }
                    }
                }
                hi = mid;
            }
        }
        Err(lo)
    }

    /// Slot `index` right after hole `i` becomes free: extend that hole, and merge it with the
    /// next hole if they now touch.
    fn extend_end_at(&mut self, i: usize, index: u16)
        requires
            old(self).wf(),
            i < old(self).holes@.len(),
            hole_end(old(self).holes@[i as int]) == index,
            !old(self)@.contains(index as int),
            index < u16::MAX,
        ensures
            final(self).wf(),
            final(self)@ == old(self)@.insert(index as int),
    {
        let ghost s = self.holes@;
        let mut hole = self.holes[i];
        proof {
            if i + 1 < s.len() {
                assert(hole_end(s[i as int]) < s[i + 1].start);
                if s[i + 1].start == index {
                    assert(s[i + 1].start <= index < hole_end(s[i + 1]));
                }
            }
        }
        hole.len = hole.len + 1;
        self.holes.set(i, hole);
        let ghost s1 = self.holes@;
        proof {
            assert forall|a: int| #[trigger] free_slots(s1).contains(a) == free_slots(s).insert(
                index as int,
            ).contains(a) by {
                if free_slots(s1).contains(a) && a != index {
                    let j = choose|j: int| 0 <= j < s1.len() && #[trigger] s1[j].start <= a < hole_end(s1[j]);
                    assert(s[j].start <= a < hole_end(s[j]));
                }
                if free_slots(s).contains(a) {
                    let j = choose|j: int| 0 <= j < s.len() && #[trigger] s[j].start <= a < hole_end(s[j]);
                    assert(s1[j].start <= a < hole_end(s1[j]));
                }
                if a == index {
                    assert(s1[i as int].start <= a < hole_end(s1[i as int]));
                }
            }
            assert(free_slots(s1) =~= free_slots(s).insert(index as int));
        }

        // Merge?
        if i < self.holes.len() - 1 && self.holes[i].start + self.holes[i].len
            == self.holes[i + 1].start {
            self.merge_with_next(i);
        } else {
            proof {
                assert forall|a: int, b: int| 0 <= a < b < s1.len() implies #[trigger] hole_end(s1[a]) < #[trigger] s1[b].start by {
                    if a == i && b > i + 1 {
                        assert(hole_end(s[i + 1]) < s[b].start);
                    }
                }
            }
        }
    }

    /// Hole `i` ends where hole `i + 1` starts: join them into one hole.
    fn merge_with_next(&mut self, i: usize)
        requires
            i + 1 < old(self).holes@.len(),
            hole_end(old(self).holes@[i as int]) == old(self).holes@[i + 1].start,
            forall|j: int| 0 <= j < old(self).holes@.len() ==> #[trigger] old(self).holes@[j].len > 0
                && hole_end(old(self).holes@[j]) <= u16::MAX,
            forall|a: int, b: int|
                0 <= a < b < old(self).holes@.len() && !(a == i && b == i + 1) ==> #[trigger] hole_end(
                    old(self).holes@[a],
                ) < #[trigger] old(self).holes@[b].start,
        ensures
            final(self).wf(),
            final(self)@ == old(self)@,
    {
        let ghost s1 = self.holes@;
        assert(self.holes@.len() == self.holes.len());
        let next = self.holes[i + 1];
        let mut merged = self.holes[i];
        merged.len = merged.len + next.len;
        self.holes.set(i, merged);
        self.holes.remove(i + 1);
        proof {
            let s3 = self.holes@;
            assert forall|a: int| 0 <= a < s3.len() implies #[trigger] s3[a].len > 0 && hole_end(s3[a]) <= u16::MAX by {
                if a > i {
                    assert(s3[a] == s1[a + 1]);
                }
            }
            assert forall|a: int, b: int| 0 <= a < b < s3.len() implies #[trigger] hole_end(s3[a]) < #[trigger] s3[b].start by {
                if a < i && b == i {
                    assert(hole_end(s1[a]) < s1[i as int].start);
                } else if a < i && b > i {
                    assert(hole_end(s1[a]) < s1[b + 1].start);
                } else if a == i {
                    assert(hole_end(s1[i + 1]) < s1[b + 1].start);
                } else if a > i {
                    assert(hole_end(s1[a + 1]) < s1[b + 1].start);
                }
            }
            assert forall|a: int| #[trigger] free_slots(s3).contains(a) == free_slots(s1).contains(a) by {
                if free_slots(s3).contains(a) {
                    let j = choose|j: int| 0 <= j < s3.len() && #[trigger] s3[j].start <= a < hole_end(s3[j]);
                    if j < i {
                        assert(s1[j].start <= a < hole_end(s1[j]));
                    } else if j == i {
                        if a < hole_end(s1[i as int]) {
                            assert(s1[j].start <= a < hole_end(s1[j]));
                        } else {
                            assert(s1[i + 1].start <= a < hole_end(s1[i + 1]));
                        }
                    } else {
                        assert(s1[j + 1].start <= a < hole_end(s1[j + 1]));
                    }
                }
                if free_slots(s1).contains(a) {
                    let j = choose|j: int| 0 <= j < s1.len() && #[trigger] s1[j].start <= a < hole_end(s1[j]);
                    if j <= i {
                        assert(s3[j].start <= a < hole_end(s3[j]));
                    } else if j == i + 1 {
                        assert(s3[i as int].start <= a < hole_end(s3[i as int]));
                    } else {
                        assert(s3[j - 1].start <= a < hole_end(s3[j - 1]));
                    }
                }
            }
            assert(free_slots(s3) =~= free_slots(s1));
        }
    }

    /// Slot `index` right before hole `i` becomes free: extend that hole at its front.
    fn extend_front_at(&mut self, i: usize, index: u16)
        requires
            old(self).wf(),
            i < old(self).holes@.len(),
            old(self).holes@[i as int].start == index + 1,
            forall|j: int| 0 <= j < i ==> hole_end(#[trigger] old(self).holes@[j]) < index,
        ensures
            final(self).wf(),
            final(self)@ == old(self)@.insert(index as int),
    {
        let ghost s = self.holes@;
        let mut hole = self.holes[i];
        hole.start = hole.start - 1;
        hole.len = hole.len + 1;
        self.holes.set(i, hole);
        proof {
            let s1 = self.holes@;
            assert forall|a: int, b: int| 0 <= a < b < s1.len() implies #[trigger] hole_end(s1[a]) < #[trigger] s1[b].start by {
                if b == i {
                    assert(hole_end(s[a]) < index);
                }
            }
            assert forall|a: int| #[trigger] free_slots(s1).contains(a) == free_slots(s).insert(
                index as int,
            ).contains(a) by {
                if free_slots(s1).contains(a) && a != index {
                    let j = choose|j: int| 0 <= j < s1.len() && #[trigger] s1[j].start <= a < hole_end(s1[j]);
                    assert(s[j].start <= a < hole_end(s[j]));
                }
                if free_slots(s).contains(a) {
                    let j = choose|j: int| 0 <= j < s.len() && #[trigger] s[j].start <= a < hole_end(s[j]);
                    assert(s1[j].start <= a < hole_end(s1[j]));
                }
                if a == index {
                    assert(s1[i as int].start <= a < hole_end(s1[i as int]));
                }
            }
            assert(free_slots(s1) =~= free_slots(s).insert(index as int));
        }
    }

    /// Slot `index` becomes free and touches no hole: insert a new hole at position `i`.
    fn insert_run_at(&mut self, i: usize, index: u16)
        requires
            old(self).wf(),
            i <= old(self).holes@.len(),
            i < old(self).holes@.len() ==> old(self).holes@[i as int].start > index + 1,
            forall|j: int| 0 <= j < i ==> hole_end(#[trigger] old(self).holes@[j]) < index,
            index < u16::MAX,
        ensures
            final(self).wf(),
            final(self)@ == old(self)@.insert(index as int),
    {
        let ghost s = self.holes@;
        self.holes.insert(i, Hole { start: index, len: 1 });
        proof {
            let s1 = self.holes@;
            assert forall|a: int| 0 <= a < s1.len() implies #[trigger] s1[a].len > 0 && hole_end(s1[a]) <= u16::MAX by {
                if a > i {
                    assert(s1[a] == s[a - 1]);
                }
            }
            assert forall|a: int, b: int| 0 <= a < b < s1.len() implies #[trigger] hole_end(s1[a]) < #[trigger] s1[b].start by {
                if a < i && b == i {
                } else if a < i && b > i {
                    assert(hole_end(s[a]) < s[b - 1].start);
                } else if a == i && b > i + 1 {
                    assert(s[i as int].start <= hole_end(s[i as int]));
                    assert(hole_end(s[i as int]) < s[b - 1].start);
                } else if a > i {
                    assert(hole_end(s[a - 1]) < s[b - 1].start);
                }
            }
            assert forall|a: int| #[trigger] free_slots(s1).contains(a) == free_slots(s).insert(
                index as int,
            ).contains(a) by {
                if free_slots(s1).contains(a) && a != index {
                    let j = choose|j: int| 0 <= j < s1.len() && #[trigger] s1[j].start <= a < hole_end(s1[j]);
                    if j < i {
                        assert(s[j].start <= a < hole_end(s[j]));
                    } else {
                        assert(s[j - 1].start <= a < hole_end(s[j - 1]));
                    }
                }
                if free_slots(s).contains(a) {
                    let j = choose|j: int| 0 <= j < s.len() && #[trigger] s[j].start <= a < hole_end(s[j]);
                    if j < i {
                        assert(s1[j].start <= a < hole_end(s1[j]));
                    } else {
                        assert(s1[j + 1].start <= a < hole_end(s1[j + 1]));
                    }
                }
                if a == index {
                    assert(s1[i as int].start <= a < hole_end(s1[i as int]));
                }
            }
            assert(free_slots(s1) =~= free_slots(s).insert(index as int));
        }
    }

    /// Unassign a heap: slot `index` becomes free again.
    pub fn unassign(&mut self, index: u16)
        requires
            old(self).wf(),
            !old(self)@.contains(index as int),
            index < u16::MAX,
        ensures
            final(self).wf(),
            final(self)@ == old(self)@.insert(index as int),
    {
        let ghost s = self.holes@;
        match self.search_end(index) {
            // Extends an existing run at the end.
            Ok(i) => {
                self.extend_end_at(i, index);
            },
            // Needs a new run or extends at front.
            Err(i) => {
                proof {
                    if i < s.len() && s[i as int].start <= index {
                        assert(s[i as int].start <= index < hole_end(s[i as int]));
                    }
                }
                if i < self.holes.len() && self.holes[i].start == index + 1 {
                    // Extends at front.
                    self.extend_front_at(i, index);
                } else {
                    // New run.
                    self.insert_run_at(i, index);
                }
            },
        };
    }
}

} // verus!
