//! Address Space Identifier (PCID) allocation with generations.
use vstd::prelude::*;

verus! {

pub type AsidGeneration = u32;

/// Number of address space identifiers the manager hands out.
pub open spec fn asid_count() -> int {
    4096
}

/// Bit `b` of `x` is set.
pub open spec fn bit_set(x: u64, b: int) -> bool {
    (x >> (b as u64)) & 1 == 1
}

/// The generation after `g`, wrapping around.
pub open spec fn next_generation(g: u32) -> u32 {
    if g == u32::MAX {
        0
    } else {
        (g + 1) as u32
    }
}

/// The generation before `g`, wrapping around.
pub open spec fn prev_generation(g: u32) -> u32 {
    if g == 0 {
        u32::MAX
    } else {
        (g - 1) as u32
    }
}

/// Address Space Identifier
#[derive(Debug, Copy, Clone)]
pub struct Asid {
    generation: AsidGeneration,
    number: u16,
}

impl Asid {
    /// The generation this asid belongs to.
    pub closed spec fn spec_generation(self) -> u32 {
        self.generation
    }

    /// The asid number.
    pub closed spec fn spec_number(self) -> u16 {
        self.number
    }

    /// Gets the 64-bit representation of the asid.
    #[inline]
    pub fn as_u64(self) -> (r: u64)
        ensures
            r == self.spec_number(),
    {
        self.number as u64
    }

    /// Null asid. Must be valid in both asid and non-asid systems.
    pub fn null() -> (r: Self)
        ensures
            r.spec_generation() == 0,
            r.spec_number() == 0,
    {
        Self { generation: 0, number: 0 }
    }

    /// Gets the generation of the asid.
    pub fn generation(self) -> (r: AsidGeneration)
        ensures
            r == self.spec_generation(),
    {
        self.generation
    }
}

#[derive(Copy, Clone)]
struct Entry {
    /// The bitsets for free/used (1 = free, 0 = used).
    used_free: u64,
    /// Bitmap which indicate that entry has not been used yet in this generation.
    /// 1 = never used, 0 = used at least once
    used_in_this_generation: u64,
}

impl Entry {
    fn new() -> (r: Self)
        ensures
            r.used_free == u64::MAX,
            r.used_in_this_generation == u64::MAX,
    {
        Self { used_free: u64::MAX, used_in_this_generation: u64::MAX }
    }
}

pub struct AsidManager {
    /// 1 = at least one available in the bitset corresponding to this bit.
    /// 0 = all used
    global_mask: u64,
    /// Generation counter, used in the case of a roll-over.
    generation: AsidGeneration,
    /// Bitmasks.
    entries: Vec<Entry>,
}

proof fn lemma_bits_u64(x: u64, b: u64)
    requires
        b < 64,
    ensures
        bit_set(x ^ (1u64 << b), b as int) == !bit_set(x, b as int),
        forall|j: u64| j < 64 && j != b ==> #[trigger] bit_set(x ^ (1u64 << b), j as int) == bit_set(x, j as int),
        (x & (1u64 << b) > 0) == bit_set(x, b as int),
        x == 0 <==> forall|j: u64| j < 64 ==> !#[trigger] bit_set(x, j as int),
        bit_set(x, b as int) ==> x != 0,
{
    assert((((x ^ (1u64 << b)) >> b) & 1 == 1 <==> !((x >> b) & 1 == 1))
        && ((x & (1u64 << b) > 0) == ((x >> b) & 1 == 1)) && (((x >> b) & 1 == 1) ==> x != 0)) by (bit_vector)
        requires b < 64;
    assert forall|j: u64| j < 64 && j != b implies #[trigger] bit_set(x ^ (1u64 << b), j as int) == bit_set(x, j as int) by {
        assert(((x ^ (1u64 << b)) >> j) & 1 == (x >> j) & 1) by (bit_vector)
            requires b < 64, j < 64, j != b;
    }
    if x != 0 {
        assert(x != 0 ==> exists|j: u64| j < 64 && #[trigger] ((x >> j) & 1) == 1) by {
            if x != 0 {
                vstd::std_specs::bits::axiom_u64_trailing_zeros(x);
                let t = vstd::std_specs::bits::u64_trailing_zeros(x) as u64;
                assert(((x >> t) & 1) == 1);
            }
        }
        let j = choose|j: u64| j < 64 && #[trigger] ((x >> j) & 1) == 1;
        assert(bit_set(x, j as int));
    } else {
        assert forall|j: u64| j < 64 implies !#[trigger] bit_set(x, j as int) by {
            assert((0u64 >> j) & 1 == 0) by (bit_vector);
        }
    }
}

proof fn lemma_max_bits(j: u64)
    requires
        j < 64,
    ensures
        bit_set(u64::MAX, j as int),
{
    assert((0xffff_ffff_ffff_ffffu64 >> j) & 1 == 1) by (bit_vector)
        requires j < 64;
}

impl AsidManager {
    /// Well-formedness: one bitmap entry per 64 identifiers, and the global mask tells exactly
    /// which entries still have a free identifier.
    pub closed spec fn wf(&self) -> bool {
        &&& self.entries@.len() == 64
        &&& forall|g: int| 0 <= g < 64 ==> (#[trigger] bit_set(self.global_mask, g) <==> self.entries@[g].used_free != 0)
        &&& forall|n: int| #[trigger] self.fresh_set().contains(n) ==> self.free_set().contains(n)
    }

    /// The current generation.
    pub closed spec fn spec_generation(&self) -> u32 {
        self.generation
    }

    /// The identifiers that are free in this generation.
    pub closed spec fn free_set(&self) -> Set<int> {
        Set::new(|n: int| 0 <= n < asid_count() && bit_set(self.entries@[n / 64].used_free, n % 64))
    }

    /// The identifiers that were not handed out by reuse in this generation yet.
    pub closed spec fn fresh_set(&self) -> Set<int> {
        Set::new(|n: int| 0 <= n < asid_count() && bit_set(self.entries@[n / 64].used_in_this_generation, n % 64))
    }

    /// Creates a new Address Space Identifier Manager.
    pub fn new() -> (r: Self)
        ensures
            r.wf(),
            r.spec_generation() == 0,
            r.free_set() == Set::new(|n: int| 0 <= n < asid_count()),
            r.fresh_set() == Set::new(|n: int| 0 <= n < asid_count()),
    {
        let mut entries: Vec<Entry> = Vec::new();
        let mut i: usize = 0;
        while i < 64
            invariant
                i <= 64,
                entries@.len() == i,
                forall|j: int| #![trigger entries@[j]] 0 <= j < i ==> entries@[j].used_free == u64::MAX && entries@[j].used_in_this_generation == u64::MAX,
            decreases 64 - i,
        {
            entries.push(Entry::new());
            i = i + 1;
        }
        let r = Self { global_mask: u64::MAX, generation: 0, entries };
        proof {
            assert forall|g: int| 0 <= g < 64 implies (#[trigger] bit_set(r.global_mask, g) <==> r.entries@[g].used_free != 0) by {
                lemma_max_bits(g as u64);
            }
            assert forall|n: int| #[trigger] r.free_set().contains(n) == (0 <= n < asid_count()) by {
                if 0 <= n < asid_count() {
                    lemma_max_bits((n % 64) as u64);
                }
            }
            assert forall|n: int| #[trigger] r.fresh_set().contains(n) == (0 <= n < asid_count()) by {
                if 0 <= n < asid_count() {
                    lemma_max_bits((n % 64) as u64);
                }
            }
            assert(r.free_set() =~= Set::new(|n: int| 0 <= n < asid_count()));
            assert(r.fresh_set() =~= Set::new(|n: int| 0 <= n < asid_count()));
        }
        r
    }

    /// Check if the asid is still valid.
    #[inline]
    pub fn is_valid(&self, asid: Asid) -> (r: bool)
        ensures
            r == (asid.spec_generation() == self.spec_generation()),
    {
        asid.generation == self.generation
    }

    /// Converts an asid to entry number and bit.
    fn asid_to_entry_and_bit(asid: Asid) -> (r: (usize, u64))
        requires
            asid.spec_number() < asid_count(),
        ensures
            r.0 == asid.spec_number() / 64,
            r.1 == asid.spec_number() % 64,
            r.0 < 64,
            r.1 < 64,
    {
        let n = asid.number;
        assert((n >> 6u16) == n / 64 && (n as u64 & 63u64) == (n as u64) % 64) by (bit_vector);
        ((asid.number >> 6) as usize, asid.number as u64 & 63)
    }

    /// Starts a new generation: every identifier becomes free and fresh again.
    fn roll_over(&mut self)
        requires
            old(self).wf(),
        ensures
            final(self).wf(),
            final(self).spec_generation() == next_generation(old(self).spec_generation()),
            final(self).free_set() == Set::new(|n: int| 0 <= n < asid_count()),
            final(self).fresh_set() == Set::new(|n: int| 0 <= n < asid_count()),
    {
        self.global_mask = u64::MAX;
        let mut i: usize = 0;
        while i < 64
            invariant
                i <= 64,
                self.entries@.len() == 64,
                self.global_mask == u64::MAX,
                self.generation == old(self).generation,
                forall|j: int| #![trigger self.entries@[j]] 0 <= j < i ==> self.entries@[j].used_free == u64::MAX && self.entries@[j].used_in_this_generation == u64::MAX,
            decreases 64 - i,
        {
            self.entries.set(i, Entry::new());
            i = i + 1;
        }
        self.generation = self.generation.wrapping_add(1);
        proof {
            assert forall|g: int| 0 <= g < 64 implies (#[trigger] bit_set(self.global_mask, g) <==> self.entries@[g].used_free != 0) by {
                lemma_max_bits(g as u64);
            }
            assert forall|n: int| #[trigger] self.free_set().contains(n) == (0 <= n < asid_count()) by {
                if 0 <= n < asid_count() {
                    lemma_max_bits((n % 64) as u64);
                }
            }
            assert forall|n: int| #[trigger] self.fresh_set().contains(n) == (0 <= n < asid_count()) by {
                if 0 <= n < asid_count() {
                    lemma_max_bits((n % 64) as u64);
                }
            }
            assert(self.free_set() =~= Set::new(|n: int| 0 <= n < asid_count()));
            assert(self.fresh_set() =~= Set::new(|n: int| 0 <= n < asid_count()));
        }
    }

    /// Flips the used/free bit `bit` of entry `index` and keeps the global mask in line.
    fn toggle_used_free(&mut self, index: usize, bit: u64)
        requires
            old(self).wf(),
            index < 64,
            bit < 64,
            bit_set(old(self).entries@[index as int].used_free, bit as int),
            !old(self).fresh_set().contains(index * 64 + bit),
        ensures
            final(self).wf(),
            final(self).spec_generation() == old(self).spec_generation(),
            final(self).fresh_set() == old(self).fresh_set(),
            final(self).free_set() == old(self).free_set().remove(index * 64 + bit),
    {
        let ghost old_entries = self.entries@;
        let mut e = self.entries[index];
        e.used_free = e.used_free ^ (1u64 << bit);
        self.entries.set(index, e);
        proof {
            lemma_bits_u64(old_entries[index as int].used_free, bit);
        }
        // Need to update global mask if there are no asids left in this entry now.
        if self.entries[index].used_free == 0 {
            let ghost old_mask = self.global_mask;
            self.global_mask = self.global_mask ^ (1u64 << index as u64);
            proof {
                lemma_bits_u64(old_mask, index as u64);
                lemma_bits_u64(self.entries@[index as int].used_free, bit);
            }
        }
        proof {
            let ne = self.entries@[index as int].used_free;
            lemma_bits_u64(ne, bit);
            assert forall|g: int| 0 <= g < 64 implies (#[trigger] bit_set(self.global_mask, g) <==> self.entries@[g].used_free != 0) by {
                if g != index {
                    assert(self.entries@[g] == old_entries[g]);
                }
            }
            assert forall|n: int| #[trigger] self.free_set().contains(n) == old(self).free_set().remove(index * 64 + bit).contains(n) by {
                if 0 <= n < asid_count() {
                    if n / 64 == index {
                        if n % 64 != bit {
                            assert(bit_set(ne, n % 64) == bit_set(old_entries[index as int].used_free, n % 64)) by {
                                lemma_bits_u64(old_entries[index as int].used_free, bit);
                                assert((n % 64) as u64 != bit);
                            }
                        }
                    } else {
                        assert(self.entries@[n / 64] == old_entries[n / 64]);
                    }
                }
            }
            assert forall|n: int| #[trigger] self.fresh_set().contains(n) == old(self).fresh_set().contains(n) by {
                if 0 <= n < asid_count() {
                    if n / 64 != index {
                        assert(self.entries@[n / 64] == old_entries[n / 64]);
                    }
                }
            }
            assert(self.free_set() =~= old(self).free_set().remove(index * 64 + bit));
            assert(self.fresh_set() =~= old(self).fresh_set());
        }
    }

    /// Marks identifier `index * 64 + bit` as handed out by reuse in this generation.
    fn clear_fresh(&mut self, index: usize, bit: u64)
        requires
            old(self).wf(),
            index < 64,
            bit < 64,
            bit_set(old(self).entries@[index as int].used_in_this_generation, bit as int),
        ensures
            final(self).wf(),
            final(self).spec_generation() == old(self).spec_generation(),
            final(self).free_set() == old(self).free_set(),
            final(self).fresh_set() == old(self).fresh_set().remove(index * 64 + bit),
            final(self).entries@[index as int].used_free == old(self).entries@[index as int].used_free,
    {
        let ghost old_entries = self.entries@;
        let mut e = self.entries[index];
        e.used_in_this_generation = e.used_in_this_generation ^ (1u64 << bit);
        self.entries.set(index, e);
        proof {
            let ne = self.entries@[index as int].used_in_this_generation;
            lemma_bits_u64(old_entries[index as int].used_in_this_generation, bit);
            assert forall|g: int| 0 <= g < 64 implies (#[trigger] bit_set(self.global_mask, g) <==> self.entries@[g].used_free != 0) by {
                if g != index {
                    assert(self.entries@[g] == old_entries[g]);
                }
            }
            assert forall|n: int| #[trigger] self.free_set().contains(n) == old(self).free_set().contains(n) by {
                if 0 <= n < asid_count() {
                    if n / 64 != index {
                        assert(self.entries@[n / 64] == old_entries[n / 64]);
                    }
                }
            }
            if bit_set(old_entries[index as int].used_in_this_generation, bit as int) {
                assert forall|n: int| #[trigger] self.fresh_set().contains(n) == old(self).fresh_set().remove(index * 64 + bit).contains(n) by {
                    if 0 <= n < asid_count() {
                        if n / 64 == index {
                            if n % 64 != bit {
                                assert((n % 64) as u64 != bit);
                            }
                        } else {
                            assert(self.entries@[n / 64] == old_entries[n / 64]);
                        }
                    }
                }
                assert(self.fresh_set() =~= old(self).fresh_set().remove(index * 64 + bit));
            }
            assert(self.free_set() =~= old(self).free_set());
        }
    }

    /// Finds the lowest free identifier: the lowest bit of the first entry that has one.
    fn lowest_free(&self) -> (r: (usize, u64))
        requires
            self.wf(),
            self.global_mask != 0,
        ensures
            r.0 < 64,
            r.1 < 64,
            self.free_set().contains(r.0 * 64 + r.1),
            forall|m: int| #[trigger] self.free_set().contains(m) ==> r.0 * 64 + r.1 <= m,
    {
        // Search in the global mask for an entry with free asids.
        let global_free = self.global_mask.trailing_zeros();
        proof {
            vstd::std_specs::bits::axiom_u64_trailing_zeros(self.global_mask);
            assert(bit_set(self.global_mask, global_free as int));
        }
        // Find a free asid.
        let word = self.entries[global_free as usize].used_free;
        let free = word.trailing_zeros() as u64;
        proof {
            vstd::std_specs::bits::axiom_u64_trailing_zeros(word);
            let g = global_free as int;
            let n = g * 64 + free;
            assert(n / 64 == g && n % 64 == free as int);
            assert(self.free_set().contains(n));
            assert forall|m: int| #[trigger] self.free_set().contains(m) implies n <= m by {
                let mg = m / 64;
                assert(self.entries@[mg].used_free != 0) by {
                    lemma_bits_u64(self.entries@[mg].used_free, (m % 64) as u64);
                }
                assert(bit_set(self.global_mask, mg));
                if mg < g {
                    assert(((self.global_mask >> (mg as u64)) & 1u64) == 0u64);
                }
                if mg == g && m % 64 < free {
                    assert(((word >> ((m % 64) as u64)) & 1u64) == 0u64);
                }
            }
        }
        (global_free as usize, free)
    }

    /// Allocates a new Asid. The second result is the identifier bit whose stale translations
    /// must be invalidated before use, if any.
    pub fn allocate(&mut self, previous: Asid) -> (r: (Asid, Option<u64>))
        requires
            old(self).wf(),
            previous.spec_number() < asid_count(),
        ensures
            final(self).wf(),
            final(self).spec_generation() == rolled_generation(*old(self)),
            r.0.spec_generation() == rolled_generation(*old(self)),
            r.0.spec_number() < asid_count(),
            rolled_free(*old(self)).contains(r.0.spec_number() as int),
            !final(self).free_set().contains(r.0.spec_number() as int),
            reuses(*old(self), previous) ==> r.0.spec_number() == previous.spec_number() && r.1 is None
                && final(self).fresh_set() == rolled_fresh(*old(self)).remove(previous.spec_number() as int)
                && final(self).free_set() == rolled_free(*old(self)).remove(previous.spec_number() as int),
            !reuses(*old(self), previous) ==> rolled_free(*old(self)).contains(r.0.spec_number() as int)
                && (forall|m: int| #[trigger] rolled_free(*old(self)).contains(m) ==> r.0.spec_number() <= m)
                && r.1 == Some((r.0.spec_number() % 64) as u64)
                && final(self).fresh_set() == rolled_fresh(*old(self)).remove(r.0.spec_number() as int)
                && final(self).free_set() == rolled_free(*old(self)).remove(r.0.spec_number() as int),
    {
        proof {
            self.lemma_mask_zero_iff_no_free();
        }
        // Roll-over if needed.
        if self.global_mask == 0 {
            self.roll_over();
            assert(self.free_set().contains(0));
        }
        proof {
            self.lemma_mask_zero_iff_no_free();
        }

        // Try to reuse the previous asid.
        // Only possible if it was used in the previous generation
        // and no other domain has used this already.
        let (index, bit) = Self::asid_to_entry_and_bit(previous);
        let reuse = previous.generation == self.generation.wrapping_sub(1)
            && self.entries[index].used_in_this_generation & (1u64 << bit) > 0;
        proof {
            lemma_bits_u64(self.entries@[index as int].used_in_this_generation, bit);
            assert(previous.spec_number() as int == index * 64 + bit);
        }
        let (global_free, free, invalidate) = if reuse {
            // No need to invalidate the asid since it was not used since the previous
            // generation and the TLB entries are thus still from the same domain.
            assert(self.fresh_set().contains(index * 64 + bit));
            self.clear_fresh(index, bit);
            (index, bit, None)
        } else {
            let (global_free, free) = self.lowest_free();
            // The identifier is used in this generation from now on: it cannot be reused.
            proof {
                lemma_bits_u64(self.entries@[global_free as int].used_in_this_generation, free);
                assert((global_free * 64 + free) / 64 == global_free && (global_free * 64 + free) % 64 == free);
            }
            if self.entries[global_free].used_in_this_generation & (1u64 << free) > 0 {
                self.clear_fresh(global_free, free);
            }
            (global_free, free, Some(free))
        };
        proof {
            assert(self.free_set().contains(global_free * 64 + free));
            assert((global_free * 64 + free) / 64 == global_free && (global_free * 64 + free) % 64 == free);
        }
        self.toggle_used_free(global_free, free);
        let number: usize = (global_free << 6) | free as usize;
        proof {
            let g = global_free;
            let b = free as usize;
            assert((g << 6usize) | b == g * 64 + b) by (bit_vector)
                requires g < 64, b < 64;
        }
        (Asid { generation: self.generation, number: number as u16 }, invalidate)
    }

    /// Frees an old asid.
    pub fn free(&mut self, which: Asid)
        requires
            old(self).wf(),
            which.spec_number() < asid_count(),
            which.spec_generation() == old(self).spec_generation() ==> !old(self).free_set().contains(
                which.spec_number() as int,
            ),
        ensures
            final(self).wf(),
            final(self).spec_generation() == old(self).spec_generation(),
            final(self).fresh_set() == old(self).fresh_set(),
            which.spec_generation() == old(self).spec_generation() ==> final(self).free_set()
                == old(self).free_set().insert(which.spec_number() as int),
            which.spec_generation() != old(self).spec_generation() ==> final(self).free_set()
                == old(self).free_set(),
    {
        if which.generation == self.generation {
            let which = which.number;
            let global_entry = (which >> 6) as usize;
            let bit = (which & 63) as u64;
            proof {
                assert((which >> 6u16) == which / 64 && (which & 63u16) == which % 64) by (bit_vector);
            }
            let ghost old_entries = self.entries@;
            let mut e = self.entries[global_entry];
            e.used_free = e.used_free ^ (1u64 << bit);
            self.entries.set(global_entry, e);
            let ghost old_mask = self.global_mask;
            if self.entries[global_entry].used_free != 0 {
                self.global_mask = self.global_mask | (1u64 << global_entry as u64);
                proof {
                    let ge = global_entry as u64;
                    assert(((old_mask | (1u64 << ge)) >> ge) & 1 == 1) by (bit_vector)
                        requires ge < 64;
                    assert forall|j: u64| j < 64 && j != ge implies #[trigger] bit_set(old_mask | (1u64 << ge), j as int) == bit_set(old_mask, j as int) by {
                        assert(((old_mask | (1u64 << ge)) >> j) & 1 == (old_mask >> j) & 1) by (bit_vector)
                            requires ge < 64, j < 64, j != ge;
                    }
                }
            }
            proof {
                let ne = self.entries@[global_entry as int].used_free;
                lemma_bits_u64(old_entries[global_entry as int].used_free, bit);
                lemma_bits_u64(ne, bit);
                assert(bit_set(ne, bit as int));
                assert forall|g: int| 0 <= g < 64 implies (#[trigger] bit_set(self.global_mask, g) <==> self.entries@[g].used_free != 0) by {
                    if g != global_entry {
                        assert(self.entries@[g] == old_entries[g]);
                        if self.global_mask != old_mask {
                            assert(bit_set(self.global_mask, g) == bit_set(old_mask, g)) by {
                                assert(g as u64 != global_entry as u64);
                            }
                        }
                    }
                }
                let n = which as int;
                assert forall|m: int| #[trigger] self.free_set().contains(m) == old(self).free_set().insert(n).contains(m) by {
                    if 0 <= m < asid_count() {
                        if m / 64 == global_entry {
                            if m % 64 != bit {
                                assert((m % 64) as u64 != bit);
                            }
                        } else {
                            assert(self.entries@[m / 64] == old_entries[m / 64]);
                        }
                    }
                }
                assert forall|m: int| #[trigger] self.fresh_set().contains(m) == old(self).fresh_set().contains(m) by {
                    if 0 <= m < asid_count() && m / 64 != global_entry {
                        assert(self.entries@[m / 64] == old_entries[m / 64]);
                    }
                }
                assert(self.free_set() =~= old(self).free_set().insert(n));
                assert(self.fresh_set() =~= old(self).fresh_set());
            }
        }
    }

    proof fn lemma_mask_zero_iff_no_free(&self)
        requires
            self.wf(),
        ensures
            (self.global_mask == 0) == (self.free_set() == Set::<int>::empty()),
    {
        lemma_bits_u64(self.global_mask, 0);
        if self.global_mask == 0 {
            assert forall|n: int| !#[trigger] self.free_set().contains(n) by {
                if 0 <= n < asid_count() {
                    assert(!bit_set(self.global_mask, n / 64));
                    lemma_bits_u64(self.entries@[n / 64].used_free, (n % 64) as u64);
                }
            }
            assert(self.free_set() =~= Set::<int>::empty());
        } else {
            let g = choose|j: u64| j < 64 && #[trigger] bit_set(self.global_mask, j as int);
            let w = self.entries@[g as int].used_free;
            lemma_bits_u64(w, 0);
            let b = choose|j: u64| j < 64 && #[trigger] bit_set(w, j as int);
            let n = g * 64 + b;
            assert(n / 64 == g && n % 64 == b);
            assert(self.free_set().contains(n as int));
        }
    }
}

/// The generation `allocate` works in: a new one when no identifier was left.
pub open spec fn rolled_generation(m: AsidManager) -> u32 {
    if m.free_set() == Set::<int>::empty() {
        next_generation(m.spec_generation())
    } else {
        m.spec_generation()
    }
}

/// The free identifiers `allocate` starts from.
pub open spec fn rolled_free(m: AsidManager) -> Set<int> {
    if m.free_set() == Set::<int>::empty() {
        Set::new(|n: int| 0 <= n < asid_count())
    } else {
        m.free_set()
    }
}

/// The fresh identifiers `allocate` starts from.
pub open spec fn rolled_fresh(m: AsidManager) -> Set<int> {
    if m.free_set() == Set::<int>::empty() {
        Set::new(|n: int| 0 <= n < asid_count())
    } else {
        m.fresh_set()
    }
}

/// `allocate` gives the old identifier back: it is from the previous generation and nobody took
/// it by reuse in this one.
pub open spec fn reuses(m: AsidManager, previous: Asid) -> bool {
    previous.spec_generation() == prev_generation(rolled_generation(m)) && rolled_fresh(m).contains(
        previous.spec_number() as int,
    )
}


} // verus!
