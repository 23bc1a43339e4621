//! The inside of one slab: its header counters and the free list that runs through its free
//! slots. A slab is seen as the 32-bit words of its memory; a slot is named by its byte offset
//! from the start of the slab, and the first word of a free slot holds the offset of the next
//! free slot (0 ends the list).
use vstd::prelude::*;
use crate::mm::heap::SLAB_HEADER_SIZE;

verus! {

/// Word of the header that holds the offset of the first free slot (0 when there is none).
pub const NEXT_OFFSET_WORD: usize = 4;

/// Word of the header that holds the number of free slots.
pub const FREE_COUNT_WORD: usize = 5;

/// The offsets met by following the links from `start`, `n` of them.
pub open spec fn free_chain(mem: Seq<u32>, start: u32, n: nat) -> Seq<u32>
    decreases n,
{
    if n == 0 {
        Seq::empty()
    } else {
        seq![start] + free_chain(mem, mem[start as int / 4], (n - 1) as nat)
    }
}

/// The link reached after following `n` links from `start`.
pub open spec fn chain_end(mem: Seq<u32>, start: u32, n: nat) -> u32
    decreases n,
{
    if n == 0 {
        start
    } else {
        chain_end(mem, mem[start as int / 4], (n - 1) as nat)
    }
}

/// A slot offset lies past the header, on a word boundary, inside the slab.
pub open spec fn slot_offset_ok(len: int, off: u32) -> bool {
    &&& off >= SLAB_HEADER_SIZE
    &&& off % 4 == 0
    &&& (off as int) / 4 < len
}

/// The free slots of a slab, in the order they are handed out.
pub open spec fn free_slots(mem: Seq<u32>) -> Seq<u32> {
    free_chain(mem, mem[NEXT_OFFSET_WORD as int], mem[FREE_COUNT_WORD as int] as nat)
}

/// The header and the free list agree: as many free slots as the counter says, each a proper
/// slot offset, none twice, and the list ends after the last of them.
pub open spec fn slab_valid(mem: Seq<u32>) -> bool {
    &&& mem.len() > FREE_COUNT_WORD
    &&& forall|i: int| 0 <= i < free_slots(mem).len() ==> slot_offset_ok(mem.len() as int, #[trigger] free_slots(mem)[i])
    &&& free_slots(mem).no_duplicates()
    &&& chain_end(mem, mem[NEXT_OFFSET_WORD as int], mem[FREE_COUNT_WORD as int] as nat) == 0
}

/// The words of a slab after its first free slot was handed out.
pub open spec fn after_take(mem: Seq<u32>) -> Seq<u32> {
    mem.update(NEXT_OFFSET_WORD as int, mem[mem[NEXT_OFFSET_WORD as int] as int / 4])
        .update(FREE_COUNT_WORD as int, (mem[FREE_COUNT_WORD as int] - 1) as u32)
}

/// The words of a slab after the slot at `off` came back.
pub open spec fn after_give_back(mem: Seq<u32>, off: u32) -> Seq<u32> {
    mem.update(off as int / 4, mem[NEXT_OFFSET_WORD as int])
        .update(NEXT_OFFSET_WORD as int, off)
        .update(FREE_COUNT_WORD as int, (mem[FREE_COUNT_WORD as int] + 1) as u32)
}

/// Word `k` holds the link of one of the `slots` slots laid out from `start`, `obj` bytes apart.
pub open spec fn is_slot_word(k: int, start: int, obj: int, slots: int) -> bool {
    &&& start <= 4 * k < start + slots * obj
    &&& (4 * k - start) % obj == 0
}

/// The word that holds the link of the `j`-th slot laid out from `start`, `obj` bytes apart.
pub open spec fn slot_word(start: int, obj: int, j: int) -> int {
    (start + j * obj) / 4
}

/// The slots laid out from `start`, `obj` bytes apart.
pub open spec fn laid_out_slots(start: int, obj: int, slots: nat) -> Seq<u32> {
    Seq::new(slots, |i: int| (start + i * obj) as u32)
}

/// The chain only reads the links of its own slots: two memories that agree on those links
/// give the same chain and the same end.
proof fn lemma_chain_frame(m1: Seq<u32>, m2: Seq<u32>, start: u32, n: nat)
    requires
        forall|i: int| 0 <= i < free_chain(m1, start, n).len() ==>
            m1[#[trigger] free_chain(m1, start, n)[i] as int / 4] == m2[free_chain(m1, start, n)[i] as int / 4],
    ensures
        free_chain(m2, start, n) == free_chain(m1, start, n),
        chain_end(m2, start, n) == chain_end(m1, start, n),
    decreases n,
{
    if n > 0 {
        let next = m1[start as int / 4];
        let rest = free_chain(m1, next, (n - 1) as nat);
        assert(free_chain(m1, start, n)[0] == start);
        assert forall|i: int| 0 <= i < rest.len() implies m1[#[trigger] rest[i] as int / 4] == m2[rest[i] as int / 4] by {
            assert(free_chain(m1, start, n)[i + 1] == rest[i]);
        }
        lemma_chain_frame(m1, m2, next, (n - 1) as nat);
    }
}

/// The length of a chain is the number of links followed.
proof fn lemma_chain_len(mem: Seq<u32>, start: u32, n: nat)
    ensures
        free_chain(mem, start, n).len() == n,
    decreases n,
{
    if n > 0 {
        lemma_chain_len(mem, mem[start as int / 4], (n - 1) as nat);
    }
}

/// Distinct slot offsets have distinct link words.
proof fn lemma_word_distinct(a: u32, b: u32)
    requires
        a % 4 == 0,
        b % 4 == 0,
        a != b,
    ensures
        a as int / 4 != b as int / 4,
{
}

/// Where the `j`-th slot laid out from `start`, `obj` bytes apart, lies, and which word holds
/// its link.
proof fn lemma_slot_at(start: int, obj: int, j: int)
    requires
        start >= 0,
        start % 4 == 0,
        obj > 0,
        obj % 4 == 0,
        j >= 0,
    ensures
        j * obj >= 0,
        (j + 1) * obj == j * obj + obj,
        (start + j * obj) % 4 == 0,
        (start + j * obj) / 4 == start / 4 + j * (obj / 4),
        (j * obj) % obj == 0,
{
    assert(j * obj >= 0) by (nonlinear_arith)
        requires j >= 0, obj > 0;
    assert((j + 1) * obj == j * obj + obj) by (nonlinear_arith);
    assert(j * obj == 4 * (j * (obj / 4))) by (nonlinear_arith)
        requires obj % 4 == 0, obj > 0;
    vstd::arithmetic::div_mod::lemma_mod_multiples_basic(j, obj);
}

/// Slots laid out later lie further into the slab.
proof fn lemma_slot_order(obj: int, i: int, j: int)
    requires
        obj > 0,
        0 <= i < j,
    ensures
        i * obj + obj <= j * obj,
{
    assert(i * obj + obj <= j * obj) by (nonlinear_arith)
        requires obj > 0, 0 <= i < j;
}

/// Following the links of freshly laid out slots from the `i`-th one visits the rest of them
/// in order, and ends at 0.
proof fn lemma_laid_out_chain(mem: Seq<u32>, start: int, obj: int, slots: int, i: int)
    requires
        start >= 0,
        start % 4 == 0,
        obj > 0,
        obj % 4 == 0,
        0 <= i < slots,
        start + slots * obj <= u32::MAX,
        forall|j: int| 0 <= j < slots - 1 ==> mem[#[trigger] slot_word(start, obj, j)] == (start + (j + 1) * obj) as u32,
        mem[slot_word(start, obj, slots - 1)] == 0,
    ensures
        free_chain(mem, (start + i * obj) as u32, (slots - i) as nat)
            == laid_out_slots(start, obj, slots as nat).subrange(i, slots),
        chain_end(mem, (start + i * obj) as u32, (slots - i) as nat) == 0,
    decreases slots - i,
{
    lemma_slot_at(start, obj, i);
    lemma_slot_order(obj, i, slots);
    let a = (start + i * obj) as u32;
    assert(a as int == start + i * obj);
    let whole = laid_out_slots(start, obj, slots as nat);
    assert(a as int / 4 == slot_word(start, obj, i));
    if i == slots - 1 {
        assert(mem[a as int / 4] == 0);
        reveal_with_fuel(free_chain, 2);
        reveal_with_fuel(chain_end, 2);
        assert(free_chain(mem, a, 1) =~= whole.subrange(i, slots));
    } else {
        lemma_laid_out_chain(mem, start, obj, slots, i + 1);
        lemma_slot_at(start, obj, i + 1);
        assert(mem[slot_word(start, obj, i)] == (start + (i + 1) * obj) as u32);
        assert(free_chain(mem, a, (slots - i) as nat) =~= whole.subrange(i, slots));
    }
}

/// Number of free slots of a slab.
pub fn free_count(words: &[u32]) -> (r: u32)
    requires
        words@.len() > FREE_COUNT_WORD,
    ensures
        r == words@[FREE_COUNT_WORD as int],
{
    words[FREE_COUNT_WORD]
}

/// Is full? No slot of the slab is free.
pub fn is_full(words: &[u32]) -> (r: bool)
    requires
        slab_valid(words@),
    ensures
        r == (words@[FREE_COUNT_WORD as int] == 0),
        r == (free_slots(words@).len() == 0),
{
    proof {
        lemma_chain_len(words@, words@[NEXT_OFFSET_WORD as int], words@[FREE_COUNT_WORD as int] as nat);
        if words@[FREE_COUNT_WORD as int] > 0 {
            assert(free_slots(words@)[0] == words@[NEXT_OFFSET_WORD as int]);
        }
    }
    words[NEXT_OFFSET_WORD] == 0
}

/// Taking the first free slot keeps a slab valid, and removes exactly that slot from its free
/// slots.
pub proof fn lemma_take(m: Seq<u32>)
    requires
        slab_valid(m),
        m[FREE_COUNT_WORD as int] > 0,
    ensures
        free_slots(m).len() > 0,
        free_slots(m)[0] == m[NEXT_OFFSET_WORD as int],
        slab_valid(after_take(m)),
        free_slots(after_take(m)) == free_slots(m).drop_first(),
        !free_slots(after_take(m)).contains(free_slots(m)[0]),
{
    let n = m[FREE_COUNT_WORD as int] as nat;
    let off = m[NEXT_OFFSET_WORD as int];
    lemma_chain_len(m, off, n);
    let next = m[off as int / 4];
    let m2 = after_take(m);
    let rest = free_chain(m, next, (n - 1) as nat);
    assert(free_slots(m) == seq![off] + rest);
    assert(slot_offset_ok(m.len() as int, free_slots(m)[0]));
    assert forall|i: int| 0 <= i < rest.len() implies m[#[trigger] rest[i] as int / 4] == m2[rest[i] as int / 4] by {
        assert(rest[i] == free_slots(m)[i + 1]);
        assert(slot_offset_ok(m.len() as int, free_slots(m)[i + 1]));
    }
    lemma_chain_frame(m, m2, next, (n - 1) as nat);
    assert(free_slots(m2) == rest);
    assert(rest =~= free_slots(m).drop_first());
    assert forall|i: int| 0 <= i < rest.len() implies slot_offset_ok(m2.len() as int, #[trigger] rest[i]) by {
        assert(rest[i] == free_slots(m)[i + 1]);
    }
    assert(rest.no_duplicates()) by {
        assert forall|i: int, j: int| 0 <= i < j < rest.len() implies rest[i] != rest[j] by {
            assert(rest[i] == free_slots(m)[i + 1]);
            assert(rest[j] == free_slots(m)[j + 1]);
        }
    }
    assert(!rest.contains(off)) by {
        if rest.contains(off) {
            let k = choose|k: int| 0 <= k < rest.len() && rest[k] == off;
            assert(free_slots(m)[k + 1] == free_slots(m)[0]);
        }
    }
}

/// Giving back a slot that is not free keeps a slab valid, and puts that slot in front of its
/// free slots.
pub proof fn lemma_give_back(m: Seq<u32>, offset: u32)
    requires
        slab_valid(m),
        slot_offset_ok(m.len() as int, offset),
        !free_slots(m).contains(offset),
        m[FREE_COUNT_WORD as int] < u32::MAX,
    ensures
        slab_valid(after_give_back(m, offset)),
        free_slots(after_give_back(m, offset)) == seq![offset] + free_slots(m),
{
    let n = m[FREE_COUNT_WORD as int] as nat;
    let head = m[NEXT_OFFSET_WORD as int];
    let m2 = after_give_back(m, offset);
    let old_slots = free_slots(m);
    assert forall|i: int| 0 <= i < old_slots.len() implies m[#[trigger] old_slots[i] as int / 4] == m2[old_slots[i] as int / 4] by {
        assert(slot_offset_ok(m.len() as int, old_slots[i]));
        assert(old_slots[i] != offset);
        lemma_word_distinct(old_slots[i], offset);
    }
    lemma_chain_frame(m, m2, head, n);
    assert(m2[offset as int / 4] == head);
    assert(free_slots(m2) == seq![offset] + free_chain(m2, head, n));
    let s2 = free_slots(m2);
    assert forall|i: int| 0 <= i < s2.len() implies slot_offset_ok(m2.len() as int, #[trigger] s2[i]) by {
        if i > 0 {
            assert(s2[i] == old_slots[i - 1]);
        }
    }
    assert(s2.no_duplicates()) by {
        assert forall|i: int, j: int| 0 <= i < j < s2.len() implies s2[i] != s2[j] by {
            assert(s2[j] == old_slots[j - 1]);
            if i > 0 {
                assert(s2[i] == old_slots[i - 1]);
            } else {
                assert(old_slots.contains(s2[j]));
            }
        }
    }
}

/// A slot that was given back is the next one handed out, and then the slab's free slots and
/// counters are as they were before it came back.
pub proof fn lemma_give_back_then_take(m: Seq<u32>, offset: u32)
    requires
        slab_valid(m),
        slot_offset_ok(m.len() as int, offset),
        !free_slots(m).contains(offset),
        m[FREE_COUNT_WORD as int] < u32::MAX,
    ensures
        free_slots(after_give_back(m, offset))[0] == offset,
        free_slots(after_take(after_give_back(m, offset))) == free_slots(m),
        after_take(after_give_back(m, offset))[NEXT_OFFSET_WORD as int] == m[NEXT_OFFSET_WORD as int],
        after_take(after_give_back(m, offset))[FREE_COUNT_WORD as int] == m[FREE_COUNT_WORD as int],
{
    lemma_give_back(m, offset);
    let m2 = after_give_back(m, offset);
    lemma_take(m2);
    assert((seq![offset] + free_slots(m)).drop_first() =~= free_slots(m));
}

/// Hands out the first free slot of a slab: returns its offset, and the slot it linked to
/// becomes the first free one.
pub fn allocate(words: &mut [u32]) -> (r: u32)
    requires
        slab_valid(old(words)@),
        old(words)@[FREE_COUNT_WORD as int] > 0,
    ensures
        final(words)@ == after_take(old(words)@),
        r == free_slots(old(words)@)[0],
        slab_valid(final(words)@),
        free_slots(final(words)@) == free_slots(old(words)@).drop_first(),
        !free_slots(final(words)@).contains(r),
{
    proof {
        lemma_take(words@);
        assert(slot_offset_ok(words@.len() as int, free_slots(words@)[0]));
    }
    let ghost m = words@;
    let off = words[NEXT_OFFSET_WORD];
    let next = words[(off / 4) as usize];
    words[NEXT_OFFSET_WORD] = next;
    words[FREE_COUNT_WORD] = words[FREE_COUNT_WORD] - 1;
    assert(words@ =~= after_take(m));
    off
}

/// Takes back the slot at `offset`: it becomes the first free slot, linked to the former first.
pub fn dealloc(words: &mut [u32], offset: u32)
    requires
        slab_valid(old(words)@),
        slot_offset_ok(old(words)@.len() as int, offset),
        !free_slots(old(words)@).contains(offset),
        old(words)@[FREE_COUNT_WORD as int] < u32::MAX,
    ensures
        final(words)@ == after_give_back(old(words)@, offset),
        slab_valid(final(words)@),
        free_slots(final(words)@) == seq![offset] + free_slots(old(words)@),
{
    proof {
        lemma_give_back(words@, offset);
    }
    let ghost m = words@;
    let idx = (offset / 4) as usize;
    words[idx] = words[NEXT_OFFSET_WORD];
    words[NEXT_OFFSET_WORD] = offset;
    words[FREE_COUNT_WORD] = words[FREE_COUNT_WORD] + 1;
    assert(words@ =~= after_give_back(m, offset));
}

/// Lays out `slots_count` slots of `obj_size` bytes from `start_offset` and links them all into
/// the free list, in order.
pub fn init(words: &mut [u32], start_offset: u32, slots_count: u32, obj_size: u32)
    requires
        old(words)@.len() > FREE_COUNT_WORD,
        start_offset >= SLAB_HEADER_SIZE,
        start_offset % 4 == 0,
        obj_size >= 4,
        obj_size % 4 == 0,
        slots_count > 1,
        start_offset + slots_count * obj_size <= 4 * old(words)@.len(),
        start_offset + slots_count * obj_size <= u32::MAX,
    ensures
        final(words)@.len() == old(words)@.len(),
        final(words)@[NEXT_OFFSET_WORD as int] == start_offset,
        final(words)@[FREE_COUNT_WORD as int] == slots_count,
        slab_valid(final(words)@),
        free_slots(final(words)@) == laid_out_slots(start_offset as int, obj_size as int, slots_count as nat),
        forall|k: int| 0 <= k < old(words)@.len() && k != NEXT_OFFSET_WORD && k != FREE_COUNT_WORD
            && !is_slot_word(k, start_offset as int, obj_size as int, slots_count as int)
            ==> #[trigger] final(words)@[k] == old(words)@[k],
{
    let ghost m0 = words@;
    let ghost start = start_offset as int;
    let ghost obj = obj_size as int;
    let ghost slots = slots_count as int;
    words[NEXT_OFFSET_WORD] = start_offset;
    words[FREE_COUNT_WORD] = slots_count;
    let mut i: u32 = 0;
    let mut off: u32 = start_offset;
    proof {
        lemma_slot_at(start, obj, slots - 1);
        lemma_slot_at(start, obj, slots);
    }
    while i < slots_count - 1
        invariant
            start == start_offset,
            obj == obj_size,
            slots == slots_count,
            start >= SLAB_HEADER_SIZE,
            start % 4 == 0,
            obj >= 4,
            obj % 4 == 0,
            slots > 1,
            start + slots * obj <= 4 * m0.len(),
            start + slots * obj <= u32::MAX,
            0 <= i <= slots - 1,
            off == start + i * obj,
            words@.len() == m0.len(),
            words@[NEXT_OFFSET_WORD as int] == start_offset,
            words@[FREE_COUNT_WORD as int] == slots_count,
            forall|j: int| 0 <= j < i ==> words@[#[trigger] slot_word(start, obj, j)] == (start + (j + 1) * obj) as u32,
            forall|k: int| 0 <= k < m0.len() && k != NEXT_OFFSET_WORD && k != FREE_COUNT_WORD
                && !is_slot_word(k, start, obj, i as int) ==> #[trigger] words@[k] == m0[k],
        decreases slots - 1 - i,
    {
        proof {
            lemma_slot_at(start, obj, i as int);
            lemma_slot_order(obj, i as int, slots);
        }
        let idx = (off / 4) as usize;
        let ghost before = words@;
        words[idx] = off + obj_size;
        proof {
            let w = slot_word(start, obj, i as int);
            assert(idx == w);
            assert(words@[w] == (start + (i + 1) * obj) as u32);
            assert forall|j: int| 0 <= j < i + 1 implies words@[#[trigger] slot_word(start, obj, j)]
                == (start + (j + 1) * obj) as u32 by {
                if j < i {
                    lemma_slot_at(start, obj, j);
                    lemma_slot_order(obj, j, i as int);
                    assert(slot_word(start, obj, j) != w);
                    assert(before[slot_word(start, obj, j)] == (start + (j + 1) * obj) as u32);
                }
            }
            assert forall|k: int| 0 <= k < m0.len() && k != NEXT_OFFSET_WORD && k != FREE_COUNT_WORD
                && !is_slot_word(k, start, obj, i + 1) implies #[trigger] words@[k] == m0[k] by {
                assert(is_slot_word(w, start, obj, i + 1));
                if is_slot_word(k, start, obj, i as int) {
                    assert(is_slot_word(k, start, obj, i + 1));
                }
            }
        }
        off = off + obj_size;
        i = i + 1;
    }
    proof {
        lemma_slot_at(start, obj, i as int);
        lemma_slot_order(obj, i as int, slots);
    }
    let idx = (off / 4) as usize;
    words[idx] = 0;
    proof {
        let m = words@;
        let last = (start + (slots - 1) * obj) / 4;
        assert forall|j: int| 0 <= j < slots - 1 implies m[#[trigger] slot_word(start, obj, j)] == (start + (j + 1) * obj) as u32 by {
            lemma_slot_at(start, obj, j);
            lemma_slot_order(obj, j, slots - 1);
        }
        assert forall|k: int| 0 <= k < m0.len() && k != NEXT_OFFSET_WORD && k != FREE_COUNT_WORD
            && !is_slot_word(k, start, obj, slots) implies #[trigger] m[k] == m0[k] by {
            assert(is_slot_word(last, start, obj, slots));
            if is_slot_word(k, start, obj, slots - 1) {
                assert(is_slot_word(k, start, obj, slots));
            }
        }
        lemma_laid_out_chain(m, start, obj, slots, 0);
        let laid = laid_out_slots(start, obj, slots as nat);
        assert(laid.subrange(0, slots) =~= laid);
        assert(free_slots(m) == laid);
        assert forall|j: int| 0 <= j < laid.len() implies slot_offset_ok(m.len() as int, #[trigger] laid[j]) by {
            lemma_slot_at(start, obj, j);
            lemma_slot_order(obj, j, slots);
        }
        assert(laid.no_duplicates()) by {
            assert forall|a: int, b: int| 0 <= a < b < laid.len() implies laid[a] != laid[b] by {
                lemma_slot_at(start, obj, a);
                lemma_slot_at(start, obj, b);
                lemma_slot_order(obj, a, b);
                lemma_slot_order(obj, b, slots);
            }
        }
    }
}

} // verus!
