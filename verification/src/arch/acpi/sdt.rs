//! System description table headers and their checksum.
use vstd::prelude::*;
use crate::arch::address::{PhysAddr, VirtAddr, spec_align_down, spec_align_up, PAGE_SIZE};
use crate::mm::mapper::MemoryMapper;

verus! {

/// Size of a system description table header in bytes.
pub const SDT_HEADER_SIZE: usize = 36;

/// Header of a system description table.
pub struct SdtHeader {
    pub name: [u8; 4],
    pub length: u32,
    pub revision: u8,
    pub checksum: u8,
    pub oem_id: [u8; 6],
    pub oem_table_id: [u8; 8],
    pub oem_revision: u32,
    pub creator_id: u32,
    pub creator_revision: u32,
}

/// Sum of the bytes.
pub open spec fn byte_sum(bytes: Seq<u8>) -> int
    decreases bytes.len(),
{
    if bytes.len() == 0 {
        0
    } else {
        byte_sum(bytes.drop_last()) + bytes.last()
    }
}

/// Validates a system description table using its checksum: all its bytes add up to zero,
/// modulo 256.
pub fn validate_sdt(table: &[u8]) -> (r: bool)
    ensures
        r == (byte_sum(table@) % 256 == 0),
{
    let mut sum: u8 = 0;
    let mut i: usize = 0;
    while i < table.len()
        invariant
            i <= table@.len(),
            sum == byte_sum(table@.take(i as int)) % 256,
        decreases table@.len() - i,
    {
        proof {
            assert(table@.take(i + 1).drop_last() =~= table@.take(i as int));
        }
        sum = sum.wrapping_add(table[i]);
        i = i + 1;
    }
    proof {
        assert(table@.take(i as int) =~= table@);
    }
    sum == 0
}

/// Little-endian value of `size` bytes of `bytes` starting at `at`.
pub open spec fn le_value(bytes: Seq<u8>, at: int, size: int) -> int
    decreases size,
{
    if size <= 0 {
        0
    } else {
        bytes[at] + 256 * le_value(bytes, at + 1, size - 1)
    }
}

/// 256 to the power `n`.
pub open spec fn pow256(n: int) -> int
    decreases n,
{
    if n <= 0 {
        1
    } else {
        256 * pow256(n - 1)
    }
}

proof fn lemma_le_value_bound(bytes: Seq<u8>, at: int, size: int)
    requires
        0 <= size,
    ensures
        0 <= le_value(bytes, at, size) < pow256(size),
    decreases size,
{
    if size > 0 {
        lemma_le_value_bound(bytes, at + 1, size - 1);
    }
}

proof fn lemma_pow256_mono(n: int)
    requires
        0 <= n <= 8,
    ensures
        pow256(n) <= pow256(8),
        pow256(8) == 0x1_0000_0000_0000_0000,
    decreases 8 - n,
{
    reveal_with_fuel(pow256, 9);
    if n < 8 {
        lemma_pow256_mono(n + 1);
    }
}

/// Reads a little-endian value of `size` bytes.
fn read_le(bytes: &[u8], at: usize, size: usize) -> (r: u64)
    requires
        size <= 8,
        at + size <= bytes@.len(),
    ensures
        r == le_value(bytes@, at as int, size as int),
    decreases size,
{
    if size == 0 {
        0
    } else {
        assert(bytes@.len() == bytes.len());
        let rest = read_le(bytes, at + 1, size - 1);
        proof {
            lemma_le_value_bound(bytes@, at as int + 1, size as int - 1);
            lemma_pow256_mono(size as int);
            assert(pow256(size as int) == 256 * pow256(size - 1));
        }
        bytes[at] as u64 + 256 * rest
    }
}

/// The table addresses held by a root table (`table` is the whole root table, header included):
/// the entries of `entry_size` bytes that follow the header, little-endian.
pub fn sdt_entries(table: &[u8], entry_size: usize) -> (r: Vec<u64>)
    requires
        entry_size == 4 || entry_size == 8,
        table@.len() >= SDT_HEADER_SIZE,
    ensures
        r@.len() == (table@.len() - SDT_HEADER_SIZE) / entry_size as int,
        forall|i: int| 0 <= i < r@.len() ==> #[trigger] r@[i] == le_value(
            table@,
            SDT_HEADER_SIZE + i * entry_size,
            entry_size as int,
        ),
{
    let entries = (table.len() - SDT_HEADER_SIZE) / entry_size;
    let mut result: Vec<u64> = Vec::new();
    let mut i: usize = 0;
    while i < entries
        invariant
            entry_size == 4 || entry_size == 8,
            entries == (table@.len() - SDT_HEADER_SIZE) / entry_size as int,
            i <= entries,
            result@.len() == i,
            forall|j: int| 0 <= j < i ==> #[trigger] result@[j] == le_value(
                table@,
                SDT_HEADER_SIZE + j * entry_size,
                entry_size as int,
            ),
        decreases entries - i,
    {
        proof {
            assert((i + 1) * entry_size <= entries * entry_size) by (nonlinear_arith)
                requires i < entries;
            assert(entries * entry_size <= table@.len() - SDT_HEADER_SIZE) by (nonlinear_arith)
                requires entries == (table@.len() - SDT_HEADER_SIZE) / entry_size as int, entry_size > 0, table@.len() >= SDT_HEADER_SIZE;
            assert(i * entry_size + entry_size == (i + 1) * entry_size) by (nonlinear_arith);
            assert(table@.len() == table.len());
        }
        let at = SDT_HEADER_SIZE + i * entry_size;
        result.push(read_le(table, at, entry_size));
        i = i + 1;
    }
    result
}

/// The table's signature is that of the high precision event timer table.
pub fn is_hpet(header: &SdtHeader) -> (r: bool)
    ensures
        r == (header.name@ == seq![72u8, 80u8, 69u8, 84u8]),
{
    let n = header.name;
    let r = n[0] == 72 && n[1] == 80 && n[2] == 69 && n[3] == 84;
    proof {
        if r {
            assert(header.name@ =~= seq![72u8, 80u8, 69u8, 84u8]);
        }
    }
    r
}

/// Largest mapping of a table that is accepted (a safety limit).
pub const MAX_SDT_MAPPING: usize = 4096 * 1024;

/// A table mapped at a fixed virtual address; the mapping must be released.
pub struct SdtFixedMapping {
    /// Where the table's header is mapped.
    pub sdt: VirtAddr,
    /// Bytes mapped, from the page that holds the header on.
    pub size: usize,
}

impl SdtFixedMapping {
    /// Bytes to map for a table of `length` bytes at physical address `paddr`: whole pages from
    /// the one that holds the table's start to the one that holds its end. `None` above the
    /// safety limit.
    pub fn required_size(paddr: PhysAddr, length: u32) -> (r: Option<usize>)
        requires
            paddr@ + length + PAGE_SIZE <= usize::MAX,
        ensures
            ({
                let size = spec_align_up(paddr@ + length) - spec_align_down(paddr@ as int);
                &&& r is None <==> size > MAX_SDT_MAPPING
                &&& r matches Some(s) ==> s == size
            }),
    {
        let aligned_down = paddr.align_down();
        let end = crate::arch::address::align_up(paddr.as_usize() + length as usize);
        let required_mapped_size = end - aligned_down.as_usize();

        // Safety limit
        if required_mapped_size > MAX_SDT_MAPPING {
            None
        } else {
            Some(required_mapped_size)
        }
    }

    /// Unmaps this sdt.
    pub fn unmap<M: MemoryMapper>(self, mapping: &mut M) {
        mapping.unmap_range(self.sdt.align_down(), self.size);
    }
}

} // verus!
