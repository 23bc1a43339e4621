//! Array of 4-bit values, two per byte.
use vstd::prelude::*;

verus! {

/// The nibble at logical index `index` of the bytes: the low half of the byte for an even
/// index, the high half for an odd one.
pub open spec fn nibble(bytes: Seq<u8>, index: int) -> u8 {
    ((bytes[index / 2] as u8) >> (4 * (index % 2)) as u8) & 15u8
}

/// Nibble array.
pub struct NibbleArray<const N: usize> {
    /// Entries, stored as nibbles.
    entries: [u8; N],
}

impl<const N: usize> View for NibbleArray<N> {
    type V = Seq<u8>;

    /// The stored bytes.
    closed spec fn view(&self) -> Seq<u8> {
        self.entries@
    }
}

proof fn lemma_nibble_update(byte: u8, value: u8, shift: u8)
    requires
        value < 16,
        shift == 0 || shift == 4,
    ensures
        (((byte & (0b11110000u8 >> shift)) | (value << shift)) >> shift) & 15u8 == value,
        (((byte & (0b11110000u8 >> shift)) | (value << shift)) >> (4u8 - shift) as u8) & 15u8 == (
        byte >> (4u8 - shift) as u8) & 15u8,
{
    assert((((byte & (0b11110000u8 >> shift)) | (value << shift)) >> shift) & 15u8 == value)
        by (bit_vector)
        requires
            value < 16,
            shift == 0 || shift == 4,
    ;
    assert((((byte & (0b11110000u8 >> shift)) | (value << shift)) >> (4u8 - shift) as u8) & 15u8
        == (byte >> (4u8 - shift) as u8) & 15u8) by (bit_vector)
        requires
            value < 16,
            shift == 0 || shift == 4,
    ;
}

impl<const N: usize> NibbleArray<N> {
    /// A nibble array over the given bytes.
    pub fn from_entries(entries: [u8; N]) -> (r: Self)
        ensures
            r@ == entries@,
    {
        Self { entries }
    }

    /// Gets the shift for the nibble.
    #[inline]
    pub fn get_shift(index: usize) -> (r: u8)
        ensures
            r == 4 * (index % 2),
    {
        assert((index & 1usize) << 2usize == 4 * (index % 2) && (index & 1usize) << 2usize <= 4) by (bit_vector);
        ((index & 1) << 2) as u8
    }

    /// Gets a nibble at a logical index.
    pub fn get_nibble_at(&self, index: usize) -> (r: u8)
        requires
            index / 2 < N,
        ensures
            r == nibble(self@, index as int),
            r < 16,
    {
        let i = index >> 1;
        assert(index >> 1usize == index / 2) by (bit_vector);
        let shift = Self::get_shift(index);
        let b = self.entries[i];
        let r = (b >> shift) & 15;
        assert(r < 16) by (bit_vector)
            requires r == (b >> shift) & 15u8;
        r
    }

    /// Sets a nibble at a logical index to a value.
    pub fn set_nibble_at(&mut self, index: usize, value: u8)
        requires
            index / 2 < N,
            value < 16,
        ensures
            final(self)@.len() == old(self)@.len(),
            forall|j: int| 0 <= j < 2 * N ==> #[trigger] nibble(final(self)@, j) == if j == index {
                value
            } else {
                nibble(old(self)@, j)
            },
    {
        let i = index >> 1;
        assert(index >> 1usize == index / 2) by (bit_vector);
        let shift = Self::get_shift(index);
        let byte = self.entries[i];
        let masked = byte & (0b11110000u8 >> shift);
        self.entries[i] = masked | (value << shift);
        proof {
            lemma_nibble_update(byte, value, shift);
            assert forall|j: int| 0 <= j < 2 * N implies #[trigger] nibble(self@, j) == if j == index {
                value
            } else {
                nibble(old(self)@, j)
            } by {
                if j / 2 != i {
                    assert(self@[j / 2] == old(self)@[j / 2]);
                } else if j != index {
                    assert(4 * (j % 2) == 4 - shift);
                }
            }
        }
    }
}

} // verus!
