use vstd::arithmetic::power2::{lemma_pow2_unfold, pow2};
use vstd::bits::lemma_u64_shl_is_mul;
use vstd::prelude::*;

verus! {

/// Bit `i` of a byte string, counting from the least significant bit of the
/// first byte.
pub open spec fn bit_at(s: Seq<u8>, i: int) -> bool {
    (s[i / 8] >> ((i % 8) as u8)) & 1u8 == 1u8
}

/// The unsigned integer made of `w` bits of `s` starting at bit `off`, the
/// first of them least significant.
pub open spec fn bits_value(s: Seq<u8>, off: int, w: nat) -> nat
    decreases w,
{
    if w == 0 {
        0
    } else {
        bits_value(s, off, (w - 1) as nat) + if bit_at(s, off + w - 1) {
            pow2((w - 1) as nat)
        } else {
            0
        }
    }
}

/// Bit `i` of a 64-bit value.
pub open spec fn value_bit(v: u64, i: int) -> bool {
    (v >> (i as u64)) & 1u64 == 1u64
}

/// The low `w` bits of `v`, rebuilt one bit at a time.
pub open spec fn low_bits(v: u64, w: nat) -> nat
    decreases w,
{
    if w == 0 {
        0
    } else {
        low_bits(v, (w - 1) as nat) + if value_bit(v, w - 1) {
            pow2((w - 1) as nat)
        } else {
            0
        }
    }
}

/// A run of bytes read as a little-endian sequence of bits, as a C compiler
/// lays out bit-fields.
#[derive(Clone, Debug)]
pub struct __BindgenBitfieldUnit {
    storage: Vec<u8>,
}

proof fn lemma_byte_bit(b: u8, k: u8)
    requires
        k < 8,
    ensures
        (b & (1u8 << k) == (1u8 << k)) == ((b >> k) & 1u8 == 1u8),
        ((b | (1u8 << k)) >> k) & 1u8 == 1u8,
        ((b & !(1u8 << k)) >> k) & 1u8 != 1u8,
{
    assert((b & (1u8 << k) == (1u8 << k)) == ((b >> k) & 1u8 == 1u8)) by (bit_vector)
        requires
            k < 8,
    ;
    assert(((b | (1u8 << k)) >> k) & 1u8 == 1u8) by (bit_vector)
        requires
            k < 8,
    ;
    assert(((b & !(1u8 << k)) >> k) & 1u8 != 1u8) by (bit_vector)
        requires
            k < 8,
    ;
}

proof fn lemma_other_bit(b: u8, k: u8, j: u8)
    requires
        k < 8,
        j < 8,
        k != j,
    ensures
        ((b | (1u8 << k)) >> j) & 1u8 == (b >> j) & 1u8,
        ((b & !(1u8 << k)) >> j) & 1u8 == (b >> j) & 1u8,
{
    assert(((b | (1u8 << k)) >> j) & 1u8 == (b >> j) & 1u8) by (bit_vector)
        requires
            k < 8,
            j < 8,
            k != j,
    ;
    assert(((b & !(1u8 << k)) >> j) & 1u8 == (b >> j) & 1u8) by (bit_vector)
        requires
            k < 8,
            j < 8,
            k != j,
    ;
}

impl __BindgenBitfieldUnit {
    pub closed spec fn view(&self) -> Seq<u8> {
        self.storage@
    }

    pub fn new(storage: Vec<u8>) -> (r: Self)
        ensures
            r@ == storage@,
    {
        Self { storage }
    }

    /// The bytes of the unit.
    pub fn as_bytes(&self) -> (r: &Vec<u8>)
        ensures
            r@ == self@,
    {
        &self.storage
    }

    pub fn get_bit(&self, index: usize) -> (r: bool)
        requires
            index / 8 < self@.len(),
        ensures
            r == bit_at(self@, index as int),
    {
        let byte_index = index / 8;
        let byte = self.storage[byte_index];
        let bit_index = (index % 8) as u8;
        let mask: u8 = 1u8 << bit_index;
        proof {
            lemma_byte_bit(byte, bit_index);
        }
        byte & mask == mask
    }

    pub fn set_bit(&mut self, index: usize, val: bool)
        requires
            index / 8 < old(self)@.len(),
        ensures
            final(self)@.len() == old(self)@.len(),
            forall|i: int|
                0 <= i < 8 * old(self)@.len() ==> #[trigger] bit_at(final(self)@, i) == if i
                    == index {
                    val
                } else {
                    bit_at(old(self)@, i)
                },
    {
        let byte_index = index / 8;
        let bit_index = (index % 8) as u8;
        let mask: u8 = 1u8 << bit_index;
        let byte = self.storage[byte_index];
        let new_byte = if val {
            byte | mask
        } else {
            byte & !mask
        };
        self.storage.set(byte_index, new_byte);
        proof {
            lemma_byte_bit(byte, bit_index);
            assert forall|i: int| 0 <= i < 8 * old(self)@.len() implies #[trigger] bit_at(
                self@,
                i,
            ) == if i == index {
                val
            } else {
                bit_at(old(self)@, i)
            } by {
                if i / 8 == byte_index as int {
                    if i != index {
                        lemma_other_bit(byte, bit_index, (i % 8) as u8);
                    }
                }
            }
        }
    }

    pub fn get(&self, bit_offset: usize, bit_width: u8) -> (r: u64)
        requires
            bit_width <= 64,
            bit_offset + bit_width <= 8 * self@.len(),
            bit_offset + bit_width <= usize::MAX,
        ensures
            r == bits_value(self@, bit_offset as int, bit_width as nat),
    {
        let mut val: u64 = 0;
        let mut i: usize = 0;
        proof { vstd::arithmetic::power2::lemma2_to64(); }
        while i < bit_width as usize
            invariant
                i <= bit_width <= 64,
                bit_offset + bit_width <= 8 * self@.len(),
                bit_offset + bit_width <= usize::MAX,
                val == bits_value(self@, bit_offset as int, i as nat),
                val < pow2(i as nat),
            decreases bit_width - i,
        {
            proof {
                lemma_pow2_unfold((i + 1) as nat);
                vstd::arithmetic::power2::lemma2_to64();
                if i < 63 {
                    vstd::arithmetic::power2::lemma_pow2_strictly_increases((i + 1) as nat, 64);
                }
                lemma_u64_shl_is_mul(1u64, i as u64);
            }
            if self.get_bit(i + bit_offset) {
                val = val + (1u64 << (i as u64));
            }
            i = i + 1;
        }
        val
    }

    pub fn set(&mut self, bit_offset: usize, bit_width: u8, val: u64)
        requires
            bit_width <= 64,
            bit_offset + bit_width <= 8 * old(self)@.len(),
            bit_offset + bit_width <= usize::MAX,
        ensures
            final(self)@.len() == old(self)@.len(),
            forall|j: int|
                0 <= j < 8 * old(self)@.len() ==> #[trigger] bit_at(final(self)@, j) == if
                    bit_offset <= j < bit_offset + bit_width {
                    value_bit(val, j - bit_offset)
                } else {
                    bit_at(old(self)@, j)
                },
    {
        let mut i: usize = 0;
        while i < bit_width as usize
            invariant
                i <= bit_width <= 64,
                bit_offset + bit_width <= 8 * old(self)@.len(),
                bit_offset + bit_width <= usize::MAX,
                self@.len() == old(self)@.len(),
                forall|j: int|
                    0 <= j < 8 * old(self)@.len() ==> #[trigger] bit_at(self@, j) == if
                        bit_offset <= j < bit_offset + i {
                        value_bit(val, j - bit_offset)
                    } else {
                        bit_at(old(self)@, j)
                    },
            decreases bit_width - i,
        {
            let mask: u64 = 1u64 << (i as u64);
            let val_bit_is_set = val & mask == mask;
            assert(val_bit_is_set == value_bit(val, i as int)) by (bit_vector)
                requires
                    mask == 1u64 << (i as u64),
                    val_bit_is_set == (val & mask == mask),
                    i < 64,
            ;
            self.set_bit(i + bit_offset, val_bit_is_set);
            i = i + 1;
        }
    }
}

/// A field of `w` bits holds less than `2^w`.
pub proof fn lemma_bits_value_bound(s: Seq<u8>, off: int, w: nat)
    ensures
        bits_value(s, off, w) < pow2(w),
    decreases w,
{
    if w > 0 {
        lemma_bits_value_bound(s, off, (w - 1) as nat);
        lemma_pow2_unfold(w);
    } else {
        vstd::arithmetic::power2::lemma2_to64();
    }
}

/// Reading back `w` bits just written from `v` gives the low `w` bits of `v`.
pub proof fn lemma_get_after_set(s: Seq<u8>, off: int, w: nat, v: u64)
    requires
        forall|i: int| 0 <= i < w ==> #[trigger] bit_at(s, off + i) == value_bit(v, i),
    ensures
        bits_value(s, off, w) == low_bits(v, w),
    decreases w,
{
    if w > 0 {
        assert(bit_at(s, off + (w - 1)) == value_bit(v, w - 1));
        lemma_get_after_set(s, off, (w - 1) as nat, v);
    }
}

} // verus!
