use crate::bitfield::{
    __BindgenBitfieldUnit,
    bit_at,
    bits_value,
    lemma_bits_value_bound,
    lemma_get_after_set,
    low_bits,
    value_bit,
};
use vstd::prelude::*;

verus! {

/// The state word of a string header: interned (2 bits), kind (3 bits),
/// compact, ascii and ready (1 bit each), packed into one byte.
#[derive(Clone, Debug)]
pub struct PyASCIIObject__bindgen_ty_1 {
    pub _bitfield_1: __BindgenBitfieldUnit,
    pub __bindgen_padding_0: [u8; 3],
}

impl PyASCIIObject__bindgen_ty_1 {
    pub open spec fn wf(&self) -> bool {
        self._bitfield_1@.len() == 1
    }

    /// The value of the packed field `[off, off + w)`.
    pub open spec fn field(&self, off: int, w: nat) -> nat {
        bits_value(self._bitfield_1@, off, w)
    }

    fn small_field(&self, off: usize, w: u8) -> (r: u32)
        requires
            self.wf(),
            off + w <= 8,
        ensures
            r == self.field(off as int, w as nat),
    {
        proof {
            lemma_bits_value_bound(self._bitfield_1@, off as int, w as nat);
            vstd::arithmetic::power2::lemma2_to64();
            if w < 8 {
                vstd::arithmetic::power2::lemma_pow2_strictly_increases(w as nat, 8);
            }
        }
        self._bitfield_1.get(off, w) as u32
    }

    /// The header whose first byte is `b`.
    pub fn from_state_byte(b: u8) -> (r: Self)
        ensures
            r.wf(),
            r._bitfield_1@ == seq![b],
    {
        let mut v: Vec<u8> = Vec::new();
        v.push(b);
        PyASCIIObject__bindgen_ty_1 {
            _bitfield_1: __BindgenBitfieldUnit::new(v),
            __bindgen_padding_0: [0u8; 3],
        }
    }

    /// A unit holding the five fields, each cut to its width.
    pub fn new_bitfield_1(interned: u32, kind: u32, compact: u32, ascii: u32, ready: u32) -> (r:
        __BindgenBitfieldUnit)
        ensures
            r@.len() == 1,
            bits_value(r@, 0, 2) == low_bits(interned as u64, 2),
            bits_value(r@, 2, 3) == low_bits(kind as u64, 3),
            bits_value(r@, 5, 1) == low_bits(compact as u64, 1),
            bits_value(r@, 6, 1) == low_bits(ascii as u64, 1),
            bits_value(r@, 7, 1) == low_bits(ready as u64, 1),
    {
        let mut storage: Vec<u8> = Vec::new();
        storage.push(0u8);
        let mut unit = __BindgenBitfieldUnit::new(storage);
        unit.set(0, 2, interned as u64);
        unit.set(2, 3, kind as u64);
        unit.set(5, 1, compact as u64);
        unit.set(6, 1, ascii as u64);
        unit.set(7, 1, ready as u64);
        proof {
            let s = unit@;
            assert forall|i: int| 0 <= i < 2 implies #[trigger] bit_at(s, 0 + i) == value_bit(
                interned as u64,
                i,
            ) by {
                assert(bit_at(s, 0 + i) == value_bit(interned as u64, (0 + i) - 0));
            }
            assert forall|i: int| 0 <= i < 3 implies #[trigger] bit_at(s, 2 + i) == value_bit(
                kind as u64,
                i,
            ) by {
                assert(bit_at(s, 2 + i) == value_bit(kind as u64, (2 + i) - 2));
            }
            assert(bit_at(s, 5int + 0) == value_bit(compact as u64, 0int));
            assert(bit_at(s, 6int + 0) == value_bit(ascii as u64, 0int));
            assert(bit_at(s, 7int + 0) == value_bit(ready as u64, 0int));
            lemma_get_after_set(s, 0, 2, interned as u64);
            lemma_get_after_set(s, 2, 3, kind as u64);
            lemma_get_after_set(s, 5, 1, compact as u64);
            lemma_get_after_set(s, 6, 1, ascii as u64);
            lemma_get_after_set(s, 7, 1, ready as u64);
        }
        unit
    }

    pub fn interned(&self) -> (r: u32)
        requires
            self.wf(),
        ensures
            r == self.field(0, 2),
    {
        self.small_field(0, 2)
    }

    pub fn set_interned(&mut self, val: u32)
        requires
            old(self).wf(),
        ensures
            final(self).wf(),
            final(self).__bindgen_padding_0 == old(self).__bindgen_padding_0,
            final(self).field(0, 2) == low_bits(val as u64, 2),
            forall|j: int|
                2 <= j < 8 ==> #[trigger] bit_at(final(self)._bitfield_1@, j) == bit_at(
                    old(self)._bitfield_1@,
                    j,
                ),
    {
        self._bitfield_1.set(0, 2, val as u64);
        proof {
            let s = self._bitfield_1@;
            assert forall|i: int| 0 <= i < 2 implies #[trigger] bit_at(s, 0 + i) == value_bit(
                val as u64,
                i,
            ) by {
                assert(bit_at(s, 0 + i) == value_bit(val as u64, (0 + i) - 0));
            }
            lemma_get_after_set(s, 0, 2, val as u64);
        }
    }

    pub fn kind(&self) -> (r: u32)
        requires
            self.wf(),
        ensures
            r == self.field(2, 3),
    {
        self.small_field(2, 3)
    }

    pub fn set_kind(&mut self, val: u32)
        requires
            old(self).wf(),
        ensures
            final(self).wf(),
            final(self).__bindgen_padding_0 == old(self).__bindgen_padding_0,
            final(self).field(2, 3) == low_bits(val as u64, 3),
            forall|j: int|
                0 <= j < 8 && !(2 <= j < 5) ==> #[trigger] bit_at(final(self)._bitfield_1@, j)
                    == bit_at(old(self)._bitfield_1@, j),
    {
        self._bitfield_1.set(2, 3, val as u64);
        proof {
            let s = self._bitfield_1@;
            assert forall|i: int| 0 <= i < 3 implies #[trigger] bit_at(s, 2 + i) == value_bit(
                val as u64,
                i,
            ) by {
                assert(bit_at(s, 2 + i) == value_bit(val as u64, (2 + i) - 2));
            }
            lemma_get_after_set(s, 2, 3, val as u64);
        }
    }

    pub fn compact(&self) -> (r: u32)
        requires
            self.wf(),
        ensures
            r == self.field(5, 1),
    {
        self.small_field(5, 1)
    }

    pub fn set_compact(&mut self, val: u32)
        requires
            old(self).wf(),
        ensures
            final(self).wf(),
            final(self).__bindgen_padding_0 == old(self).__bindgen_padding_0,
            final(self).field(5, 1) == low_bits(val as u64, 1),
            forall|j: int|
                0 <= j < 8 && j != 5 ==> #[trigger] bit_at(final(self)._bitfield_1@, j) == bit_at(
                    old(self)._bitfield_1@,
                    j,
                ),
    {
        self._bitfield_1.set(5, 1, val as u64);
        proof {
            let s = self._bitfield_1@;
            assert(bit_at(s, 5int + 0) == value_bit(val as u64, 0int));
            lemma_get_after_set(s, 5, 1, val as u64);
        }
    }

    pub fn ascii(&self) -> (r: u32)
        requires
            self.wf(),
        ensures
            r == self.field(6, 1),
    {
        self.small_field(6, 1)
    }

    pub fn set_ascii(&mut self, val: u32)
        requires
            old(self).wf(),
        ensures
            final(self).wf(),
            final(self).__bindgen_padding_0 == old(self).__bindgen_padding_0,
            final(self).field(6, 1) == low_bits(val as u64, 1),
            forall|j: int|
                0 <= j < 8 && j != 6 ==> #[trigger] bit_at(final(self)._bitfield_1@, j) == bit_at(
                    old(self)._bitfield_1@,
                    j,
                ),
    {
        self._bitfield_1.set(6, 1, val as u64);
        proof {
            let s = self._bitfield_1@;
            assert(bit_at(s, 6int + 0) == value_bit(val as u64, 0int));
            lemma_get_after_set(s, 6, 1, val as u64);
        }
    }

    pub fn ready(&self) -> (r: u32)
        requires
            self.wf(),
        ensures
            r == self.field(7, 1),
    {
        self.small_field(7, 1)
    }

    pub fn set_ready(&mut self, val: u32)
        requires
            old(self).wf(),
        ensures
            final(self).wf(),
            final(self).__bindgen_padding_0 == old(self).__bindgen_padding_0,
            final(self).field(7, 1) == low_bits(val as u64, 1),
            forall|j: int|
                0 <= j < 7 ==> #[trigger] bit_at(final(self)._bitfield_1@, j) == bit_at(
                    old(self)._bitfield_1@,
                    j,
                ),
    {
        self._bitfield_1.set(7, 1, val as u64);
        proof {
            let s = self._bitfield_1@;
            assert(bit_at(s, 7int + 0) == value_bit(val as u64, 0int));
            lemma_get_after_set(s, 7, 1, val as u64);
        }
    }
}

impl Default for PyASCIIObject__bindgen_ty_1 {
    /// The header with every field zero.
    fn default() -> (r: Self)
        ensures
            r.wf(),
            r._bitfield_1@ == seq![0u8],
    {
        Self::from_state_byte(0)
    }
}

} // verus!
