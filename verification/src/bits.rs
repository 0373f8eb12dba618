//! The deleted-flags tracker: a byte buffer read and written one bit at a
//! time, shadowing the raw bit-vector file. Flushing persists the bytes as
//! they stand; bits are only ever flipped from live to deleted.

use vstd::prelude::*;

verus! {

/// Bit `i` of a little-endian-within-byte packed bit vector.
pub open spec fn spec_bit(bytes: Seq<u8>, i: int) -> bool {
    (bytes[i / 8] >> ((i % 8) as u8)) & 1u8 == 1u8
}

/// How many of the bits are set.
pub open spec fn count_trues(s: Seq<bool>) -> nat
    decreases s.len(),
{
    if s.len() == 0 {
        0
    } else {
        count_trues(s.drop_last()) + if s.last() {
            1nat
        } else {
            0nat
        }
    }
}

/// Setting one bit raises the count by one exactly when the bit was clear.
pub proof fn lemma_count_trues_update(s: Seq<bool>, i: int)
    requires
        0 <= i < s.len(),
    ensures
        count_trues(s.update(i, true)) == count_trues(s) + if s[i] {
            0nat
        } else {
            1nat
        },
    decreases s.len(),
{
    let t = s.update(i, true);
    if i == s.len() - 1 {
        assert(t.drop_last() =~= s.drop_last());
    } else {
        assert(t.drop_last() =~= s.drop_last().update(i, true));
        lemma_count_trues_update(s.drop_last(), i);
    }
}

/// A buffer with no set bit counts zero.
pub proof fn lemma_count_trues_zero(s: Seq<bool>)
    requires
        forall|i: int| 0 <= i < s.len() ==> !s[i],
    ensures
        count_trues(s) == 0,
    decreases s.len(),
{
    if s.len() > 0 {
        lemma_count_trues_zero(s.drop_last());
    }
}

/// The count never exceeds the number of bits.
pub proof fn lemma_count_trues_le_len(s: Seq<bool>)
    ensures
        count_trues(s) <= s.len(),
    decreases s.len(),
{
    if s.len() > 0 {
        lemma_count_trues_le_len(s.drop_last());
    }
}

/// A buffered bit vector over a byte buffer, one flag per bit.
#[derive(Debug)]
pub struct BitBuffer {
    /// The backing byte buffer; bit `i` lives in byte `i / 8`.
    pub bytes: Vec<u8>,
}

impl BitBuffer {
    /// The flags, bit by bit.
    pub open spec fn view(&self) -> Seq<bool> {
        Seq::new(self.bytes@.len() * 8, |i: int| spec_bit(self.bytes@, i))
    }

    /// The backing bytes, as the flush operation persists them.
    pub open spec fn spec_bytes(&self) -> Seq<u8> {
        self.bytes@
    }

    /// The bit count stays within address range.
    pub open spec fn wf(&self) -> bool {
        8 * self.bytes@.len() <= usize::MAX
    }

    /// A buffer of `nbytes` bytes with every flag clear.
    pub fn zeroed(nbytes: usize) -> (r: BitBuffer)
        requires
            8 * nbytes <= usize::MAX,
        ensures
            r.wf(),
            r@.len() == 8 * nbytes,
            forall|i: int| 0 <= i < r@.len() ==> !r@[i],
            r.spec_bytes() == Seq::new(nbytes as nat, |i: int| 0u8),
    {
        let mut bytes: Vec<u8> = Vec::new();
        let mut i: usize = 0;
        while i < nbytes
            invariant
                i <= nbytes,
                bytes@.len() == i,
                forall|j: int| 0 <= j < i ==> bytes@[j] == 0u8,
            decreases nbytes - i,
        {
            bytes.push(0u8);
            i += 1;
        }
        assert(bytes@ =~= Seq::new(nbytes as nat, |i: int| 0u8));
        let r = BitBuffer { bytes };
        assert forall|i: int| 0 <= i < r@.len() implies !r@[i] by {
            let b = r.bytes@[i / 8];
            assert(b == 0u8);
            let sh = (i % 8) as u8;
            assert((0u8 >> sh) & 1u8 == 0u8) by (bit_vector);
        }
        r
    }

    /// Adopts an existing file image as the flag buffer.
    pub fn from_bytes(bytes: Vec<u8>) -> (r: BitBuffer)
        requires
            8 * bytes@.len() <= usize::MAX,
        ensures
            r.wf(),
            r.spec_bytes() == bytes@,
            r@ == Seq::new(bytes@.len() * 8, |i: int| spec_bit(bytes@, i)),
    {
        BitBuffer { bytes }
    }

    /// The bytes to persist.
    pub fn as_bytes(&self) -> (r: &Vec<u8>)
        ensures
            r@ == self.spec_bytes(),
    {
        &self.bytes
    }

    /// Number of flags held.
    pub fn len(&self) -> (r: usize)
        requires
            self.wf(),
        ensures
            r == self@.len(),
    {
        8 * self.bytes.len()
    }

    /// Reads flag `i`.
    pub fn get(&self, i: usize) -> (r: bool)
        requires
            i < self@.len(),
        ensures
            r == self@[i as int],
    {
        let b = self.bytes[i / 8];
        let sh = (i % 8) as u8;
        (b >> sh) & 1u8 == 1u8
    }

    /// Sets flag `i`; never clears one.
    pub fn set(&mut self, i: usize)
        requires
            old(self).wf(),
            i < old(self)@.len(),
        ensures
            final(self).wf(),
            final(self)@ == old(self)@.update(i as int, true),
            final(self).spec_bytes().len() == old(self).spec_bytes().len(),
    {
        let idx = i / 8;
        let sh = (i % 8) as u8;
        let b = self.bytes[idx];
        let nb = b | (1u8 << sh);
        self.bytes.set(idx, nb);
        proof {
            assert((b | (1u8 << sh)) >> sh & 1u8 == 1u8) by (bit_vector)
                requires
                    sh < 8,
            ;
            assert(forall|jh: u8|
                jh < 8 && sh < 8 && jh != sh ==> ((b | (1u8 << sh)) >> jh) & 1u8 == (b >> jh)
                    & 1u8) by (bit_vector);
            assert forall|j: int| 0 <= j < self@.len() implies self@[j] == old(self)@.update(
                i as int,
                true,
            )[j] by {
                if j / 8 == i as int / 8 {
                    if j == i {
                        assert((j % 8) as u8 == sh);
                    } else {
                        assert(j % 8 != i as int % 8);
                    }
                }
            }
            assert(self@ =~= old(self)@.update(i as int, true));
        }
    }

    /// Counts the set flags by scanning the whole buffer.
    pub fn count_ones(&self) -> (r: usize)
        requires
            self.wf(),
        ensures
            r == count_trues(self@),
    {
        let n = 8 * self.bytes.len();
        let mut c: usize = 0;
        let mut i: usize = 0;
        assert(self@.take(0) =~= Seq::<bool>::empty());
        while i < n
            invariant
                i <= n,
                n == self@.len(),
                self.wf(),
                c <= i,
                c == count_trues(self@.take(i as int)),
            decreases n - i,
        {
            proof {
                assert(self@.take(i + 1).drop_last() =~= self@.take(i as int));
                assert(self@.take(i + 1).last() == self@[i as int]);
            }
            if self.get(i) {
                c += 1;
            }
            i += 1;
        }
        assert(self@.take(n as int) =~= self@);
        c
    }
}

} // verus!
