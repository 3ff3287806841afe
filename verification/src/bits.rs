use vstd::prelude::*;
use bitvec::array::BitArray;
use bitvec::order::Lsb0;

verus! {

/// Number of bits that a [`Bits`] value holds.
pub const BITS_LEN: usize = 64;

/// A fixed array of [`BITS_LEN`] bits, kept in a `bitvec` bit-array.
///
/// The array is opaque to the verifier: what it holds is known only through
/// [`bits_of`] and the contracts of the methods below, which are believed,
/// not proved.
#[verifier::external_body]
#[derive(Debug)]
pub struct Bits {
    raw: BitArray<[u32; 2], Lsb0>,
}

/// The bits that a [`Bits`] value holds, lowest index first.
pub uninterp spec fn bits_of(b: Bits) -> Seq<bool>;

/// `s` with the bits from `start` up to `end` moved `by` places toward higher
/// indices; the `by` places at the low end of that range are cleared.
pub open spec fn moved_toward_end(s: Seq<bool>, start: int, end: int, by: int) -> Seq<bool> {
    Seq::new(
        s.len(),
        |i: int|
            if start <= i < end {
                if i - by >= start {
                    s[i - by]
                } else {
                    false
                }
            } else {
                s[i]
            },
    )
}

/// `s` with the bits from `start` up to `end` moved `by` places toward lower
/// indices; the `by` places at the high end of that range are cleared.
pub open spec fn moved_toward_start(s: Seq<bool>, start: int, end: int, by: int) -> Seq<bool> {
    Seq::new(
        s.len(),
        |i: int|
            if start <= i < end {
                if i + by < end {
                    s[i + by]
                } else {
                    false
                }
            } else {
                s[i]
            },
    )
}

impl View for Bits {
    type V = Seq<bool>;

    open spec fn view(&self) -> Seq<bool> {
        bits_of(*self)
    }
}

impl Clone for Bits {
    /// `BitArray::clone`: the copy holds the same bits.
    #[verifier::external_body]
    fn clone(&self) -> (r: Bits)
        ensures
            bits_of(r) == bits_of(*self),
    {
        Bits { raw: self.raw.clone() }
    }
}

impl Copy for Bits {

}

impl Bits {
    /// `BitArray::ZERO`: an array of [`BITS_LEN`] bits, every one clear.
    #[verifier::external_body]
    pub(crate) fn zero() -> (r: Bits)
        ensures
            bits_of(r) == Seq::new(BITS_LEN as nat, |i: int| false),
    {
        Bits { raw: BitArray::ZERO }
    }

    /// Indexing a `BitArray` by a position: the bit at `index`. The outside
    /// call panics where `index` is past the end.
    #[verifier::external_body]
    pub(crate) fn get(&self, index: usize) -> (r: bool)
        requires
            index < bits_of(*self).len(),
        ensures
            r == bits_of(*self)[index as int],
    {
        self.raw[index]
    }

    /// `BitSlice::set`: writes `value` at `index` and leaves every other bit
    /// as it was. The outside call panics where `index` is past the end.
    #[verifier::external_body]
    pub(crate) fn set(&mut self, index: usize, value: bool)
        requires
            index < bits_of(*old(self)).len(),
        ensures
            bits_of(*final(self)) == bits_of(*old(self)).update(index as int, value),
    {
        self.raw.set(index, value)
    }

    /// `BitSlice::shift_end` on the bits from `start` up to `end`: they move
    /// `by` places away from index 0, the vacated places are cleared, and the
    /// bits outside the range stay. The outside call panics where the range
    /// is not within the array or `by` is more than its length.
    #[verifier::external_body]
    pub(crate) fn shift_end(&mut self, start: usize, end: usize, by: usize)
        requires
            start <= end <= bits_of(*old(self)).len(),
            by <= end - start,
        ensures
            bits_of(*final(self)) == moved_toward_end(
                bits_of(*old(self)),
                start as int,
                end as int,
                by as int,
            ),
    {
        self.raw[start..end].shift_end(by)
    }

    /// `BitSlice::shift_start` on the bits from `start` up to `end`: they move
    /// `by` places toward index 0, the vacated places are cleared, and the
    /// bits outside the range stay. The outside call panics where the range
    /// is not within the array or `by` is more than its length.
    #[verifier::external_body]
    pub(crate) fn shift_start(&mut self, start: usize, end: usize, by: usize)
        requires
            start <= end <= bits_of(*old(self)).len(),
            by <= end - start,
        ensures
            bits_of(*final(self)) == moved_toward_start(
                bits_of(*old(self)),
                start as int,
                end as int,
                by as int,
            ),
    {
        self.raw[start..end].shift_start(by)
    }
}

} // verus!
