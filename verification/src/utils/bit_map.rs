//! A set of sudoku digits packed into one machine word.

use vstd::prelude::*;

verus! {

/// The bits that stand for the digits `1..=9`: bit `d` stands for digit `d`.
pub const DIGIT_MASK: u16 = 0x03FE;

/// Whether `d` is a sudoku digit.
pub open spec fn is_digit(d: u8) -> bool {
    1 <= d <= 9
}

/// The set of all nine digits.
pub open spec fn all_digits() -> Set<u8> {
    Set::new(|d: u8| is_digit(d))
}

/// Whether bit `d` of `bits` is set.
pub open spec fn has_bit(bits: u16, d: u16) -> bool {
    (bits >> d) & 1u16 == 1u16
}

proof fn lemma_bit_insert(bits: u16, d: u16, e: u16)
    by (bit_vector)
    requires
        1 <= d <= 9,
        1 <= e <= 9,
    ensures
        has_bit(bits | (1u16 << d), e) <==> (e == d || has_bit(bits, e)),
        bits & !0x03FEu16 == 0 ==> (bits | (1u16 << d)) & !0x03FEu16 == 0,
{
}

proof fn lemma_bit_remove(bits: u16, d: u16, e: u16)
    by (bit_vector)
    requires
        1 <= d <= 9,
        1 <= e <= 9,
    ensures
        has_bit(bits & !(1u16 << d), e) <==> (e != d && has_bit(bits, e)),
        bits & !0x03FEu16 == 0 ==> (bits & !(1u16 << d)) & !0x03FEu16 == 0,
{
}

proof fn lemma_bit_union(a: u16, b: u16, e: u16)
    by (bit_vector)
    requires
        1 <= e <= 9,
    ensures
        has_bit(a | b, e) <==> (has_bit(a, e) || has_bit(b, e)),
        a & !0x03FEu16 == 0 && b & !0x03FEu16 == 0 ==> (a | b) & !0x03FEu16 == 0,
{
}

proof fn lemma_bit_intersect(a: u16, b: u16, e: u16)
    by (bit_vector)
    requires
        1 <= e <= 9,
    ensures
        has_bit(a & b, e) <==> (has_bit(a, e) && has_bit(b, e)),
        a & !0x03FEu16 == 0 ==> (a & b) & !0x03FEu16 == 0,
{
}

proof fn lemma_bit_complement(a: u16, e: u16)
    by (bit_vector)
    requires
        1 <= e <= 9,
    ensures
        has_bit(!a & 0x03FEu16, e) <==> !has_bit(a, e),
        (!a & 0x03FEu16) & !0x03FEu16 == 0,
        has_bit(0x03FEu16, e),
        !has_bit(0u16, e),
{
}

proof fn lemma_bit_zero(a: u16)
    by (bit_vector)
    requires
        a & !0x03FEu16 == 0,
    ensures
        a != 0 ==> has_bit(a, 1) || has_bit(a, 2) || has_bit(a, 3) || has_bit(a, 4) || has_bit(a, 5)
            || has_bit(a, 6) || has_bit(a, 7) || has_bit(a, 8) || has_bit(a, 9),
{
}

/// A set of digits in `1..=9`, one bit per digit.
#[derive(Clone, Copy, Debug, PartialEq, Eq)]
pub struct BitMap {
    bits: u16,
}

impl View for BitMap {
    type V = Set<u8>;

    closed spec fn view(&self) -> Set<u8> {
        Set::new(|d: u8| is_digit(d) && has_bit(self.bits, d as u16))
    }
}

impl BitMap {
    /// No bit is set but those of the nine digits.
    #[verifier::type_invariant]
    pub closed spec fn wf(self) -> bool {
        self.bits & !DIGIT_MASK == 0
    }

    /// A digit set holds digits only.
    pub proof fn lemma_view_digits(self)
        ensures
            self@.subset_of(all_digits()),
    {
    }

    /// The empty set.
    pub fn empty() -> (s: Self)
        ensures
            s@ == Set::<u8>::empty(),
        no_unwind
    {
        proof {
            assert(0u16 & !0x03FEu16 == 0) by (bit_vector);
            assert forall|e: u8| is_digit(e) implies !has_bit(0u16, e as u16) by {
                lemma_bit_complement(0u16, e as u16);
            }
        }
        BitMap { bits: 0 }
    }

    /// The full universe: all nine digits.
    pub fn all() -> (s: Self)
        ensures
            s@ == all_digits(),
        no_unwind
    {
        proof {
            assert(0x03FEu16 & !0x03FEu16 == 0) by (bit_vector);
            assert forall|e: u8| is_digit(e) implies has_bit(0x03FEu16, e as u16) by {
                lemma_bit_complement(0u16, e as u16);
            }
        }
        BitMap { bits: DIGIT_MASK }
    }

    /// Whether `d` is in the set. No value outside `1..=9` ever is.
    pub fn contains(&self, d: u8) -> (r: bool)
        ensures
            r == self@.contains(d),
        no_unwind
    {
        1 <= d && d <= 9 && (self.bits >> (d as u16)) & 1 == 1
    }

    /// Whether the set holds no digit.
    pub fn is_empty(&self) -> (r: bool)
        ensures
            r == (self@ == Set::<u8>::empty()),
        no_unwind
    {
        proof {
            use_type_invariant(self);
            if self.bits != 0 {
                lemma_bit_zero(self.bits);
                let b = self.bits;
                let e: u8 = if has_bit(b, 1) {
                    1
                } else if has_bit(b, 2) {
                    2
                } else if has_bit(b, 3) {
                    3
                } else if has_bit(b, 4) {
                    4
                } else if has_bit(b, 5) {
                    5
                } else if has_bit(b, 6) {
                    6
                } else if has_bit(b, 7) {
                    7
                } else if has_bit(b, 8) {
                    8
                } else {
                    9
                };
                assert(self@.contains(e));
            } else {
                assert forall|e: u8| is_digit(e) implies !has_bit(0u16, e as u16) by {
                    lemma_bit_complement(0u16, e as u16);
                }
                assert(self@ =~= Set::<u8>::empty());
            }
        }
        self.bits == 0
    }

    /// Adds the digit `d`.
    pub fn insert(&mut self, d: u8)
        requires
            is_digit(d),
        ensures
            final(self)@ == old(self)@.insert(d),
        no_unwind
    {
        proof {
            use_type_invariant(&*self);
            assert forall|e: u8| is_digit(e) implies (has_bit(
                self.bits | (1u16 << (d as u16)),
                e as u16,
            ) <==> (e == d || has_bit(self.bits, e as u16))) by {
                lemma_bit_insert(self.bits, d as u16, e as u16);
            }
            lemma_bit_insert(self.bits, d as u16, d as u16);
        }
        self.bits = self.bits | (1u16 << (d as u16));
    }

    /// Takes `d` out of the set. A value that is not in the set, a digit or
    /// not, leaves the set as it is.
    pub fn remove(&mut self, d: u8)
        ensures
            final(self)@ == old(self)@.remove(d),
        no_unwind
    {
        if 1 <= d && d <= 9 {
            proof {
                use_type_invariant(&*self);
                assert forall|e: u8| is_digit(e) implies (has_bit(
                    self.bits & !(1u16 << (d as u16)),
                    e as u16,
                ) <==> (e != d && has_bit(self.bits, e as u16))) by {
                    lemma_bit_remove(self.bits, d as u16, e as u16);
                }
                lemma_bit_remove(self.bits, d as u16, d as u16);
            }
            self.bits = self.bits & !(1u16 << (d as u16));
        }
    }

    /// The digits that are in `self` or in `other`.
    pub fn union(&self, other: &BitMap) -> (s: Self)
        ensures
            s@ == self@.union(other@),
        no_unwind
    {
        proof {
            use_type_invariant(self);
            use_type_invariant(other);
            assert forall|e: u8| is_digit(e) implies (has_bit(self.bits | other.bits, e as u16) <==> (
            has_bit(self.bits, e as u16) || has_bit(other.bits, e as u16))) by {
                lemma_bit_union(self.bits, other.bits, e as u16);
            }
            lemma_bit_union(self.bits, other.bits, 1);
        }
        BitMap { bits: self.bits | other.bits }
    }

    /// The digits that are in both `self` and `other`.
    pub fn intersect(&self, other: &BitMap) -> (s: Self)
        ensures
            s@ == self@.intersect(other@),
        no_unwind
    {
        proof {
            use_type_invariant(self);
            assert forall|e: u8| is_digit(e) implies (has_bit(self.bits & other.bits, e as u16) <==> (
            has_bit(self.bits, e as u16) && has_bit(other.bits, e as u16))) by {
                lemma_bit_intersect(self.bits, other.bits, e as u16);
            }
            lemma_bit_intersect(self.bits, other.bits, 1);
        }
        BitMap { bits: self.bits & other.bits }
    }

    /// The digits that are not in `self`.
    pub fn complement(&self) -> (s: Self)
        ensures
            s@ == all_digits().difference(self@),
        no_unwind
    {
        proof {
            assert forall|e: u8| is_digit(e) implies (has_bit(!self.bits & 0x03FEu16, e as u16)
                <==> !has_bit(self.bits, e as u16)) by {
                lemma_bit_complement(self.bits, e as u16);
            }
            lemma_bit_complement(self.bits, 1);
        }
        BitMap { bits: !self.bits & DIGIT_MASK }
    }
}

} // verus!
