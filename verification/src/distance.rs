//! Hit distances as ordered integer keys.

use vstd::arithmetic::power2::{lemma_pow2_pos, lemma_pow2_strictly_increases, lemma_pow2_unfold, pow2};
use vstd::prelude::*;

verus! {

/// The largest bit pattern of a positive number: that of positive infinity.
/// Above it lie the patterns that encode no number.
pub const MAX_BITS: u32 = 0x7F80_0000;

/// A distance along a ray, held as the bit pattern of a positive
/// single-precision number (IEEE 754 binary32). Among such patterns the
/// unsigned order of the bits is the order of the numbers, so the library
/// compares distances as integers and does no arithmetic on them.
#[derive(Clone, Copy, Debug, PartialEq, Eq, Structural, PartialOrd, Ord, Hash)]
pub struct Distance {
    pub bits: u32,
}

impl Distance {
    /// The pattern encodes a positive number or positive infinity: the sign
    /// bit is clear, and the pattern is neither zero nor one that encodes no
    /// number.
    pub open spec fn wf(self) -> bool {
        0 < self.bits <= MAX_BITS
    }

    /// The distance with the given bit pattern, if the pattern encodes a
    /// positive number.
    pub fn from_bits(bits: u32) -> (r: Option<Distance>)
        ensures
            r == if 0 < bits <= MAX_BITS {
                Some(Distance { bits })
            } else {
                None::<Distance>
            },
            r matches Some(d) ==> d.wf(),
    {
        if 0 < bits && bits <= MAX_BITS {
            Some(Distance { bits })
        } else {
            None
        }
    }

    /// The bit pattern.
    pub fn to_bits(self) -> (r: u32)
        ensures
            r == self.bits,
    {
        self.bits
    }
}

/// How many patterns share one exponent: two to the power 23.
pub const FRACTIONS: u32 = 0x80_0000;

impl Distance {
    /// The exponent field of the pattern.
    pub open spec fn exponent(self) -> nat {
        (self.bits / FRACTIONS) as nat
    }

    /// The fraction field of the pattern.
    pub open spec fn fraction(self) -> nat {
        (self.bits % FRACTIONS) as nat
    }

    /// The number that a well-formed pattern encodes, in units of two to the
    /// power -149, the smallest positive number that has a pattern. Positive
    /// infinity counts as the power of two above every number.
    pub open spec fn magnitude(self) -> nat {
        if self.exponent() == 0 {
            self.fraction()
        } else {
            ((FRACTIONS + self.fraction()) * pow2((self.exponent() - 1) as nat)) as nat
        }
    }

    /// A greater pattern encodes a greater number.
    proof fn lemma_magnitude_grows(a: Distance, b: Distance)
        requires
            a.bits < b.bits,
        ensures
            a.magnitude() < b.magnitude(),
    {
        let (ea, fa) = (a.exponent(), a.fraction());
        let (eb, fb) = (b.exponent(), b.fraction());
        assert(a.bits == ea * FRACTIONS + fa && b.bits == eb * FRACTIONS + fb);
        assert(ea <= eb) by (nonlinear_arith)
            requires
                ea * FRACTIONS + fa < eb * FRACTIONS + fb,
                fb < FRACTIONS,
                FRACTIONS > 0,
        ;
        if ea == eb {
            if ea > 0 {
                let p = pow2((ea - 1) as nat);
                lemma_pow2_pos((ea - 1) as nat);
                assert((FRACTIONS + fa) * p < (FRACTIONS + fb) * p) by (nonlinear_arith)
                    requires
                        fa < fb,
                        p > 0,
                ;
            }
        } else {
            let q = pow2((eb - 1) as nat);
            lemma_pow2_pos((eb - 1) as nat);
            assert(FRACTIONS * q <= (FRACTIONS + fb) * q) by (nonlinear_arith)
                requires
                    q > 0,
            ;
            if ea == 0 {
                assert(FRACTIONS <= FRACTIONS * q) by (nonlinear_arith)
                    requires
                        q > 0,
                ;
            } else {
                let p = pow2((ea - 1) as nat);
                lemma_pow2_pos((ea - 1) as nat);
                lemma_pow2_unfold(ea);
                if ea < eb - 1 {
                    lemma_pow2_strictly_increases(ea, (eb - 1) as nat);
                }
                assert((FRACTIONS + fa) * p < FRACTIONS * q) by (nonlinear_arith)
                    requires
                        fa < FRACTIONS,
                        p > 0,
                        2 * p <= q,
                ;
            }
        }
    }

    /// The order of the bit patterns is the order of the numbers that they
    /// encode: comparing two well-formed distances as integers compares them
    /// as numbers.
    pub proof fn lemma_order_is_numeric(a: Distance, b: Distance)
        requires
            a.wf(),
            b.wf(),
        ensures
            a.bits < b.bits <==> a.magnitude() < b.magnitude(),
            a.bits == b.bits <==> a.magnitude() == b.magnitude(),
    {
        if a.bits < b.bits {
            Self::lemma_magnitude_grows(a, b);
        }
        if b.bits < a.bits {
            Self::lemma_magnitude_grows(b, a);
        }
    }
}

} // verus!
