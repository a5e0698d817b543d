//! Measured speeds in Mbit/s.
//!
//! A speed is an IEEE 754 double. It is held here by its bit pattern, so that it can
//! be compared and ranked without loss; the arithmetic on it is left to the caller.

use vstd::prelude::*;

verus! {

/// The bit that holds the sign.
pub const SIGN: u64 = 0x8000_0000_0000_0000;

/// The bit pattern of positive infinity.
pub const INFINITY: u64 = 0x7ff0_0000_0000_0000;

/// The number of values that the fraction of a double can take.
pub const FRACTIONS: u64 = 0x10_0000_0000_0000;

/// A speed in Mbit/s, held as the bit pattern of a double.
#[derive(Clone, Copy, Debug, PartialEq, Eq, Structural)]
pub struct Rate {
    pub bits: u64,
}

/// The bits other than the sign.
pub open spec fn magnitude(bits: u64) -> nat {
    if bits >= SIGN {
        (bits - SIGN) as nat
    } else {
        bits as nat
    }
}

/// What a magnitude stands for, in units of the smallest positive double. Infinity
/// stands one step above the largest finite double.
pub open spec fn scaled(magnitude: nat) -> nat {
    let exponent = magnitude / (FRACTIONS as nat);
    let fraction = magnitude % (FRACTIONS as nat);
    if exponent == 0 {
        fraction
    } else {
        (FRACTIONS + fraction) as nat * vstd::arithmetic::power2::pow2((exponent - 1) as nat)
    }
}

impl Rate {
    /// Whether this is not a number.
    pub open spec fn is_nan(self) -> bool {
        magnitude(self.bits) > INFINITY
    }

    /// The number that this stands for, in units of the smallest positive double.
    pub open spec fn value(self) -> int {
        if self.bits >= SIGN {
            -(scaled(magnitude(self.bits)) as int)
        } else {
            scaled(magnitude(self.bits)) as int
        }
    }

    /// `self >= other`, as doubles compare: false where either is not a number.
    pub open spec fn reaches(self, other: Rate) -> bool {
        &&& !self.is_nan()
        &&& !other.is_nan()
        &&& self.value() >= other.value()
    }

    /// `self > other`, as doubles compare: false where either is not a number.
    pub open spec fn exceeds(self, other: Rate) -> bool {
        &&& !self.is_nan()
        &&& !other.is_nan()
        &&& self.value() > other.value()
    }

    /// The place of this among all doubles in their total order: negative values by
    /// falling magnitude, then positive values by rising magnitude. Negative zero stands
    /// below positive zero, and what is not a number stands at the end on the side of
    /// its sign.
    pub open spec fn place(self) -> int {
        if self.bits >= SIGN {
            -1 - magnitude(self.bits)
        } else {
            magnitude(self.bits) as int
        }
    }

    /// The speed zero.
    pub fn zero() -> (r: Rate)
        ensures
            r == (Rate { bits: 0 }),
            r.value() == 0,
    {
        Rate { bits: 0 }
    }

    /// Whether this speed is at least `other`.
    pub fn at_least(self, other: Rate) -> (r: bool)
        ensures
            r == self.reaches(other),
    {
        let a: u64 = if self.bits >= SIGN {
            self.bits - SIGN
        } else {
            self.bits
        };
        let b: u64 = if other.bits >= SIGN {
            other.bits - SIGN
        } else {
            other.bits
        };
        if a > INFINITY || b > INFINITY {
            return false;
        }
        proof {
            lemma_scaled_order(a as nat, b as nat);
            lemma_scaled_order(b as nat, a as nat);
            lemma_scaled_order(0, a as nat);
            lemma_scaled_order(0, b as nat);
        }
        if self.bits >= SIGN {
            if other.bits >= SIGN {
                a <= b
            } else {
                a == 0 && b == 0
            }
        } else if other.bits >= SIGN {
            true
        } else {
            a >= b
        }
    }

    /// Whether this speed is more than `other`.
    pub fn more_than(self, other: Rate) -> (r: bool)
        ensures
            r == self.exceeds(other),
    {
        self.at_least(other) && !other.at_least(self)
    }

    /// Whether this stands above `other` in the total order of doubles.
    pub fn above(self, other: Rate) -> (r: bool)
        ensures
            r == (self.place() > other.place()),
    {
        if self.bits >= SIGN {
            other.bits >= SIGN && self.bits < other.bits
        } else {
            other.bits >= SIGN || self.bits > other.bits
        }
    }
}

/// The total order ranks by speed: of two numbers the smaller never stands above, and
/// one that stands above is never smaller.
pub proof fn lemma_place_follows_value(a: Rate, b: Rate)
    requires
        !a.is_nan(),
        !b.is_nan(),
    ensures
        a.value() < b.value() ==> a.place() < b.place(),
        a.place() < b.place() ==> a.value() <= b.value(),
{
    let (m, n) = (magnitude(a.bits), magnitude(b.bits));
    lemma_scaled_order(m, n);
    lemma_scaled_order(n, m);
}

/// A magnitude below another stands for a smaller number.
proof fn lemma_scaled_order(a: nat, b: nat)
    ensures
        a < b ==> scaled(a) < scaled(b),
        scaled(0) == 0,
{
    if a < b {
        let f = FRACTIONS as nat;
        let (ea, fa) = (a / f, a % f);
        let (eb, fb) = (b / f, b % f);
        assert(a == ea * f + fa && b == eb * f + fb) by {
            vstd::arithmetic::div_mod::lemma_fundamental_div_mod(a as int, f as int);
            vstd::arithmetic::div_mod::lemma_fundamental_div_mod(b as int, f as int);
        }
        assert(ea <= eb) by {
            vstd::arithmetic::div_mod::lemma_div_is_ordered(a as int, b as int, f as int);
        }
        if ea == eb {
            if ea > 0 {
                let p = vstd::arithmetic::power2::pow2((ea - 1) as nat);
                vstd::arithmetic::power2::lemma_pow2_pos((ea - 1) as nat);
                assert((f + fa) * p < (f + fb) * p) by (nonlinear_arith)
                    requires
                        p > 0,
                        fa < fb,
                ;
            }
        } else {
            let q = vstd::arithmetic::power2::pow2((eb - 1) as nat);
            vstd::arithmetic::power2::lemma_pow2_pos((eb - 1) as nat);
            assert(f <= (f + fb) * q) by (nonlinear_arith)
                requires
                    q > 0,
                    fb >= 0,
                    f >= 0,
            ;
            if ea > 0 {
                let p = vstd::arithmetic::power2::pow2((ea - 1) as nat);
                let k = (eb - ea) as nat;
                vstd::arithmetic::power2::lemma_pow2_adds((ea - 1) as nat, k);
                vstd::arithmetic::power2::lemma_pow2_pos((ea - 1) as nat);
                if k > 1 {
                    vstd::arithmetic::power2::lemma_pow2_strictly_increases(1, k);
                }
                vstd::arithmetic::power2::lemma2_to64();
                assert(vstd::arithmetic::power2::pow2(k) >= 2);
                let r = vstd::arithmetic::power2::pow2(k);
                assert((f + fa) * p < (f + fb) * q) by (nonlinear_arith)
                    requires
                        q == p * r,
                        r >= 2,
                        p > 0,
                        fa < f,
                        fb >= 0,
                ;
            }
        }
    }
}

/// How doubles compare, bit by bit. What is not a number compares with nothing. Of two that
/// have no sign the one with the higher bits is the higher, of two that have one the one with
/// the lower bits; one without a sign is above one with a sign, but for the two zeros, which
/// are equal.
pub proof fn lemma_order_of_bits(a: Rate, b: Rate)
    ensures
        a.is_nan() <==> 0x7ff0_0000_0000_0000 < a.bits < 0x8000_0000_0000_0000 || a.bits
            > 0xfff0_0000_0000_0000,
        a.is_nan() || b.is_nan() ==> !a.reaches(b) && !a.exceeds(b),
        !a.is_nan() && !b.is_nan() ==> {
            let zeros = (a.bits == 0 || a.bits == 0x8000_0000_0000_0000) && (b.bits == 0 || b.bits
                == 0x8000_0000_0000_0000);
            let (plus_a, plus_b) = (
                a.bits < 0x8000_0000_0000_0000,
                b.bits < 0x8000_0000_0000_0000,
            );
            &&& zeros ==> a.reaches(b) && !a.exceeds(b)
            &&& !zeros && plus_a && plus_b ==> (a.reaches(b) <==> a.bits >= b.bits) && (a.exceeds(b)
                <==> a.bits > b.bits)
            &&& !zeros && !plus_a && !plus_b ==> (a.reaches(b) <==> a.bits <= b.bits) && (
            a.exceeds(b) <==> a.bits < b.bits)
            &&& !zeros && plus_a && !plus_b ==> a.reaches(b) && a.exceeds(b)
            &&& !zeros && !plus_a && plus_b ==> !a.reaches(b) && !a.exceeds(b)
        },
{
    let (m, n) = (magnitude(a.bits), magnitude(b.bits));
    lemma_scaled_order(m, n);
    lemma_scaled_order(n, m);
    lemma_scaled_order(0, m);
    lemma_scaled_order(0, n);
}

/// The total order of doubles, bit by bit: all with a sign stand below all without; of two
/// without a sign the one with the higher bits stands above, of two with a sign the one with
/// the lower bits.
pub proof fn lemma_total_order_of_bits(a: Rate, b: Rate)
    ensures
        a.bits < 0x8000_0000_0000_0000 && b.bits >= 0x8000_0000_0000_0000 ==> a.place()
            > b.place(),
        a.bits < 0x8000_0000_0000_0000 && b.bits < 0x8000_0000_0000_0000 ==> (a.place() > b.place()
            <==> a.bits > b.bits),
        a.bits >= 0x8000_0000_0000_0000 && b.bits >= 0x8000_0000_0000_0000 ==> (a.place()
            > b.place() <==> a.bits < b.bits),
        a.place() == b.place() <==> a.bits == b.bits,
{
}

/// What bits stand for: zero for none, and from each bit pattern to the next the step of its
/// binade, which doubles from each binade to the next and is one unit in the two lowest. The
/// sign turns the number round.
pub proof fn lemma_value_of_bits(bits: u64)
    requires
        bits < 0x7fff_ffff_ffff_ffff,
    ensures
        (Rate { bits: 0 }).value() == 0,
        (Rate { bits: (bits + 1) as u64 }).value() == (Rate { bits }).value()
            + vstd::arithmetic::power2::pow2(
            if bits / 0x10_0000_0000_0000 == 0 {
                0
            } else {
                (bits / 0x10_0000_0000_0000 - 1) as nat
            },
        ),
        (Rate { bits: (bits + 0x8000_0000_0000_0000) as u64 }).value() == -(Rate { bits }).value(),
{
    let f: nat = 0x10_0000_0000_0000;
    let m = bits as nat;
    let (e, r) = (m / f, m % f);
    assert(scaled(0) == 0);
    vstd::arithmetic::power2::lemma2_to64();
    let step = vstd::arithmetic::power2::pow2(
        if e == 0 {
            0
        } else {
            (e - 1) as nat
        },
    );
    if r + 1 < f {
        assert((m + 1) / f == e && (m + 1) % f == r + 1);
        if e > 0 {
            assert(((f + (r + 1)) as nat) * step == ((f + r) as nat) * step + step)
                by (nonlinear_arith);
        }
    } else {
        assert((m + 1) / f == e + 1 && (m + 1) % f == 0);
        let p = vstd::arithmetic::power2::pow2(e);
        if e == 0 {
            assert(scaled(m + 1) == f * 1);
        } else {
            vstd::arithmetic::power2::lemma_pow2_unfold(e);
            assert(f * p == ((f + r) as nat) * step + step) by (nonlinear_arith)
                requires
                    p == 2 * step,
                    r == f - 1,
                    f > 0,
            ;
        }
    }
}

} // verus!
