//! Doubles as bit patterns: the fields of a pattern and the conversions
//! between doubles and 64-bit integers, in integer arithmetic.
use vstd::prelude::*;
use vstd::arithmetic::div_mod::{lemma_div_multiples_vanish, lemma_fundamental_div_mod_converse};
use vstd::arithmetic::power2::{lemma2_to64, lemma2_to64_rest, lemma_pow2_adds, lemma_pow2_pos, lemma_pow2_strictly_increases, lemma_pow2_unfold, pow2};
use crate::value::Float;

verus! {

/// Two to the 52: the weight of the hidden bit of a significand.
pub const HIDDEN: u64 = 4503599627370496;

/// Two to the 63: the weight of the sign bit of a pattern.
pub const SIGN: u64 = 9223372036854775808;

impl Float {
    /// Whether the sign bit is set.
    pub open spec fn negative(self) -> bool {
        self.bits >= SIGN
    }

    /// The biased exponent, from 0 to 2047.
    pub open spec fn exponent(self) -> int {
        (self.bits as int / HIDDEN as int) % 2048
    }

    /// The 52 bits below the exponent.
    pub open spec fn fraction(self) -> int {
        self.bits as int % HIDDEN as int
    }

    /// Whether the pattern is one of the two zeros.
    pub open spec fn is_zero(self) -> bool {
        self.bits == 0 || self.bits == SIGN
    }

    /// The integer that the number becomes when its fractional part is cut
    /// off: 0 for a pattern that is no number, the nearest end of the 64-bit
    /// range for a number beyond it.
    pub open spec fn truncated(self) -> int {
        let limit: int = if self.negative() {
            i64::MIN as int
        } else {
            i64::MAX as int
        };
        if self.exponent() == 2047 {
            if self.fraction() != 0 {
                0
            } else {
                limit
            }
        } else if self.exponent() < 1023 {
            0
        } else if self.exponent() >= 1086 {
            limit
        } else {
            let significand = self.fraction() + HIDDEN as int;
            let magnitude: int = if self.exponent() >= 1075 {
                significand * pow2((self.exponent() - 1075) as nat)
            } else {
                significand / (pow2((1075 - self.exponent()) as nat) as int)
            };
            if self.negative() {
                -magnitude
            } else {
                magnitude
            }
        }
    }

    /// Whether the number is a zero, of either sign.
    pub fn zero(&self) -> (res: bool)
        ensures
            res == self.is_zero(),
    {
        self.bits == 0 || self.bits == SIGN
    }

    /// The number with its fractional part cut off, as a 64-bit integer.
    pub fn truncate(&self) -> (res: i64)
        ensures
            res as int == self.truncated(),
    {
        let negative = self.bits >= SIGN;
        let exponent: u64 = (self.bits / HIDDEN) % 2048;
        let fraction: u64 = self.bits % HIDDEN;
        let limit: i64 = if negative {
            i64::MIN
        } else {
            i64::MAX
        };
        if exponent == 2047 {
            if fraction != 0 {
                0
            } else {
                limit
            }
        } else if exponent < 1023 {
            0
        } else if exponent >= 1086 {
            limit
        } else {
            let significand: u64 = fraction + HIDDEN;
            let magnitude: u64 = if exponent >= 1075 {
                let scale = power_of_two(exponent - 1075);
                proof {
                    lemma2_to64();
                    if exponent - 1075 < 10 {
                        lemma_pow2_strictly_increases((exponent - 1075) as nat, 10);
                    }
                    assert(significand * scale <= 9007199254740991 * 1024) by (nonlinear_arith)
                        requires
                            significand <= 9007199254740991,
                            scale <= 1024,
                    ;
                }
                significand * scale
            } else {
                let scale = power_of_two(1075 - exponent);
                significand / scale
            };
            if negative {
                -(magnitude as i64)
            } else {
                magnitude as i64
            }
        }
    }
}

/// The position of the highest set bit of a positive number.
pub open spec fn top_bit(n: nat) -> nat
    decreases n,
{
    if n < 2 {
        0
    } else {
        1 + top_bit(n / 2)
    }
}

/// `n / d` rounded to the nearest integer, a tie going to the even one.
pub open spec fn rounded_quotient(n: int, d: int) -> int {
    let q = n / d;
    let r = n % d;
    if 2 * r > d || (2 * r == d && q % 2 == 1) {
        q + 1
    } else {
        q
    }
}

/// The bit pattern of the double nearest to an integer, a tie going to the
/// double whose significand is even.
pub open spec fn nearest_bits(i: int) -> int {
    if i == 0 {
        0
    } else {
        let magnitude: nat = if i < 0 {
            (-i) as nat
        } else {
            i as nat
        };
        let top = top_bit(magnitude);
        let significand: int = if top <= 52 {
            (magnitude * pow2((52 - top) as nat)) as int
        } else {
            rounded_quotient(magnitude as int, pow2((top - 52) as nat) as int)
        };
        (if i < 0 {
            SIGN as int
        } else {
            0
        }) + (1023 + top) * HIDDEN + (significand - HIDDEN)
    }
}

/// A positive number lies between two to its top bit and twice that.
pub proof fn lemma_top_bit_bounds(n: nat)
    requires
        n > 0,
    ensures
        pow2(top_bit(n)) <= n < 2 * pow2(top_bit(n)),
    decreases n,
{
    lemma2_to64();
    if n >= 2 {
        lemma_top_bit_bounds(n / 2);
        lemma_pow2_unfold(top_bit(n));
    }
}

/// An integer below two to the 53 in magnitude is held exactly by the double
/// nearest to it: cutting that double off gives the integer back.
pub proof fn lemma_exact_round_trip(i: int)
    requires
        -9007199254740992 < i < 9007199254740992,
    ensures
        0 <= nearest_bits(i) <= u64::MAX,
        (Float { bits: nearest_bits(i) as u64 }).truncated() == i,
{
    lemma2_to64();
    lemma2_to64_rest();
    if i != 0 {
        let magnitude: nat = if i < 0 {
            (-i) as nat
        } else {
            i as nat
        };
        let top = top_bit(magnitude);
        lemma_top_bit_bounds(magnitude);
        if top >= 53 {
            if top > 53 {
                lemma_pow2_strictly_increases(53, top);
            }
            assert(false);
        }
        let scale = pow2((52 - top) as nat);
        lemma_pow2_adds(top, (52 - top) as nat);
        lemma_pow2_pos((52 - top) as nat);
        let significand: int = (magnitude * scale) as int;
        assert(HIDDEN <= significand < 2 * HIDDEN) by (nonlinear_arith)
            requires
                pow2(top) <= magnitude < 2 * pow2(top),
                pow2(top) * scale == HIDDEN,
                scale > 0,
                significand == magnitude * scale,
        ;
        let sign: int = if i < 0 {
            SIGN as int
        } else {
            0
        };
        let bits = nearest_bits(i);
        let high: int = (if i < 0 {
            2048int
        } else {
            0int
        }) + 1023 + top;
        assert(bits == sign + (1023 + top) * HIDDEN + (significand - HIDDEN));
        assert(bits == high * HIDDEN + (significand - HIDDEN)) by (nonlinear_arith)
            requires
                bits == sign + (1023 + top) * HIDDEN + (significand - HIDDEN),
                sign == (if i < 0 {
                    2048int
                } else {
                    0int
                }) * HIDDEN,
                high == (if i < 0 {
                    2048int
                } else {
                    0int
                }) + 1023 + top,
        ;
        lemma_fundamental_div_mod_converse(bits, HIDDEN as int, high, significand - HIDDEN);
        assert((1023 + top) * HIDDEN <= 1075 * HIDDEN) by (nonlinear_arith)
            requires
                top <= 52,
        ;
        let f = Float { bits: bits as u64 };
        assert(f.exponent() == 1023 + top);
        assert(f.fraction() == significand - HIDDEN);
        assert(f.negative() == (i < 0));
        if top < 52 {
            lemma_div_multiples_vanish(magnitude as int, scale as int);
            assert(significand == scale * magnitude) by (nonlinear_arith)
                requires
                    significand == magnitude * scale,
            ;
            assert(pow2((1075 - f.exponent()) as nat) == scale);
            assert((f.fraction() + HIDDEN) / (scale as int) == magnitude);
        } else {
            let unit = pow2((f.exponent() - 1075) as nat);
            assert(unit == 1 && scale == 1);
            assert((f.fraction() + HIDDEN) * unit == magnitude) by (nonlinear_arith)
                requires
                    f.fraction() + HIDDEN == magnitude * scale,
                    unit == 1,
                    scale == 1,
            ;
        }
        assert(f.truncated() == i);
    } else {
        let zero = Float { bits: 0 };
        assert(zero.exponent() == 0);
        assert(zero.truncated() == 0);
    }
}

/// The position of the highest set bit of `n`.
fn highest_bit(n: u64) -> (res: u64)
    requires
        n > 0,
    ensures
        res == top_bit(n as nat),
        res <= 63,
{
    let mut rest: u64 = n;
    let mut k: u64 = 0;
    proof {
        lemma2_to64();
    }
    while rest >= 2
        invariant
            rest > 0,
            top_bit(n as nat) == k + top_bit(rest as nat),
            rest as nat * pow2(k as nat) <= n,
            k <= 63,
        decreases rest,
    {
        proof {
            lemma_pow2_unfold((k + 1) as nat);
            lemma_pow2_pos(k as nat);
            assert((rest / 2) as nat * (2 * pow2(k as nat)) <= rest as nat * pow2(k as nat))
                by (nonlinear_arith)
                requires
                    (rest / 2) * 2 <= rest,
            ;
            if k == 63 {
                lemma2_to64_rest();
                assert(false) by (nonlinear_arith)
                    requires
                        rest >= 2,
                        rest as nat * pow2(63) <= n,
                        pow2(63) == 0x8000000000000000,
                        n <= 0xffffffffffffffff,
                ;
            }
        }
        rest = rest / 2;
        k = k + 1;
    }
    proof {
        lemma2_to64();
    }
    k
}

impl Float {
    /// The double nearest to `i`.
    pub fn from_int(i: i64) -> (res: Float)
        ensures
            res.bits as int == nearest_bits(i as int),
    {
        if i == 0 {
            return Float { bits: 0 };
        }
        let magnitude: u64 = if i == i64::MIN {
            SIGN
        } else if i < 0 {
            (-i) as u64
        } else {
            i as u64
        };
        let sign: u64 = if i < 0 {
            SIGN
        } else {
            0
        };
        let top = highest_bit(magnitude);
        proof {
            lemma_top_bit_bounds(magnitude as nat);
            lemma2_to64();
            lemma2_to64_rest();
        }
        let significand: u64 = if top <= 52 {
            let scale = power_of_two(52 - top);
            proof {
                lemma_pow2_adds(top as nat, (52 - top) as nat);
                lemma_pow2_unfold((top + 1) as nat);
                assert(magnitude * scale < 2 * HIDDEN && magnitude * scale >= HIDDEN)
                    by (nonlinear_arith)
                    requires
                        pow2(top as nat) <= magnitude < 2 * pow2(top as nat),
                        pow2(top as nat) * scale == HIDDEN,
                        scale > 0,
                ;
            }
            magnitude * scale
        } else {
            let scale = power_of_two(top - 52);
            let q = magnitude / scale;
            let r = magnitude % scale;
            proof {
                lemma_pow2_adds(52, (top - 52) as nat);
                if top - 52 < 11 {
                    lemma_pow2_strictly_increases((top - 52) as nat, 11);
                }
                assert(HIDDEN <= q < 2 * HIDDEN) by (nonlinear_arith)
                    requires
                        HIDDEN * scale <= magnitude < 2 * (HIDDEN * scale),
                        scale > 0,
                        q == magnitude / scale,
                ;
            }
            if 2 * r > scale || (2 * r == scale && q % 2 == 1) {
                q + 1
            } else {
                q
            }
        };
        assert(HIDDEN <= significand <= 2 * HIDDEN);
        Float { bits: sign + (1023 + top) * HIDDEN + (significand - HIDDEN) }
    }
}

/// Two to the `e`.
pub fn power_of_two(e: u64) -> (res: u64)
    requires
        e <= 63,
    ensures
        res == pow2(e as nat),
        res > 0,
{
    let mut res: u64 = 1;
    let mut i: u64 = 0;
    proof {
        lemma2_to64();
    }
    while i < e
        invariant
            i <= e <= 63,
            res == pow2(i as nat),
            res > 0,
        decreases e - i,
    {
        proof {
            lemma_pow2_unfold((i + 1) as nat);
            lemma2_to64_rest();
            if i + 1 < 63 {
                lemma_pow2_strictly_increases((i + 1) as nat, 63);
            }
        }
        res = res * 2;
        i = i + 1;
    }
    res
}

} // verus!
