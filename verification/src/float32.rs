//! Single-precision numbers, held as the bits of their IEEE 754 encoding.
//!
//! The library stores, copies and writes such numbers and converts them from and to
//! integers.  It does no arithmetic on them.

use vstd::arithmetic::power2::{pow2, lemma_pow2_pos};
#[allow(unused_imports)]
use vstd::arithmetic::power2::{lemma_pow2_unfold, lemma_pow2_adds, lemma_pow2_strictly_increases, lemma2_to64};
use vstd::arithmetic::div_mod::{lemma_fundamental_div_mod, lemma_div_multiples_vanish, lemma_mod_multiples_basic};
use vstd::prelude::*;

verus! {

/// A single-precision number, given by its encoding.
#[derive(Debug, Copy, Clone, PartialEq, Eq, Hash, Structural)]
pub struct F32 {
    pub bits: u32,
}

impl F32 {
    /// The number with a given encoding.
    pub fn from_bits(bits: u32) -> (r: F32)
        ensures
            r.bits == bits,
    {
        F32 { bits }
    }

    /// The encoding of the number.
    pub fn to_bits(self) -> (r: u32)
        ensures
            r == self.bits,
    {
        self.bits
    }

    /// The exponent field.
    pub open spec fn exponent(self) -> int {
        (self.bits as int / 0x80_0000) % 0x100
    }

    /// The mantissa field.
    pub open spec fn mantissa(self) -> int {
        self.bits as int % 0x80_0000
    }

    /// Whether the sign bit is set.
    pub open spec fn negative(self) -> bool {
        self.bits >= 0x8000_0000
    }

    /// The integer `2^23 + mantissa`, which scaled by `2^(exponent - 150)` gives the
    /// magnitude of a normal number.
    pub open spec fn significand(self) -> int {
        0x80_0000 + self.mantissa()
    }

    /// Whether the number equals itself rounded to an integer.
    ///
    /// The infinities do; a NaN does not.
    pub open spec fn is_integral_spec(self) -> bool {
        if self.exponent() == 255 {
            self.mantissa() == 0
        } else if self.exponent() >= 150 {
            true
        } else if self.exponent() >= 127 {
            self.significand() % (pow2((150 - self.exponent()) as nat) as int) == 0
        } else {
            self.exponent() == 0 && self.mantissa() == 0
        }
    }

    /// The magnitude of the number with its fraction dropped, where it is below `2^31`.
    pub open spec fn truncated_magnitude(self) -> int {
        if self.exponent() >= 150 {
            self.significand() * pow2((self.exponent() - 150) as nat)
        } else if self.exponent() >= 127 {
            self.significand() / (pow2((150 - self.exponent()) as nat) as int)
        } else {
            0
        }
    }

    /// The nearest integer towards zero, at the bounds of `i32` where it lies outside.
    pub open spec fn to_i32_spec(self) -> int {
        if self.exponent() == 255 && self.mantissa() != 0 {
            0
        } else if self.exponent() >= 158 {
            if self.negative() {
                i32::MIN as int
            } else {
                i32::MAX as int
            }
        } else if self.negative() {
            -self.truncated_magnitude()
        } else {
            self.truncated_magnitude()
        }
    }

    /// Tell whether the number is equal to itself rounded to an integer.
    pub fn is_integral(self) -> (r: bool)
        ensures
            r == self.is_integral_spec(),
    {
        let e: u32 = (self.bits / 0x80_0000) % 0x100;
        let m: u32 = self.bits % 0x80_0000;
        if e == 255 {
            m == 0
        } else if e >= 150 {
            true
        } else if e >= 127 {
            let d: u64 = pow2_exec(150 - e);
            (0x80_0000u64 + m as u64) % d == 0
        } else {
            e == 0 && m == 0
        }
    }

    /// Convert to an integer, dropping the fraction and keeping to the bounds of `i32`.
    pub fn to_i32(self) -> (r: i32)
        ensures
            r == self.to_i32_spec(),
    {
        let e: u32 = (self.bits / 0x80_0000) % 0x100;
        let m: u32 = self.bits % 0x80_0000;
        let negative: bool = self.bits >= 0x8000_0000;
        if e == 255 && m != 0 {
            return 0;
        }
        if e >= 158 {
            return if negative {
                i32::MIN
            } else {
                i32::MAX
            };
        }
        let s: u64 = 0x80_0000u64 + m as u64;
        let magnitude: u64 = if e >= 150 {
            let p: u64 = pow2_exec(e - 150);
            proof {
                lemma2_to64();
                if e < 157 {
                    lemma_pow2_strictly_increases((e - 150) as nat, 7);
                }
                assert(0 <= s * p < 0x100_0000 * 0x80) by (nonlinear_arith)
                    requires
                        s < 0x100_0000,
                        0 < p <= 0x80,
                ;
            }
            s * p
        } else if e >= 127 {
            let d: u64 = pow2_exec(150 - e);
            proof {
                assert(0 <= s / d <= s) by (nonlinear_arith)
                    requires
                        d > 0,
                ;
            }
            s / d
        } else {
            0
        };
        if negative {
            -(magnitude as i32)
        } else {
            magnitude as i32
        }
    }

    /// The exponent of the highest bit of a positive number.
    pub open spec fn log2_floor(m: nat) -> nat
        decreases m,
    {
        if m <= 1 {
            0
        } else {
            1 + F32::log2_floor(m / 2)
        }
    }

    /// `m / 2^s` rounded to the nearest integer, to the even one of two that are as near.
    pub open spec fn round_shift(m: nat, s: nat) -> nat {
        let p = pow2(s);
        let q = m / p;
        let rest = m % p;
        if s == 0 || 2 * rest < p || (2 * rest == p && q % 2 == 0) {
            q
        } else {
            q + 1
        }
    }

    /// The 24 bits of the number nearest to `m`, where `m` needs `e + 1` bits.
    pub open spec fn rounded_significand(m: nat, e: nat) -> nat {
        if e <= 23 {
            m * pow2((23 - e) as nat)
        } else {
            F32::round_shift(m, (e - 23) as nat)
        }
    }

    /// The encoding of the number nearest to an integer; of two that are as near, the one
    /// with the even significand.
    pub open spec fn bits_of_int(n: int) -> int {
        if n == 0 {
            0
        } else {
            let m = (if n < 0 {
                -n
            } else {
                n
            }) as nat;
            let e = F32::log2_floor(m);
            let sign: int = if n < 0 {
                0x8000_0000
            } else {
                0
            };
            sign + (e + 126) * 0x80_0000 + F32::rounded_significand(m, e)
        }
    }

    /// Convert an integer to the nearest number.
    pub fn from_i32(n: i32) -> (r: F32)
        ensures
            r.bits == F32::bits_of_int(n as int),
    {
        if n == 0 {
            return F32 { bits: 0 };
        }
        let m: u64 = if n < 0 {
            (-(n as i64)) as u64
        } else {
            n as u64
        };
        let mut e: u32 = 0;
        let mut t: u64 = m;
        proof {
            lemma2_to64();
        }
        while t > 1
            invariant
                1 <= t <= m <= 0x8000_0000,
                F32::log2_floor(m as nat) == e + F32::log2_floor(t as nat),
                t * pow2(e as nat) <= m < (t + 1) * pow2(e as nat),
                e < 32,
            decreases t,
        {
            proof {
                lemma_pow2_pos(e as nat);
                let p = pow2(e as nat) as int;
                let h = (t / 2) as int;
                assert(pow2((e + 1) as nat) == 2 * p) by {
                    lemma_pow2_unfold((e + 1) as nat);
                }
                assert(h * (2 * p) <= t * p && (t + 1) * p <= (h + 1) * (2 * p)) by (nonlinear_arith)
                    requires
                        2 * h <= t <= 2 * h + 1,
                        p > 0,
                ;
                assert(p <= t * p) by (nonlinear_arith)
                    requires
                        t >= 1,
                        p > 0,
                ;
                if e == 31 {
                    lemma2_to64();
                    assert(2 * p <= t * p) by (nonlinear_arith)
                        requires
                            t >= 2,
                            p > 0,
                    ;
                }
            }
            t = t / 2;
            e = e + 1;
        }
        proof {
            lemma2_to64();
            assert(t == 1);
            assert(1 * pow2(e as nat) == pow2(e as nat));
            assert(2 * pow2(e as nat) == pow2((e + 1) as nat)) by {
                lemma_pow2_unfold((e + 1) as nat);
            }
        }
        let significand: u64 = if e <= 23 {
            let p: u64 = pow2_exec(23 - e);
            proof {
                lemma_pow2_adds(e as nat, (23 - e) as nat);
                lemma_pow2_adds((e + 1) as nat, (23 - e) as nat);
                assert(0 <= m * p <= pow2((e + 1) as nat) * p) by (nonlinear_arith)
                    requires
                        m < pow2((e + 1) as nat),
                        p > 0,
                ;
            }
            m * p
        } else {
            let s: u32 = e - 23;
            let p: u64 = pow2_exec(s);
            let q: u64 = m / p;
            let rest: u64 = m % p;
            proof {
                lemma_fundamental_div_mod(m as int, p as int);
                lemma_pow2_adds(24, s as nat);
                assert(q <= 0x100_0000) by (nonlinear_arith)
                    requires
                        m == p * q + rest,
                        m < 0x100_0000 * p,
                        p > 0,
                        rest >= 0,
                ;
                if s < 9 {
                    lemma_pow2_strictly_increases(s as nat, 9);
                }
            }
            if 2 * rest < p || (2 * rest == p && q % 2 == 0) {
                q
            } else {
                q + 1
            }
        };
        let sign: u64 = if n < 0 {
            0x8000_0000
        } else {
            0
        };
        F32 { bits: (sign + (e as u64 + 126) * 0x80_0000 + significand) as u32 }
    }
}

/// A positive number lies between two powers of two.
proof fn lemma_log2_floor(m: nat)
    requires
        m >= 1,
    ensures
        pow2(F32::log2_floor(m)) <= m < pow2(F32::log2_floor(m) + 1),
    decreases m,
{
    lemma2_to64();
    if m > 1 {
        lemma_log2_floor(m / 2);
        lemma_pow2_unfold(F32::log2_floor(m));
        lemma_pow2_unfold(F32::log2_floor(m) + 1);
    }
}

/// The encoding of a small nonzero integer, field by field.
proof fn lemma_fields_of_int(n: int)
    requires
        -0x100_0000 <= n <= 0x100_0000,
        n != 0,
    ensures
        ({
            let m = (if n < 0 {
                -n
            } else {
                n
            }) as nat;
            let e = F32::log2_floor(m);
            let b = F32::bits_of_int(n);
            let x = F32 { bits: b as u32 };
            &&& 0 <= b <= u32::MAX
            &&& e <= 24
            &&& x.exponent() == e + 127
            &&& x.negative() == (n < 0)
            &&& x.significand() == (if e <= 23 {
                m * pow2((23 - e) as nat)
            } else {
                0x80_0000
            })
            &&& e == 24 ==> m == 0x100_0000
        }),
{
    let m = (if n < 0 {
        -n
    } else {
        n
    }) as nat;
    let e = F32::log2_floor(m);
    lemma_log2_floor(m);
    lemma2_to64();
    if e > 24 {
        lemma_pow2_strictly_increases(24, e);
    }
    if e <= 23 {
        lemma_pow2_adds(e, (23 - e) as nat);
        lemma_pow2_adds(e + 1, (23 - e) as nat);
        lemma_pow2_pos((23 - e) as nat);
        let p = pow2((23 - e) as nat);
        assert(pow2(e) * p <= m * p < pow2(e + 1) * p) by (nonlinear_arith)
            requires
                pow2(e) <= m < pow2(e + 1),
                p > 0,
        ;
    } else {
        assert(m == 0x100_0000);
        assert(F32::round_shift(m, 1) == 0x80_0000);
    }
}

/// An integer of at most 24 bits survives the conversion to a number and back.
pub proof fn law_int_round_trip(n: int)
    requires
        -0x100_0000 <= n <= 0x100_0000,
    ensures
        0 <= F32::bits_of_int(n) <= u32::MAX,
        (F32 { bits: F32::bits_of_int(n) as u32 }).is_integral_spec(),
        (F32 { bits: F32::bits_of_int(n) as u32 }).to_i32_spec() == n,
{
    if n != 0 {
        lemma_fields_of_int(n);
        let m = (if n < 0 {
            -n
        } else {
            n
        }) as nat;
        let e = F32::log2_floor(m);
        lemma2_to64();
        if e <= 23 {
            let p = pow2((23 - e) as nat) as int;
            lemma_pow2_pos((23 - e) as nat);
            lemma_div_multiples_vanish(m as int, p);
            lemma_mod_multiples_basic(m as int, p);
            assert(p * m == m * p) by (nonlinear_arith);
            if e == 23 {
                assert(m * 1 == m);
            }
        }
    }
}

/// Two integers of at most 24 bits have the same encoding only if they are equal.
pub proof fn law_small_ints_are_distinct(a: int, b: int)
    requires
        -0x100_0000 <= a <= 0x100_0000,
        -0x100_0000 <= b <= 0x100_0000,
        F32::bits_of_int(a) == F32::bits_of_int(b),
    ensures
        a == b,
{
    law_int_round_trip(a);
    law_int_round_trip(b);
}

/// The power of two with a small exponent.
fn pow2_exec(k: u32) -> (r: u64)
    requires
        k <= 40,
    ensures
        r == pow2(k as nat),
        r > 0,
{
    let mut r: u64 = 1;
    let mut i: u32 = 0;
    proof {
        lemma2_to64();
    }
    while i < k
        invariant
            i <= k <= 40,
            r == pow2(i as nat),
        decreases k - i,
    {
        proof {
            lemma2_to64();
            lemma_pow2_strictly_increases(i as nat, 41);
            assert(pow2(41) == 0x200_0000_0000) by {
                lemma_pow2_adds(32, 9);
            }
            lemma_pow2_unfold((i + 1) as nat);
        }
        r = r * 2;
        i = i + 1;
    }
    proof {
        lemma_pow2_pos(k as nat);
    }
    r
}

} // verus!
