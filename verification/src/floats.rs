//! Single-precision numbers, told apart by their bits.
//!
//! A number is held as the 32 bits of its IEEE 754 form, so that its order and its
//! exact value can be stated over the integers.
use vstd::arithmetic::power2::{lemma_pow2_adds, lemma_pow2_pos, lemma_pow2_unfold, pow2};
use vstd::prelude::*;

verus! {

/// A single-precision number: a sign bit, eight bits of exponent and 23 of fraction.
#[derive(Clone, Copy, Debug, PartialEq, Eq, Structural)]
pub struct Single {
    pub bits: u32,
}

/// The number with the given bits.
pub open spec fn single(bits: u32) -> Single {
    Single { bits }
}

impl Single {
    /// The number with the given bits.
    pub fn from_bits(bits: u32) -> (r: Self)
        ensures
            r == single(bits),
    {
        Single { bits }
    }

    /// It is no number at all.
    pub open spec fn is_nan(&self) -> bool {
        self.bits % 0x8000_0000 > 0x7f80_0000
    }

    /// The place of the number in the order of the numbers. Both zeros have place 0.
    pub open spec fn place(&self) -> int {
        if self.bits < 0x8000_0000 {
            self.bits as int
        } else {
            -(self.bits - 0x8000_0000)
        }
    }

    /// `self < other`, which holds of no pair with a NaN in it.
    pub open spec fn lt(&self, other: Single) -> bool {
        !self.is_nan() && !other.is_nan() && self.place() < other.place()
    }

    /// `self <= other`, which holds of no pair with a NaN in it.
    pub open spec fn le(&self, other: Single) -> bool {
        !self.is_nan() && !other.is_nan() && self.place() <= other.place()
    }

    /// The exponent field.
    pub open spec fn exponent(&self) -> nat {
        ((self.bits % 0x8000_0000) / 0x80_0000) as nat
    }

    /// The digits in front of the power of two.
    pub open spec fn significand(&self) -> nat {
        let fraction = (self.bits % 0x80_0000) as nat;
        if self.exponent() == 0 {
            fraction
        } else {
            fraction + 0x80_0000
        }
    }

    /// The magnitude of a finite number, times two to the 150th.
    pub open spec fn scaled(&self) -> nat {
        self.significand() * pow2(
            if self.exponent() == 0 {
                1
            } else {
                self.exponent()
            },
        )
    }

    /// `is_nan`, computed.
    pub fn nan(&self) -> (r: bool)
        ensures
            r == self.is_nan(),
    {
        self.bits % 0x8000_0000 > 0x7f80_0000
    }

    fn signed_place(&self) -> (r: i64)
        ensures
            r == self.place(),
    {
        if self.bits < 0x8000_0000 {
            self.bits as i64
        } else {
            -((self.bits - 0x8000_0000) as i64)
        }
    }

    /// Whether this number is less than the other.
    pub fn less_than(&self, other: Single) -> (r: bool)
        ensures
            r == self.lt(other),
    {
        !self.nan() && !other.nan() && self.signed_place() < other.signed_place()
    }

    /// Whether this number is at most the other.
    pub fn at_most(&self, other: Single) -> (r: bool)
        ensures
            r == self.le(other),
    {
        !self.nan() && !other.nan() && self.signed_place() <= other.signed_place()
    }
}

/// The bits of 0.0.
pub const ZERO: u32 = 0;

/// The bits of 1.0.
pub const ONE: u32 = 0x3f80_0000;

/// The bits of 4.0.
pub const FOUR: u32 = 0x4080_0000;

/// The bits of 7.0.
pub const SEVEN: u32 = 0x40e0_0000;

/// The bits of 10.0.
pub const TEN: u32 = 0x4120_0000;

/// `k` 2^-24 is less than the positive number `rate`.
pub open spec fn draw_is_below(k: nat, rate: Single) -> bool {
    k * pow2(126) < rate.scaled()
}

/// Whether `k` 2^-24 is less than `rate`, a number between zero and one.
pub fn draw_below(k: u32, rate: Single) -> (r: bool)
    requires
        k < 0x100_0000,
        single(ZERO).lt(rate),
        rate.lt(single(ONE)),
    ensures
        r == draw_is_below(k as nat, rate),
{
    let field: u32 = rate.bits / 0x80_0000;
    let fraction: u32 = rate.bits % 0x80_0000;
    let exponent: u32 = if field == 0 {
        1
    } else {
        field
    };
    let significand: u32 = if field == 0 {
        fraction
    } else {
        fraction + 0x80_0000
    };
    assert(rate.bits % 0x8000_0000 == rate.bits);
    assert(exponent <= 126);
    let shift: u32 = 126 - exponent;
    proof {
        lemma_pow2_pos(exponent as nat);
        lemma_pow2_adds(shift as nat, exponent as nat);
        lemma_shifted(k as int, significand as int, pow2(shift as nat) as int, pow2(exponent as nat) as int);
    }
    if shift >= 24 {
        proof {
            lemma_pow2_at_least(shift as nat);
            lemma_large_shift(k as int, significand as int, pow2(shift as nat) as int);
        }
        return k == 0 && significand > 0;
    }
    let mut power: u64 = 1;
    let mut i: u32 = 0;
    assert(pow2(0) == 1) by {
        vstd::arithmetic::power2::lemma2_to64();
    }
    while i < shift
        invariant
            i <= shift < 24,
            power == pow2(i as nat),
            power <= 0x100_0000,
            i < 24,
        decreases shift - i,
    {
        proof {
            lemma_pow2_unfold((i + 1) as nat);
            lemma_pow2_at_most((i + 1) as nat);
        }
        power = power * 2;
        i = i + 1;
    }
    assert(k * power <= 0x100_0000 * 0x100_0000) by (nonlinear_arith)
        requires
            k < 0x100_0000,
            power <= 0x100_0000,
    ;
    (k as u64) * power < significand as u64
}

proof fn lemma_shifted(k: int, m: int, shifted: int, unit: int)
    requires
        unit > 0,
    ensures
        (k * (shifted * unit) < m * unit) == (k * shifted < m),
{
    assert(k * (shifted * unit) == (k * shifted) * unit) by (nonlinear_arith);
    let a = k * shifted;
    assert((a * unit < m * unit) == (a < m)) by (nonlinear_arith)
        requires
            unit > 0,
    ;
}

proof fn lemma_large_shift(k: int, m: int, shifted: int)
    requires
        k >= 0,
        0 <= m < 0x100_0000,
        shifted >= 0x100_0000,
    ensures
        (k * shifted < m) == (k == 0 && m > 0),
{
    if k >= 1 {
        assert(k * shifted >= shifted) by (nonlinear_arith)
            requires
                k >= 1,
                shifted >= 0,
        ;
    } else {
        assert(k * shifted == 0) by (nonlinear_arith)
            requires
                k == 0,
        ;
    }
}

proof fn lemma_pow2_at_least(e: nat)
    requires
        e >= 24,
    ensures
        pow2(e) >= 0x100_0000,
    decreases e,
{
    if e == 24 {
        vstd::arithmetic::power2::lemma2_to64();
    } else {
        lemma_pow2_unfold(e);
        lemma_pow2_at_least((e - 1) as nat);
    }
}

proof fn lemma_pow2_at_most(e: nat)
    requires
        e <= 24,
    ensures
        pow2(e) <= 0x100_0000,
    decreases 24 - e,
{
    if e == 24 {
        vstd::arithmetic::power2::lemma2_to64();
    } else {
        lemma_pow2_unfold((e + 1) as nat);
        lemma_pow2_at_most((e + 1) as nat);
    }
}

/// Of two numbers that are not negative, the greater has the greater magnitude.
pub proof fn lemma_scaled_grows(a: Single, b: Single)
    requires
        a.bits <= b.bits,
        b.bits < 0x8000_0000,
    ensures
        a.scaled() <= b.scaled(),
{
    let ea: nat = if a.exponent() == 0 {
        1
    } else {
        a.exponent()
    };
    let eb: nat = if b.exponent() == 0 {
        1
    } else {
        b.exponent()
    };
    let sa = a.significand() as int;
    let sb = b.significand() as int;
    let pa = pow2(ea) as int;
    let pb = pow2(eb) as int;
    lemma_pow2_pos(ea);
    if ea == eb {
        assert(sa <= sb);
        assert(sa * pa <= sb * pa) by (nonlinear_arith)
            requires
                sa <= sb,
                pa > 0,
        ;
    } else {
        assert(ea < eb);
        assert(sa < 0x100_0000 && sb >= 0x80_0000);
        lemma_pow2_pos((eb - ea - 1) as nat);
        lemma_pow2_adds(ea + 1, (eb - ea - 1) as nat);
        lemma_pow2_unfold(ea + 1);
        let more = pow2((eb - ea - 1) as nat) as int;
        assert(pb == (2 * pa) * more);
        assert(sa * pa <= sb * pb) by (nonlinear_arith)
            requires
                0 <= sa < 0x100_0000,
                sb >= 0x80_0000,
                pa > 0,
                more >= 1,
                pb == (2 * pa) * more,
        {
            assert(pb >= 2 * pa) by (nonlinear_arith)
                requires
                    pa > 0,
                    more >= 1,
                    pb == (2 * pa) * more,
            ;
            assert(sb * pb >= 0x80_0000 * (2 * pa)) by (nonlinear_arith)
                requires
                    sb >= 0x80_0000,
                    pb >= 2 * pa,
                    pa > 0,
            ;
            assert(sa * pa <= 0x100_0000 * pa) by (nonlinear_arith)
                requires
                    sa < 0x100_0000,
                    pa > 0,
            ;
        }
    }
}

/// At a rate of one half, a quarter, and so on, the draws below the rate are that part of
/// all draws.
pub proof fn law_half_the_rate_takes_half_the_draws(k: nat, e: nat)
    requires
        1 <= e <= 24,
    ensures
        ({
            let rate = single((0x3f80_0000 - e * 0x80_0000) as u32);
            draw_is_below(k, rate) <==> k < pow2((24 - e) as nat)
        }),
{
    let bits = (0x3f80_0000 - e * 0x80_0000) as u32;
    let rate = single(bits);
    assert(bits == 0x80_0000 * (127 - e));
    assert(bits as int / 0x80_0000 == 127 - e && bits as int % 0x80_0000 == 0);
    assert(rate.exponent() == 127 - e);
    assert(rate.significand() == 0x80_0000);
    lemma_pow2_adds(23, (127 - e) as nat);
    assert(pow2(23) == 0x80_0000) by {
        vstd::arithmetic::power2::lemma2_to64();
    }
    lemma_pow2_adds((24 - e) as nat, 126);
    lemma_pow2_pos(126);
    let unit = pow2(126) as int;
    let part = pow2((24 - e) as nat) as int;
    let n = k as int;
    assert(rate.scaled() == part * unit);
    assert((n * unit < part * unit) == (n < part)) by (nonlinear_arith)
        requires
            unit > 0,
    ;
}

/// Numbers that are not negative are ordered as their bits are, negative ones the other way
/// round, and every negative one comes before every positive one.
pub proof fn law_numbers_are_ordered_by_their_bits(a: Single, b: Single)
    requires
        !a.is_nan(),
        !b.is_nan(),
    ensures
        a.bits < 0x8000_0000 && b.bits < 0x8000_0000 ==> (a.lt(b) <==> a.bits < b.bits),
        a.bits >= 0x8000_0000 && b.bits >= 0x8000_0000 ==> (a.lt(b) <==> a.bits > b.bits),
        a.bits > 0x8000_0000 && b.bits < 0x8000_0000 ==> a.lt(b),
        a.le(b) <==> !b.lt(a),
{
}

} // verus!
