//! Single-precision numbers by their bit patterns: the parts of a pattern,
//! which patterns stand for no number, and how the numbers are ordered.
//!
//! A pattern has a sign bit, eight exponent bits and 23 mantissa bits. Without
//! the sign bit, a larger pattern stands for a number farther from zero.

use vstd::prelude::*;

verus! {

/// The pattern of zero.
pub const ZERO: u32 = 0;

/// The pattern of one.
pub const ONE: u32 = 0x3F80_0000;

/// The pattern of 2^-23, the step from one to the next number.
pub const EPSILON: u32 = 0x3400_0000;

/// The pattern of -2^-23.
pub const MINUS_EPSILON: u32 = 0xB400_0000;

/// The pattern has its sign bit set: it stands for a number below zero, or for
/// zero with a minus sign.
pub open spec fn is_negative(bits: u32) -> bool {
    bits >= 0x8000_0000
}

/// The eight exponent bits of the pattern.
pub open spec fn exponent_of(bits: u32) -> int {
    ((bits / 0x80_0000) % 256) as int
}

/// The integer that the pattern's 23 mantissa bits stand for, with the leading
/// bit that all but the smallest numbers have without storing it.
pub open spec fn significand_of(bits: u32) -> int {
    if exponent_of(bits) == 0 {
        (bits % 0x80_0000) as int
    } else {
        0x80_0000 + bits % 0x80_0000
    }
}

/// The power of two that the significand is multiplied by: the number that
/// the pattern stands for is `significand_of(bits) * 2^scale_of(bits)`.
pub open spec fn scale_of(bits: u32) -> int {
    if exponent_of(bits) == 0 {
        -149
    } else {
        exponent_of(bits) - 150
    }
}

/// The pattern stands for no number.
pub open spec fn is_nan(bits: u32) -> bool {
    exponent_of(bits) == 255 && bits % 0x80_0000 != 0
}

/// The place of a number in the order of all numbers: an integer that is
/// larger for the larger number. Zero has place 0 with either sign.
pub open spec fn place(bits: u32) -> int {
    if is_negative(bits) {
        -(bits - 0x8000_0000)
    } else {
        bits as int
    }
}

/// The first number is less than the second. No comparison holds of what is
/// not a number.
pub open spec fn is_less(a: u32, b: u32) -> bool {
    !is_nan(a) && !is_nan(b) && place(a) < place(b)
}

/// The first number is less than the second, or equal to it.
pub open spec fn is_at_most(a: u32, b: u32) -> bool {
    !is_nan(a) && !is_nan(b) && place(a) <= place(b)
}

/// The number is nearer to zero than 2^-23.
pub open spec fn is_near_zero(bits: u32) -> bool {
    is_less(MINUS_EPSILON, bits) && is_less(bits, EPSILON)
}

/// Tells whether the pattern stands for no number.
pub fn not_a_number(bits: u32) -> (nan: bool)
    ensures
        nan == is_nan(bits),
{
    (bits / 0x80_0000) % 256 == 255 && bits % 0x80_0000 != 0
}

fn place_of(bits: u32) -> (at: i64)
    ensures
        at == place(bits),
{
    if bits >= 0x8000_0000 {
        -((bits - 0x8000_0000) as i64)
    } else {
        bits as i64
    }
}

/// Tells whether the first number is less than the second.
pub fn less(a: u32, b: u32) -> (holds: bool)
    ensures
        holds == is_less(a, b),
{
    !not_a_number(a) && !not_a_number(b) && place_of(a) < place_of(b)
}

/// Tells whether the first number is less than the second or equal to it.
pub fn at_most(a: u32, b: u32) -> (holds: bool)
    ensures
        holds == is_at_most(a, b),
{
    !not_a_number(a) && !not_a_number(b) && place_of(a) <= place_of(b)
}

/// Tells whether the number is nearer to zero than 2^-23.
pub fn near_zero(bits: u32) -> (holds: bool)
    ensures
        holds == is_near_zero(bits),
{
    less(MINUS_EPSILON, bits) && less(bits, EPSILON)
}

/// Of two numbers, one is less than the other, or they are equal, or one of
/// them is no number: never two of these at once.
pub proof fn lemma_order_is_total(a: u32, b: u32)
    ensures
        is_nan(a) || is_nan(b) || is_less(a, b) || is_less(b, a) || place(a) == place(b),
        !(is_less(a, b) && is_less(b, a)),
        is_less(a, b) ==> is_at_most(a, b) && !is_at_most(b, a),
{
}

/// The order passes on: less than something less is less.
pub proof fn lemma_order_passes_on(a: u32, b: u32, c: u32)
    requires
        is_at_most(a, b),
        is_less(b, c),
    ensures
        is_less(a, c),
{
}

/// Two to the power `n`. The powers up to the 64th are written out, so that
/// they are at hand wherever a number is cut or rounded.
pub open spec fn two_to(n: nat) -> nat
    decreases n,
{
    if n == 0 {
        0x1
    } else if n == 1 {
        0x2
    } else if n == 2 {
        0x4
    } else if n == 3 {
        0x8
    } else if n == 4 {
        0x10
    } else if n == 5 {
        0x20
    } else if n == 6 {
        0x40
    } else if n == 7 {
        0x80
    } else if n == 8 {
        0x100
    } else if n == 9 {
        0x200
    } else if n == 10 {
        0x400
    } else if n == 11 {
        0x800
    } else if n == 12 {
        0x1000
    } else if n == 13 {
        0x2000
    } else if n == 14 {
        0x4000
    } else if n == 15 {
        0x8000
    } else if n == 16 {
        0x10000
    } else if n == 17 {
        0x20000
    } else if n == 18 {
        0x40000
    } else if n == 19 {
        0x80000
    } else if n == 20 {
        0x100000
    } else if n == 21 {
        0x200000
    } else if n == 22 {
        0x400000
    } else if n == 23 {
        0x800000
    } else if n == 24 {
        0x1000000
    } else if n == 25 {
        0x2000000
    } else if n == 26 {
        0x4000000
    } else if n == 27 {
        0x8000000
    } else if n == 28 {
        0x10000000
    } else if n == 29 {
        0x20000000
    } else if n == 30 {
        0x40000000
    } else if n == 31 {
        0x80000000
    } else if n == 32 {
        0x100000000
    } else if n == 33 {
        0x200000000
    } else if n == 34 {
        0x400000000
    } else if n == 35 {
        0x800000000
    } else if n == 36 {
        0x1000000000
    } else if n == 37 {
        0x2000000000
    } else if n == 38 {
        0x4000000000
    } else if n == 39 {
        0x8000000000
    } else if n == 40 {
        0x10000000000
    } else if n == 41 {
        0x20000000000
    } else if n == 42 {
        0x40000000000
    } else if n == 43 {
        0x80000000000
    } else if n == 44 {
        0x100000000000
    } else if n == 45 {
        0x200000000000
    } else if n == 46 {
        0x400000000000
    } else if n == 47 {
        0x800000000000
    } else if n == 48 {
        0x1000000000000
    } else if n == 49 {
        0x2000000000000
    } else if n == 50 {
        0x4000000000000
    } else if n == 51 {
        0x8000000000000
    } else if n == 52 {
        0x10000000000000
    } else if n == 53 {
        0x20000000000000
    } else if n == 54 {
        0x40000000000000
    } else if n == 55 {
        0x80000000000000
    } else if n == 56 {
        0x100000000000000
    } else if n == 57 {
        0x200000000000000
    } else if n == 58 {
        0x400000000000000
    } else if n == 59 {
        0x800000000000000
    } else if n == 60 {
        0x1000000000000000
    } else if n == 61 {
        0x2000000000000000
    } else if n == 62 {
        0x4000000000000000
    } else if n == 63 {
        0x8000000000000000
    } else if n == 64 {
        0x10000000000000000
    } else {
        2 * two_to((n - 1) as nat)
    }
}

/// Each power of two is twice the one before.
pub proof fn lemma_two_to_doubles(n: nat)
    requires
        n >= 1,
    ensures
        two_to(n) == 2 * two_to((n - 1) as nat),
{
}

/// The powers of two grow.
pub proof fn lemma_two_to_grows(m: nat, n: nat)
    requires
        m <= n,
    ensures
        1 <= two_to(m) <= two_to(n),
    decreases n,
{
    if m < n {
        lemma_two_to_grows(m, (n - 1) as nat);
        lemma_two_to_doubles(n);
    } else if n > 0 {
        lemma_two_to_grows((m - 1) as nat, (n - 1) as nat);
        lemma_two_to_doubles(n);
    }
}

/// Some powers of two.
pub proof fn lemma_two_to_values()
    ensures
        two_to(3) == 0x8,
        two_to(8) == 0x100,
        two_to(16) == 0x10000,
        two_to(23) == 0x800000,
        two_to(24) == 0x1000000,
        two_to(32) == 0x100000000,
        two_to(40) == 0x10000000000,
        two_to(48) == 0x1000000000000,
        two_to(56) == 0x100000000000000,
        two_to(57) == 0x200000000000000,
        two_to(62) == 0x4000000000000000,
        two_to(63) == 0x8000000000000000,
        two_to(64) == 0x10000000000000000,
{
}

/// Cutting and rounding a whole number that is not below zero gives one.
pub proof fn lemma_cut_is_whole(p: int, scale: int)
    requires
        p >= 0,
    ensures
        cut(p, scale) >= 0,
        rounded(p, scale) >= 0,
{
    if scale >= 0 {
        lemma_times_and_over(p, scale as nat);
        lemma_two_to_grows(0, scale as nat);
        assert(p * two_to(scale as nat) >= 0) by (nonlinear_arith)
            requires
                p >= 0,
                two_to(scale as nat) >= 1,
        ;
    } else {
        lemma_two_to_grows(0, (-scale) as nat);
        lemma_two_to_grows(0, (-scale - 1) as nat);
        let d = two_to((-scale) as nat) as int;
        let h = two_to((-scale - 1) as nat) as int;
        lemma_times_and_over(p, (-scale) as nat);
        lemma_times_and_over(p + h, (-scale) as nat);
        assert(p / d >= 0 && (p + h) / d >= 0) by (nonlinear_arith)
            requires
                p >= 0,
                h >= 1,
                d >= 1,
        ;
    }
}

fn power_of_two(n: u32) -> (power: u128)
    requires
        n <= 64,
    ensures
        power == two_to(n as nat),
        1 <= power <= 0x1_0000_0000_0000_0000,
{
    let mut power: u128 = 1;
    let mut i: u32 = 0;
    proof {
        lemma_two_to_values();
    }
    while i < n
        invariant
            i <= n <= 64,
            power == two_to(i as nat),
            two_to(64) == 0x1_0000_0000_0000_0000,
        decreases n - i,
    {
        proof {
            lemma_two_to_grows((i + 1) as nat, 64);
        }
        power = power * 2;
        i += 1;
    }
    proof {
        lemma_two_to_grows(n as nat, 64);
    }
    power
}

/// `p` times two to the power `n`. The products up to the 64th power are
/// written out.
pub open spec fn times_two_to(p: int, n: nat) -> int
    decreases n,
{
    if n == 0 {
        p
    } else if n == 1 {
        p * 0x2
    } else if n == 2 {
        p * 0x4
    } else if n == 3 {
        p * 0x8
    } else if n == 4 {
        p * 0x10
    } else if n == 5 {
        p * 0x20
    } else if n == 6 {
        p * 0x40
    } else if n == 7 {
        p * 0x80
    } else if n == 8 {
        p * 0x100
    } else if n == 9 {
        p * 0x200
    } else if n == 10 {
        p * 0x400
    } else if n == 11 {
        p * 0x800
    } else if n == 12 {
        p * 0x1000
    } else if n == 13 {
        p * 0x2000
    } else if n == 14 {
        p * 0x4000
    } else if n == 15 {
        p * 0x8000
    } else if n == 16 {
        p * 0x10000
    } else if n == 17 {
        p * 0x20000
    } else if n == 18 {
        p * 0x40000
    } else if n == 19 {
        p * 0x80000
    } else if n == 20 {
        p * 0x100000
    } else if n == 21 {
        p * 0x200000
    } else if n == 22 {
        p * 0x400000
    } else if n == 23 {
        p * 0x800000
    } else if n == 24 {
        p * 0x1000000
    } else if n == 25 {
        p * 0x2000000
    } else if n == 26 {
        p * 0x4000000
    } else if n == 27 {
        p * 0x8000000
    } else if n == 28 {
        p * 0x10000000
    } else if n == 29 {
        p * 0x20000000
    } else if n == 30 {
        p * 0x40000000
    } else if n == 31 {
        p * 0x80000000
    } else if n == 32 {
        p * 0x100000000
    } else if n == 33 {
        p * 0x200000000
    } else if n == 34 {
        p * 0x400000000
    } else if n == 35 {
        p * 0x800000000
    } else if n == 36 {
        p * 0x1000000000
    } else if n == 37 {
        p * 0x2000000000
    } else if n == 38 {
        p * 0x4000000000
    } else if n == 39 {
        p * 0x8000000000
    } else if n == 40 {
        p * 0x10000000000
    } else if n == 41 {
        p * 0x20000000000
    } else if n == 42 {
        p * 0x40000000000
    } else if n == 43 {
        p * 0x80000000000
    } else if n == 44 {
        p * 0x100000000000
    } else if n == 45 {
        p * 0x200000000000
    } else if n == 46 {
        p * 0x400000000000
    } else if n == 47 {
        p * 0x800000000000
    } else if n == 48 {
        p * 0x1000000000000
    } else if n == 49 {
        p * 0x2000000000000
    } else if n == 50 {
        p * 0x4000000000000
    } else if n == 51 {
        p * 0x8000000000000
    } else if n == 52 {
        p * 0x10000000000000
    } else if n == 53 {
        p * 0x20000000000000
    } else if n == 54 {
        p * 0x40000000000000
    } else if n == 55 {
        p * 0x80000000000000
    } else if n == 56 {
        p * 0x100000000000000
    } else if n == 57 {
        p * 0x200000000000000
    } else if n == 58 {
        p * 0x400000000000000
    } else if n == 59 {
        p * 0x800000000000000
    } else if n == 60 {
        p * 0x1000000000000000
    } else if n == 61 {
        p * 0x2000000000000000
    } else if n == 62 {
        p * 0x4000000000000000
    } else if n == 63 {
        p * 0x8000000000000000
    } else if n == 64 {
        p * 0x10000000000000000
    } else {
        2 * times_two_to(p, (n - 1) as nat)
    }
}

/// `p` over two to the power `n`, rounded down. The quotients up to the 64th
/// power are written out.
pub open spec fn over_two_to(p: int, n: nat) -> int
    decreases n,
{
    if n == 0 {
        p
    } else if n == 1 {
        p / 0x2
    } else if n == 2 {
        p / 0x4
    } else if n == 3 {
        p / 0x8
    } else if n == 4 {
        p / 0x10
    } else if n == 5 {
        p / 0x20
    } else if n == 6 {
        p / 0x40
    } else if n == 7 {
        p / 0x80
    } else if n == 8 {
        p / 0x100
    } else if n == 9 {
        p / 0x200
    } else if n == 10 {
        p / 0x400
    } else if n == 11 {
        p / 0x800
    } else if n == 12 {
        p / 0x1000
    } else if n == 13 {
        p / 0x2000
    } else if n == 14 {
        p / 0x4000
    } else if n == 15 {
        p / 0x8000
    } else if n == 16 {
        p / 0x10000
    } else if n == 17 {
        p / 0x20000
    } else if n == 18 {
        p / 0x40000
    } else if n == 19 {
        p / 0x80000
    } else if n == 20 {
        p / 0x100000
    } else if n == 21 {
        p / 0x200000
    } else if n == 22 {
        p / 0x400000
    } else if n == 23 {
        p / 0x800000
    } else if n == 24 {
        p / 0x1000000
    } else if n == 25 {
        p / 0x2000000
    } else if n == 26 {
        p / 0x4000000
    } else if n == 27 {
        p / 0x8000000
    } else if n == 28 {
        p / 0x10000000
    } else if n == 29 {
        p / 0x20000000
    } else if n == 30 {
        p / 0x40000000
    } else if n == 31 {
        p / 0x80000000
    } else if n == 32 {
        p / 0x100000000
    } else if n == 33 {
        p / 0x200000000
    } else if n == 34 {
        p / 0x400000000
    } else if n == 35 {
        p / 0x800000000
    } else if n == 36 {
        p / 0x1000000000
    } else if n == 37 {
        p / 0x2000000000
    } else if n == 38 {
        p / 0x4000000000
    } else if n == 39 {
        p / 0x8000000000
    } else if n == 40 {
        p / 0x10000000000
    } else if n == 41 {
        p / 0x20000000000
    } else if n == 42 {
        p / 0x40000000000
    } else if n == 43 {
        p / 0x80000000000
    } else if n == 44 {
        p / 0x100000000000
    } else if n == 45 {
        p / 0x200000000000
    } else if n == 46 {
        p / 0x400000000000
    } else if n == 47 {
        p / 0x800000000000
    } else if n == 48 {
        p / 0x1000000000000
    } else if n == 49 {
        p / 0x2000000000000
    } else if n == 50 {
        p / 0x4000000000000
    } else if n == 51 {
        p / 0x8000000000000
    } else if n == 52 {
        p / 0x10000000000000
    } else if n == 53 {
        p / 0x20000000000000
    } else if n == 54 {
        p / 0x40000000000000
    } else if n == 55 {
        p / 0x80000000000000
    } else if n == 56 {
        p / 0x100000000000000
    } else if n == 57 {
        p / 0x200000000000000
    } else if n == 58 {
        p / 0x400000000000000
    } else if n == 59 {
        p / 0x800000000000000
    } else if n == 60 {
        p / 0x1000000000000000
    } else if n == 61 {
        p / 0x2000000000000000
    } else if n == 62 {
        p / 0x4000000000000000
    } else if n == 63 {
        p / 0x8000000000000000
    } else if n == 64 {
        p / 0x10000000000000000
    } else {
        over_two_to(p, (n - 1) as nat) / 2
    }
}

/// What is written out is the product with the power of two, and the
/// quotient by it.
pub proof fn lemma_times_and_over(p: int, n: nat)
    requires
        p >= 0,
    ensures
        times_two_to(p, n) == p * two_to(n),
        over_two_to(p, n) == p / (two_to(n) as int),
    decreases n,
{
    if n > 64 {
        let before = (n - 1) as nat;
        lemma_times_and_over(p, before);
        lemma_two_to_doubles(n);
        lemma_two_to_grows(0, before);
        let d = two_to(before) as int;
        assert(2 * (p * d) == p * (2 * d)) by (nonlinear_arith);
        vstd::arithmetic::div_mod::lemma_div_denominator(p, d, 2);
        assert(d * 2 == 2 * d);
    } else {
        if n == 0 {
            assert(two_to(0) == 0x1);
        } else if n == 1 {
            assert(two_to(1) == 0x2);
        } else if n == 2 {
            assert(two_to(2) == 0x4);
        } else if n == 3 {
            assert(two_to(3) == 0x8);
        } else if n == 4 {
            assert(two_to(4) == 0x10);
        } else if n == 5 {
            assert(two_to(5) == 0x20);
        } else if n == 6 {
            assert(two_to(6) == 0x40);
        } else if n == 7 {
            assert(two_to(7) == 0x80);
        } else if n == 8 {
            assert(two_to(8) == 0x100);
        } else if n == 9 {
            assert(two_to(9) == 0x200);
        } else if n == 10 {
            assert(two_to(10) == 0x400);
        } else if n == 11 {
            assert(two_to(11) == 0x800);
        } else if n == 12 {
            assert(two_to(12) == 0x1000);
        } else if n == 13 {
            assert(two_to(13) == 0x2000);
        } else if n == 14 {
            assert(two_to(14) == 0x4000);
        } else if n == 15 {
            assert(two_to(15) == 0x8000);
        } else if n == 16 {
            assert(two_to(16) == 0x10000);
        } else if n == 17 {
            assert(two_to(17) == 0x20000);
        } else if n == 18 {
            assert(two_to(18) == 0x40000);
        } else if n == 19 {
            assert(two_to(19) == 0x80000);
        } else if n == 20 {
            assert(two_to(20) == 0x100000);
        } else if n == 21 {
            assert(two_to(21) == 0x200000);
        } else if n == 22 {
            assert(two_to(22) == 0x400000);
        } else if n == 23 {
            assert(two_to(23) == 0x800000);
        } else if n == 24 {
            assert(two_to(24) == 0x1000000);
        } else if n == 25 {
            assert(two_to(25) == 0x2000000);
        } else if n == 26 {
            assert(two_to(26) == 0x4000000);
        } else if n == 27 {
            assert(two_to(27) == 0x8000000);
        } else if n == 28 {
            assert(two_to(28) == 0x10000000);
        } else if n == 29 {
            assert(two_to(29) == 0x20000000);
        } else if n == 30 {
            assert(two_to(30) == 0x40000000);
        } else if n == 31 {
            assert(two_to(31) == 0x80000000);
        } else if n == 32 {
            assert(two_to(32) == 0x100000000);
        } else if n == 33 {
            assert(two_to(33) == 0x200000000);
        } else if n == 34 {
            assert(two_to(34) == 0x400000000);
        } else if n == 35 {
            assert(two_to(35) == 0x800000000);
        } else if n == 36 {
            assert(two_to(36) == 0x1000000000);
        } else if n == 37 {
            assert(two_to(37) == 0x2000000000);
        } else if n == 38 {
            assert(two_to(38) == 0x4000000000);
        } else if n == 39 {
            assert(two_to(39) == 0x8000000000);
        } else if n == 40 {
            assert(two_to(40) == 0x10000000000);
        } else if n == 41 {
            assert(two_to(41) == 0x20000000000);
        } else if n == 42 {
            assert(two_to(42) == 0x40000000000);
        } else if n == 43 {
            assert(two_to(43) == 0x80000000000);
        } else if n == 44 {
            assert(two_to(44) == 0x100000000000);
        } else if n == 45 {
            assert(two_to(45) == 0x200000000000);
        } else if n == 46 {
            assert(two_to(46) == 0x400000000000);
        } else if n == 47 {
            assert(two_to(47) == 0x800000000000);
        } else if n == 48 {
            assert(two_to(48) == 0x1000000000000);
        } else if n == 49 {
            assert(two_to(49) == 0x2000000000000);
        } else if n == 50 {
            assert(two_to(50) == 0x4000000000000);
        } else if n == 51 {
            assert(two_to(51) == 0x8000000000000);
        } else if n == 52 {
            assert(two_to(52) == 0x10000000000000);
        } else if n == 53 {
            assert(two_to(53) == 0x20000000000000);
        } else if n == 54 {
            assert(two_to(54) == 0x40000000000000);
        } else if n == 55 {
            assert(two_to(55) == 0x80000000000000);
        } else if n == 56 {
            assert(two_to(56) == 0x100000000000000);
        } else if n == 57 {
            assert(two_to(57) == 0x200000000000000);
        } else if n == 58 {
            assert(two_to(58) == 0x400000000000000);
        } else if n == 59 {
            assert(two_to(59) == 0x800000000000000);
        } else if n == 60 {
            assert(two_to(60) == 0x1000000000000000);
        } else if n == 61 {
            assert(two_to(61) == 0x2000000000000000);
        } else if n == 62 {
            assert(two_to(62) == 0x4000000000000000);
        } else if n == 63 {
            assert(two_to(63) == 0x8000000000000000);
        } else if n == 64 {
            assert(two_to(64) == 0x10000000000000000);
        }
    }
}

/// `p * 2^scale`, rounded down to a whole number.
pub open spec fn cut(p: int, scale: int) -> int {
    if scale >= 0 {
        times_two_to(p, scale as nat)
    } else {
        over_two_to(p, (-scale) as nat)
    }
}

/// `p * 2^scale`, rounded to the nearest whole number, halves away from zero.
pub open spec fn rounded(p: int, scale: int) -> int {
    if scale >= 0 {
        cut(p, scale)
    } else {
        cut(p + two_to((-scale - 1) as nat), scale)
    }
}

/// Cutting keeps the order.
pub proof fn lemma_cut_grows(p: int, q: int, scale: int)
    requires
        0 <= p <= q,
    ensures
        cut(p, scale) <= cut(q, scale),
{
    let n = (if scale >= 0 {
        scale
    } else {
        -scale
    }) as nat;
    lemma_times_and_over(p, n);
    lemma_times_and_over(q, n);
    lemma_two_to_grows(0, n);
    let d = two_to(n) as int;
    assert(p * d <= q * d) by (nonlinear_arith)
        requires
            p <= q,
            d >= 1,
    ;
    vstd::arithmetic::div_mod::lemma_div_is_ordered(p, q, d);
}

/// Twice the number, cut, is the number cut at the next scale.
pub proof fn lemma_cut_doubles(p: int, scale: int)
    requires
        p >= 0,
    ensures
        cut(2 * p, scale) == cut(p, scale + 1),
{
    if scale >= 0 {
        lemma_times_and_over(2 * p, scale as nat);
        lemma_times_and_over(p, (scale + 1) as nat);
        lemma_two_to_doubles((scale + 1) as nat);
        let d = two_to(scale as nat) as int;
        assert((2 * p) * d == p * (2 * d)) by (nonlinear_arith);
    } else if scale == -1 {
    } else {
        let k = (-scale) as nat;
        lemma_times_and_over(2 * p, k);
        lemma_times_and_over(p, (k - 1) as nat);
        lemma_two_to_doubles(k);
        lemma_two_to_grows(0, (k - 1) as nat);
        let d = two_to((k - 1) as nat) as int;
        vstd::arithmetic::div_mod::lemma_div_denominator(2 * p, 2, d);
        assert(2 * d == two_to(k));
    }
}

/// A number cut at a larger scale is larger, or the same.
pub proof fn lemma_cut_grows_with_scale(p: int, low: int, high: int)
    requires
        p >= 0,
        low <= high,
    ensures
        cut(p, low) <= cut(p, high),
    decreases high - low,
{
    if low < high {
        lemma_cut_grows_with_scale(p, low + 1, high);
        lemma_cut_doubles(p, low);
        lemma_cut_grows(p, 2 * p, low);
    }
}

/// The smaller of two integers.
pub open spec fn at_most_of(limit: int, value: int) -> int {
    if value > limit {
        limit
    } else {
        value
    }
}

/// `cut(p, scale)`, held at `limit`.
pub(crate) fn cut_at(p: u64, scale: i32, limit: u32) -> (whole: u32)
    requires
        -200 <= scale <= 200,
    ensures
        whole == at_most_of(limit as int, cut(p as int, scale as int)),
{
    proof {
        lemma_times_and_over(p as int, (if scale >= 0 {
            scale as int
        } else {
            -(scale as int)
        }) as nat);
    }
    if scale >= 0 {
        if p == 0 {
            assert(0 * two_to(scale as nat) == 0) by (nonlinear_arith);
            0
        } else if scale >= 32 {
            proof {
                lemma_two_to_values();
                lemma_two_to_grows(32, scale as nat);
                assert(p * two_to(scale as nat) >= 0x1_0000_0000) by (nonlinear_arith)
                    requires
                        p >= 1,
                        two_to(scale as nat) >= 0x1_0000_0000,
                ;
            }
            limit
        } else {
            let power: u128 = power_of_two(scale as u32);
            proof {
                lemma_two_to_values();
                lemma_two_to_grows(scale as nat, 32);
                assert(0 <= p * power <= 0xFFFF_FFFF_FFFF_FFFF * 0x1_0000_0000) by (nonlinear_arith)
                    requires
                        0 <= p <= 0xFFFF_FFFF_FFFF_FFFF,
                        0 <= power <= 0x1_0000_0000,
                ;
            }
            let product: u128 = (p as u128) * power;
            if product > limit as u128 {
                limit
            } else {
                product as u32
            }
        }
    } else if scale <= -64 {
        proof {
            lemma_two_to_values();
            lemma_two_to_grows(64, (-scale) as nat);
            let d = two_to((-scale) as nat) as int;
            assert(p as int / d == 0) by (nonlinear_arith)
                requires
                    0 <= p < d,
            ;
        }
        0
    } else {
        let power: u128 = power_of_two((-scale) as u32);
        let quotient: u128 = (p as u128) / power;
        if quotient > limit as u128 {
            limit
        } else {
            quotient as u32
        }
    }
}

/// `rounded(p, scale)`, held at `limit`.
pub(crate) fn round_at(p: u64, scale: i32, limit: u32) -> (whole: u32)
    requires
        -200 <= scale <= 200,
        p < 0x4000_0000_0000_0000,
    ensures
        whole == at_most_of(limit as int, rounded(p as int, scale as int)),
{
    if scale >= 0 {
        cut_at(p, scale, limit)
    } else if scale <= -64 {
        proof {
            lemma_two_to_values();
            lemma_two_to_grows(63, (-scale - 1) as nat);
            assert(two_to(63) == 2 * two_to(62) && two_to(62) == 2 * two_to(61) && two_to(61) == 2
                * two_to(60) && two_to(60) == 2 * two_to(59) && two_to(59) == 2 * two_to(58)
                && two_to(58) == 2 * two_to(57) && two_to(57) == 2 * two_to(56));
            let half = two_to((-scale - 1) as nat) as int;
            let d = two_to((-scale) as nat) as int;
            lemma_two_to_doubles((-scale) as nat);
            lemma_times_and_over(p + half, (-scale) as nat);
            assert(d == 2 * half);
            assert((p + half) / d == 0) by (nonlinear_arith)
                requires
                    0 <= p < half,
                    d == 2 * half,
            ;
        }
        0
    } else {
        let half: u128 = power_of_two((-scale - 1) as u32);
        proof {
            lemma_two_to_values();
            lemma_two_to_grows((-scale - 1) as nat, 63);
            assert(two_to(64) == 2 * two_to(63));
        }
        cut_at((p as u128 + half) as u64, scale, limit)
    }
}

/// The step between neighbouring single-precision numbers at the whole number
/// `n` below 2^32: single precision keeps the 24 leading bits.
pub open spec fn unit_of(n: int) -> int {
    if n < 0x100_0000 {
        1
    } else if n < 0x200_0000 {
        2
    } else if n < 0x400_0000 {
        4
    } else if n < 0x800_0000 {
        8
    } else if n < 0x1000_0000 {
        16
    } else if n < 0x2000_0000 {
        32
    } else if n < 0x4000_0000 {
        64
    } else if n < 0x8000_0000 {
        128
    } else {
        256
    }
}

/// The multiple of `unit` nearest to `n`; of two equally near, the even
/// multiple.
pub open spec fn nearest_even(n: int, unit: int) -> int {
    if 2 * (n % unit) > unit || (2 * (n % unit) == unit && (n / unit) % 2 == 1) {
        (n / unit + 1) * unit
    } else {
        (n / unit) * unit
    }
}

/// The whole number `n` below 2^32 as single precision holds it: rounded to
/// its 24 leading bits, ties to even.
pub open spec fn in_single(n: int) -> int {
    nearest_even(n, unit_of(n))
}

/// A whole number lies between the multiple of `unit` below it and the next,
/// and so does the nearest multiple.
pub proof fn lemma_nearest_even_bounds(n: int, unit: int)
    requires
        n >= 0,
        unit >= 1,
    ensures
        n / unit >= 0,
        (n / unit) * unit <= n < (n / unit + 1) * unit,
        (n / unit) * unit <= nearest_even(n, unit) <= (n / unit + 1) * unit,
        n == (n / unit) * unit + n % unit,
        0 <= n % unit < unit,
{
    vstd::arithmetic::div_mod::lemma_fundamental_div_mod(n, unit);
    vstd::arithmetic::div_mod::lemma_mod_bound(n, unit);
    let q = n / unit;
    let r = n % unit;
    assert(n == unit * q + r);
    assert(unit * q == q * unit) by (nonlinear_arith);
    assert((q + 1) * unit == q * unit + unit) by (nonlinear_arith);
    assert(q >= 0) by (nonlinear_arith)
        requires
            q * unit + r == n,
            n >= 0,
            0 <= r < unit,
            unit >= 1,
    ;
}

/// Rounding to multiples of one unit keeps the order.
pub proof fn lemma_nearest_even_grows(m: int, n: int, unit: int)
    requires
        0 <= m <= n,
        unit >= 1,
    ensures
        nearest_even(m, unit) <= nearest_even(n, unit),
{
    lemma_nearest_even_bounds(m, unit);
    lemma_nearest_even_bounds(n, unit);
    let qm = m / unit;
    let qn = n / unit;
    assert(qm <= qn) by (nonlinear_arith)
        requires
            qm * unit <= m,
            m <= n,
            n < (qn + 1) * unit,
            unit >= 1,
    ;
    if qm < qn {
        assert((qm + 1) * unit <= qn * unit) by (nonlinear_arith)
            requires
                qm + 1 <= qn,
                unit >= 1,
        ;
    }
}

/// Rounding keeps the order: of two whole numbers below 2^32, the larger is
/// held as the larger, or as the same.
pub proof fn lemma_in_single_grows(m: int, n: int)
    requires
        0 <= m <= n < 0x1_0000_0000,
    ensures
        in_single(m) <= in_single(n),
{
    let u = unit_of(m);
    let v = unit_of(n);
    lemma_nearest_even_bounds(m, u);
    lemma_nearest_even_bounds(n, v);
    if u == v {
        lemma_nearest_even_grows(m, n, u);
    } else {
        let qm = m / u;
        let qn = n / v;
        assert(m < 0x100_0000 * u);
        assert(n >= 0x80_0000 * v);
        assert(0x100_0000 * u <= 0x80_0000 * v);
        assert(qm + 1 <= 0x100_0000) by (nonlinear_arith)
            requires
                qm * u <= m,
                m < 0x100_0000 * u,
                u >= 1,
        ;
        assert((qm + 1) * u <= 0x100_0000 * u) by (nonlinear_arith)
            requires
                qm + 1 <= 0x100_0000,
                u >= 1,
        ;
        assert(qn >= 0x80_0000) by (nonlinear_arith)
            requires
                n < (qn + 1) * v,
                n >= 0x80_0000 * v,
                v >= 1,
        ;
        assert(qn * v >= 0x80_0000 * v) by (nonlinear_arith)
            requires
                qn >= 0x80_0000,
                v >= 1,
        ;
    }
}

/// The whole number as single precision holds it.
pub(crate) fn to_single(n: u64) -> (held: u64)
    requires
        n < 0x1_0000_0000,
    ensures
        held == in_single(n as int),
        held <= n + 128,
        n < 0x100_0000 ==> held == n,
{
    let unit: u64 = if n < 0x100_0000 {
        1
    } else if n < 0x200_0000 {
        2
    } else if n < 0x400_0000 {
        4
    } else if n < 0x800_0000 {
        8
    } else if n < 0x1000_0000 {
        16
    } else if n < 0x2000_0000 {
        32
    } else if n < 0x4000_0000 {
        64
    } else if n < 0x8000_0000 {
        128
    } else {
        256
    };
    let below: u64 = n / unit;
    let rest: u64 = n % unit;
    if 2 * rest > unit || (2 * rest == unit && below % 2 == 1) {
        (below + 1) * unit
    } else {
        below * unit
    }
}

/// The number held at one: what is larger than one, or no number, becomes
/// one.
pub open spec fn at_most_one(bits: u32) -> u32 {
    if is_nan(bits) || is_less(ONE, bits) {
        ONE
    } else {
        bits
    }
}

/// The number held at one.
pub fn hold_at_one(bits: u32) -> (held: u32)
    ensures
        held == at_most_one(bits),
{
    if not_a_number(bits) || less(ONE, bits) {
        ONE
    } else {
        bits
    }
}

/// The exponent bits of a pattern.
pub fn exponent(bits: u32) -> (e: u32)
    ensures
        e == exponent_of(bits),
        e <= 255,
{
    (bits / 0x80_0000) % 256
}

/// The significand of a pattern.
pub fn significand(bits: u32) -> (s: u32)
    ensures
        s == significand_of(bits),
        s < 0x100_0000,
        exponent_of(bits) != 0 ==> s >= 0x80_0000,
{
    if (bits / 0x80_0000) % 256 == 0 {
        bits % 0x80_0000
    } else {
        0x80_0000 + bits % 0x80_0000
    }
}

/// The scale of a pattern.
pub fn scale(bits: u32) -> (s: i32)
    ensures
        s == scale_of(bits),
        -149 <= s <= 105,
{
    if (bits / 0x80_0000) % 256 == 0 {
        -149
    } else {
        ((bits / 0x80_0000) % 256) as i32 - 150
    }
}

} // verus!
