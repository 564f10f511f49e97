//! Clip-timing arithmetic on float bit patterns.
//!
//! A clip's end time is its last frame index divided by the 30-frame-per-
//! second rate, times the 2.5-beat-per-second authoring constant.  The
//! computation here produces the IEEE-754 single-precision bit pattern of
//! that value by integer arithmetic alone: the quotient is formed with 30
//! fractional bits and rounded to nearest (ties to even), then multiplied
//! by five halves with the same rounding.  Tests compare the result against
//! hardware float arithmetic.

use vstd::prelude::*;

verus! {

/// Number of binary digits of `q`.
pub open spec fn spec_bitlen(q: int) -> int
    decreases q,
{
    if q <= 0 {
        0
    } else {
        1 + spec_bitlen(q / 2)
    }
}

/// Two to the `k`.
pub open spec fn spec_pow2(k: int) -> int
    decreases k,
{
    if k <= 0 {
        1
    } else {
        2 * spec_pow2(k - 1)
    }
}

/// Rounds `q` (with `rem` sticky fraction below it) to a 24-bit mantissa:
/// drops `shift` low bits, rounding to nearest and ties to even.
pub open spec fn spec_round24(q: int, rem: int, shift: int) -> int {
    let m = q / spec_pow2(shift);
    let rb = q % spec_pow2(shift);
    let half = spec_pow2(shift - 1);
    if rb > half || (rb == half && (rem != 0 || m % 2 == 1)) {
        m + 1
    } else {
        m
    }
}

/// The IEEE-754 single-precision bit pattern of `(n / 30) * 2.5`, rounded
/// to nearest (ties to even) at each of the two steps, for frame counts
/// `1 <= n <= 2^24` (which are exactly representable).
pub open spec fn spec_beats_bits(n: int) -> int {
    let num = n * 0x4000_0000;
    let q = num / 30;
    let rem = num % 30;
    let p = spec_bitlen(q);
    let shift = p - 24;
    let m0 = spec_round24(q, rem, shift);
    let m2 = if m0 == 0x100_0000 {
        0x80_0000int
    } else {
        m0
    };
    let e2 = if m0 == 0x100_0000 {
        shift - 6
    } else {
        shift - 7
    };
    let m3 = m2 * 5;
    let shift2 = if m3 >= 0x400_0000 {
        3int
    } else {
        2int
    };
    let m4 = spec_round24(m3, 0, shift2);
    let m5 = if m4 == 0x100_0000 {
        0x80_0000int
    } else {
        m4
    };
    let e4 = if m4 == 0x100_0000 {
        e2 + shift2
    } else {
        e2 + shift2 - 1
    };
    (e4 + 127) * 0x80_0000 + (m5 - 0x80_0000)
}

/// Number of binary digits of `q`.
fn bitlen(q: u64) -> (r: u32)
    ensures
        r == spec_bitlen(q as int),
        r <= 64,
{
    let mut t = q;
    let mut r: u32 = 0;
    proof {
        lemma_pow2_64();
    }
    while t > 0
        invariant
            spec_bitlen(q as int) == r + spec_bitlen(t as int),
            r <= 64,
            (t as int) < spec_pow2(64 - r),
        decreases t,
    {
        proof {
            assert(spec_pow2(64 - r) > 1);
            if r == 64 {
                assert(spec_pow2(0int) == 1);
                assert(false);
            }
            assert(spec_bitlen(t as int) == 1 + spec_bitlen(t as int / 2));
            assert(spec_pow2(64 - r) == 2 * spec_pow2(63 - r));
        }
        t = t / 2;
        r = r + 1;
    }
    r
}

/// A value with `p` digits sits between `2^(p-1)` and `2^p`.
proof fn lemma_bitlen_range(q: int)
    requires
        q > 0,
    ensures
        spec_pow2(spec_bitlen(q) - 1) <= q < spec_pow2(spec_bitlen(q)),
    decreases q,
{
    if q >= 2 {
        lemma_bitlen_range(q / 2);
        let b = spec_bitlen(q);
        assert(b == 1 + spec_bitlen(q / 2));
        assert(spec_pow2(b - 1) == 2 * spec_pow2(b - 2));
        assert(spec_pow2(b) == 2 * spec_pow2(b - 1));
        assert(q >= 2 * (q / 2));
        assert(q <= 2 * (q / 2) + 1);
    } else {
        assert(spec_bitlen(q) == 1 + spec_bitlen(0int));
        assert(spec_pow2(0int) == 1);
        assert(spec_pow2(1int) == 2);
    }
}

/// Powers of two are positive.
proof fn lemma_pow2_pos(k: int)
    ensures
        spec_pow2(k) >= 1,
    decreases (if k > 0 { k } else { 0 }),
{
    if k > 0 {
        lemma_pow2_pos(k - 1);
    }
}

/// Powers of two grow.
proof fn lemma_pow2_le(a: int, b: int)
    requires
        a <= b,
    ensures
        spec_pow2(a) <= spec_pow2(b),
    decreases b - a,
{
    lemma_pow2_pos(a);
    if a < b {
        lemma_pow2_le(a, b - 1);
        lemma_pow2_pos(b - 1);
        if b > 0 {
            assert(spec_pow2(b) == 2 * spec_pow2(b - 1));
        } else {
            assert(spec_pow2(b) == 1);
            assert(spec_pow2(b - 1) == 1);
        }
    }
}

/// Two to the `k`, for `k` at most 63.
fn pow2(k: u32) -> (r: u64)
    requires
        k <= 63,
    ensures
        r == spec_pow2(k as int),
        r >= 1,
{
    let mut r: u64 = 1;
    let mut i: u32 = 0;
    while i < k
        invariant
            i <= k <= 63,
            r == spec_pow2(i as int),
        decreases k - i,
    {
        proof {
            lemma_pow2_le(i as int, 62);
            lemma_pow2_64();
            lemma_pow2_le(i + 1, 63);
        }
        r = r * 2;
        i = i + 1;
    }
    proof {
        lemma_pow2_pos(k as int);
    }
    r
}

/// The values of two to the 62, 63 and 64.
proof fn lemma_pow2_64()
    ensures
        spec_pow2(62) == 0x4000_0000_0000_0000,
        spec_pow2(63) == 0x8000_0000_0000_0000,
        spec_pow2(64) == 0x1_0000_0000_0000_0000,
{
    reveal_with_fuel(spec_pow2, 65);
}

/// The IEEE-754 single-precision bit pattern of `(n / 30) * 2.5`; see
/// [`spec_beats_bits`].
#[verifier::rlimit(100)]
pub fn beats_bits_for_frames(n: u32) -> (r: u32)
    requires
        1 <= n <= 0x100_0000,
    ensures
        r == spec_beats_bits(n as int),
{
    let num: u64 = (n as u64) * 0x4000_0000;
    let q = num / 30;
    let rem = num % 30;
    let p = bitlen(q);
    proof {
        lemma_pow2_25_55();
        assert(num >= 0x4000_0000);
        vstd::arithmetic::div_mod::lemma_div_is_ordered(0x4000_0000, num as int, 30);
        vstd::arithmetic::div_mod::lemma_fundamental_div_mod_converse(
            0x4000_0000,
            30,
            35791394,
            4,
        );
        assert(q >= 35791394);
        lemma_bitlen_range(q as int);
        if p < 26 {
            lemma_pow2_le(p as int, 25);
            assert(spec_pow2(25) == 0x200_0000);
            assert(false);
        }
        if p > 55 {
            lemma_pow2_le(55, p as int - 1);
            assert(false);
        }
    }
    let shift = p - 24;
    let half = pow2(shift - 1);
    let div = pow2(shift);
    let m = q / div;
    let rb = q % div;
    let mut m0 = m;
    if rb > half || (rb == half && (rem != 0 || m % 2 == 1)) {
        m0 = m + 1;
    }
    proof {
        lemma_pow2_le(24, 24);
        assert(m == q as int / spec_pow2(shift as int));
        assert(m < 0x100_0000) by {
            vstd::arithmetic::div_mod::lemma_fundamental_div_mod(q as int, div as int);
            assert(spec_pow2(p as int) == spec_pow2(shift as int) * spec_pow2(24)) by {
                lemma_pow2_add(shift as int, 24);
            }
            assert(q < spec_pow2(shift as int) * 0x100_0000);
            vstd::arithmetic::div_mod::lemma_mod_pos_bound(q as int, spec_pow2(shift as int));
            assert(q as int / spec_pow2(shift as int) < 0x100_0000) by (nonlinear_arith)
                requires
                    q as int == spec_pow2(shift as int) * (q as int / spec_pow2(shift as int)) + (
                    q as int % spec_pow2(shift as int)),
                    q as int % spec_pow2(shift as int) >= 0,
                    q < spec_pow2(shift as int) * 0x100_0000,
                    spec_pow2(shift as int) >= 1,
            ;
        }
    }
    proof {
        lemma_pow2_23_27();
        lemma_pow2_add(shift as int, 23);
        vstd::arithmetic::div_mod::lemma_fundamental_div_mod(q as int, spec_pow2(shift as int));
        vstd::arithmetic::div_mod::lemma_mod_pos_bound(q as int, spec_pow2(shift as int));
        assert(q >= spec_pow2(shift as int) * 0x80_0000);
        assert(q as int / spec_pow2(shift as int) >= 0x80_0000) by (nonlinear_arith)
            requires
                q as int == spec_pow2(shift as int) * (q as int / spec_pow2(shift as int)) + (
                q as int % spec_pow2(shift as int)),
                q as int % spec_pow2(shift as int) < spec_pow2(shift as int),
                q >= spec_pow2(shift as int) * 0x80_0000,
                spec_pow2(shift as int) >= 1,
        ;
        assert(m >= 0x80_0000);
    }
    let (m2, e2): (u64, u32) = if m0 == 0x100_0000 {
        (0x80_0000, shift + 121)
    } else {
        (m0, shift + 120)
    };
    proof {
        assert(0x80_0000 <= m2 < 0x100_0000);
    }
    let m3 = m2 * 5;
    let shift2: u32 = if m3 >= 0x400_0000 {
        3
    } else {
        2
    };
    let half2 = pow2(shift2 - 1);
    let div2 = pow2(shift2);
    let mq = m3 / div2;
    let rb2 = m3 % div2;
    let mut m4 = mq;
    if rb2 > half2 || (rb2 == half2 && mq % 2 == 1) {
        m4 = mq + 1;
    }
    let (m5, e4): (u64, u32) = if m4 == 0x100_0000 {
        (0x80_0000, e2 + shift2)
    } else {
        (m4, e2 + shift2 - 1)
    };
    proof {
        assert(spec_pow2(2) == 4 && spec_pow2(1) == 2 && spec_pow2(3) == 8) by {
            reveal_with_fuel(spec_pow2, 4);
        }
        assert(div2 == 4 || div2 == 8);
        assert(m3 >= 0x280_0000 && m3 < 0x500_0000);
        vstd::arithmetic::div_mod::lemma_fundamental_div_mod(m3 as int, div2 as int);
        vstd::arithmetic::div_mod::lemma_mod_pos_bound(m3 as int, div2 as int);
        assert(0x80_0000 <= m3 as int / (div2 as int) && m3 as int / (div2 as int) < 0x100_0000)
            by (nonlinear_arith)
            requires
                m3 as int == (div2 as int) * (m3 as int / (div2 as int)) + (m3 as int % (
                div2 as int)),
                0 <= m3 as int % (div2 as int) < (div2 as int),
                (div2 == 4 && 0x280_0000 <= m3 < 0x400_0000) || (div2 == 8 && 0x400_0000 <= m3
                    < 0x500_0000),
        ;
        assert(0x80_0000 <= mq < 0x100_0000);
        assert(0x80_0000 <= m5 <= 0xFF_FFFF);
        assert(e4 <= 160);
    }
    (e4 as u32) * 0x80_0000 + ((m5 as u32) - 0x80_0000)
}

/// The values of two to the 23 through 27.
proof fn lemma_pow2_23_27()
    ensures
        spec_pow2(23) == 0x80_0000,
        spec_pow2(24) == 0x100_0000,
        spec_pow2(25) == 0x200_0000,
        spec_pow2(26) == 0x400_0000,
        spec_pow2(27) == 0x800_0000,
{
    reveal_with_fuel(spec_pow2, 28);
}

/// Powers of two multiply by adding exponents.
proof fn lemma_pow2_add(a: int, b: int)
    requires
        0 <= a,
        0 <= b,
    ensures
        spec_pow2(a + b) == spec_pow2(a) * spec_pow2(b),
    decreases b,
{
    if b > 0 {
        lemma_pow2_add(a, b - 1);
        assert(spec_pow2(a + b) == 2 * spec_pow2(a + b - 1));
        assert(spec_pow2(a) * spec_pow2(b) == spec_pow2(a) * (2 * spec_pow2(b - 1)))
            by (nonlinear_arith)
            requires
                spec_pow2(b) == 2 * spec_pow2(b - 1),
        ;
        assert(spec_pow2(a) * (2 * spec_pow2(b - 1)) == 2 * (spec_pow2(a) * spec_pow2(b - 1)))
            by (nonlinear_arith);
    }
}

/// The values of two to the 25 and two to the 55.
proof fn lemma_pow2_25_55()
    ensures
        spec_pow2(25) == 0x200_0000,
        spec_pow2(55) == 0x80_0000_0000_0000,
    decreases 0int,
{
    reveal_with_fuel(spec_pow2, 56);
}

} // verus!
