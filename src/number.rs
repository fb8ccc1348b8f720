//! Numbers of the machine are IEEE-754 binary64 values, held as their bit
//! patterns. This module states, over those bits, the few properties that the
//! machine decides on itself: finiteness, zero, NaN, order, and rounding to
//! the nearest integer.
use vstd::arithmetic::power2::*;
use vstd::prelude::*;

verus! {

/// Bit pattern of `1.0`.
pub const ONE_BITS: u64 = 0x3ff0_0000_0000_0000;

/// Bit pattern of `10.0`.
pub const TEN_BITS: u64 = 0x4024_0000_0000_0000;

/// Bit pattern of `1000.0`.
pub const THOUSAND_BITS: u64 = 0x408f_4000_0000_0000;

/// Cell of the `Literal` opcode (`0.0`).
pub const LITERAL_CELL: u64 = 0;

/// Cell of the `Halt` opcode (`8.0`).
pub const HALT_CELL: u64 = 0x4020_0000_0000_0000;

/// Largest distance from the nearest integer that a cell may have and still
/// decode as that integer, as a fraction `1 / TOLERANCE_INV`.
pub const TOLERANCE_INV: u64 = 1_000_000_000;

pub open spec fn exponent_field(b: u64) -> u64 {
    (b >> 52u64) & 0x7ffu64
}

pub open spec fn fraction_field(b: u64) -> u64 {
    b & 0xf_ffff_ffff_ffffu64
}

pub open spec fn magnitude_field(b: u64) -> u64 {
    b & 0x7fff_ffff_ffff_ffffu64
}

pub open spec fn is_negative_bits(b: u64) -> bool {
    (b >> 63u64) == 1u64
}

pub open spec fn is_finite_bits(b: u64) -> bool {
    exponent_field(b) != 0x7ffu64
}

pub open spec fn is_nan_bits(b: u64) -> bool {
    exponent_field(b) == 0x7ffu64 && fraction_field(b) != 0
}

pub open spec fn is_zero_bits(b: u64) -> bool {
    magnitude_field(b) == 0
}

/// Position of a number on the extended real line: for any two numbers that
/// are not NaN, `x < y` exactly when `order_key(x) < order_key(y)`.
pub open spec fn order_key(b: u64) -> int {
    if is_negative_bits(b) {
        -(magnitude_field(b) as int)
    } else {
        magnitude_field(b) as int
    }
}

/// `a > b` as binary64 values: false when either is NaN.
pub open spec fn number_gt(a: u64, b: u64) -> bool {
    !is_nan_bits(a) && !is_nan_bits(b) && order_key(a) > order_key(b)
}

/// The significand: a finite number has magnitude `significand * 2^scale`.
pub open spec fn significand(b: u64) -> nat {
    if exponent_field(b) == 0 {
        fraction_field(b) as nat
    } else {
        fraction_field(b) as nat + pow2(52)
    }
}

pub open spec fn scale(b: u64) -> int {
    (if exponent_field(b) == 0 {
        1int
    } else {
        exponent_field(b) as int
    }) - 1075
}

/// The magnitude of a finite number rounded to the nearest integer, halves
/// away from zero.
pub open spec fn rounded_magnitude(b: u64) -> nat {
    if scale(b) >= 0 {
        significand(b) * pow2(scale(b) as nat)
    } else {
        let p = pow2((-scale(b)) as nat);
        (significand(b) + p / 2) / p
    }
}

/// The distance from a finite number to its nearest integer is at most
/// `1 / TOLERANCE_INV`.
pub open spec fn within_tolerance(b: u64) -> bool {
    scale(b) >= 0 || {
        let p = pow2((-scale(b)) as nat);
        let r = significand(b) % p;
        let d = if r <= p - r {
            r as int
        } else {
            p - r
        };
        d * TOLERANCE_INV <= p
    }
}

pub open spec fn clamp_i64(v: int) -> i64 {
    if v < i64::MIN {
        i64::MIN
    } else if v > i64::MAX {
        i64::MAX
    } else {
        v as i64
    }
}

/// A finite number rounded to the nearest integer, saturated to `i64`.
pub open spec fn rounded_i64(b: u64) -> i64 {
    if is_negative_bits(b) {
        clamp_i64(-(rounded_magnitude(b) as int))
    } else {
        clamp_i64(rounded_magnitude(b) as int)
    }
}

/// What a program cell decodes to: the nearest integer when the cell is
/// finite and within tolerance of it, and nothing otherwise.
pub open spec fn decoded(b: u64) -> Option<i64> {
    if is_finite_bits(b) && within_tolerance(b) {
        Some(rounded_i64(b))
    } else {
        None
    }
}

/// A cell decodes to its nearest integer exactly when it is finite and
/// within tolerance of that integer; every other cell decodes to nothing.
pub proof fn law_decode_tolerance(b: u64)
    ensures
        is_finite_bits(b) && within_tolerance(b) ==> decoded(b) == Some(rounded_i64(b)),
        !(is_finite_bits(b) && within_tolerance(b)) ==> decoded(b) is None,
{
}

pub fn is_finite(b: u64) -> (r: bool)
    ensures
        r == is_finite_bits(b),
{
    (b >> 52u64) & 0x7ffu64 != 0x7ffu64
}

pub fn is_nan(b: u64) -> (r: bool)
    ensures
        r == is_nan_bits(b),
{
    (b >> 52u64) & 0x7ffu64 == 0x7ffu64 && b & 0xf_ffff_ffff_ffffu64 != 0
}

pub fn is_zero(b: u64) -> (r: bool)
    ensures
        r == is_zero_bits(b),
{
    b & 0x7fff_ffff_ffff_ffffu64 == 0
}

pub fn is_negative(b: u64) -> (r: bool)
    ensures
        r == is_negative_bits(b),
{
    (b >> 63u64) == 1u64
}

/// `a > b` on binary64 values given by their bits.
pub fn greater_than(a: u64, b: u64) -> (r: bool)
    ensures
        r == number_gt(a, b),
{
    if is_nan(a) || is_nan(b) {
        return false;
    }
    let ma = a & 0x7fff_ffff_ffff_ffffu64;
    let mb = b & 0x7fff_ffff_ffff_ffffu64;
    let na = is_negative(a);
    let nb = is_negative(b);
    if !na && !nb {
        ma > mb
    } else if na && nb {
        ma < mb
    } else if !na && nb {
        ma > 0 || mb > 0
    } else {
        false
    }
}

fn pow2_u128(s: u64) -> (r: u128)
    requires
        s <= 100,
    ensures
        r == pow2(s as nat),
        r <= pow2(100),
{
    let mut p: u128 = 1;
    let mut i: u64 = 0;
    proof {
        reveal(pow2);
        lemma2_to64();
    }
    while i < s
        invariant
            i <= s <= 100,
            p == pow2(i as nat),
        decreases s - i,
    {
        proof {
            lemma_pow2_unfold((i + 1) as nat);
            if i + 1 < 100 {
                lemma_pow2_strictly_increases((i + 1) as nat, 100);
            }
            lemma_pow2_bound_u128(100);
        }
        p = p * 2;
        i = i + 1;
    }
    proof {
        if s < 100 {
            lemma_pow2_strictly_increases(s as nat, 100);
        }
    }
    p
}

proof fn lemma_pow2_bound_u128(e: nat)
    requires
        e == 100,
    ensures
        pow2(e) < 0x1_0000_0000_0000_0000_0000_0000_0000_0000,
{
    lemma_pow2_adds(64, 36);
    lemma2_to64();
    lemma2_to64_rest();
    assert(pow2(36) == 0x10_0000_0000);
    assert(pow2(64) * pow2(36) == 0x10_0000_0000_0000_0000_0000_0000) by (nonlinear_arith)
        requires
            pow2(36) == 0x10_0000_0000,
            pow2(64) == 0x1_0000_0000_0000_0000,
    ;
}

proof fn lemma_fields(b: u64)
    ensures
        fraction_field(b) < 0x10_0000_0000_0000u64,
        exponent_field(b) <= 0x7ffu64,
        significand(b) < pow2(53),
        exponent_field(b) != 0 ==> significand(b) >= pow2(52),
{
    assert(b & 0xf_ffff_ffff_ffffu64 <= 0xf_ffff_ffff_ffffu64) by (bit_vector);
    assert((b >> 52u64) & 0x7ffu64 <= 0x7ffu64) by (bit_vector);
    lemma2_to64();
    lemma2_to64_rest();
    lemma_pow2_unfold(53);
}

/// The magnitude of a finite number rounded to the nearest integer, saturated
/// at `2^63`, and whether the number lies within tolerance of that integer.
fn rounded_parts(b: u64) -> (r: (u64, bool))
    requires
        is_finite_bits(b),
    ensures
        r.0 as int == (if rounded_magnitude(b) >= 0x8000_0000_0000_0000 {
            0x8000_0000_0000_0000int
        } else {
            rounded_magnitude(b) as int
        }),
        r.1 == within_tolerance(b),
{
    proof {
        lemma_fields(b);
        lemma2_to64();
        lemma2_to64_rest();
    }
    let e = (b >> 52u64) & 0x7ffu64;
    let f = b & 0xf_ffff_ffff_ffffu64;
    let sig: u64 = if e == 0 {
        f
    } else {
        f + 0x10_0000_0000_0000u64
    };
    let base: u64 = if e == 0 {
        1
    } else {
        e
    };
    assert(sig == significand(b));
    if base >= 1075 {
        let sh = base - 1075;
        if sh > 10 {
            proof {
                lemma_pow2_strictly_increases(10, sh as nat);
                lemma_pow2_adds(52, 11);
                lemma_pow2_unfold(11);
                assert(pow2(11) <= pow2(sh as nat)) by {
                    if sh > 11 {
                        lemma_pow2_strictly_increases(11, sh as nat);
                    }
                }
                assert(significand(b) * pow2(sh as nat) >= pow2(52) * pow2(11)) by (nonlinear_arith)
                    requires
                        significand(b) >= pow2(52),
                        pow2(sh as nat) >= pow2(11),
                ;
            }
            (0x8000_0000_0000_0000u64, true)
        } else {
            let p = pow2_u128(sh);
            proof {
                if sh < 10 {
                    lemma_pow2_strictly_increases(sh as nat, 10);
                }
                assert(sig * p <= 0x20_0000_0000_0000 * 0x400) by (nonlinear_arith)
                    requires
                        sig < 0x20_0000_0000_0000,
                        p <= 0x400,
                ;
            }
            let m = (sig as u128) * p;
            (m as u64, true)
        }
    } else {
        let s = 1075 - base;
        if s > 82 {
            proof {
                let pp = pow2(s as nat);
                lemma_pow2_unfold(s as nat);
                if s - 1 > 82 {
                    lemma_pow2_strictly_increases(82, (s - 1) as nat);
                }
                lemma_pow2_adds(53, 30);
                let half = pow2((s - 1) as nat);
                assert(pp / 2 == half);
                assert(significand(b) < half) by {
                    lemma_pow2_strictly_increases(53, 82);
                }
                assert((significand(b) + pp / 2) / pp == 0) by (nonlinear_arith)
                    requires
                        significand(b) + pp / 2 < pp,
                        pp > 0,
                ;
                assert(significand(b) % pp == significand(b)) by (nonlinear_arith)
                    requires
                        significand(b) < pp,
                ;
                assert(pow2(30) == 0x4000_0000);
                assert(significand(b) * 1_000_000_000 <= pow2(53) * pow2(30)) by (nonlinear_arith)
                    requires
                        significand(b) < pow2(53),
                        pow2(30) == 0x4000_0000,
                ;
                assert(pow2(83) <= pp) by {
                    if s > 83 {
                        lemma_pow2_strictly_increases(83, s as nat);
                    }
                }
            }
            (0, true)
        } else {
            let p = pow2_u128(s);
            let sig128 = sig as u128;
            proof {
                lemma_pow2_unfold(s as nat);
                if s < 82 {
                    lemma_pow2_strictly_increases(s as nat, 82);
                }
                lemma_pow2_adds(53, 29);
                lemma_pow2_adds(82, 30);
                lemma_pow2_pos(s as nat);
                assert(pow2(30) == 0x4000_0000);
                assert(pow2(29) == 0x2000_0000);
            }
            let mag = (sig128 + p / 2) / p;
            proof {
                let (x, y, z) = (mag as int, sig128 as int, p as int);
                vstd::arithmetic::div_mod::lemma_fundamental_div_mod(y + z / 2, z);
                vstd::arithmetic::div_mod::lemma_mod_pos_bound(y + z / 2, z);
                assert(x <= y + 1) by (nonlinear_arith)
                    requires
                        z >= 1,
                        y >= 0,
                        z * x <= y + z / 2,
                ;
            }
            let r = sig128 % p;
            let d = if r <= p - r {
                r
            } else {
                p - r
            };
 proof {
                assert(d < 0x4_0000_0000_0000_0000_0000) by {
                    lemma_pow2_strictly_increases(s as nat, 83);
                }
            }
            proof {
                let dd = d as int;
                assert(dd * 1_000_000_000 < 0x1_0000_0000_0000_0000_0000_0000_0000) by (
                nonlinear_arith)
                    requires
                        0 <= dd < 0x4_0000_0000_0000_0000_0000,
                ;
            }
            let ok = d * (TOLERANCE_INV as u128) <= p;
            (mag as u64, ok)
        }
    }
}

/// Decodes a program cell: the nearest integer when the cell is finite and
/// within tolerance of it.
pub fn decode_cell(b: u64) -> (r: Option<i64>)
    ensures
        r == decoded(b),
{
    if !is_finite(b) {
        return None;
    }
    let (mag, ok) = rounded_parts(b);
    if !ok {
        return None;
    }
    if is_negative(b) {
        if mag == 0x8000_0000_0000_0000u64 {
            Some(i64::MIN)
        } else {
            Some(-(mag as i64))
        }
    } else if mag >= 0x8000_0000_0000_0000u64 {
        Some(i64::MAX)
    } else {
        Some(mag as i64)
    }
}

/// A finite, non-negative cell rounded to the nearest integer, saturated at
/// `2^63`: the form a jump target takes.
pub fn target_index(b: u64) -> (r: u64)
    requires
        is_finite_bits(b),
    ensures
        r as int == (if rounded_magnitude(b) >= 0x8000_0000_0000_0000 {
            0x8000_0000_0000_0000int
        } else {
            rounded_magnitude(b) as int
        }),
{
    let (mag, _) = rounded_parts(b);
    mag
}

/// The exact binary64 value of a non-negative integer below `2^53`: its
/// significand times two to its scale is the integer.
pub open spec fn exact_value_of(b: u64, n: nat) -> bool {
    if scale(b) >= 0 {
        significand(b) * pow2(scale(b) as nat) == n
    } else {
        significand(b) == n * pow2((-scale(b)) as nat)
    }
}

fn pow2_u64(s: u64) -> (r: u64)
    requires
        s < 64,
    ensures
        r == pow2(s as nat),
{
    proof {
        lemma_pow2_bound_u128(100);
        if s < 100 {
            lemma_pow2_strictly_increases(s as nat, 64);
        }
        lemma2_to64();
    }
    let p = pow2_u128(s);
    p as u64
}

proof fn lemma_fields_of(e: u64, f: u64)
    requires
        e < 0x800,
        f < 0x10_0000_0000_0000,
    ensures
        exponent_field((e << 52u64) | f) == e,
        fraction_field((e << 52u64) | f) == f,
        !is_negative_bits((e << 52u64) | f),
{
    assert((((e << 52u64) | f) >> 52u64) & 0x7ffu64 == e) by (bit_vector)
        requires
            e < 0x800,
            f < 0x10_0000_0000_0000,
    ;
    assert(((e << 52u64) | f) & 0xf_ffff_ffff_ffffu64 == f) by (bit_vector)
        requires
            e < 0x800,
            f < 0x10_0000_0000_0000,
    ;
    assert(((e << 52u64) | f) >> 63u64 == 0) by (bit_vector)
        requires
            e < 0x800,
            f < 0x10_0000_0000_0000,
    ;
}

/// The cell that holds integer `n` exactly.
pub fn cell_of(n: u64) -> (r: u64)
    requires
        n < 0x20_0000_0000_0000,
    ensures
        is_finite_bits(r),
        !is_negative_bits(r),
        exact_value_of(r, n as nat),
        decoded(r) == Some(n as i64),
{
    proof {
        lemma2_to64();
        lemma2_to64_rest();
    }
    if n == 0 {
        proof {
            assert(exponent_field(0u64) == 0 && fraction_field(0u64) == 0) by (bit_vector);
            assert(0u64 >> 63u64 == 0) by (bit_vector);
            let p = pow2(1074);
            lemma_pow2_unfold(1074);
            lemma_pow2_pos(1073);
            assert(p / 2 < p);
            assert((0 + p / 2) / p == 0) by (nonlinear_arith)
                requires
                    p / 2 < p,
                    p > 0,
            ;
            assert(0nat % p == 0) by (nonlinear_arith)
                requires
                    p > 0,
            ;
        }
        return 0;
    }
    let mut k: u64 = 0;
    while k < 52 && pow2_u64(k + 1) <= n
        invariant
            k <= 52,
            pow2(k as nat) <= n,
            n < 0x20_0000_0000_0000,
        decreases 52 - k,
    {
        k = k + 1;
    }
    proof {
        if k < 52 {
            assert(n < pow2((k + 1) as nat));
        } else {
            assert(n < pow2(53));
        }
    }
    let p = pow2_u64(52 - k);
    proof {
        lemma_pow2_adds(k as nat, (52 - k) as nat);
        lemma_pow2_adds((k + 1) as nat, (52 - k) as nat);
        lemma_pow2_unfold(53);
        assert(n * p < pow2(53)) by (nonlinear_arith)
            requires
                n < pow2((k + 1) as nat),
                pow2((k + 1) as nat) * p == pow2(53),
                p > 0,
        ;
        assert(n * p >= pow2(52)) by (nonlinear_arith)
            requires
                n >= pow2(k as nat),
                pow2(k as nat) * p == pow2(52),
        ;
    }
    let sig = n * p;
    let frac = sig - 0x10_0000_0000_0000u64;
    let e = 1023 + k;
    proof {
        lemma_fields_of(e, frac);
    }
    let r = (e << 52u64) | frac;
    proof {
        assert(significand(r) == sig);
        assert(scale(r) == k - 52);
        let s = (52 - k) as nat;
        if k == 52 {
            assert(p == 1);
        } else {
            lemma_pow2_unfold(s);
            let pp = p as int;
            let sg = sig as int;
            let nn = n as int;
            assert((sg + pp / 2) / pp == nn) by (nonlinear_arith)
                requires
                    sg == nn * pp,
                    pp >= 2,
                    pp / 2 < pp,
            ;
            assert(sg % pp == 0) by (nonlinear_arith)
                requires
                    sg == nn * pp,
                    pp >= 2,
            ;
        }
    }
    r
}

/// Memory addresses are scaled by this before rounding to a key.
pub const ADDRESS_SCALE: u64 = 10_000_000_000;

/// The magnitude of a finite number times `ADDRESS_SCALE`, rounded to the
/// nearest integer, halves away from zero.
pub open spec fn scaled_magnitude(b: u64) -> nat {
    if scale(b) >= 0 {
        significand(b) * (ADDRESS_SCALE as nat) * pow2(scale(b) as nat)
    } else {
        let p = pow2((-scale(b)) as nat);
        (significand(b) * (ADDRESS_SCALE as nat) + p / 2) / p
    }
}

/// The memory key of a finite address: the address times `ADDRESS_SCALE`,
/// rounded to the nearest integer and saturated to `i64`.
pub open spec fn quantized(b: u64) -> i64 {
    if is_negative_bits(b) {
        clamp_i64(-(scaled_magnitude(b) as int))
    } else {
        clamp_i64(scaled_magnitude(b) as int)
    }
}

/// The memory key of a finite address.
pub fn quantize_address(b: u64) -> (r: i64)
    requires
        is_finite_bits(b),
    ensures
        r == quantized(b),
{
    proof {
        lemma_fields(b);
        lemma2_to64();
        lemma2_to64_rest();
    }
    let e = (b >> 52u64) & 0x7ffu64;
    let f = b & 0xf_ffff_ffff_ffffu64;
    let sig: u64 = if e == 0 {
        f
    } else {
        f + 0x10_0000_0000_0000u64
    };
    let base: u64 = if e == 0 {
        1
    } else {
        e
    };
    assert(sig == significand(b));
    let m: u128 = (sig as u128) * (ADDRESS_SCALE as u128);
    proof {
        lemma_pow2_adds(53, 34);
        assert(pow2(34) == 0x4_0000_0000);
        assert(m < pow2(87)) by (nonlinear_arith)
            requires
                m == sig * 10_000_000_000,
                sig < pow2(53),
                pow2(87) == pow2(53) * pow2(34),
                pow2(34) == 0x4_0000_0000,
        ;
        lemma_pow2_bound_u128(100);
        lemma_pow2_strictly_increases(87, 100);
    }
    let mag: u64 = if base >= 1075 {
        let ghost sh = (base - 1075) as nat;
        proof {
            lemma_pow2_pos(sh);
            lemma_pow2_adds(52, 33);
            assert(pow2(33) == 0x2_0000_0000);
            assert(sig * ADDRESS_SCALE * pow2(sh) >= 0x8000_0000_0000_0000) by (nonlinear_arith)
                requires
                    sig >= pow2(52),
                    pow2(52) == 0x10_0000_0000_0000,
                    pow2(sh) >= 1,
                    ADDRESS_SCALE == 10_000_000_000,
            ;
        }
        0x8000_0000_0000_0000u64
    } else {
        let s = 1075 - base;
        if s > 88 {
            proof {
                let pp = pow2(s as nat) as int;
                lemma_pow2_unfold(s as nat);
                lemma_pow2_strictly_increases(87, (s - 1) as nat);
                let mm = m as int;
                assert((mm + pp / 2) / pp == 0) by (nonlinear_arith)
                    requires
                        mm + pp / 2 < pp,
                        mm >= 0,
                ;
            }
            0
        } else {
            let p = pow2_u128(s);
            proof {
                lemma_pow2_pos(s as nat);
                if s < 88 {
                    lemma_pow2_strictly_increases(s as nat, 88);
                }
                lemma_pow2_strictly_increases(88, 100);
                lemma_pow2_unfold(s as nat);
            }
            let q = (m + p / 2) / p;
            if q >= 0x8000_0000_0000_0000u128 {
                0x8000_0000_0000_0000u64
            } else {
                q as u64
            }
        }
    };
    if (b >> 63u64) == 1u64 {
        if mag == 0x8000_0000_0000_0000u64 {
            i64::MIN
        } else {
            -(mag as i64)
        }
    } else if mag >= 0x8000_0000_0000_0000u64 {
        i64::MAX
    } else {
        mag as i64
    }
}

} // verus!
