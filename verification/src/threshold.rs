//! The threshold of the threshold check.
//!
//! A request gives it in MiB as a double, which stands here as its 64 bits: a sign, eleven
//! bits of exponent and 52 of fraction. What a double denotes is a whole number times a
//! power of two, so the threshold in bytes can be computed in integers.

use vstd::arithmetic::div_mod::lemma_basic_div;
use vstd::arithmetic::power2::{
    lemma2_to64, lemma2_to64_rest, lemma_pow2_adds, lemma_pow2_pos, lemma_pow2_strictly_increases,
    lemma_pow2_unfold, pow2,
};
use vstd::prelude::*;

use crate::error::{ApiError, ApiErrorView};

verus! {

/// The fraction of a double.
pub open spec fn fraction(bits: u64) -> nat {
    (bits % 0x10_0000_0000_0000) as nat
}

/// The exponent field of a double.
pub open spec fn exponent_field(bits: u64) -> nat {
    ((bits / 0x10_0000_0000_0000) % 0x800) as nat
}

/// The double has its sign bit set.
pub open spec fn has_sign(bits: u64) -> bool {
    bits >= 0x8000_0000_0000_0000
}

/// The double is a number, neither infinite nor undefined.
pub open spec fn is_finite(bits: u64) -> bool {
    exponent_field(bits) != 0x7ff
}

/// The whole number that, times two to the power of [`exponent`], is the size of a finite
/// double.
pub open spec fn mantissa(bits: u64) -> nat {
    if exponent_field(bits) == 0 {
        fraction(bits)
    } else {
        fraction(bits) + 0x10_0000_0000_0000
    }
}

/// The power of two in the size of a finite double.
pub open spec fn exponent(bits: u64) -> int {
    if exponent_field(bits) == 0 {
        -1074
    } else {
        exponent_field(bits) - 1075
    }
}

/// `m` times two to the power of `e`, rounded to the nearest whole number, a half upwards.
pub open spec fn scaled(m: nat, e: int) -> nat {
    if e >= 0 {
        m * pow2(e as nat)
    } else {
        (2 * m + pow2((-e) as nat)) / (2 * pow2((-e) as nat))
    }
}

/// The bytes of a finite threshold in MiB, which is two to the power of 20 bytes, rounded to
/// the nearest whole byte.
pub open spec fn rounded_bytes(bits: u64) -> nat {
    scaled(mantissa(bits), exponent(bits) + 20)
}

/// The largest number of bytes that a threshold may have; one more than the largest `i64`.
pub open spec fn bytes_limit() -> int {
    0x8000_0000_0000_0000
}

/// What is wrong with a threshold, if anything.
pub open spec fn threshold_error(bits: u64) -> Option<ApiErrorView> {
    if !is_finite(bits) || (has_sign(bits) && mantissa(bits) > 0) {
        Some(
            ApiErrorView::Validation(
                "threshold_mib must be a finite number greater than or equal to 0"@,
            ),
        )
    } else if rounded_bytes(bits) > bytes_limit() {
        Some(ApiErrorView::Validation("threshold_mib is too large"@))
    } else {
        None
    }
}

/// The threshold in bytes, at most the largest `i64`.
pub open spec fn threshold_bytes_of(bits: u64) -> i64 {
    if rounded_bytes(bits) >= bytes_limit() {
        i64::MAX
    } else {
        rounded_bytes(bits) as i64
    }
}

/// Two to the power of `n`.
fn power_of_two(n: u32) -> (out: u128)
    requires
        n <= 64,
    ensures
        out == pow2(n as nat),
{
    let mut out: u128 = 1;
    let mut i: u32 = 0;
    proof {
        lemma2_to64();
    }
    while i < n
        invariant
            i <= n <= 64,
            out == pow2(i as nat),
        decreases n - i,
    {
        proof {
            lemma_pow2_unfold((i + 1) as nat);
            lemma2_to64();
            if i < 64 {
                lemma_pow2_strictly_increases(i as nat, 64);
            }
        }
        out = 2 * out;
        i = i + 1;
    }
    out
}

/// A whole number times a small enough power of two rounds to zero.
proof fn lemma_scaled_vanishes(m: nat, n: nat)
    requires
        m < 0x20_0000_0000_0000,
        n >= 54,
    ensures
        scaled(m, -(n as int)) == 0,
{
    lemma2_to64_rest();
    if n > 54 {
        lemma_pow2_strictly_increases(54, n);
    }
    lemma_basic_div((2 * m + pow2(n)) as int, (2 * pow2(n)) as int);
}

/// A mantissa with its leading bit times a large enough power of two is over the limit.
proof fn lemma_scaled_exceeds(m: nat, k: nat)
    requires
        m >= 0x10_0000_0000_0000,
        k >= 12,
    ensures
        scaled(m, k as int) > bytes_limit(),
{
    lemma2_to64();
    if k > 12 {
        lemma_pow2_strictly_increases(12, k);
    }
    assert(m * pow2(k) >= 0x10_0000_0000_0000 * 4096) by (nonlinear_arith)
        requires
            m >= 0x10_0000_0000_0000,
            pow2(k) >= 4096,
    ;
}

/// `m` times two to the power of `e`, rounded, where that is at most `u64::MAX`; nothing where it
/// is certainly over the limit.
fn scale(m: u64, e: i32) -> (out: Option<u128>)
    requires
        m < 0x20_0000_0000_0000,
        e >= 0 ==> m >= 0x10_0000_0000_0000,
        -2000 < e < 2000,
    ensures
        match out {
            Some(n) => n == scaled(m as nat, e as int),
            None => scaled(m as nat, e as int) > bytes_limit(),
        },
{
    if e >= 12 {
        proof {
            lemma_scaled_exceeds(m as nat, e as nat);
        }
        None
    } else if e >= 0 {
        let p = power_of_two(e as u32);
        proof {
            lemma2_to64();
            if e < 12 {
                lemma_pow2_strictly_increases(e as nat, 12);
            }
            assert(m * p <= 0x20_0000_0000_0000 * 4096) by (nonlinear_arith)
                requires
                    m < 0x20_0000_0000_0000,
                    p <= 4096,
            ;
        }
        Some(m as u128 * p)
    } else if e <= -54 {
        proof {
            lemma_scaled_vanishes(m as nat, (-e) as nat);
        }
        Some(0)
    } else {
        let p = power_of_two((-e) as u32);
        proof {
            lemma2_to64_rest();
            lemma_pow2_strictly_increases((-e) as nat, 54);
            lemma_pow2_pos((-e) as nat);
        }
        Some((2 * (m as u128) + p) / (2 * p))
    }
}

/// The threshold in bytes of a threshold in MiB, given as the bits of a double. It must be
/// finite and not negative, and its bytes no more than fit.
pub fn threshold_bytes(bits: u64) -> (res: Result<i64, ApiError>)
    ensures
        match res {
            Ok(bytes) => threshold_error(bits) is None && bytes == threshold_bytes_of(bits)
                && bytes >= 0,
            Err(err) => threshold_error(bits) == Some(err@),
        },
{
    let fraction: u64 = bits % 0x10_0000_0000_0000;
    let field: u64 = (bits / 0x10_0000_0000_0000) % 0x800;
    let sign: bool = bits >= 0x8000_0000_0000_0000;
    let m: u64 = if field == 0 {
        fraction
    } else {
        fraction + 0x10_0000_0000_0000
    };
    if field == 0x7ff || (sign && m > 0) {
        return Err(
            ApiError::validation(
                "threshold_mib must be a finite number greater than or equal to 0".to_owned(),
            ),
        );
    }
    let e: i32 = if field == 0 {
        -1074
    } else {
        field as i32 - 1075
    };
    match scale(m, e + 20) {
        Some(n) => {
            if n > 0x8000_0000_0000_0000 {
                Err(ApiError::validation("threshold_mib is too large".to_owned()))
            } else if n == 0x8000_0000_0000_0000 {
                Ok(i64::MAX)
            } else {
                Ok(n as i64)
            }
        },
        None => Err(ApiError::validation("threshold_mib is too large".to_owned())),
    }
}

/// The finite double denotes the whole number `n`.
pub open spec fn denotes(bits: u64, n: nat) -> bool {
    let e = exponent(bits);
    if e >= 0 {
        mantissa(bits) * pow2(e as nat) == n
    } else {
        mantissa(bits) == n * pow2((-e) as nat)
    }
}

/// The bits of a double are its sign, its exponent and its fraction, in this order. A double
/// with the exponent zero is its fraction times the smallest power of two; any other has a
/// leading one before its fraction.
pub proof fn law_bits_are_sign_exponent_fraction(bits: u64, sign: bool, field: nat, frac: nat)
    requires
        field < 2048,
        frac < 0x10_0000_0000_0000,
        bits == (if sign {
            0x8000_0000_0000_0000int
        } else {
            0
        }) + field * 0x10_0000_0000_0000 + frac,
    ensures
        has_sign(bits) == sign,
        is_finite(bits) <==> field < 2047,
        field == 0 ==> mantissa(bits) == frac && exponent(bits) == -1074,
        field > 0 ==> mantissa(bits) == 0x10_0000_0000_0000 + frac && exponent(bits) == field
            - 1075,
{
}

/// A threshold is refused as not finite or negative exactly where it is, and as too large
/// exactly where its bytes are over two to the power of 63. Minus zero is zero.
pub proof fn law_threshold_is_refused_iff_out_of_range(bits: u64)
    ensures
        threshold_error(bits) == Some(
            ApiErrorView::Validation(
                "threshold_mib must be a finite number greater than or equal to 0"@,
            ),
        ) <==> !is_finite(bits) || (has_sign(bits) && mantissa(bits) != 0),
        threshold_error(bits) == Some(ApiErrorView::Validation("threshold_mib is too large"@))
            <==> is_finite(bits) && (!has_sign(bits) || mantissa(bits) == 0) && rounded_bytes(bits)
            > 0x8000_0000_0000_0000,
        threshold_error(bits) is None <==> is_finite(bits) && (!has_sign(bits) || mantissa(bits)
            == 0) && rounded_bytes(bits) <= 0x8000_0000_0000_0000,
{
    reveal_strlit("threshold_mib must be a finite number greater than or equal to 0");
    reveal_strlit("threshold_mib is too large");
    assert("threshold_mib must be a finite number greater than or equal to 0"@.len() == 64);
    assert("threshold_mib is too large"@.len() == 26);
}

/// The bytes of a threshold are those of its MiB: exactly, where these are whole bytes that an
/// `i64` can hold; the largest `i64` where they are more; and else the nearest whole number,
/// a half upwards.
pub proof fn law_bytes_are_those_of_the_mib(bits: u64)
    requires
        is_finite(bits),
    ensures
        exponent(bits) >= -20 ==> ({
            let exact = mantissa(bits) * pow2((exponent(bits) + 20) as nat);
            &&& exact <= i64::MAX ==> threshold_bytes_of(bits) == exact
            &&& exact > i64::MAX ==> threshold_bytes_of(bits) == i64::MAX
            &&& rounded_bytes(bits) == exact
            &&& !has_sign(bits) ==> (threshold_error(bits) is None <==> exact
                <= 0x8000_0000_0000_0000)
        }),
        exponent(bits) < -20 ==> ({
            let parts = pow2((-exponent(bits) - 20) as nat);
            let bytes = threshold_bytes_of(bits);
            &&& 2 * mantissa(bits) < (2 * bytes + 1) * parts
            &&& (2 * bytes - 1) * parts <= 2 * mantissa(bits)
            &&& rounded_bytes(bits) == bytes
            &&& !has_sign(bits) ==> threshold_error(bits) is None
        }),
{
    let m = mantissa(bits);
    let e = exponent(bits) + 20;
    if e < 0 {
        let n = (-e) as nat;
        law_rounding_is_to_nearest(m, n);
        lemma_pow2_pos(n);
        let p = pow2(n);
        let q = rounded_bytes(bits);
        assert(q <= 2 * m) by (nonlinear_arith)
            requires
                (2 * q - 1) * p <= 2 * m,
                p >= 1,
                q >= 0,
                m >= 0,
        ;
        assert(m < 0x20_0000_0000_0000);
    }
}

/// A threshold of `n` MiB is accepted as `n` times 1048576 bytes, for every whole number `n`
/// whose bytes an `i64` can hold.
pub proof fn law_accepted_whole_mib(bits: u64, n: nat)
    requires
        is_finite(bits),
        !has_sign(bits),
        denotes(bits, n),
        n * 1_048_576 <= i64::MAX,
    ensures
        threshold_error(bits) is None,
        threshold_bytes_of(bits) == n * 1_048_576,
{
    law_whole_mib_is_exact(bits, n);
}

/// A threshold of a whole number of MiB is that number times 1048576 bytes.
pub proof fn law_whole_mib_is_exact(bits: u64, n: nat)
    requires
        is_finite(bits),
        denotes(bits, n),
    ensures
        rounded_bytes(bits) == n * 1_048_576,
{
    let m = mantissa(bits);
    let e = exponent(bits);
    lemma2_to64();
    if e >= 0 {
        lemma_pow2_adds(e as nat, 20);
        assert(m * pow2((e + 20) as nat) == n * pow2(20)) by (nonlinear_arith)
            requires
                pow2((e + 20) as nat) == pow2(e as nat) * pow2(20),
                m * pow2(e as nat) == n,
        ;
    } else if e + 20 >= 0 {
        lemma_pow2_adds((-e) as nat, (e + 20) as nat);
        assert(m * pow2((e + 20) as nat) == n * pow2(20)) by (nonlinear_arith)
            requires
                pow2(20) == pow2((-e) as nat) * pow2((e + 20) as nat),
                m == n * pow2((-e) as nat),
        ;
    } else {
        let q = pow2((-e - 20) as nat);
        lemma_pow2_adds(20, (-e - 20) as nat);
        lemma_pow2_pos((-e - 20) as nat);
        assert((2 * m + q) / (2 * q) == n * pow2(20)) by {
            let b = n * pow2(20);
            assert(m == b * q) by (nonlinear_arith)
                requires
                    m == n * pow2((-e) as nat),
                    pow2((-e) as nat) == pow2(20) * q,
                    b == n * pow2(20),
            ;
            assert(2 * m + q == b * (2 * q) + q) by (nonlinear_arith)
                requires
                    m == b * q,
            ;
            vstd::arithmetic::div_mod::lemma_fundamental_div_mod_converse(
                (2 * m + q) as int,
                (2 * q) as int,
                b as int,
                q as int,
            );
        }
    }
}

/// The bytes differ from the threshold by at most half a byte: with the threshold `m` over
/// two to the power of `n`, twice the difference is at most one.
pub proof fn law_rounding_is_to_nearest(m: nat, n: nat)
    requires
        n > 0,
    ensures
        2 * m < (2 * scaled(m, -(n as int)) + 1) * pow2(n),
        (2 * scaled(m, -(n as int)) - 1) * pow2(n) <= 2 * m,
{
    let p = pow2(n);
    lemma_pow2_pos(n);
    let q = scaled(m, -(n as int));
    let x = (2 * m + p) as int;
    let d = (2 * p) as int;
    vstd::arithmetic::div_mod::lemma_fundamental_div_mod(x, d);
    assert(0 <= x % d < d) by {
        vstd::arithmetic::div_mod::lemma_mod_bound(x, d);
    }
    assert(x == d * q + x % d);
    assert((2 * q + 1) * p == d * q + p) by (nonlinear_arith)
        requires
            d == 2 * p,
    ;
    assert((2 * q - 1) * p == d * q - p) by (nonlinear_arith)
        requires
            d == 2 * p,
    ;
}

} // verus!
