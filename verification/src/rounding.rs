//! What it is to be the nearest binary64 value: the bit pattern that stands
//! for a natural number, read back as a significand and a power of two.

use vstd::arithmetic::div_mod::{lemma_fundamental_div_mod, lemma_fundamental_div_mod_converse};
use vstd::arithmetic::power2::{
    lemma_pow2_adds, lemma_pow2_pos, lemma_pow2_strictly_increases, lemma_pow2_unfold, pow2,
};
use vstd::prelude::*;

use crate::binary64::{
    bit_length, lemma_bit_length_exact, lemma_bit_length_lower, lemma_pow2_52_53,
    nearest_binary64, INFINITY_BITS,
};

verus! {

/// The significand of a positive pattern with an exponent field that is
/// not zero: the fraction field under the leading bit that is not stored.
pub open spec fn significand(bits: u64) -> nat {
    pow2(52) + (bits as nat) % pow2(52)
}

/// The power of two by which the significand of a positive pattern is
/// scaled: the exponent field less its bias and the 52 places of the
/// fraction.
pub open spec fn scale(bits: u64) -> int {
    ((bits as nat) / pow2(52)) as int - 1075
}

/// The leading bit of a positive number: a number lies between the power
/// of two of its last binary digit and the next.
pub proof fn lemma_bit_length_bounds(n: nat)
    requires
        n > 0,
    ensures
        pow2((bit_length(n) - 1) as nat) <= n < pow2(bit_length(n)),
    decreases n,
{
    if n == 1 {
        assert(1nat / 2 == 0);
        assert(bit_length(1) == 1) by {
            reveal_with_fuel(bit_length, 3);
        }
        lemma_pow2_52_53();
        lemma_pow2_unfold(1);
    } else {
        lemma_bit_length_bounds(n / 2);
        let k = bit_length(n / 2);
        lemma_pow2_unfold(k);
        lemma_pow2_unfold(k + 1);
    }
}

proof fn lemma_exponent_at_most(n: nat, k: nat)
    requires
        0 < n < pow2(k + 1),
    ensures
        bit_length(n) <= k + 1,
{
    lemma_bit_length_bounds(n);
    let e = (bit_length(n) - 1) as nat;
    if e > k {
        if e > k + 1 {
            lemma_pow2_strictly_increases(k + 1, e);
        }
    }
}

/// The fields of a pattern that is put together from an exponent field
/// and a fraction.
proof fn lemma_fields(field: nat, fraction: nat)
    requires
        fraction < pow2(52),
        field < 2047,
    ensures
        field * pow2(52) + fraction < INFINITY_BITS,
        (field * pow2(52) + fraction) / pow2(52) == field,
        (field * pow2(52) + fraction) % pow2(52) == fraction,
{
    lemma_pow2_52_53();
    let p = pow2(52);
    lemma_fundamental_div_mod_converse(
        (field * p + fraction) as int,
        p as int,
        field as int,
        fraction as int,
    );
    assert(field * p + fraction < 2047 * p) by (nonlinear_arith)
        requires
            field + 1 <= 2047,
            fraction < p,
    ;
}

/// A number of at most 53 binary digits is held exactly: its pattern is
/// finite, and the significand, scaled, is the number.
pub proof fn lemma_short_numbers_are_exact(n: nat)
    requires
        0 < n < pow2(53),
    ensures
        ({
            let bits = nearest_binary64(n);
            &&& bits < INFINITY_BITS
            &&& scale(bits) <= 0
            &&& significand(bits) == n * pow2((-scale(bits)) as nat)
        }),
{
    lemma_pow2_52_53();
    lemma_bit_length_bounds(n);
    lemma_exponent_at_most(n, 52);
    let e = (bit_length(n) - 1) as nat;
    let up = (52 - e) as nat;
    let p = pow2(52);
    let m = n * pow2(up);
    lemma_pow2_adds(e, up);
    lemma_pow2_adds(e + 1, up);
    lemma_pow2_pos(up);
    assert(pow2(e) * pow2(up) <= n * pow2(up)) by (nonlinear_arith)
        requires
            pow2(e) <= n,
    ;
    assert(n * pow2(up) < pow2(e + 1) * pow2(up)) by (nonlinear_arith)
        requires
            n < pow2(e + 1),
            pow2(up) > 0,
    ;
    assert(p <= m < 2 * p);
    lemma_fields(e + 1023, (m - p) as nat);
    assert((e + 1023) * p + m - p == (e + 1023) * p + (m - p) as nat);
}

/// A longer number is rounded to the nearest value, a tie going to the
/// even significand: where the pattern is finite, the significand, scaled,
/// differs from the number by half at most of the weight of the last place
/// that is kept, and by just the half only where the significand is even.
pub proof fn lemma_long_numbers_are_nearest(n: nat)
    requires
        n >= pow2(53),
        nearest_binary64(n) < INFINITY_BITS,
    ensures
        ({
            let bits = nearest_binary64(n);
            let value = significand(bits) * pow2(scale(bits) as nat);
            let last_place = pow2((bit_length(n) - 53) as nat);
            &&& scale(bits) >= 1
            &&& value <= n ==> 2 * (n - value) <= last_place
            &&& value >= n ==> 2 * (value - n) <= last_place
            &&& (2 * (n - value) == last_place || 2 * (value - n) == last_place) ==> significand(
                bits,
            ) % 2 == 0
        }),
{
    lemma_pow2_52_53();
    lemma_bit_length_lower(n, 53);
    lemma_bit_length_bounds(n);
    let bits = nearest_binary64(n);
    let e = (bit_length(n) - 1) as nat;
    assert(53 <= e <= 1023);
    let s = (e - 52) as nat;
    let p = pow2(52);
    let w = pow2(s);
    let q = n / w;
    let r = n % w;
    lemma_pow2_pos(s);
    lemma_fundamental_div_mod(n as int, w as int);
    lemma_pow2_adds(52, s);
    lemma_pow2_adds(53, s);
    assert(n == w * q + r);
    assert(q >= p) by (nonlinear_arith)
        requires
            n == w * q + r,
            r < w,
            n >= p * w,
            w > 0,
    ;
    assert(q < 2 * p) by (nonlinear_arith)
        requires
            n == w * q + r,
            n < (2 * p) * w,
            w > 0,
            pow2(53) == 2 * p,
    ;
    let m = if 2 * r > w || (2 * r == w && q % 2 == 1) {
        q + 1
    } else {
        q
    };
    assert(bits == ((e + 1023) * p + m - p) as u64);
    assert((e + 1023) * p + m - p <= 2047 * p) by (nonlinear_arith)
        requires
            e <= 1023,
            m <= 2 * p,
            p > 0,
    ;
    assert(bits == (e + 1023) * p + m - p);
    if m < 2 * p {
        lemma_fields(e + 1023, (m - p) as nat);
        assert((e + 1023) * p + m - p == (e + 1023) * p + (m - p) as nat);
        assert(scale(bits) == s);
        assert(significand(bits) == m);
        assert(m * w == q * w + (m - q) * w) by (nonlinear_arith);
        assert(w * q == q * w) by (nonlinear_arith);
        if m == q + 1 {
            assert((m - q) * w == w) by (nonlinear_arith)
                requires
                    m - q == 1,
            ;
        } else {
            assert((m - q) * w == 0) by (nonlinear_arith)
                requires
                    m - q == 0,
            ;
        }
    } else {
        assert((e + 1023) * p + m - p == (e + 1024) * p) by (nonlinear_arith)
            requires
                m == 2 * p,
        ;
        assert(e + 1024 < 2047) by {
            if e + 1024 >= 2047 {
                assert((e + 1024) * p >= 2047 * p) by (nonlinear_arith)
                    requires
                        e + 1024 >= 2047,
                        p > 0,
                ;
            }
        }
        lemma_fields(e + 1024, 0);
        assert(scale(bits) == s + 1);
        assert(significand(bits) == p);
        lemma_pow2_unfold(s + 1);
        assert(p * (2 * w) == (q + 1) * w) by (nonlinear_arith)
            requires
                q + 1 == 2 * p,
        ;
        assert((q + 1) * w == q * w + w) by (nonlinear_arith);
        assert(w * q == q * w) by (nonlinear_arith);
        assert(p % 2 == 0);
    }
}

/// A number is beyond the finite range where it is at least halfway from
/// the greatest finite value to two to the power 1024: such a number, and
/// no other, has the pattern of infinity.
pub proof fn lemma_overflow(n: nat)
    ensures
        nearest_binary64(n) == INFINITY_BITS <==> n + pow2(970) >= pow2(1024),
{
    lemma_pow2_52_53();
    let p = pow2(52);
    let half = pow2(970);
    let w = pow2(971);
    let top = pow2(1024);
    lemma_pow2_unfold(971);
    lemma_pow2_adds(53, 971);
    lemma_pow2_adds(52, 971);
    lemma_pow2_pos(970);
    assert(top == (2 * p) * w);
    assert(pow2(1023) == p * w);
    assert((2 * p) * w == 2 * (p * w)) by (nonlinear_arith);
    if n == 0 {
        assert(p * w >= w) by (nonlinear_arith)
            requires
                p >= 1,
                w > 0,
        ;
    } else {
        lemma_bit_length_bounds(n);
        let e = (bit_length(n) - 1) as nat;
        if e > 1023 {
            if e > 1024 {
                lemma_pow2_strictly_increases(1024, e);
            }
        } else if e <= 52 {
            let up = (52 - e) as nat;
            let m = n * pow2(up);
            lemma_pow2_adds(e, up);
            lemma_pow2_adds(e + 1, up);
            lemma_pow2_pos(up);
            assert(pow2(e) * pow2(up) <= n * pow2(up)) by (nonlinear_arith)
                requires
                    pow2(e) <= n,
            ;
            assert(n * pow2(up) < pow2(e + 1) * pow2(up)) by (nonlinear_arith)
                requires
                    n < pow2(e + 1),
                    pow2(up) > 0,
            ;
            lemma_fields(e + 1023, (m - p) as nat);
            assert((e + 1023) * p + m - p == (e + 1023) * p + (m - p) as nat);
            if e + 1 < 53 {
                lemma_pow2_strictly_increases(e + 1, 53);
            }
            assert(n < 2 * p);
            lemma_pow2_unfold(1);
            lemma_pow2_unfold(2);
            lemma_pow2_strictly_increases(2, 971);
            assert(p * w >= 2 * p + w) by (nonlinear_arith)
                requires
                    p >= 4,
                    w >= 4,
            ;
        } else {
            let s = (e - 52) as nat;
            let v = pow2(s);
            let q = n / v;
            let r = n % v;
            lemma_pow2_pos(s);
            lemma_fundamental_div_mod(n as int, v as int);
            lemma_pow2_adds(52, s);
            lemma_pow2_adds(53, s);
            assert(q >= p) by (nonlinear_arith)
                requires
                    n == v * q + r,
                    r < v,
                    n >= p * v,
                    v > 0,
            ;
            assert(q < 2 * p) by (nonlinear_arith)
                requires
                    n == v * q + r,
                    n < (2 * p) * v,
                    v > 0,
                    pow2(53) == 2 * p,
            ;
            let m = if 2 * r > v || (2 * r == v && q % 2 == 1) {
                q + 1
            } else {
                q
            };
            let bits = nearest_binary64(n);
            assert((e + 1023) * p + m - p <= 2047 * p) by (nonlinear_arith)
                requires
                    e <= 1023,
                    m <= 2 * p,
                    p > 0,
            ;
            assert(bits == (e + 1023) * p + m - p);
            if e < 1023 {
                assert((e + 1023) * p + m - p < 2047 * p) by (nonlinear_arith)
                    requires
                        e + 1 <= 1023,
                        m <= 2 * p,
                        p > 0,
                ;
                lemma_pow2_strictly_increases(e + 1, 1024);
                if e + 1 < 1023 {
                    lemma_pow2_strictly_increases(e + 1, 1023);
                }
                assert(n < pow2(1023));
                assert(half < p * w) by (nonlinear_arith)
                    requires
                        w == 2 * half,
                        p >= 1,
                        half > 0,
                ;
            } else {
                assert(s == 971);
                assert(v == w);
                assert((1023 + 1023) * p + m - p == 2047 * p <==> m == 2 * p) by (nonlinear_arith);
                assert(w * q == q * w) by (nonlinear_arith);
                if q == 2 * p - 1 {
                    assert(q * w == (2 * p) * w - w) by (nonlinear_arith)
                        requires
                            q == 2 * p - 1,
                    ;
                } else {
                    assert(q * w <= (2 * p) * w - 2 * w) by (nonlinear_arith)
                        requires
                            q + 2 <= 2 * p,
                            w > 0,
                    ;
                }
            }
        }
    }
}

} // verus!
