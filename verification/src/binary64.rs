use vstd::arithmetic::div_mod::{lemma_div_denominator, lemma_fundamental_div_mod};
use vstd::arithmetic::power2::{
    lemma2_to64, lemma2_to64_rest, lemma_pow2_adds, lemma_pow2_pos, lemma_pow2_unfold, pow2,
};
use vstd::prelude::*;

use crate::text::characters;

verus! {

/// The bit pattern of the tolerance with which numbers are held equal: one
/// millionth, as the nearest binary64 value.
pub const TOLERANCE_BITS: u64 = 0x3EB0_C6F7_A0B5_ED8D;

/// The sign bit of a binary64 bit pattern.
pub const SIGN_BIT: u64 = 0x8000_0000_0000_0000;

/// The bit pattern of positive infinity. Every pattern whose magnitude is
/// greater is a NaN.
pub const INFINITY_BITS: u64 = 0x7FF0_0000_0000_0000;

/// Two to the power 52: the weight of the leading bit of a significand.
pub const HIDDEN_BIT: u64 = 0x10_0000_0000_0000;

/// An IEEE-754 binary64 value, held as its bit pattern.
#[derive(Debug, Clone, Copy, PartialEq, Eq, Structural)]
pub struct Binary64 {
    pub bits: u64,
}

/// Whether a character is one of the ten decimal digits.
pub open spec fn is_digit(c: char) -> bool {
    '0' <= c && c <= '9'
}

/// Whether a text holds decimal digits alone.
pub open spec fn all_digits(text: Seq<char>) -> bool {
    forall|i: int| 0 <= i < text.len() ==> is_digit(#[trigger] text[i])
}

/// The value of a decimal digit.
pub open spec fn digit_of(c: char) -> nat {
    (c as int - '0' as int) as nat
}

/// The digit that writes a number below ten.
pub open spec fn digit_character(d: nat) -> char {
    if d == 0 {
        '0'
    } else if d == 1 {
        '1'
    } else if d == 2 {
        '2'
    } else if d == 3 {
        '3'
    } else if d == 4 {
        '4'
    } else if d == 5 {
        '5'
    } else if d == 6 {
        '6'
    } else if d == 7 {
        '7'
    } else if d == 8 {
        '8'
    } else {
        '9'
    }
}

/// The natural number that a string of decimal digits writes.
pub open spec fn decimal_value(digits: Seq<char>) -> nat
    decreases digits.len(),
{
    if digits.len() == 0 {
        0
    } else {
        10 * decimal_value(digits.drop_last()) + digit_of(digits.last())
    }
}

/// The number of binary digits of `n`: zero for zero, else one more than
/// the floor of its logarithm to base two.
pub open spec fn bit_length(n: nat) -> nat
    decreases n,
{
    if n == 0 {
        0
    } else {
        1 + bit_length(n / 2)
    }
}

/// The bit pattern of the binary64 value nearest to `n`, ties going to the
/// even significand, and infinity where `n` is beyond the finite range.
///
/// With `e` the exponent of the leading bit of `n`, a number of at most 53
/// bits is held exactly. A longer one loses its low `e - 52` bits and is
/// rounded on them; where rounding carries out of the significand, the sum
/// below moves the carry into the exponent field, up to the pattern of
/// infinity.
pub open spec fn nearest_binary64(n: nat) -> u64 {
    if n == 0 {
        0
    } else {
        let e = (bit_length(n) - 1) as nat;
        if e <= 52 {
            ((e + 1023) * pow2(52) + n * pow2((52 - e) as nat) - pow2(52)) as u64
        } else if e > 1023 {
            INFINITY_BITS
        } else {
            let s = (e - 52) as nat;
            let q = n / pow2(s);
            let r = n % pow2(s);
            let m = if 2 * r > pow2(s) || (2 * r == pow2(s) && q % 2 == 1) {
                q + 1
            } else {
                q
            };
            ((e + 1023) * pow2(52) + m - pow2(52)) as u64
        }
    }
}

/// What `from_decimal` returns for a text.
pub open spec fn decimal_literal(text: Seq<char>) -> Option<Binary64> {
    if text.len() > 0 && all_digits(text) {
        Some(Binary64 { bits: nearest_binary64(decimal_value(text)) })
    } else {
        None
    }
}

/// One more digit at the end: ten times the number, and the digit.
pub proof fn lemma_decimal_value_push(digits: Seq<char>, c: char)
    ensures
        decimal_value(digits.push(c)) == 10 * decimal_value(digits) + digit_of(c),
{
    assert(digits.push(c).drop_last() =~= digits);
}

proof fn lemma_prefix_value(digits: Seq<char>, i: int)
    requires
        0 <= i <= digits.len(),
    ensures
        decimal_value(digits.take(i)) <= decimal_value(digits),
    decreases digits.len() - i,
{
    if i == digits.len() {
        assert(digits.take(i) =~= digits);
    } else {
        lemma_prefix_value(digits, i + 1);
        assert(digits.take(i + 1).drop_last() =~= digits.take(i));
    }
}

/// The powers of two that bound a significand.
pub proof fn lemma_pow2_52_53()
    ensures
        pow2(52) == 0x10_0000_0000_0000,
        pow2(53) == 0x20_0000_0000_0000,
        pow2(0) == 1,
{
    lemma2_to64();
    lemma2_to64_rest();
}

/// One more halving: the quotient by the next power of two, and the
/// remainder by it.
proof fn lemma_halving_step(n: nat, s: nat)
    ensures
        n / pow2(s + 1) == (n / pow2(s)) / 2,
        n % pow2(s + 1) == n % pow2(s) + pow2(s) * ((n / pow2(s)) % 2),
{
    let p = pow2(s);
    lemma_pow2_pos(s);
    lemma_pow2_unfold(s + 1);
    assert(pow2(s + 1) == p * 2);
    lemma_div_denominator(n as int, p as int, 2);
    let q = n / p;
    lemma_fundamental_div_mod(n as int, p as int);
    lemma_fundamental_div_mod(q as int, 2);
    lemma_fundamental_div_mod(n as int, (p * 2) as int);
    assert(n == p * q + n % p);
    assert(q == 2 * (q / 2) + q % 2);
    assert(n == (p * 2) * (q / 2) + n % (p * 2));
    assert(p * q == (p * 2) * (q / 2) + p * (q % 2)) by (nonlinear_arith)
        requires
            q == 2 * (q / 2) + q % 2,
    ;
}

/// A number between two powers of two has as many binary digits as the
/// greater one has zeros.
pub proof fn lemma_bit_length_exact(n: nat, k: nat)
    requires
        pow2(k) <= n < pow2(k + 1),
    ensures
        bit_length(n) == k + 1,
    decreases k,
{
    lemma_pow2_pos(k);
    if k == 0 {
        lemma2_to64();
        assert(n == 1);
        assert(bit_length(1) == 1 + bit_length(0)) by {
            assert(1nat / 2 == 0);
        }
    } else {
        lemma_pow2_unfold(k);
        lemma_pow2_unfold(k + 1);
        lemma_bit_length_exact(n / 2, (k - 1) as nat);
    }
}

/// A number that is at least a power of two has more binary digits than
/// the power has zeros.
pub proof fn lemma_bit_length_lower(n: nat, k: nat)
    requires
        pow2(k) <= n,
    ensures
        bit_length(n) >= k + 1,
    decreases k,
{
    lemma_pow2_pos(k);
    if k > 0 {
        lemma_pow2_unfold(k);
        lemma_bit_length_lower(n / 2, (k - 1) as nat);
    }
}

/// Bounds of a number whose quotient by a power of two is known.
pub proof fn lemma_quotient_lower(n: nat, s: nat, lo: nat)
    requires
        pow2(lo) <= n / pow2(s),
    ensures
        pow2(lo + s) <= n,
{
    let p = pow2(s);
    let q = n / p;
    let r = n % p;
    lemma_pow2_pos(s);
    lemma_fundamental_div_mod(n as int, p as int);
    lemma_pow2_adds(lo, s);
    assert(pow2(lo) * p <= p * q) by (nonlinear_arith)
        requires
            pow2(lo) <= q,
            p > 0,
    ;
}

/// The upper bound of a number whose quotient by a power of two is known.
pub proof fn lemma_quotient_upper(n: nat, s: nat, hi: nat)
    requires
        n / pow2(s) < pow2(hi),
    ensures
        n < pow2(hi + s),
{
    let p = pow2(s);
    let q = n / p;
    let r = n % p;
    lemma_pow2_pos(s);
    lemma_fundamental_div_mod(n as int, p as int);
    lemma_pow2_adds(hi, s);
    assert(p * q + r < pow2(hi) * p) by (nonlinear_arith)
        requires
            q + 1 <= pow2(hi),
            r < p,
            p > 0,
    ;
}

/// Which way the bits below the significand round: `guard` is the highest
/// of them and `sticky` tells whether any lower one is set.
proof fn lemma_rounding_bits(n: nat, s: nat)
    requires
        s > 0,
    ensures
        ({
            let r = n % pow2(s);
            let guard = (n / pow2((s - 1) as nat)) % 2 == 1;
            let sticky = n % pow2((s - 1) as nat) != 0;
            &&& 2 * r > pow2(s) <==> guard && sticky
            &&& 2 * r == pow2(s) <==> guard && !sticky
        }),
{
    let low = (s - 1) as nat;
    let p = pow2(low);
    lemma_pow2_pos(low);
    lemma_pow2_unfold(s);
    lemma_halving_step(n, low);
    let bit = (n / p) % 2;
    assert(n % pow2(s) == n % p + p * bit);
    assert(n % p < p) by {
        lemma_fundamental_div_mod(n as int, p as int);
    }
    assert(bit == 0 || bit == 1);
    assert(p * bit == if bit == 1 { p } else { 0 }) by (nonlinear_arith)
        requires
            bit == 0 || bit == 1,
    ;
}

fn digit_value(c: char) -> (d: u64)
    requires
        is_digit(c),
    ensures
        d == digit_of(c),
        d < 10,
{
    (c as u32 - '0' as u32) as u64
}

/// The digit that writes a number below ten.
pub fn digit_char(d: u64) -> (c: char)
    requires
        d < 10,
    ensures
        c == digit_character(d as nat),
        is_digit(c),
        digit_of(c) == d,
{
    if d == 0 {
        '0'
    } else if d == 1 {
        '1'
    } else if d == 2 {
        '2'
    } else if d == 3 {
        '3'
    } else if d == 4 {
        '4'
    } else if d == 5 {
        '5'
    } else if d == 6 {
        '6'
    } else if d == 7 {
        '7'
    } else if d == 8 {
        '8'
    } else {
        '9'
    }
}

/// The value of the digits where it is below two to the power 53.
fn small_value(digits: &Vec<char>) -> (r: Option<u64>)
    requires
        all_digits(digits@),
    ensures
        decimal_value(digits@) < pow2(53) ==> r == Some(decimal_value(digits@) as u64),
        decimal_value(digits@) >= pow2(53) ==> r is None,
{
    proof {
        lemma_pow2_52_53();
    }
    let mut value: u64 = 0;
    let mut i: usize = 0;
    while i < digits.len()
        invariant
            i <= digits.len(),
            all_digits(digits@),
            value == decimal_value(digits@.take(i as int)),
            value < 0x20_0000_0000_0000,
            pow2(53) == 0x20_0000_0000_0000,
        decreases digits.len() - i,
    {
        let d: u64 = digit_value(digits[i]);
        proof {
            assert(digits@.take(i + 1) =~= digits@.take(i as int).push(digits@[i as int]));
            lemma_decimal_value_push(digits@.take(i as int), digits@[i as int]);
        }
        value = value * 10 + d;
        i += 1;
        if value >= 0x20_0000_0000_0000 {
            proof {
                lemma_prefix_value(digits@, i as int);
            }
            return None;
        }
    }
    proof {
        assert(digits@.take(i as int) =~= digits@);
    }
    Some(value)
}

/// Half of the number that the digits write, with as many digits, and
/// whether the number was odd.
fn halve(digits: &Vec<char>) -> (r: (Vec<char>, bool))
    requires
        all_digits(digits@),
    ensures
        all_digits(r.0@),
        r.0@.len() == digits@.len(),
        decimal_value(r.0@) == decimal_value(digits@) / 2,
        r.1 == (decimal_value(digits@) % 2 == 1),
{
    let mut half: Vec<char> = Vec::new();
    let mut carry: u64 = 0;
    let mut i: usize = 0;
    while i < digits.len()
        invariant
            i <= digits.len(),
            all_digits(digits@),
            all_digits(half@),
            half@.len() == i,
            carry < 2,
            decimal_value(digits@.take(i as int)) == 2 * decimal_value(half@) + carry,
        decreases digits.len() - i,
    {
        let here: u64 = carry * 10 + digit_value(digits[i]);
        let c: char = digit_char(here / 2);
        proof {
            assert(digits@.take(i + 1) =~= digits@.take(i as int).push(digits@[i as int]));
            lemma_decimal_value_push(digits@.take(i as int), digits@[i as int]);
            lemma_decimal_value_push(half@, c);
        }
        half.push(c);
        carry = here % 2;
        i += 1;
    }
    proof {
        assert(digits@.take(i as int) =~= digits@);
    }
    (half, carry == 1)
}

/// The bit pattern of a positive number of at most 53 bits.
fn exact_bits(value: u64) -> (bits: u64)
    requires
        value < 0x20_0000_0000_0000,
    ensures
        bits == nearest_binary64(value as nat),
{
    if value == 0 {
        return 0;
    }
    proof {
        lemma_pow2_52_53();
    }
    let mut significand: u64 = value;
    let mut shift: u64 = 0;
    while significand < HIDDEN_BIT
        invariant
            0 < value,
            significand == value * pow2(shift as nat),
            0 < significand < 0x20_0000_0000_0000,
            shift <= 52,
            pow2(52) == 0x10_0000_0000_0000,
            pow2(53) == 0x20_0000_0000_0000,
        decreases 0x20_0000_0000_0000 - significand,
    {
        proof {
            lemma_pow2_unfold((shift + 1) as nat);
            assert(value * (2 * pow2(shift as nat)) == 2 * (value * pow2(shift as nat)))
                by (nonlinear_arith);
            if shift == 52 {
                assert(value * pow2(52) >= pow2(52)) by (nonlinear_arith)
                    requires
                        value >= 1,
                ;
            }
        }
        significand = significand * 2;
        shift = shift + 1;
    }
    let exponent: u64 = 52 - shift;
    proof {
        let n = value as nat;
        let k = shift as nat;
        let e = exponent as nat;
        lemma_pow2_adds(e, k);
        lemma_pow2_adds(e + 1, k);
        lemma_pow2_pos(k);
        lemma_pow2_pos(e);
        assert(pow2(e) <= n) by (nonlinear_arith)
            requires
                pow2(e) * pow2(k) <= n * pow2(k),
                pow2(k) > 0,
        ;
        assert(n < pow2(e + 1)) by (nonlinear_arith)
            requires
                n * pow2(k) < pow2(e + 1) * pow2(k),
                pow2(k) > 0,
        ;
        lemma_bit_length_exact(n, e);
        assert((e + 1023) * pow2(52) <= 1075 * 0x10_0000_0000_0000) by (nonlinear_arith)
            requires
                e <= 52,
                pow2(52) == 0x10_0000_0000_0000,
        ;
    }
    (exponent + 1023) * HIDDEN_BIT + (significand - HIDDEN_BIT)
}

/// The bit pattern nearest to the number that the digits write.
fn nearest_bits(digits: Vec<char>) -> (bits: u64)
    requires
        all_digits(digits@),
    ensures
        bits == nearest_binary64(decimal_value(digits@)),
{
    let ghost n = decimal_value(digits@);
    proof {
        lemma_pow2_52_53();
        assert(n / pow2(0) == n);
    }
    let mut current: Vec<char> = digits;
    let mut shift: u64 = 0;
    let mut guard: bool = false;
    let mut sticky: bool = false;
    let mut small: Option<u64> = small_value(&current);
    while small.is_none() && shift < 1100
        invariant
            all_digits(current@),
            decimal_value(current@) == n / pow2(shift as nat),
            shift <= 1100,
            shift > 0 ==> guard == ((n / pow2((shift - 1) as nat)) % 2 == 1),
            shift > 0 ==> sticky == (n % pow2((shift - 1) as nat) != 0),
            shift > 0 ==> n / pow2(shift as nat) >= pow2(52),
            shift == 0 ==> !guard && !sticky,
            decimal_value(current@) < pow2(53) ==> small == Some(decimal_value(current@) as u64),
            decimal_value(current@) >= pow2(53) ==> small is None,
            pow2(0) == 1,
            pow2(52) == 0x10_0000_0000_0000,
            pow2(53) == 0x20_0000_0000_0000,
        decreases 1100 - shift,
    {
        let (half, odd) = halve(&current);
        proof {
            lemma_halving_step(n, shift as nat);
            if shift > 0 {
                let low = (shift - 1) as nat;
                lemma_halving_step(n, low);
                lemma_pow2_pos(low);
                let bit = (n / pow2(low)) % 2;
                assert(bit == 0 || bit == 1);
                assert(pow2(low) * bit == if bit == 1 { pow2(low) } else { 0 })
                    by (nonlinear_arith)
                    requires
                        bit == 0 || bit == 1,
                ;
            } else {
                assert(n % pow2(0) == 0);
            }
        }
        sticky = sticky || guard;
        guard = odd;
        shift = shift + 1;
        current = half;
        small = small_value(&current);
    }
    match small {
        None => {
            proof {
                lemma_quotient_lower(n, shift as nat, 53);
                lemma_bit_length_lower(n, 1153);
            }
            INFINITY_BITS
        },
        Some(value) => {
            if shift == 0 {
                exact_bits(value)
            } else {
                let exponent: u64 = shift + 52;
                proof {
                    lemma_quotient_lower(n, shift as nat, 52);
                    lemma_quotient_upper(n, shift as nat, 53);
                    lemma_bit_length_exact(n, exponent as nat);
                    lemma_rounding_bits(n, shift as nat);
                    lemma_pow2_pos(exponent as nat);
                }
                if exponent > 1023 {
                    INFINITY_BITS
                } else {
                    let significand: u64 = if guard && (sticky || value % 2 == 1) {
                        value + 1
                    } else {
                        value
                    };
                    proof {
                        assert((exponent + 1023) * pow2(52) <= 2046 * 0x10_0000_0000_0000)
                            by (nonlinear_arith)
                            requires
                                exponent <= 1023,
                                pow2(52) == 0x10_0000_0000_0000,
                        ;
                    }
                    (exponent + 1023) * HIDDEN_BIT + (significand - HIDDEN_BIT)
                }
            }
        },
    }
}

/// The bit pattern without its sign.
pub open spec fn magnitude(x: Binary64) -> u64 {
    if x.bits >= SIGN_BIT {
        (x.bits - SIGN_BIT) as u64
    } else {
        x.bits
    }
}

/// Whether the value is a NaN: its magnitude lies beyond that of infinity.
pub open spec fn is_nan(x: Binary64) -> bool {
    magnitude(x) > INFINITY_BITS
}

/// The place of a value that is no NaN on the number line. Among the
/// values of one sign a greater magnitude is a greater pattern, so the
/// magnitude, taken negative under a sign bit, orders them as their values
/// do; both zeros have the place zero.
pub open spec fn ordinal(x: Binary64) -> int {
    if x.bits >= SIGN_BIT {
        -(magnitude(x) as int)
    } else {
        magnitude(x) as int
    }
}

/// The value with its sign changed.
pub open spec fn negation(x: Binary64) -> Binary64 {
    if x.bits >= SIGN_BIT {
        Binary64 { bits: (x.bits - SIGN_BIT) as u64 }
    } else {
        Binary64 { bits: (x.bits + SIGN_BIT) as u64 }
    }
}

/// `x < y` as IEEE-754 has it: false where either is a NaN.
pub open spec fn less(x: Binary64, y: Binary64) -> bool {
    !is_nan(x) && !is_nan(y) && ordinal(x) < ordinal(y)
}

/// `x <= y` as IEEE-754 has it: false where either is a NaN.
pub open spec fn less_or_equal(x: Binary64, y: Binary64) -> bool {
    !is_nan(x) && !is_nan(y) && ordinal(x) <= ordinal(y)
}

/// The order of the values that are no NaN is strict and total up to the
/// two zeros, and a NaN is in no order with anything.
pub proof fn lemma_order(x: Binary64, y: Binary64, z: Binary64)
    ensures
        !less(x, x),
        less(x, y) ==> !less(y, x),
        less(x, y) && less(y, z) ==> less(x, z),
        less_or_equal(x, y) <==> less(x, y) || (!is_nan(x) && !is_nan(y) && ordinal(x) == ordinal(
            y,
        )),
        !is_nan(x) && !is_nan(y) ==> less(x, y) || less(y, x) || ordinal(x) == ordinal(y),
        is_nan(x) ==> !less(x, y) && !less(y, x) && !less_or_equal(x, y) && !less_or_equal(y, x),
{
}

/// Changing the sign twice changes nothing, keeps a NaN a NaN, and turns
/// the order round.
pub proof fn lemma_negation(x: Binary64, y: Binary64)
    ensures
        negation(negation(x)) == x,
        magnitude(negation(x)) == magnitude(x),
        is_nan(negation(x)) == is_nan(x),
        ordinal(negation(x)) == -ordinal(x),
        less(x, y) <==> less(negation(y), negation(x)),
{
}

impl Binary64 {
    /// The value of a bit pattern.
    pub fn from_bits(bits: u64) -> (r: Self)
        ensures
            r.bits == bits,
    {
        Binary64 { bits }
    }

    /// The bit pattern of the value.
    pub fn to_bits(self) -> (bits: u64)
        ensures
            bits == self.bits,
    {
        self.bits
    }

    /// Reads a number written in decimal digits. A text that is empty or
    /// holds anything but digits is none.
    pub fn from_decimal(text: &str) -> (r: Option<Binary64>)
        ensures
            r == decimal_literal(text@),
    {
        let digits: Vec<char> = characters(text);
        if digits.len() == 0 {
            return None;
        }
        let mut i: usize = 0;
        while i < digits.len()
            invariant
                i <= digits.len(),
                digits@ == text@,
                forall|j: int| 0 <= j < i ==> is_digit(#[trigger] digits@[j]),
            decreases digits.len() - i,
        {
            let c: char = digits[i];
            if !(c >= '0' && c <= '9') {
                assert(!is_digit(text@[i as int]));
                return None;
            }
            i += 1;
        }
        Some(Binary64 { bits: nearest_bits(digits) })
    }

    /// Whether the value is a NaN.
    pub fn is_nan(self) -> (r: bool)
        ensures
            r == is_nan(self),
    {
        self.absolute().bits > INFINITY_BITS
    }

    /// The value with its sign changed.
    pub fn negated(self) -> (r: Binary64)
        ensures
            r == negation(self),
    {
        if self.bits >= SIGN_BIT {
            Binary64 { bits: self.bits - SIGN_BIT }
        } else {
            Binary64 { bits: self.bits + SIGN_BIT }
        }
    }

    /// The value without its sign.
    pub fn absolute(self) -> (r: Binary64)
        ensures
            r.bits == magnitude(self),
    {
        if self.bits >= SIGN_BIT {
            Binary64 { bits: self.bits - SIGN_BIT }
        } else {
            self
        }
    }

    fn place(self) -> (r: i128)
        ensures
            r == ordinal(self),
    {
        if self.bits >= SIGN_BIT {
            -((self.bits - SIGN_BIT) as i128)
        } else {
            self.bits as i128
        }
    }

    /// `self < other`; false where either is a NaN.
    pub fn less_than(self, other: Binary64) -> (r: bool)
        ensures
            r == less(self, other),
    {
        !self.is_nan() && !other.is_nan() && self.place() < other.place()
    }

    /// `self <= other`; false where either is a NaN.
    pub fn less_or_equal(self, other: Binary64) -> (r: bool)
        ensures
            r == less_or_equal(self, other),
    {
        !self.is_nan() && !other.is_nan() && self.place() <= other.place()
    }

    /// `self > other`; false where either is a NaN.
    pub fn greater_than(self, other: Binary64) -> (r: bool)
        ensures
            r == less(other, self),
    {
        other.less_than(self)
    }

    /// `self >= other`; false where either is a NaN.
    pub fn greater_or_equal(self, other: Binary64) -> (r: bool)
        ensures
            r == less_or_equal(other, self),
    {
        other.less_or_equal(self)
    }
}

} // verus!
