//! Decimal numbers of any size.

use crate::number::magnitude;
use crate::text::find;
use bigdecimal::{BigDecimal, ToPrimitive, Zero};
use num_bigint::Sign;
use vstd::arithmetic::div_mod::{
    lemma_fundamental_div_mod, lemma_fundamental_div_mod_converse, lemma_mod_bound,
};
use vstd::arithmetic::power::{lemma_pow_increases, lemma_pow_positive, pow};
use vstd::prelude::*;

verus! {

/// The integer and the scale of a decimal number: it is the integer divided by ten to the power
/// of the scale.
pub uninterp spec fn decimal_parts(d: BigDecimal) -> (int, int);

/// The decimal number that a text is read as, by its integer and its scale.
pub uninterp spec fn decimal_value(text: Seq<char>) -> Option<(int, int)>;

/// The integer and the scale of a numeral: digits, with a `-` before them at most, and with a
/// point and more digits behind them at most.
pub open spec fn numeral_parts(s: Seq<char>) -> Option<(int, int)> {
    if s.len() > 0 && s[0] == '-' {
        match numeral_magnitude(s.drop_first()) {
            Some((n, scale)) => Some((-n, scale)),
            None => None,
        }
    } else {
        numeral_magnitude(s)
    }
}

/// The integer and the scale of a numeral without a sign.
pub open spec fn numeral_magnitude(s: Seq<char>) -> Option<(int, int)> {
    match find(s, '.') {
        None => match magnitude(s) {
            Some(n) => Some((n as int, 0)),
            None => None,
        },
        Some(i) => match (magnitude(s.take(i)), magnitude(s.skip(i + 1))) {
            (Some(_), Some(_)) => match magnitude(s.take(i) + s.skip(i + 1)) {
                Some(n) => Some((n as int, s.len() - i - 1)),
                None => None,
            },
            _ => None,
        },
    }
}

/// The decimal number that a text is read as: of a numeral, its digits as an integer, and how many
/// of them stand behind the point.
pub open spec fn text_decimal(text: Seq<char>) -> Option<(int, int)> {
    match numeral_parts(text) {
        Some(parts) => Some(parts),
        None => decimal_value(text),
    }
}

/// `BigDecimal::from_str`: the decimal number of a text, where it has one. A numeral has one: its
/// digits, as an integer, and how many of them stand behind the point.
#[verifier::external_body]
pub(crate) fn parse_decimal(text: &str) -> (r: Option<BigDecimal>)
    ensures
        match r {
            Some(d) => decimal_value(text@) == Some(decimal_parts(d)),
            None => decimal_value(text@) is None,
        },
        numeral_parts(text@) matches Some(parts) ==> r is Some && decimal_parts(r->0) == parts,
{
    text.parse::<BigDecimal>().ok()
}

/// `BigDecimal::fractional_digit_count`: the scale.
#[verifier::external_body]
pub(crate) fn decimal_scale(d: &BigDecimal) -> (r: i64)
    ensures
        r == decimal_parts(*d).1,
{
    d.fractional_digit_count()
}

/// `BigDecimal::is_zero`.
#[verifier::external_body]
pub(crate) fn decimal_is_zero(d: &BigDecimal) -> (r: bool)
    ensures
        r == (decimal_parts(*d).0 == 0),
{
    d.is_zero()
}

/// `BigDecimal::sign`: whether the number is below zero.
#[verifier::external_body]
pub(crate) fn decimal_is_negative(d: &BigDecimal) -> (r: bool)
    ensures
        r == (decimal_parts(*d).0 < 0),
{
    d.sign() == Sign::Minus
}

/// The integer part of a decimal number.
pub open spec fn integer_part(n: int, scale: int) -> int {
    if scale <= 0 {
        n * pow(10, (-scale) as nat)
    } else if n < 0 {
        -((-n) / pow(10, scale as nat))
    } else {
        n / pow(10, scale as nat)
    }
}

/// Whether the power of ten of a decimal number's scale can be worked out: up to this size, or
/// where it takes no more room than the square of the number's own integer.
pub open spec fn tractable(n: int, scale: int) -> bool {
    n == 0 || -i32::MAX <= scale <= i32::MAX || (scale > 0 && pow(10, scale as nat) <= n * n)
}

/// `BigDecimal::to_i128`: the integer part, where it is in the range of the type. It works out
/// the power of ten of the scale.
#[verifier::external_body]
fn decimal_to_i128(d: &BigDecimal) -> (r: Option<i128>)
    requires
        tractable(decimal_parts(*d).0, decimal_parts(*d).1),
    ensures
        r == in_range(integer_part(decimal_parts(*d).0, decimal_parts(*d).1)),
{
    d.to_i128()
}

/// An integer as one of 128 bits, where it is in their range.
pub open spec fn in_range(n: int) -> Option<i128> {
    if i128::MIN <= n <= i128::MAX {
        Some(n as i128)
    } else {
        None
    }
}

/// The `i`-th byte, from the lowest on, of an integer in two's complement.
pub open spec fn byte_of(n: int, i: int) -> u8 {
    ((n / pow(256, i as nat)) % 256) as u8
}

/// The lowest `k` bytes of an integer in two's complement, the lowest first.
pub open spec fn low_bytes(n: int, k: nat) -> Seq<u8> {
    Seq::new(k, |i: int| byte_of(n, i))
}

/// `BigDecimal::as_bigint_and_exponent` and `BigInt::to_signed_bytes_le`: the integer in two's
/// complement, the lowest byte first, with no more bytes than it takes.
#[verifier::external_body]
pub(crate) fn decimal_bytes(d: &BigDecimal) -> (r: Vec<u8>)
    ensures
        r@ == low_bytes(decimal_parts(*d).0, r@.len()),
        -pow(256, r@.len()) <= 2 * decimal_parts(*d).0 < pow(256, r@.len()),
        r@.len() > 1 ==> !(-pow(256, (r@.len() - 1) as nat) <= 2 * decimal_parts(*d).0 < pow(
            256,
            (r@.len() - 1) as nat,
        )),
{
    d.as_bigint_and_exponent().0.to_signed_bytes_le()
}

/// A power of ten past the range of 128 bits is past it, whatever it is multiplied by.
proof fn lemma_too_large(n: int, m: nat)
    requires
        n != 0,
        m >= 39,
    ensures
        in_range(n * pow(10, m)) is None,
{
    reveal(pow);
    assert(pow(10, 39) > i128::MAX + 1) by {
        reveal_with_fuel(pow, 40);
    }
    lemma_pow_increases(10, 39, m);
    let p = pow(10, m);
    assert(n * p >= p || n * p <= -p) by (nonlinear_arith)
        requires
            n != 0,
            p > 0,
    ;
}

/// Fewer bytes than a third of the scale write less than the power of ten of the scale.
proof fn lemma_bytes_below_power(n: int, k: nat, scale: nat)
    requires
        -pow(256, k) <= 2 * n < pow(256, k),
        3 * k <= scale,
    ensures
        -pow(10, scale) < n < pow(10, scale),
{
    lemma_bytes_against_digits(k);
    lemma_pow_increases(10, 3 * k, scale);
    lemma_pow_positive(256, k);
}

proof fn lemma_bytes_against_digits(k: nat)
    ensures
        pow(256, k) <= pow(10, 3 * k),
    decreases k,
{
    reveal(pow);
    if k > 0 {
        let j = (k - 1) as nat;
        lemma_bytes_against_digits(j);
        assert(pow(256, k) == 256 * pow(256, j));
        assert(pow(10, 3 * k) == 10 * pow(10, (3 * k - 1) as nat));
        assert(pow(10, (3 * k - 1) as nat) == 10 * pow(10, (3 * k - 2) as nat));
        assert(pow(10, (3 * k - 2) as nat) == 10 * pow(10, 3 * j));
        lemma_pow_positive(10, 3 * j);
    }
}

/// The square of an integer of so many bytes is past a power of ten of three times as many
/// digits.
proof fn lemma_square_against_digits(n: int, k: nat)
    requires
        k >= 6,
        !(-pow(256, (k - 1) as nat) <= 2 * n < pow(256, (k - 1) as nat)),
    ensures
        pow(10, 3 * k) <= n * n,
{
    reveal(pow);
    let p = pow(256, (k - 2) as nat);
    lemma_pow_positive(256, (k - 2) as nat);
    assert(pow(256, (k - 1) as nat) == 256 * p);
    assert(n * n >= p * p) by (nonlinear_arith)
        requires
            p > 0,
            !(-(256 * p) <= 2 * n < 256 * p),
    ;
    lemma_squared_bytes(k);
}

proof fn lemma_squared_bytes(k: nat)
    requires
        k >= 6,
    ensures
        pow(10, 3 * k) <= pow(256, (k - 2) as nat) * pow(256, (k - 2) as nat),
    decreases k,
{
    reveal(pow);
    if k == 6 {
        assert(pow(10, 18) == 1_000_000_000_000_000_000 && pow(256, 4) == 0x1_0000_0000) by {
            reveal_with_fuel(pow, 19);
        }
    } else {
        let j = (k - 1) as nat;
        lemma_squared_bytes(j);
        let p = pow(256, (j - 2) as nat);
        let q = pow(10, 3 * j);
        lemma_pow_positive(256, (j - 2) as nat);
        assert(pow(256, (k - 2) as nat) == 256 * p);
        assert(pow(10, 3 * k) == 10 * pow(10, (3 * k - 1) as nat));
        assert(pow(10, (3 * k - 1) as nat) == 10 * pow(10, (3 * k - 2) as nat));
        assert(pow(10, (3 * k - 2) as nat) == 10 * q);
        assert(1000 * q <= (256 * p) * (256 * p)) by (nonlinear_arith)
            requires
                q <= p * p,
                p > 0,
        ;
    }
}

/// The integer part of a decimal number, where 128 bits hold it. The power of ten of an enormous
/// scale is left alone: the integer part is then too large, or zero, or the number's own integer
/// is as enormous.
pub fn decimal_integer(d: &BigDecimal) -> (r: Option<i128>)
    ensures
        r == in_range(integer_part(decimal_parts(*d).0, decimal_parts(*d).1)),
{
    let ghost n = decimal_parts(*d).0;
    let scale: i64 = decimal_scale(d);
    if decimal_is_zero(d) || (-(i32::MAX as i64) <= scale && scale <= i32::MAX as i64) {
        return decimal_to_i128(d);
    }
    if scale < 0 {
        proof {
            lemma_too_large(n, (-scale) as nat);
        }
        return None;
    }
    let size: usize = decimal_bytes(d).len();
    if size as u64 <= scale as u64 / 3 {
        proof {
            lemma_bytes_below_power(n, size as nat, scale as nat);
            let p = pow(10, scale as nat);
            if n < 0 {
                lemma_fundamental_div_mod_converse(-n, p, 0, -n);
            } else {
                lemma_fundamental_div_mod_converse(n, p, 0, n);
            }
        }
        return Some(0);
    }
    proof {
        lemma_square_against_digits(n, size as nat);
        lemma_pow_increases(10, scale as nat, 3 * size as nat);
    }
    decimal_to_i128(d)
}

/// Past the bytes that an integer takes, all bytes are 0, or 255 where it is below zero.
proof fn lemma_sign_bytes(n: int, k: nat, i: nat)
    requires
        -pow(256, k) <= 2 * n < pow(256, k),
        k <= i,
    ensures
        byte_of(n, i as int) == (if n < 0 {
            255u8
        } else {
            0u8
        }),
{
    lemma_pow_positive(256, i);
    lemma_pow_increases(256, k, i);
    let p = pow(256, i);
    if n < 0 {
        lemma_fundamental_div_mod_converse(n, p, -1, n + p);
    } else {
        lemma_fundamental_div_mod_converse(n, p, 0, n);
    }
}

/// The 32 lowest bytes of a decimal number's integer in two's complement. The scale is left out.
pub fn to_decimal_256(decimal: &BigDecimal) -> (r: [u8; 32])
    ensures
        r@ == low_bytes(decimal_parts(*decimal).0, 32),
{
    let ghost n = decimal_parts(*decimal).0;
    let mut bytes = decimal_bytes(decimal);
    let ghost k = bytes@.len();
    let fill_byte: u8 = if decimal_is_negative(decimal) {
        255
    } else {
        0
    };
    if bytes.len() > 32 {
        bytes.truncate(32);
        assert(bytes@ =~= low_bytes(n, k).take(32));
    } else {
        bytes.resize(32, fill_byte);
        proof {
            assert forall|i: int| 0 <= i < 32 implies bytes@[i] == byte_of(n, i) by {
                if i < k {
                    assert(bytes@[i] == low_bytes(n, k)[i]);
                } else {
                    lemma_sign_bytes(n, k, i as nat);
                    assert(bytes@[i] == fill_byte);
                }
            }
        }
    }
    assert(bytes@ =~= low_bytes(n, 32));
    let mut array: [u8; 32] = [0;32];
    for i in 0..32usize
        invariant
            bytes@ == low_bytes(n, 32),
            forall|j: int| 0 <= j < i ==> array@[j] == byte_of(n, j),
    {
        array[i] = bytes[i];
    }
    assert(array@ =~= low_bytes(n, 32));
    array
}

/// The number that bytes write, the lowest first.
pub open spec fn bytes_value(bytes: Seq<u8>) -> int
    decreases bytes.len(),
{
    if bytes.len() == 0 {
        0
    } else {
        bytes[0] + 256 * bytes_value(bytes.drop_first())
    }
}

/// The number that bytes write in two's complement, the lowest first.
pub open spec fn signed_value(bytes: Seq<u8>) -> int {
    if bytes.len() > 0 && bytes.last() >= 128 {
        bytes_value(bytes) - pow(256, bytes.len())
    } else {
        bytes_value(bytes)
    }
}

/// To divide by a product is to divide by one factor and then by the other.
proof fn lemma_nested_division(n: int, c: int, d: int)
    requires
        c > 0,
        d > 0,
    ensures
        n / (c * d) == (n / c) / d,
        n % (c * d) == c * ((n / c) % d) + n % c,
{
    let q = n / c;
    lemma_fundamental_div_mod(n, c);
    lemma_fundamental_div_mod(q, d);
    lemma_mod_bound(n, c);
    lemma_mod_bound(q, d);
    let r = c * (q % d) + n % c;
    assert(n == (q / d) * (c * d) + r) by (nonlinear_arith)
        requires
            n == c * q + n % c,
            q == d * (q / d) + q % d,
            r == c * (q % d) + n % c,
    ;
    assert(0 <= r < c * d) by (nonlinear_arith)
        requires
            0 <= q % d < d,
            0 <= n % c < c,
            r == c * (q % d) + n % c,
    ;
    lemma_fundamental_div_mod_converse(n, c * d, q / d, r);
}

proof fn lemma_bytes_value(n: int, k: nat)
    ensures
        bytes_value(low_bytes(n, k)) == n % pow(256, k),
    decreases k,
{
    reveal(pow);
    if k == 0 {
        assert(low_bytes(n, 0).len() == 0);
        assert(pow(256, 0) == 1);
    } else {
        let rest = (k - 1) as nat;
        lemma_pow_positive(256, rest);
        lemma_bytes_value(n / 256, rest);
        assert forall|i: int| 0 <= i < rest implies byte_of(n, i + 1) == #[trigger] byte_of(
            n / 256,
            i,
        ) by {
            lemma_pow_positive(256, i as nat);
            lemma_nested_division(n, 256, pow(256, i as nat));
            assert(pow(256, (i + 1) as nat) == 256 * pow(256, i as nat));
        }
        assert(low_bytes(n, k).drop_first() =~= low_bytes(n / 256, rest));
        assert(pow(256, 0) == 1);
        assert(byte_of(n, 0) == n % 256);
        lemma_nested_division(n, 256, pow(256, rest));
        assert(pow(256, k) == 256 * pow(256, rest));
    }
}

/// Bytes in two's complement give their integer back, as long as it fits them.
pub proof fn lemma_bytes_keep_value(n: int, k: nat)
    requires
        0 < k,
        -pow(256, k) <= 2 * n < pow(256, k),
    ensures
        signed_value(low_bytes(n, k)) == n,
{
    reveal(pow);
    let p = pow(256, k);
    let rest = (k - 1) as nat;
    let q = pow(256, rest);
    lemma_pow_positive(256, k);
    lemma_pow_positive(256, rest);
    assert(p == 256 * q);
    lemma_bytes_value(n, k);
    lemma_fundamental_div_mod(n, q);
    let top = n / q;
    assert(n == q * top + n % q);
    lemma_mod_bound(n, q);
    if n < 0 {
        lemma_fundamental_div_mod_converse(n, p, -1, n + p);
        assert(-128 <= top < 0) by (nonlinear_arith)
            requires
                n == q * top + n % q,
                0 <= n % q < q,
                -256 * q <= 2 * n,
                n < 0,
                q > 0,
        ;
    } else {
        lemma_fundamental_div_mod_converse(n, p, 0, n);
        assert(0 <= top < 128) by (nonlinear_arith)
            requires
                n == q * top + n % q,
                0 <= n % q < q,
                2 * n < 256 * q,
                n >= 0,
                q > 0,
        ;
    }
    assert(low_bytes(n, k).last() == byte_of(n, rest as int));
}

} // verus!
