//! The numeric formatter and the `Asy` trait.
//!
//! Every numeric value of the scene tree is an exact decimal: a sign, an
//! integer coefficient of at most 96 bits and a scale (the number of
//! fractional digits, at most 28).  Formatting rounds the value both to
//! `precision` decimal places and to `precision` significant figures,
//! strips trailing zeros, and falls back to scientific notation when the
//! integral part needs more digits than the precision allows.
use vstd::arithmetic::div_mod::lemma_div_is_ordered_by_denominator;
use vstd::arithmetic::div_mod::lemma_fundamental_div_mod;
use vstd::prelude::*;
use vstd::string::StringExecFns;

use crate::AsyOptions;

verus! {

/// The largest coefficient a decimal can carry: `2^96 - 1`.
pub const MAX_COEFF: u128 = 79228162514264337593543950335;

/// The largest scale (number of fractional digits) a decimal can carry.
pub const MAX_SCALE: u32 = 28;

/// An exact decimal number: `coeff / 10^scale`, negated when `neg` holds.
#[derive(Clone, Copy, PartialEq, Eq, Structural, Debug)]
pub struct Dec {
    pub neg: bool,
    pub coeff: u128,
    pub scale: u32,
}

impl Dec {
    /// A decimal is well formed when its coefficient fits in 96 bits and
    /// its scale does not exceed 28 fractional digits.
    pub open spec fn wf(&self) -> bool {
        self.coeff <= MAX_COEFF && self.scale <= MAX_SCALE
    }

    /// The exact rational value, scaled to an integer: `value * 10^scale`.
    pub open spec fn signed_coeff(&self) -> int {
        if self.neg {
            -(self.coeff as int)
        } else {
            self.coeff as int
        }
    }
}

/// `10^e`.
pub open spec fn pow10(e: nat) -> nat
    decreases e,
{
    if e == 0 {
        1
    } else {
        10 * pow10((e - 1) as nat)
    }
}

pub proof fn lemma_pow10_pos(e: nat)
    ensures
        pow10(e) >= 1,
    decreases e,
{
    if e > 0 {
        lemma_pow10_pos((e - 1) as nat);
    }
}

pub proof fn lemma_pow10_le(a: nat, b: nat)
    requires
        a <= b,
    ensures
        pow10(a) <= pow10(b),
    decreases b,
{
    if a < b {
        lemma_pow10_le(a, (b - 1) as nat);
    }
}

/// `10^29` written out, so that coefficients are known to have at
/// most 29 digits.
pub proof fn lemma_pow10_29()
    ensures
        pow10(29) == 100000000000000000000000000000,
{
    reveal_with_fuel(pow10, 30);
}

/// `10^e` as a machine integer.
pub fn pow10_u128(e: u32) -> (r: u128)
    requires
        e <= 29,
    ensures
        r == pow10(e as nat),
{
    proof {
        lemma_pow10_29();
    }
    let mut r: u128 = 1;
    let mut i: u32 = 0;
    while i < e
        invariant
            i <= e <= 29,
            r == pow10(i as nat),
        decreases e - i,
    {
        proof {
            lemma_pow10_29();
            lemma_pow10_le((i + 1) as nat, 29);
        }
        r = r * 10;
        i = i + 1;
    }
    r
}

/// The character for one decimal digit.
pub open spec fn digit_char(d: nat) -> char {
    if d == 0 {
        '0'
    } else if d == 1 {
        '1'
    } else if d == 2 {
        '2'
    } else if d == 3 {
        '3'
    } else if d == 4 {
        '4'
    } else if d == 5 {
        '5'
    } else if d == 6 {
        '6'
    } else if d == 7 {
        '7'
    } else if d == 8 {
        '8'
    } else {
        '9'
    }
}

/// The base-10 numeral of `n`, most significant digit first.
pub open spec fn dec_digits(n: nat) -> Seq<char>
    decreases n,
{
    if n < 10 {
        seq![digit_char(n)]
    } else {
        dec_digits(n / 10).push(digit_char(n % 10))
    }
}

/// The last `w` digits of `n`, zero padded to exactly `w` characters.
pub open spec fn padded_digits(n: nat, w: nat) -> Seq<char>
    decreases w,
{
    if w == 0 {
        Seq::empty()
    } else {
        padded_digits(n / 10, (w - 1) as nat).push(digit_char(n % 10))
    }
}

/// The number of digits in the base-10 numeral of `n`.
pub open spec fn num_digits(n: nat) -> nat
    decreases n,
{
    if n < 10 {
        1
    } else {
        1 + num_digits(n / 10)
    }
}

pub proof fn lemma_dec_digits_len(n: nat)
    ensures
        dec_digits(n).len() == num_digits(n),
    decreases n,
{
    if n >= 10 {
        lemma_dec_digits_len(n / 10);
    }
}

/// `n` has `d` digits exactly when `10^(d-1) <= n < 10^d` (or `n == 0`).
pub proof fn lemma_num_digits_bounds(n: nat)
    ensures
        n < pow10(num_digits(n)),
        n >= 1 ==> n >= pow10((num_digits(n) - 1) as nat),
    decreases n,
{
    if n < 10 {
        assert(pow10(1) == 10) by {
            reveal_with_fuel(pow10, 2);
        }
    } else {
        lemma_num_digits_bounds(n / 10);
        let d = num_digits(n / 10);
        assert(n / 10 < pow10(d));
        assert(n < 10 * pow10(d)) by (nonlinear_arith)
            requires
                n / 10 < pow10(d),
                n >= 10,
        ;
        assert(n / 10 >= pow10((d - 1) as nat));
        assert(n >= 10 * pow10((d - 1) as nat)) by (nonlinear_arith)
            requires
                n / 10 >= pow10((d - 1) as nat),
        ;
        assert(pow10(d) == 10 * pow10((d - 1) as nat));
    }
}

/// Appends one decimal digit to `s`.
fn push_digit(s: &mut String, d: u8)
    requires
        d < 10,
    ensures
        final(s)@ == old(s)@ + seq![digit_char(d as nat)],
{
    proof {
        reveal_strlit("0");
        reveal_strlit("1");
        reveal_strlit("2");
        reveal_strlit("3");
        reveal_strlit("4");
        reveal_strlit("5");
        reveal_strlit("6");
        reveal_strlit("7");
        reveal_strlit("8");
        reveal_strlit("9");
    }
    match d {
        0 => s.append("0"),
        1 => s.append("1"),
        2 => s.append("2"),
        3 => s.append("3"),
        4 => s.append("4"),
        5 => s.append("5"),
        6 => s.append("6"),
        7 => s.append("7"),
        8 => s.append("8"),
        _ => s.append("9"),
    }
    proof {
        assert(final(s)@ =~= old(s)@ + seq![digit_char(d as nat)]);
    }
}

/// Appends the base-10 numeral of `n` to `s`.
pub fn push_digits(s: &mut String, n: u128)
    ensures
        final(s)@ == old(s)@ + dec_digits(n as nat),
    decreases n,
{
    if n >= 10 {
        push_digits(s, n / 10);
    }
    push_digit(s, (n % 10) as u8);
    proof {
        assert(final(s)@ =~= old(s)@ + dec_digits(n as nat));
    }
}

/// Appends the last `w` digits of `n`, zero padded to width `w`.
pub fn push_padded_digits(s: &mut String, n: u128, w: u32)
    ensures
        final(s)@ == old(s)@ + padded_digits(n as nat, w as nat),
    decreases w,
{
    if w > 0 {
        push_padded_digits(s, n / 10, w - 1);
        push_digit(s, (n % 10) as u8);
    }
    proof {
        assert(final(s)@ =~= old(s)@ + padded_digits(n as nat, w as nat));
    }
}

/// Any 128-bit value has at most 39 digits.
pub proof fn lemma_num_digits_max(n: nat)
    requires
        n <= u128::MAX,
    ensures
        num_digits(n) <= 39,
{
    lemma_num_digits_bounds(n);
    if num_digits(n) > 39 {
        lemma_pow10_le(39, (num_digits(n) - 1) as nat);
        assert(pow10(39) == 1000000000000000000000000000000000000000) by {
            reveal_with_fuel(pow10, 40);
        }
    }
}

/// The number of digits of `n` as a machine integer.
pub fn num_digits_u128(n: u128) -> (r: u32)
    ensures
        r == num_digits(n as nat),
{
    proof {
        lemma_num_digits_max(n as nat);
    }
    let mut m: u128 = n;
    let mut r: u32 = 1;
    while m >= 10
        invariant
            r >= 1,
            r + num_digits(m as nat) == 1 + num_digits(n as nat),
            num_digits(n as nat) <= 39,
        decreases m,
    {
        m = m / 10;
        r = r + 1;
    }
    r
}

/// `c / 10^k` rounded to the nearest integer, ties to the even neighbour
/// (banker's rounding).
pub open spec fn half_even_div(c: nat, k: nat) -> nat {
    let p = pow10(k);
    let q = c / p;
    let r = c % p;
    if 2 * r > p || (2 * r == p && q % 2 == 1) {
        q + 1
    } else {
        q
    }
}

/// Rounding to fewer digits never increases the coefficient.
pub proof fn lemma_half_even_le(c: nat, k: nat)
    ensures
        half_even_div(c, k) <= c,
{
    let p = pow10(k);
    lemma_pow10_pos(k);
    lemma_div_is_ordered_by_denominator(c as int, 1, p as int);
    let q = c / p;
    let r = c % p;
    if 2 * r > p || (2 * r == p && q % 2 == 1) {
        assert(k >= 1);
        lemma_pow10_le(1, k);
        assert(pow10(1) == 10) by {
            reveal_with_fuel(pow10, 2);
        }
        lemma_fundamental_div_mod(c as int, p as int);
        assert(q * p >= q * 10) by (nonlinear_arith)
            requires
                p >= 10,
                q >= 0,
        ;
        assert(c >= 10 * q + 5);
    }
}

pub fn half_even_div_u128(c: u128, k: u32) -> (r: u128)
    requires
        k <= 29,
    ensures
        r == half_even_div(c as nat, k as nat),
{
    let p = pow10_u128(k);
    proof {
        lemma_pow10_pos(k as nat);
        lemma_pow10_29();
        lemma_pow10_le(k as nat, 29);
        lemma_half_even_le(c as nat, k as nat);
        lemma_div_is_ordered_by_denominator(c as int, 1, p as int);
    }
    let q = c / p;
    let rem = c % p;
    if 2 * rem > p || (2 * rem == p && q % 2 == 1) {
        q + 1
    } else {
        q
    }
}

/// Rounds to `dp` decimal places: values with a larger scale are rescaled
/// with banker's rounding, all others are returned unchanged.  A zero keeps
/// its sign and takes scale `dp`.
pub open spec fn spec_round_dp(d: Dec, dp: u32) -> Dec {
    if d.scale <= dp {
        d
    } else if d.coeff == 0 {
        Dec { neg: d.neg, coeff: 0, scale: dp }
    } else {
        Dec {
            neg: d.neg,
            coeff: half_even_div(d.coeff as nat, (d.scale - dp) as nat) as u128,
            scale: dp,
        }
    }
}

pub fn round_dp(d: &Dec, dp: u32) -> (r: Dec)
    requires
        d.wf(),
    ensures
        r == spec_round_dp(*d, dp),
        r.wf(),
{
    if d.scale <= dp {
        *d
    } else if d.coeff == 0 {
        Dec { neg: d.neg, coeff: 0, scale: dp }
    } else {
        proof {
            lemma_half_even_le(d.coeff as nat, (d.scale - dp) as nat);
        }
        let c = half_even_div_u128(d.coeff, d.scale - dp);
        Dec { neg: d.neg, coeff: c, scale: dp }
    }
}

/// Rounds to `sf` significant figures.  A value whose integral part needs
/// more than `sf` digits cannot be represented at that precision, and the
/// rounding reports `None`.  Zero and a precision of zero round to plain
/// zero; a value that already has at most `sf` digits is kept unchanged.
pub open spec fn spec_round_sf(d: Dec, sf: u32) -> Option<Dec> {
    if d.coeff == 0 || sf == 0 {
        Some(Dec { neg: false, coeff: 0, scale: 0 })
    } else {
        let nd = num_digits(d.coeff as nat);
        if nd <= sf {
            Some(d)
        } else if nd - sf > d.scale {
            None
        } else {
            Some(spec_round_dp(d, (d.scale - (nd - sf)) as u32))
        }
    }
}

pub fn round_sf(d: &Dec, sf: u32) -> (r: Option<Dec>)
    requires
        d.wf(),
    ensures
        r == spec_round_sf(*d, sf),
        r matches Some(x) ==> x.wf(),
{
    if d.coeff == 0 || sf == 0 {
        Some(Dec { neg: false, coeff: 0, scale: 0 })
    } else {
        let nd = num_digits_u128(d.coeff);
        proof {
            lemma_num_digits_max(d.coeff as nat);
        }
        if nd <= sf {
            Some(*d)
        } else if nd - sf > d.scale {
            None
        } else {
            Some(round_dp(d, d.scale - (nd - sf)))
        }
    }
}

/// The result of stripping trailing zeros from `c` at scale `s`.
pub open spec fn strip_zeros(c: nat, s: nat) -> (nat, nat)
    decreases s,
{
    if s == 0 || c % 10 != 0 {
        (c, s)
    } else {
        strip_zeros(c / 10, (s - 1) as nat)
    }
}

/// Strips trailing zeros and turns a negative zero into plain zero.
pub open spec fn spec_normalize(d: Dec) -> Dec {
    if d.coeff == 0 {
        Dec { neg: false, coeff: 0, scale: 0 }
    } else {
        let cs = strip_zeros(d.coeff as nat, d.scale as nat);
        Dec { neg: d.neg, coeff: cs.0 as u128, scale: cs.1 as u32 }
    }
}

pub fn normalize(d: &Dec) -> (r: Dec)
    requires
        d.wf(),
    ensures
        r == spec_normalize(*d),
        r.wf(),
{
    if d.coeff == 0 {
        Dec { neg: false, coeff: 0, scale: 0 }
    } else {
        let mut c = d.coeff;
        let mut s = d.scale;
        while s > 0 && c % 10 == 0
            invariant
                1 <= c <= d.coeff,
                s <= d.scale,
                strip_zeros(c as nat, s as nat) == strip_zeros(d.coeff as nat, d.scale as nat),
            decreases s,
        {
            c = c / 10;
            s = s - 1;
        }
        Dec { neg: d.neg, coeff: c, scale: s }
    }
}

/// The plain decimal text of a value: an optional sign, the integral
/// digits, and, when the scale is positive, a decimal point followed by
/// exactly `scale` fractional digits.
pub open spec fn dec_text(d: Dec) -> Seq<char> {
    let sign: Seq<char> = if d.neg {
        seq!['-']
    } else {
        Seq::empty()
    };
    if d.scale == 0 {
        sign + dec_digits(d.coeff as nat)
    } else {
        let p = pow10(d.scale as nat);
        sign + dec_digits((d.coeff as nat) / p) + seq!['.'] + padded_digits(
            (d.coeff as nat) % p,
            d.scale as nat,
        )
    }
}

pub fn dec_to_string(d: &Dec) -> (r: String)
    requires
        d.wf(),
    ensures
        r@ == dec_text(*d),
{
    proof {
        reveal_strlit("-");
        reveal_strlit(".");
    }
    let mut s = String::new();
    if d.neg {
        s.append("-");
    }
    if d.scale == 0 {
        push_digits(&mut s, d.coeff);
    } else {
        let p = pow10_u128(d.scale);
        proof {
            lemma_pow10_pos(d.scale as nat);
        }
        push_digits(&mut s, d.coeff / p);
        s.append(".");
        push_padded_digits(&mut s, d.coeff % p, d.scale);
    }
    proof {
        assert(s@ =~= dec_text(*d));
    }
    s
}

/// The text of an exponent: a minus sign for negative exponents, no sign
/// otherwise, as the host language prints them.
pub open spec fn exp_text(e: int) -> Seq<char> {
    if e < 0 {
        seq!['-'] + dec_digits((-e) as nat)
    } else {
        dec_digits(e as nat)
    }
}

/// The mantissa text of a number `m` of `p + 1` digits: the leading digit,
/// a point, and the remaining `p` digits (no point when `p` is zero).
pub open spec fn mant_text(m: nat, p: nat) -> Seq<char> {
    if p == 0 {
        dec_digits(m)
    } else {
        dec_digits(m / pow10(p)) + seq!['.'] + padded_digits(m % pow10(p), p)
    }
}

/// The mantissa text of a number `c` of `nd` digits padded with `z` extra
/// zeros, so that `nd + z` digits are shown in all.
pub open spec fn mant_text_padded(c: nat, nd: nat, z: nat) -> Seq<char> {
    if nd + z == 1 {
        dec_digits(c)
    } else {
        dec_digits(c / pow10((nd - 1) as nat)) + seq!['.'] + padded_digits(
            c % pow10((nd - 1) as nat),
            (nd - 1) as nat,
        ) + padded_digits(0, z)
    }
}

/// Scientific notation with `p` digits after the point in the mantissa:
/// the exact digits of the value are rounded (ties to even) or zero padded
/// to `p + 1` significant digits, and the exponent places the point after
/// the first digit.
pub open spec fn sci_text(d: Dec, p: nat) -> Seq<char>
    recommends
        d.coeff > 0,
{
    let c = d.coeff as nat;
    let sign: Seq<char> = if d.neg {
        seq!['-']
    } else {
        Seq::empty()
    };
    let nd = num_digits(c);
    if nd > p + 1 {
        let m0 = half_even_div(c, (nd - p - 1) as nat);
        if num_digits(m0) > p + 1 {
            sign + mant_text(m0 / 10, p) + seq!['e'] + exp_text(nd - d.scale)
        } else {
            sign + mant_text(m0, p) + seq!['e'] + exp_text(nd - 1 - d.scale)
        }
    } else {
        sign + mant_text_padded(c, nd, (p + 1 - nd) as nat) + seq!['e'] + exp_text(
            nd - 1 - d.scale,
        )
    }
}

/// Appends the exponent text to `s`.
fn push_exp(s: &mut String, e: i64)
    requires
        -100 <= e <= 100,
    ensures
        final(s)@ == old(s)@ + exp_text(e as int),
{
    proof {
        reveal_strlit("-");
    }
    if e < 0 {
        s.append("-");
        push_digits(s, (-e) as u128);
    } else {
        push_digits(s, e as u128);
    }
    proof {
        assert(final(s)@ =~= old(s)@ + exp_text(e as int));
    }
}

/// Appends `z` zero digits to `s`.
fn push_zeros(s: &mut String, z: u64)
    ensures
        final(s)@ == old(s)@ + padded_digits(0, z as nat),
{
    let mut i: u64 = 0;
    while i < z
        invariant
            i <= z,
            s@ == old(s)@ + padded_digits(0, i as nat),
        decreases z - i,
    {
        push_digit(s, 0);
        i = i + 1;
    }
    proof {
        assert(final(s)@ =~= old(s)@ + padded_digits(0, z as nat));
    }
}

/// A well-formed coefficient has at most 29 digits.
pub proof fn lemma_num_digits_wf(c: nat)
    requires
        c <= MAX_COEFF,
    ensures
        num_digits(c) <= 29,
{
    lemma_num_digits_bounds(c);
    if num_digits(c) > 29 {
        lemma_pow10_le(29, (num_digits(c) - 1) as nat);
        lemma_pow10_29();
    }
}

/// Appends the scientific-notation text of a (non-zero) decimal.
pub fn sci_to_string(d: &Dec, p: u32) -> (r: String)
    requires
        d.wf(),
        d.coeff > 0,
    ensures
        r@ == sci_text(*d, p as nat),
{
    proof {
        reveal_strlit("-");
        reveal_strlit(".");
        reveal_strlit("e");
        lemma_num_digits_wf(d.coeff as nat);
        lemma_num_digits_bounds(d.coeff as nat);
        lemma_pow10_29();
    }
    let mut s = String::new();
    if d.neg {
        s.append("-");
    }
    let nd = num_digits_u128(d.coeff);
    if (nd as u64) > (p as u64) + 1 {
        // More digits than the precision allows: round the digit string.
        let k = nd - p - 1;
        let m0 = half_even_div_u128(d.coeff, k);
        proof {
            lemma_half_even_le(d.coeff as nat, k as nat);
            lemma_num_digits_max(m0 as nat);
        }
        let nm = num_digits_u128(m0);
        let (m, exp): (u128, i64) = if nm > p + 1 {
            (m0 / 10, nd as i64 - d.scale as i64)
        } else {
            (m0, nd as i64 - 1 - d.scale as i64)
        };
        if p == 0 {
            push_digits(&mut s, m);
        } else {
            let q = pow10_u128(p);
            proof {
                lemma_pow10_pos(p as nat);
            }
            push_digits(&mut s, m / q);
            s.append(".");
            push_padded_digits(&mut s, m % q, p);
        }
        s.append("e");
        push_exp(&mut s, exp);
    } else {
        // At most as many digits as the precision allows: pad with zeros.
        let z = (p as u64) + 1 - (nd as u64);
        let exp: i64 = nd as i64 - 1 - d.scale as i64;
        if p == 0 {
            push_digits(&mut s, d.coeff);
        } else {
            let q = pow10_u128(nd - 1);
            proof {
                lemma_pow10_pos((nd - 1) as nat);
            }
            push_digits(&mut s, d.coeff / q);
            s.append(".");
            push_padded_digits(&mut s, d.coeff % q, nd - 1);
            push_zeros(&mut s, z);
        }
        s.append("e");
        push_exp(&mut s, exp);
    }
    proof {
        assert(s@ =~= sci_text(*d, p as nat));
    }
    s
}

/// The canonical text of a decimal at precision `p`: the value rounded to
/// `p` decimal places, then to `p` significant figures, with trailing
/// zeros stripped; scientific notation when the integral part does not fit
/// in `p` significant figures.
pub open spec fn spec_format(d: Dec, p: u32) -> Seq<char> {
    let r1 = spec_round_dp(d, p);
    match spec_round_sf(r1, p) {
        Some(r2) => dec_text(spec_normalize(r2)),
        None => sci_text(d, p as nat),
    }
}

/// The numeric formatter: every numeric value of the output is rendered
/// through this single function, so that precision is applied uniformly.
pub fn format_dec(d: &Dec, p: u32) -> (r: String)
    requires
        d.wf(),
    ensures
        r@ == spec_format(*d, p),
{
    let r1 = round_dp(d, p);
    match round_sf(&r1, p) {
        Some(r2) => {
            let n = normalize(&r2);
            dec_to_string(&n)
        },
        None => {
            proof {
                lemma_half_even_le(d.coeff as nat, (d.scale - p) as nat);
            }
            sci_to_string(d, p)
        },
    }
}

/// The digit denoted by one character (digits only).
pub open spec fn char_digit(c: char) -> nat {
    if c == '1' {
        1
    } else if c == '2' {
        2
    } else if c == '3' {
        3
    } else if c == '4' {
        4
    } else if c == '5' {
        5
    } else if c == '6' {
        6
    } else if c == '7' {
        7
    } else if c == '8' {
        8
    } else if c == '9' {
        9
    } else {
        0
    }
}

pub open spec fn is_digit(c: char) -> bool {
    c == '0' || c == '1' || c == '2' || c == '3' || c == '4' || c == '5' || c == '6' || c == '7'
        || c == '8' || c == '9'
}

pub open spec fn all_digits(s: Seq<char>) -> bool {
    forall|i: int| 0 <= i < s.len() ==> is_digit(#[trigger] s[i])
}

/// The number a string of digit characters denotes.
pub open spec fn digits_val(s: Seq<char>) -> nat
    decreases s.len(),
{
    if s.len() == 0 {
        0
    } else {
        digits_val(s.drop_last()) * 10 + char_digit(s.last())
    }
}

/// Reading back the character of a digit yields the digit.
proof fn lemma_char_digit_inverse(d: nat)
    requires
        d < 10,
    ensures
        char_digit(digit_char(d)) == d,
        is_digit(digit_char(d)),
{
}

/// The numeral of `n` denotes `n` and consists of digits only.
pub proof fn lemma_digits_val_of(n: nat)
    ensures
        digits_val(dec_digits(n)) == n,
        all_digits(dec_digits(n)),
    decreases n,
{
    if n < 10 {
        lemma_char_digit_inverse(n);
        assert(dec_digits(n) == seq![digit_char(n)]);
        assert(dec_digits(n).len() == 1);
        assert(dec_digits(n).drop_last() =~= Seq::<char>::empty());
        assert(dec_digits(n).last() == digit_char(n));
        assert(digits_val(dec_digits(n)) == digits_val(dec_digits(n).drop_last()) * 10
            + char_digit(dec_digits(n).last()));
        assert(digits_val(Seq::<char>::empty()) == 0);
        assert(digits_val(dec_digits(n)) == n);
    } else {
        lemma_digits_val_of(n / 10);
        lemma_char_digit_inverse(n % 10);
        assert(dec_digits(n).drop_last() =~= dec_digits(n / 10));
        assert(dec_digits(n).last() == digit_char(n % 10));
        assert(all_digits(dec_digits(n))) by {
            assert(forall|i: int|
                0 <= i < dec_digits(n / 10).len() ==> #[trigger] dec_digits(n)[i] == dec_digits(
                    n / 10,
                )[i]);
        }
    }
}

/// The zero-padded numeral of `n < 10^w` denotes `n`, has exactly `w`
/// characters, and consists of digits only.
pub proof fn lemma_padded_val(n: nat, w: nat)
    requires
        n < pow10(w),
    ensures
        digits_val(padded_digits(n, w)) == n,
        all_digits(padded_digits(n, w)),
        padded_digits(n, w).len() == w,
    decreases w,
{
    if w > 0 {
        assert(n / 10 < pow10((w - 1) as nat)) by (nonlinear_arith)
            requires
                n < pow10(w),
                pow10(w) == 10 * pow10((w - 1) as nat),
        ;
        lemma_padded_val(n / 10, (w - 1) as nat);
        assert(padded_digits(n, w).drop_last() =~= padded_digits(n / 10, (w - 1) as nat));
    }
}

/// The position of the first decimal point, or the length when there is
/// none.
pub open spec fn find_dot(u: Seq<char>) -> int
    decreases u.len(),
{
    if u.len() == 0 {
        0
    } else if u[0] == '.' {
        0
    } else {
        1 + find_dot(u.skip(1))
    }
}

proof fn lemma_find_dot_all_digits(u: Seq<char>)
    requires
        all_digits(u),
    ensures
        find_dot(u) == u.len(),
    decreases u.len(),
{
    if u.len() > 0 {
        assert(is_digit(u[0]));
        assert(all_digits(u.skip(1))) by {
            assert(forall|i: int| 0 <= i < u.skip(1).len() ==> u.skip(1)[i] == #[trigger] u[i + 1]);
        }
        lemma_find_dot_all_digits(u.skip(1));
    }
}

proof fn lemma_find_dot_concat(a: Seq<char>, b: Seq<char>)
    requires
        all_digits(a),
    ensures
        find_dot(a + seq!['.'] + b) == a.len(),
    decreases a.len(),
{
    let u = a + seq!['.'] + b;
    if a.len() == 0 {
        assert(u[0] == '.');
    } else {
        assert(is_digit(u[0]));
        assert(u.skip(1) =~= a.skip(1) + seq!['.'] + b);
        assert(all_digits(a.skip(1))) by {
            assert(forall|i: int| 0 <= i < a.skip(1).len() ==> a.skip(1)[i] == #[trigger] a[i + 1]);
        }
        lemma_find_dot_concat(a.skip(1), b);
    }
}

/// The decimal a canonical text denotes: an optional minus sign, the
/// integral digits, and an optional point followed by the fractional
/// digits, whose count is the scale.
pub open spec fn parse_dec(t: Seq<char>) -> Dec {
    let neg = t.len() > 0 && t[0] == '-';
    let u = if neg {
        t.skip(1)
    } else {
        t
    };
    let dot = find_dot(u);
    if dot == u.len() {
        Dec { neg, coeff: digits_val(u) as u128, scale: 0 }
    } else {
        Dec {
            neg,
            coeff: (digits_val(u.take(dot)) * pow10((u.len() - dot - 1) as nat) + digits_val(
                u.skip(dot + 1),
            )) as u128,
            scale: (u.len() - dot - 1) as u32,
        }
    }
}

/// The plain decimal text of a well-formed value denotes exactly that
/// value.
pub proof fn lemma_dec_text_parses(x: Dec)
    requires
        x.wf(),
    ensures
        parse_dec(dec_text(x)) == x,
{
    lemma_pow10_29();
    let c = x.coeff as nat;
    let t = dec_text(x);
    if x.scale == 0 {
        lemma_digits_val_of(c);
        let body = dec_digits(c);
        lemma_dec_digits_len(c);
        if x.neg {
            assert(t[0] == '-');
            assert(t.skip(1) =~= body);
            lemma_find_dot_all_digits(body);
        } else {
            assert(t =~= body);
            assert(is_digit(t[0]));
            lemma_find_dot_all_digits(body);
        }
    } else {
        let s = x.scale as nat;
        let p = pow10(s);
        lemma_pow10_pos(s);
        lemma_fundamental_div_mod(c as int, p as int);
        let hi = dec_digits(c / p);
        let lo = padded_digits(c % p, s);
        lemma_digits_val_of(c / p);
        lemma_padded_val(c % p, s);
        lemma_dec_digits_len(c / p);
        let body = hi + seq!['.'] + lo;
        assert(c / p * p + c % p == c);
        if x.neg {
            assert(t[0] == '-');
            assert(t.skip(1) =~= body);
        } else {
            assert(t =~= body);
            assert(is_digit(t[0]));
        }
        lemma_find_dot_concat(hi, lo);
        let u = if x.neg {
            t.skip(1)
        } else {
            t
        };
        assert(u =~= body);
        let dot = find_dot(u);
        assert(dot == hi.len());
        assert(u.take(dot) =~= hi);
        assert(u.skip(dot + 1) =~= lo);
        assert(u.len() - dot - 1 == s);
        assert(digits_val(u.take(dot)) * pow10((u.len() - dot - 1) as nat) + digits_val(
            u.skip(dot + 1),
        ) == c);
    }
}

/// Stripping trailing zeros never grows the coefficient or the scale.
proof fn lemma_strip_zeros_le(c: nat, s: nat)
    ensures
        strip_zeros(c, s).0 <= c,
        strip_zeros(c, s).1 <= s,
    decreases s,
{
    if !(s == 0 || c % 10 != 0) {
        lemma_strip_zeros_le(c / 10, (s - 1) as nat);
    }
}

/// Rounding and normalizing keep a decimal well formed.
pub proof fn lemma_format_steps_wf(d: Dec, p: u32)
    requires
        d.wf(),
    ensures
        spec_round_dp(d, p).wf(),
        spec_round_sf(spec_round_dp(d, p), p) matches Some(x) ==> spec_normalize(x).wf(),
{
    lemma_half_even_le(d.coeff as nat, (d.scale - p) as nat);
    let r1 = spec_round_dp(d, p);
    match spec_round_sf(r1, p) {
        Some(x) => {
            if r1.coeff != 0 && p != 0 && num_digits(r1.coeff as nat) > p {
                lemma_half_even_le(r1.coeff as nat, (num_digits(r1.coeff as nat) - p) as nat);
            }
            lemma_strip_zeros_le(x.coeff as nat, x.scale as nat);
        },
        None => (),
    }
}

/// Law (round trip, exactness): whenever the dual rounding succeeds, the
/// canonical text the formatter emits parses back to exactly the
/// dual-rounded, normalized value — formatting loses nothing beyond the
/// two roundings the precision asks for.
pub proof fn lemma_format_round_trip(d: Dec, p: u32)
    requires
        d.wf(),
        spec_round_sf(spec_round_dp(d, p), p) is Some,
    ensures
        parse_dec(spec_format(d, p)) == spec_normalize(
            spec_round_sf(spec_round_dp(d, p), p).unwrap(),
        ),
{
    lemma_format_steps_wf(d, p);
    lemma_dec_text_parses(spec_normalize(spec_round_sf(spec_round_dp(d, p), p).unwrap()));
}

/// Law (round trip, tolerance): rounding to `p` decimal places moves the
/// value by at most half a unit in the `p`-th decimal place, and keeps
/// the sign: with `k = scale - p`, the rounded coefficient re-scaled to
/// the original scale differs from the original coefficient by at most
/// `10^k / 2`.
pub proof fn lemma_round_dp_tolerance(d: Dec, p: u32)
    requires
        d.wf(),
        d.scale > p,
    ensures
        spec_round_dp(d, p).neg == d.neg,
        2 * (if spec_round_dp(d, p).coeff * pow10((d.scale - p) as nat) >= d.coeff {
            spec_round_dp(d, p).coeff * pow10((d.scale - p) as nat) - d.coeff
        } else {
            d.coeff - spec_round_dp(d, p).coeff * pow10((d.scale - p) as nat)
        }) <= pow10((d.scale - p) as nat),
{
    let k = (d.scale - p) as nat;
    let pk = pow10(k);
    lemma_pow10_pos(k);
    if d.coeff == 0 {
    } else {
        let c = d.coeff as nat;
        let q = c / pk;
        let r = c % pk;
        lemma_fundamental_div_mod(c as int, pk as int);
        lemma_half_even_le(c, k);
        assert(spec_round_dp(d, p).coeff == half_even_div(c, k));
        if 2 * r > pk || (2 * r == pk && q % 2 == 1) {
            assert((q + 1) * pk == q * pk + pk) by (nonlinear_arith);
        }
    }
}

/// Tolerance comparison against a small integer constant `k`: the value is
/// treated as equal to `k` when it differs by at most `k * 2^-50`, so that
/// noise from binary floating round-trips does not defeat the
/// default-omission checks.  Zero is matched exactly.
pub open spec fn dec_fuzzy_eq(d: Dec, k: nat) -> bool {
    let t = k * pow10(d.scale as nat);
    let n = d.signed_coeff();
    (if n - t >= 0 {
        n - t
    } else {
        t - n
    }) * 1125899906842624 <= t
}

/// Whether the value equals the constant `k` up to the tolerance.
pub fn fuzzy_eq_const(d: &Dec, k: u32) -> (b: bool)
    requires
        d.wf(),
        k <= 10,
    ensures
        b == dec_fuzzy_eq(*d, k as nat),
{
    let p = pow10_u128(d.scale);
    proof {
        lemma_pow10_29();
        lemma_pow10_le(d.scale as nat, 28);
        assert(pow10(29) == 10 * pow10(28));
        assert((k as u128) * p <= 100000000000000000000000000000) by (nonlinear_arith)
            requires
                k <= 10,
                p <= 10000000000000000000000000000,
        ;
    }
    let t = (k as u128) * p;
    let diff = if d.neg {
        d.coeff + t
    } else if d.coeff >= t {
        d.coeff - t
    } else {
        t - d.coeff
    };
    if diff >= 140737488355328 {
        // 2^47: too far off for the tolerance, whose scaled bound is
        // below 2^97.
        proof {
            assert(diff * 1125899906842624 >= 140737488355328u128 * 1125899906842624)
                by (nonlinear_arith)
                requires
                    diff >= 140737488355328u128,
            ;
        }
        false
    } else {
        diff * 1125899906842624 <= t
    }
}

/// The sign-flipped value; a zero stays a plain (non-negative) zero.
pub open spec fn spec_negate(d: Dec) -> Dec {
    Dec {
        neg: if d.coeff == 0 {
            false
        } else {
            !d.neg
        },
        coeff: d.coeff,
        scale: d.scale,
    }
}

pub fn negate(d: &Dec) -> (r: Dec)
    ensures
        r == spec_negate(*d),
        d.wf() ==> r.wf(),
{
    Dec {
        neg: if d.coeff == 0 {
            false
        } else {
            !d.neg
        },
        coeff: d.coeff,
        scale: d.scale,
    }
}

/// A value that can be rendered as Asymptote source text.
pub trait Asy {
    /// When the value may be rendered at all.
    spec fn asy_wf(&self) -> bool;

    /// The exact text the rendering produces.
    spec fn asy_spec(&self, opt: AsyOptions) -> Seq<char>;

    /// Renders the value.
    fn transpile(&self, opt: &AsyOptions) -> (r: String)
        requires
            self.asy_wf(),
        ensures
            r@ == self.asy_spec(*opt),
    ;
}

impl Asy for Dec {
    open spec fn asy_wf(&self) -> bool {
        self.wf()
    }

    open spec fn asy_spec(&self, opt: AsyOptions) -> Seq<char> {
        spec_format(*self, opt.precision)
    }

    fn transpile(&self, opt: &AsyOptions) -> (r: String) {
        format_dec(self, opt.precision)
    }
}

impl Asy for u64 {
    open spec fn asy_wf(&self) -> bool {
        true
    }

    open spec fn asy_spec(&self, opt: AsyOptions) -> Seq<char> {
        dec_digits(*self as nat)
    }

    fn transpile(&self, opt: &AsyOptions) -> (r: String) {
        let mut s = String::new();
        push_digits(&mut s, *self as u128);
        proof {
            assert(s@ =~= dec_digits(*self as nat));
        }
        s
    }
}

} // verus!
