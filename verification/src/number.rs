//! The language's numbers are IEEE double-precision values, carried as their
//! 64-bit encodings. Arithmetic, comparison, decimal parsing and decimal
//! printing of non-integral values are done by the `rustc_apfloat` software
//! float library through trusted wrappers; sign, exponent and significand
//! handling, and the printing of integral values, are verified here.
use vstd::prelude::*;
use vstd::string::{StrSliceExecFns, StringExecFns};

verus! {

/// Bit weight of the sign, `2^63`.
pub const SIGN_WEIGHT: u64 = 0x8000_0000_0000_0000;

/// Bit weight of the exponent field, `2^52`.
pub const EXP_WEIGHT: u64 = 0x10_0000_0000_0000;

/// How two numbers stand to one another under IEEE comparison.
#[derive(Debug, Clone, Copy, PartialEq, Eq, Structural)]
pub enum NumCmp {
    Less,
    Equal,
    Greater,
    Unordered,
}

pub uninterp spec fn f64_add(a: u64, b: u64) -> u64;

pub uninterp spec fn f64_sub(a: u64, b: u64) -> u64;

pub uninterp spec fn f64_mul(a: u64, b: u64) -> u64;

pub uninterp spec fn f64_div(a: u64, b: u64) -> u64;

pub uninterp spec fn f64_cmp(a: u64, b: u64) -> NumCmp;

pub uninterp spec fn f64_of_dec(s: Seq<char>) -> u64;

pub uninterp spec fn f64_dec_str(bits: u64) -> Seq<char>;

/// Relies on rustc_apfloat's IEEE double addition (`core::ops::Add` for
/// `ieee::Double`, rounding to nearest even): the result bits depend on the
/// operand bits alone.
#[verifier::external_body]
pub fn add_bits(a: u64, b: u64) -> (r: u64)
    ensures
        r == f64_add(a, b),
{
    let x = <rustc_apfloat::ieee::Double as rustc_apfloat::Float>::from_bits(a as u128);
    let y = <rustc_apfloat::ieee::Double as rustc_apfloat::Float>::from_bits(b as u128);
    rustc_apfloat::Float::to_bits((x + y).value) as u64
}

/// Relies on rustc_apfloat's IEEE double subtraction (`core::ops::Sub` for
/// `ieee::Double`, rounding to nearest even): the result bits depend on the
/// operand bits alone.
#[verifier::external_body]
pub fn sub_bits(a: u64, b: u64) -> (r: u64)
    ensures
        r == f64_sub(a, b),
{
    let x = <rustc_apfloat::ieee::Double as rustc_apfloat::Float>::from_bits(a as u128);
    let y = <rustc_apfloat::ieee::Double as rustc_apfloat::Float>::from_bits(b as u128);
    rustc_apfloat::Float::to_bits((x - y).value) as u64
}

/// Relies on rustc_apfloat's IEEE double multiplication (`core::ops::Mul` for
/// `ieee::Double`, rounding to nearest even): the result bits depend on the
/// operand bits alone.
#[verifier::external_body]
pub fn mul_bits(a: u64, b: u64) -> (r: u64)
    ensures
        r == f64_mul(a, b),
{
    let x = <rustc_apfloat::ieee::Double as rustc_apfloat::Float>::from_bits(a as u128);
    let y = <rustc_apfloat::ieee::Double as rustc_apfloat::Float>::from_bits(b as u128);
    rustc_apfloat::Float::to_bits((x * y).value) as u64
}

/// Relies on rustc_apfloat's IEEE double division (`core::ops::Div` for
/// `ieee::Double`, rounding to nearest even): the result bits depend on the
/// operand bits alone.
#[verifier::external_body]
pub fn div_bits(a: u64, b: u64) -> (r: u64)
    ensures
        r == f64_div(a, b),
{
    let x = <rustc_apfloat::ieee::Double as rustc_apfloat::Float>::from_bits(a as u128);
    let y = <rustc_apfloat::ieee::Double as rustc_apfloat::Float>::from_bits(b as u128);
    rustc_apfloat::Float::to_bits((x / y).value) as u64
}

/// Relies on rustc_apfloat's IEEE double comparison (`PartialOrd::partial_cmp`
/// for `ieee::Double`): the outcome depends on the operand bits alone, and is
/// `Unordered` exactly when a NaN is involved.
#[verifier::external_body]
pub fn cmp_bits(a: u64, b: u64) -> (r: NumCmp)
    ensures
        r == f64_cmp(a, b),
{
    let x = <rustc_apfloat::ieee::Double as rustc_apfloat::Float>::from_bits(a as u128);
    let y = <rustc_apfloat::ieee::Double as rustc_apfloat::Float>::from_bits(b as u128);
    match x.partial_cmp(&y) {
        Some(core::cmp::Ordering::Less) => NumCmp::Less,
        Some(core::cmp::Ordering::Equal) => NumCmp::Equal,
        Some(core::cmp::Ordering::Greater) => NumCmp::Greater,
        None => NumCmp::Unordered,
    }
}

/// Relies on rustc_apfloat's decimal parsing for IEEE doubles
/// (`core::str::FromStr` for `ieee::Double`, rounding to nearest even): the
/// result bits depend on the text alone. Number lexemes (digits with an
/// optional fraction) always parse; any unparsable text yields the zero bits.
#[verifier::external_body]
pub fn parse_bits(s: &str) -> (r: u64)
    ensures
        r == f64_of_dec(s@),
{
    match <rustc_apfloat::ieee::Double as core::str::FromStr>::from_str(s) {
        Ok(d) => rustc_apfloat::Float::to_bits(d) as u64,
        Err(_) => 0,
    }
}

/// Relies on rustc_apfloat's decimal printing for IEEE doubles
/// (`core::fmt::Display` for `ieee::Double`): the text depends on the bits
/// alone.
#[verifier::external_body]
pub fn dec_str_bits(bits: u64) -> (r: String)
    ensures
        r@ == f64_dec_str(bits),
{
    format!("{}", <rustc_apfloat::ieee::Double as rustc_apfloat::Float>::from_bits(bits as u128))
}

/// The biased exponent field of an encoded double.
pub open spec fn spec_exp_field(bits: u64) -> u64 {
    (bits / EXP_WEIGHT) % 0x800
}

/// The significand field of an encoded double.
pub open spec fn spec_mant_field(bits: u64) -> u64 {
    bits % EXP_WEIGHT
}

/// Whether an encoded double is negative (its sign bit is set).
pub open spec fn spec_negative(bits: u64) -> bool {
    bits >= SIGN_WEIGHT
}

/// Whether an encoded double is a NaN.
pub open spec fn spec_is_nan(bits: u64) -> bool {
    spec_exp_field(bits) == 0x7ff && spec_mant_field(bits) != 0
}

/// Whether an encoded double is an infinity.
pub open spec fn spec_is_inf(bits: u64) -> bool {
    spec_exp_field(bits) == 0x7ff && spec_mant_field(bits) == 0
}

/// Whether an encoded double equals zero under IEEE comparison: both
/// signed zeroes and nothing else compare equal to zero.
pub open spec fn spec_is_zero(bits: u64) -> bool {
    bits % SIGN_WEIGHT == 0
}

/// `2^k`.
pub open spec fn p2(k: nat) -> nat
    decreases k,
{
    if k == 0 {
        1
    } else {
        2 * p2((k - 1) as nat)
    }
}

proof fn lemma_p2_63()
    ensures
        p2(63) == 0x8000_0000_0000_0000,
{
    reveal_with_fuel(p2, 64);
}

proof fn lemma_p2_10()
    ensures
        p2(10) == 1024,
{
    reveal_with_fuel(p2, 11);
}

proof fn lemma_p2_le(j: nat, k: nat)
    requires
        j <= k,
    ensures
        p2(j) <= p2(k),
    decreases k,
{
    if j < k {
        lemma_p2_le(j, (k - 1) as nat);
    }
}

/// `2^k` for `k <= 63`, computed.
pub fn p2_u64(k: usize) -> (r: u64)
    requires
        k <= 63,
    ensures
        r == p2(k as nat),
        r >= 1,
{
    let mut r: u64 = 1;
    let mut j: usize = 0;
    while j < k
        invariant
            j <= k <= 63,
            r == p2(j as nat),
            r >= 1,
        decreases k - j,
    {
        proof {
            lemma_p2_le((j + 1) as nat, 63);
            lemma_p2_63();
        }
        r = r * 2;
        j = j + 1;
    }
    r
}

/// Whether an encoded double is finite with no fractional part.
pub open spec fn spec_is_integral(bits: u64) -> bool {
    let e = spec_exp_field(bits) as int;
    let m = spec_mant_field(bits) as int;
    if e == 0x7ff {
        false
    } else if e == 0 {
        m == 0
    } else if e < 1023 {
        false
    } else if e < 1075 {
        m % p2((1075 - e) as nat) as int == 0
    } else {
        true
    }
}

/// The magnitude of an integral encoded double, clamped to `2^63` the way a
/// conversion to a 64-bit signed integer clamps.
pub open spec fn spec_integral_mag(bits: u64) -> nat {
    let e = spec_exp_field(bits) as nat;
    let m = spec_mant_field(bits) as nat;
    if e == 0 {
        0
    } else if e < 1075 {
        (EXP_WEIGHT as nat + m) / p2((1075 - e) as nat)
    } else if e < 1086 {
        (EXP_WEIGHT as nat + m) * p2((e - 1075) as nat)
    } else {
        p2(63)
    }
}

/// The signed integral value an integral encoded double prints as, after the
/// saturating conversion to a 64-bit signed integer.
pub open spec fn spec_integral_value(bits: u64) -> int {
    let mag = spec_integral_mag(bits) as int;
    if spec_negative(bits) {
        -mag
    } else if mag == p2(63) {
        mag - 1
    } else {
        mag
    }
}

/// The decimal digits of `n`, most significant first.
pub open spec fn spec_dec_digits(n: nat) -> Seq<char>
    decreases n,
{
    let d = seq![spec_digit_char((n % 10) as nat)];
    if n < 10 {
        d
    } else {
        spec_dec_digits(n / 10) + d
    }
}

/// The character for one decimal digit.
pub open spec fn spec_digit_char(d: nat) -> char {
    if d == 0 {
        '0'
    } else if d == 1 {
        '1'
    } else if d == 2 {
        '2'
    } else if d == 3 {
        '3'
    } else if d == 4 {
        '4'
    } else if d == 5 {
        '5'
    } else if d == 6 {
        '6'
    } else if d == 7 {
        '7'
    } else if d == 8 {
        '8'
    } else {
        '9'
    }
}

/// The decimal text of a signed integer.
pub open spec fn spec_int_str(n: int) -> Seq<char> {
    if n < 0 {
        seq!['-'] + spec_dec_digits((-n) as nat)
    } else {
        spec_dec_digits(n as nat)
    }
}

/// How an encoded double prints: NaN and the infinities by name, integral
/// values as plain integers (after the saturating signed 64-bit conversion),
/// and everything else by the library's decimal printing.
pub open spec fn spec_num_str(bits: u64) -> Seq<char> {
    if spec_is_nan(bits) {
        "NaN"@
    } else if spec_is_inf(bits) {
        if spec_negative(bits) {
            "-inf"@
        } else {
            "inf"@
        }
    } else if spec_is_integral(bits) {
        spec_int_str(spec_integral_value(bits))
    } else {
        f64_dec_str(bits)
    }
}

fn digit_char(d: u64) -> (c: char)
    requires
        d < 10,
    ensures
        c == spec_digit_char(d as nat),
{
    match d {
        0 => '0',
        1 => '1',
        2 => '2',
        3 => '3',
        4 => '4',
        5 => '5',
        6 => '6',
        7 => '7',
        8 => '8',
        _ => '9',
    }
}

pub fn dec_digits(n: u64) -> (r: String)
    ensures
        r@ == spec_dec_digits(n as nat),
    decreases n,
{
    if n < 10 {
        let mut r = String::new();
        crate::text::push_char(&mut r, digit_char(n));
        proof {
            assert(r@ =~= spec_dec_digits(n as nat));
        }
        r
    } else {
        let mut r = dec_digits(n / 10);
        crate::text::push_char(&mut r, digit_char(n % 10));
        proof {
            assert(r@ =~= spec_dec_digits(n as nat));
        }
        r
    }
}

/// The sign bit flipped: how IEEE negates an encoded double.
pub open spec fn spec_negated(bits: u64) -> u64 {
    if bits >= SIGN_WEIGHT {
        (bits - SIGN_WEIGHT) as u64
    } else {
        (bits + SIGN_WEIGHT) as u64
    }
}

/// Negation of an encoded double flips the sign bit and nothing else.
pub fn negate_bits(bits: u64) -> (r: u64)
    ensures
        r == spec_negated(bits),
{
    if bits >= SIGN_WEIGHT {
        bits - SIGN_WEIGHT
    } else {
        bits + SIGN_WEIGHT
    }
}

/// Whether the bits compare equal to zero (a signed zero).
pub fn is_zero_bits(bits: u64) -> (r: bool)
    ensures
        r == spec_is_zero(bits),
{
    bits % SIGN_WEIGHT == 0
}

/// Prints an encoded double as the language prints it.
pub fn num_str_bits(bits: u64) -> (r: String)
    ensures
        r@ == spec_num_str(bits),
{
    let e = (bits / EXP_WEIGHT) % 0x800;
    let m = bits % EXP_WEIGHT;
    let neg = bits >= SIGN_WEIGHT;
    if e == 0x7ff {
        if m != 0 {
            String::from_str("NaN")
        } else if neg {
            String::from_str("-inf")
        } else {
            String::from_str("inf")
        }
    } else if e == 0 && m == 0 {
        proof {
            reveal_strlit("0");
            lemma_p2_63();
            assert(spec_num_str(bits) == spec_dec_digits(0));
            assert("0"@ =~= spec_dec_digits(0));
        }
        String::from_str("0")
    } else if e == 0 || e < 1023 {
        dec_str_bits(bits)
    } else if e < 1075 {
        let p = p2_u64((1075 - e) as usize);
        if m % p == 0 {
            let mag = (EXP_WEIGHT + m) / p;
            proof {
                lemma_p2_63();
                assert(mag <= EXP_WEIGHT + m) by (nonlinear_arith)
                    requires
                        p >= 1,
                        mag == (EXP_WEIGHT + m) as u64 / p,
                ;
                assert(spec_is_integral(bits));
                assert(mag == spec_integral_mag(bits));
                assert(spec_integral_value(bits) == if neg {
                    -(mag as int)
                } else {
                    mag as int
                });
            }
            signed_str(neg, mag)
        } else {
            proof {
                assert(!spec_is_integral(bits));
            }
            dec_str_bits(bits)
        }
    } else if e < 1086 {
        let p = p2_u64((e - 1075) as usize);
        proof {
            lemma_p2_le(((e - 1075) as nat), 10);
            lemma_p2_10();
            assert((EXP_WEIGHT + m) * (p as u64) < 0x8000_0000_0000_0000) by (nonlinear_arith)
                requires
                    m < EXP_WEIGHT,
                    EXP_WEIGHT == 0x10_0000_0000_0000,
                    0 < p <= 1024,
            ;
        }
        let mag = (EXP_WEIGHT + m) * p;
        proof {
            lemma_p2_63();
            assert(spec_is_integral(bits));
            assert(mag == spec_integral_mag(bits));
            assert(spec_integral_value(bits) == if neg {
                -(mag as int)
            } else {
                mag as int
            });
        }
        signed_str(neg, mag)
    } else {
        proof {
            lemma_p2_63();
        }
        proof {
            assert(spec_is_integral(bits));
            assert(spec_integral_mag(bits) == p2(63));
        }
        if neg {
            let r = String::from_str("-");
            proof {
                reveal_strlit("-");
            }
            let d = dec_digits(0x8000_0000_0000_0000);
            let r2 = r.concat(d.as_str());
            proof {
                assert(spec_integral_value(bits) == -0x8000_0000_0000_0000);
                assert(r2@ =~= spec_num_str(bits));
            }
            r2
        } else {
            proof {
                assert(spec_integral_value(bits) == 0x7fff_ffff_ffff_ffff);
            }
            let r = dec_digits(0x7fff_ffff_ffff_ffff);
            r
        }
    }
}

fn signed_str(neg: bool, mag: u64) -> (r: String)
    requires
        mag < SIGN_WEIGHT,
    ensures
        neg ==> r@ == spec_int_str(-(mag as int)),
        !neg ==> r@ == spec_int_str(mag as int),
{
    if neg && mag > 0 {
        let r = String::from_str("-");
        proof {
            reveal_strlit("-");
        }
        let d = dec_digits(mag);
        let r2 = r.concat(d.as_str());
        proof {
            assert(r2@ =~= seq!['-'] + spec_dec_digits(mag as nat));
        }
        r2
    } else {
        dec_digits(mag)
    }
}

} // verus!
