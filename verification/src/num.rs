//! Runtime numbers are IEEE-754 binary64 values, carried as their 64-bit
//! patterns. The arithmetic itself is done by rustc_apfloat's software
//! implementation of the same format; every operation here is a pure function
//! of the operand bit patterns.

use rustc_apfloat::ieee::Double;
use rustc_apfloat::Float;

use vstd::prelude::*;

use crate::strutil::digit_val;
use crate::strutil::digit_val_exec;
use crate::strutil::digits_end;
use crate::strutil::is_digit_c;
use crate::strutil::is_digit_exec;
use crate::strutil::push_char;
use crate::strutil::str_to_chars;

verus! {

/// Every character in `s[i..j)` is a decimal digit.
pub open spec fn all_digits_range(s: Seq<char>, i: int, j: int) -> bool {
    forall|k: int| i <= k < j ==> is_digit_c(s[k])
}

/// The shape of a number lexeme as the scanner produces it: one or more
/// digits, optionally followed by a decimal point and one or more digits.
pub open spec fn is_number_lexeme(s: Seq<char>) -> bool {
    (s.len() >= 1 && all_digits_range(s, 0, s.len() as int)) || (exists|d: int|
        1 <= d <= s.len() - 2 && s[d] == '.' && all_digits_range(s, 0, d) && all_digits_range(
            s,
            d + 1,
            s.len() as int,
        ))
}

/// The bit pattern that a decimal text denotes, if it denotes one.
pub uninterp spec fn number_of(s: Seq<char>) -> Option<u64>;

/// The scientific-notation text of the value with bit pattern `b`, rendered
/// with `n` significant digits.
pub uninterp spec fn digits_text(b: u64, n: u64) -> Seq<char>;

/// The bit pattern of the binary64 sum of two bit patterns.
pub uninterp spec fn add_bits(a: u64, b: u64) -> u64;

/// The bit pattern of the binary64 difference of two bit patterns.
pub uninterp spec fn sub_bits(a: u64, b: u64) -> u64;

/// The bit pattern of the binary64 product of two bit patterns.
pub uninterp spec fn mul_bits(a: u64, b: u64) -> u64;

/// The bit pattern of the binary64 quotient of two bit patterns.
pub uninterp spec fn div_bits(a: u64, b: u64) -> u64;

/// The bit pattern of the binary64 negation of a bit pattern.
pub uninterp spec fn neg_bits(a: u64) -> u64;

/// IEEE equality of two binary64 bit patterns (never true on NaN; the two
/// zeros are equal).
pub uninterp spec fn eq_bits(a: u64, b: u64) -> bool;

/// IEEE strict order of two binary64 bit patterns (never true on NaN).
pub uninterp spec fn lt_bits(a: u64, b: u64) -> bool;

/// IEEE non-strict order of two binary64 bit patterns (never true on NaN).
pub uninterp spec fn le_bits(a: u64, b: u64) -> bool;

/// IEEE strict order, swapped: `a > b` exactly when `b < a`.
pub open spec fn gt_bits(a: u64, b: u64) -> bool {
    lt_bits(b, a)
}

/// IEEE non-strict order, swapped: `a >= b` exactly when `b <= a`.
pub open spec fn ge_bits(a: u64, b: u64) -> bool {
    le_bits(b, a)
}

/// Relies on rustc_apfloat's `FromStr` for `ieee::Double`: correctly rounded
/// binary64 conversion from decimal text, a function of the text alone; a
/// plain digit string, with or without a fractional part, always converts.
#[verifier::external_body]
pub(crate) fn parse_number(s: &str) -> (r: Option<u64>)
    ensures
        r == number_of(s@),
        is_number_lexeme(s@) ==> r is Some,
{
    match s.parse::<Double>() {
        Ok(d) => Some(d.to_bits() as u64),
        Err(_) => None,
    }
}

/// Relies on rustc_apfloat's `Display` for `ieee::Double`: scientific
/// notation (a zero width forces it) with the requested number of
/// significant digits, a function of the bit pattern and the digit count
/// alone. Seventeen digits always round-trip a binary64 value.
#[verifier::external_body]
fn fmt_sig_digits(b: u64, n: u64) -> (r: String)
    requires
        1 <= n <= 17,
    ensures
        r@ == digits_text(b, n),
{
    format!("{:w$.p$}", Double::from_bits(b as u128), w = 0, p = n as usize)
}

/// Relies on rustc_apfloat's `Add` for `ieee::Double`: IEEE-754 binary64
/// addition, rounded to nearest, ties to even.
#[verifier::external_body]
pub(crate) fn num_add(a: u64, b: u64) -> (r: u64)
    ensures
        r == add_bits(a, b),
{
    (Double::from_bits(a as u128) + Double::from_bits(b as u128)).value.to_bits() as u64
}

/// Relies on rustc_apfloat's `Sub` for `ieee::Double`: IEEE-754 binary64
/// subtraction, rounded to nearest, ties to even.
#[verifier::external_body]
pub(crate) fn num_sub(a: u64, b: u64) -> (r: u64)
    ensures
        r == sub_bits(a, b),
{
    (Double::from_bits(a as u128) - Double::from_bits(b as u128)).value.to_bits() as u64
}

/// Relies on rustc_apfloat's `Mul` for `ieee::Double`: IEEE-754 binary64
/// multiplication, rounded to nearest, ties to even.
#[verifier::external_body]
pub(crate) fn num_mul(a: u64, b: u64) -> (r: u64)
    ensures
        r == mul_bits(a, b),
{
    (Double::from_bits(a as u128) * Double::from_bits(b as u128)).value.to_bits() as u64
}

/// Relies on rustc_apfloat's `Div` for `ieee::Double`: IEEE-754 binary64
/// division, rounded to nearest, ties to even; division by zero gives an
/// infinity or NaN, as the format prescribes.
#[verifier::external_body]
pub(crate) fn num_div(a: u64, b: u64) -> (r: u64)
    ensures
        r == div_bits(a, b),
{
    (Double::from_bits(a as u128) / Double::from_bits(b as u128)).value.to_bits() as u64
}

/// Relies on rustc_apfloat's `Neg` for `ieee::Double`: IEEE-754 sign flip.
#[verifier::external_body]
pub(crate) fn num_neg(a: u64) -> (r: u64)
    ensures
        r == neg_bits(a),
{
    (-Double::from_bits(a as u128)).to_bits() as u64
}

/// Relies on rustc_apfloat's `PartialEq` for `ieee::Double`: IEEE equality,
/// false whenever either operand is NaN, true on the two zeros.
#[verifier::external_body]
pub(crate) fn num_eq(a: u64, b: u64) -> (r: bool)
    ensures
        r == eq_bits(a, b),
{
    Double::from_bits(a as u128) == Double::from_bits(b as u128)
}

/// Relies on rustc_apfloat's `PartialOrd` for `ieee::Double`: IEEE strict
/// less-than, false whenever either operand is NaN.
#[verifier::external_body]
pub(crate) fn num_lt(a: u64, b: u64) -> (r: bool)
    ensures
        r == lt_bits(a, b),
{
    Double::from_bits(a as u128) < Double::from_bits(b as u128)
}

/// Relies on rustc_apfloat's `PartialOrd` for `ieee::Double`: IEEE non-strict
/// less-than, false whenever either operand is NaN.
#[verifier::external_body]
pub(crate) fn num_le(a: u64, b: u64) -> (r: bool)
    ensures
        r == le_bits(a, b),
{
    Double::from_bits(a as u128) <= Double::from_bits(b as u128)
}

/// The bit pattern encodes a NaN: all exponent bits set and a nonzero
/// significand.
pub open spec fn is_nan_bits(b: u64) -> bool {
    (b & 0x7fff_ffff_ffff_ffff) > 0x7ff0_0000_0000_0000
}

/// The bit pattern encodes an infinity: all exponent bits set and a zero
/// significand.
pub open spec fn is_inf_bits(b: u64) -> bool {
    (b & 0x7fff_ffff_ffff_ffff) == 0x7ff0_0000_0000_0000
}

/// The sign bit is set.
pub open spec fn is_neg_bits(b: u64) -> bool {
    b >= 0x8000_0000_0000_0000
}

fn is_nan_exec(b: u64) -> (r: bool)
    ensures
        r == is_nan_bits(b),
{
    (b & 0x7fff_ffff_ffff_ffff) > 0x7ff0_0000_0000_0000
}

fn is_inf_exec(b: u64) -> (r: bool)
    ensures
        r == is_inf_bits(b),
{
    (b & 0x7fff_ffff_ffff_ffff) == 0x7ff0_0000_0000_0000
}

fn is_neg_exec(b: u64) -> (r: bool)
    ensures
        r == is_neg_bits(b),
{
    b >= 0x8000_0000_0000_0000
}

/// The value of the decimal digit run `s[i..j)`, most significant digit
/// first.
pub open spec fn dec_value(s: Seq<char>, i: int, j: int) -> int
    decreases j - i,
{
    if i >= j {
        0
    } else {
        dec_value(s, i, j - 1) * 10 + digit_val(s[j - 1])
    }
}

proof fn lemma_dec_value_small(s: Seq<char>, i: int, j: int)
    requires
        i <= j,
        j - i <= 3,
    ensures
        0 <= dec_value(s, i, j) < 1000,
        j - i <= 2 ==> dec_value(s, i, j) < 100,
        j - i <= 1 ==> dec_value(s, i, j) < 10,
    decreases j - i,
{
    if i < j {
        lemma_dec_value_small(s, i, j - 1);
    }
}

/// The digit string with its trailing zeros removed; at least one digit
/// stays.
pub open spec fn strip_zeros(d: Seq<char>) -> Seq<char>
    decreases d.len(),
{
    if d.len() > 1 && d.last() == '0' {
        strip_zeros(d.drop_last())
    } else {
        d
    }
}

/// The content of one scientific-notation rendering: the sign, the
/// significant digits most significant first with trailing zeros removed,
/// and the power of ten of the leading digit.
pub struct SciM {
    pub neg: bool,
    pub digits: Seq<char>,
    pub exp: int,
}

/// The parts of a scientific rendering, as the exec splitter hands them
/// over.
pub struct SciParts {
    pub neg: bool,
    pub digits: Vec<char>,
    pub exp_neg: bool,
    pub exp_mag: u64,
}

impl View for SciParts {
    type V = SciM;

    open spec fn view(&self) -> SciM {
        SciM {
            neg: self.neg,
            digits: self.digits@,
            exp: if self.exp_neg {
                -(self.exp_mag as int)
            } else {
                self.exp_mag as int
            },
        }
    }
}

/// The parts of a well-formed scientific rendering `[-]d.dddE[+-]ddd`, or
/// None where the text is not of that shape. The exponent never needs more
/// than three digits for a binary64 value.
pub open spec fn sci_model(s: Seq<char>) -> Option<SciM> {
    let o: int = if s.len() > 0 && s[0] == '-' {
        1
    } else {
        0
    };
    let fe = digits_end(s, o + 2);
    if o + 1 < s.len() && is_digit_c(s[o]) && s[o + 1] == '.' && fe > o + 2 && fe + 2 < s.len()
        && s[fe] == 'E' && (s[fe + 1] == '+' || s[fe + 1] == '-') && digits_end(s, fe + 2)
        == s.len() && s.len() - (fe + 2) <= 3 {
        let mag = dec_value(s, fe + 2, s.len() as int);
        Some(
            SciM {
                neg: o == 1,
                digits: strip_zeros(seq![s[o]] + s.subrange(o + 2, fe)),
                exp: if s[fe + 1] == '-' {
                    -mag
                } else {
                    mag
                },
            },
        )
    } else {
        None
    }
}

/// A run of `n` zero digits.
pub open spec fn zeroes(n: int) -> Seq<char>
    decreases n,
{
    if n <= 0 {
        Seq::<char>::empty()
    } else {
        zeroes(n - 1).push('0')
    }
}

/// The positional decimal text of scientific parts, laid out as plain
/// number rendering writes it: the digits padded with zeros when the
/// exponent reaches past them, a decimal point inside them, or a leading
/// `0.` and padding zeros for negative exponents.
pub open spec fn layout_sci(m: SciM) -> Seq<char> {
    let k = m.digits.len() as int;
    let core = if m.exp >= k - 1 {
        m.digits + zeroes(m.exp - (k - 1))
    } else if m.exp >= 0 {
        m.digits.subrange(0, m.exp + 1) + seq!['.'] + m.digits.subrange(m.exp + 1, k)
    } else {
        seq!['0', '.'] + zeroes(-m.exp - 1) + m.digits
    };
    if m.neg {
        seq!['-'] + core
    } else {
        core
    }
}

/// A digit count renders the finite value faithfully when its scientific
/// text is well formed and its positional layout converts back to the same
/// bit pattern.
pub open spec fn good_digit_count(b: u64, n: u64) -> bool {
    match sci_model(digits_text(b, n)) {
        Some(m) => number_of(layout_sci(m)) == Some(b),
        None => false,
    }
}

/// The first digit count from `n` up that renders `b` faithfully, or 17,
/// which always suffices for round-tripping a binary64 value.
pub open spec fn pick_digit_count(b: u64, n: u64) -> u64
    decreases 17 - n,
{
    if n >= 17 {
        17
    } else if good_digit_count(b, n) {
        n
    } else {
        pick_digit_count(b, (n + 1) as u64)
    }
}

/// The canonical decimal text of a number: `NaN`, `inf` and `-inf` for the
/// special values, and otherwise the positional layout of the shortest
/// rendering, by significant digit count, that converts back to the same
/// bit pattern.
pub open spec fn number_text(b: u64) -> Seq<char> {
    if is_nan_bits(b) {
        "NaN"@
    } else if is_inf_bits(b) {
        if is_neg_bits(b) {
            "-inf"@
        } else {
            "inf"@
        }
    } else {
        let n = pick_digit_count(b, 1);
        if good_digit_count(b, n) {
            layout_sci(sci_model(digits_text(b, n))->0)
        } else {
            digits_text(b, 17)
        }
    }
}

proof fn lemma_pick_skip(b: u64, n: u64)
    requires
        1 <= n <= 17,
        forall|m: u64| 1 <= m < n ==> !good_digit_count(b, m),
    ensures
        pick_digit_count(b, 1) == pick_digit_count(b, n),
    decreases n,
{
    if n > 1 {
        lemma_pick_skip(b, (n - 1) as u64);
    }
}

/// Splits a scientific rendering into its sign, digits and exponent.
fn parse_sci(s: &str) -> (r: Option<SciParts>)
    ensures
        r is Some <==> sci_model(s@) is Some,
        r matches Some(p) ==> p@ == sci_model(s@)->0,
        r matches Some(p) ==> p.digits@.len() >= 1 && p.exp_mag < 1000,
{
    let v = str_to_chars(s);
    let n = v.len();
    let neg = n > 0 && v[0] == '-';
    let o: usize = if neg {
        1
    } else {
        0
    };
    if !(o + 1 < n && is_digit_exec(v[o]) && v[o + 1] == '.') {
        return None;
    }
    let mut i: usize = o + 2;
    while i < n && is_digit_exec(v[i])
        invariant
            o + 2 <= i <= n,
            v@ == s@,
            n == s@.len(),
            digits_end(s@, o + 2) == digits_end(s@, i as int),
        decreases n - i,
    {
        i = i + 1;
    }
    proof {
        assert(digits_end(s@, i as int) == i);
    }
    let fe = i;
    if !(fe > o + 2) {
        return None;
    }
    if !(n >= 3 && fe < n - 2) {
        return None;
    }
    if !(v[fe] == 'E' && (v[fe + 1] == '+' || v[fe + 1] == '-')) {
        return None;
    }
    let exp_neg = v[fe + 1] == '-';
    let mut j: usize = fe + 2;
    while j < n && is_digit_exec(v[j])
        invariant
            fe + 2 <= j <= n,
            v@ == s@,
            n == s@.len(),
            digits_end(s@, fe + 2) == digits_end(s@, j as int),
        decreases n - j,
    {
        j = j + 1;
    }
    proof {
        assert(digits_end(s@, j as int) == j);
    }
    if j < n {
        // A character that is no digit sits inside the exponent.
        return None;
    }
    if n - (fe + 2) > 3 {
        return None;
    }
    let mut mag: u64 = 0;
    let mut j2: usize = fe + 2;
    while j2 < n
        invariant
            fe + 2 <= j2 <= n,
            n - (fe + 2) <= 3,
            v@ == s@,
            n == s@.len(),
            mag == dec_value(s@, fe + 2, j2 as int),
        decreases n - j2,
    {
        proof {
            lemma_dec_value_small(s@, fe + 2, j2 as int);
        }
        mag = mag * 10 + digit_val_exec(v[j2]);
        j2 = j2 + 1;
    }
    proof {
        lemma_dec_value_small(s@, fe + 2, n as int);
    }
    let mut digits: Vec<char> = Vec::new();
    digits.push(v[o]);
    let mut d: usize = o + 2;
    while d < fe
        invariant
            o + 2 <= d <= fe <= n,
            v@ == s@,
            n == s@.len(),
            digits@ == seq![s@[o as int]] + s@.subrange(o as int + 2, d as int),
        decreases fe - d,
    {
        digits.push(v[d]);
        d = d + 1;
        proof {
            assert(digits@ =~= seq![s@[o as int]] + s@.subrange(o as int + 2, d as int));
        }
    }
    let ghost full = seq![s@[o as int]] + s@.subrange(o as int + 2, fe as int);
    while digits.len() > 1 && digits[digits.len() - 1] == '0'
        invariant
            digits@.len() >= 1,
            strip_zeros(digits@) == strip_zeros(full),
        decreases digits@.len(),
    {
        proof {
            assert(digits@.drop_last() == digits@.subrange(0, digits@.len() - 1));
        }
        digits.pop();
    }
    proof {
        assert(strip_zeros(digits@) == digits@);
    }
    Some(SciParts { neg, digits, exp_neg, exp_mag: mag })
}

/// Writes scientific parts out in positional decimal form.
fn layout_exec(p: &SciParts) -> (s: String)
    requires
        p.digits@.len() >= 1,
        p.exp_mag < 1000,
    ensures
        s@ == layout_sci(p@),
{
    let k = p.digits.len();
    let mut s = String::new();
    if p.neg {
        push_char(&mut s, '-');
    }
    let ghost prefix = if p.neg {
        seq!['-']
    } else {
        Seq::<char>::empty()
    };
    proof {
        assert(s@ =~= prefix);
    }
    let e_nonneg = !p.exp_neg || p.exp_mag == 0;
    if e_nonneg && p.exp_mag >= (k as u64) - 1 {
        // All digits, then padding zeros up to the exponent.
        let mut d: usize = 0;
        while d < k
            invariant
                d <= k == p.digits@.len(),
                s@ == prefix + p.digits@.subrange(0, d as int),
            decreases k - d,
        {
            push_char(&mut s, p.digits[d]);
            d = d + 1;
            proof {
                assert(s@ =~= prefix + p.digits@.subrange(0, d as int));
            }
        }
        proof {
            assert(p.digits@.subrange(0, k as int) =~= p.digits@);
        }
        let pad = p.exp_mag - ((k as u64) - 1);
        let mut c: u64 = 0;
        while c < pad
            invariant
                c <= pad < 1000,
                s@ == prefix + p.digits@ + zeroes(c as int),
            decreases pad - c,
        {
            push_char(&mut s, '0');
            c = c + 1;
            proof {
                assert(s@ =~= prefix + p.digits@ + zeroes(c as int));
            }
        }
        proof {
            assert(p@.exp == p.exp_mag as int);
            assert(s@ =~= layout_sci(p@));
        }
    } else if e_nonneg {
        // A decimal point inside the digits.
        let point = p.exp_mag as usize + 1;
        let mut d: usize = 0;
        while d < point
            invariant
                d <= point <= k == p.digits@.len(),
                s@ == prefix + p.digits@.subrange(0, d as int),
            decreases point - d,
        {
            push_char(&mut s, p.digits[d]);
            d = d + 1;
            proof {
                assert(s@ =~= prefix + p.digits@.subrange(0, d as int));
            }
        }
        push_char(&mut s, '.');
        let ghost head = prefix + p.digits@.subrange(0, point as int) + seq!['.'];
        proof {
            assert(s@ =~= head);
        }
        let mut d2: usize = point;
        while d2 < k
            invariant
                point <= d2 <= k == p.digits@.len(),
                s@ == head + p.digits@.subrange(point as int, d2 as int),
            decreases k - d2,
        {
            push_char(&mut s, p.digits[d2]);
            d2 = d2 + 1;
            proof {
                assert(s@ =~= head + p.digits@.subrange(point as int, d2 as int));
            }
        }
        proof {
            assert(p@.exp == p.exp_mag as int);
            assert(s@ =~= layout_sci(p@));
        }
    } else {
        // `0.`, padding zeros, then the digits.
        push_char(&mut s, '0');
        push_char(&mut s, '.');
        let ghost head = prefix + seq!['0', '.'];
        proof {
            assert(s@ =~= head);
        }
        let zeros = p.exp_mag - 1;
        let mut c: u64 = 0;
        while c < zeros
            invariant
                c <= zeros < 1000,
                s@ == head + zeroes(c as int),
            decreases zeros - c,
        {
            push_char(&mut s, '0');
            c = c + 1;
            proof {
                assert(s@ =~= head + zeroes(c as int));
            }
        }
        let mut d: usize = 0;
        let ghost head2 = head + zeroes(zeros as int);
        let k2 = p.digits.len();
        while d < k2
            invariant
                d <= k2 == p.digits@.len(),
                s@ == head2 + p.digits@.subrange(0, d as int),
            decreases k2 - d,
        {
            push_char(&mut s, p.digits[d]);
            d = d + 1;
            proof {
                assert(s@ =~= head2 + p.digits@.subrange(0, d as int));
            }
        }
        proof {
            assert(p@.exp == -(p.exp_mag as int));
            assert(p.digits@.subrange(0, k2 as int) =~= p.digits@);
            assert(s@ =~= layout_sci(p@));
        }
    }
    s
}

/// Renders `b` with `n` significant digits and lays the text out
/// positionally, when that layout converts back to the same bit pattern.
fn try_digit_count(b: u64, n: u64) -> (r: Option<String>)
    requires
        1 <= n <= 17,
    ensures
        match r {
            Some(s) => good_digit_count(b, n) && s@ == layout_sci(
                sci_model(digits_text(b, n))->0,
            ),
            None => !good_digit_count(b, n),
        },
{
    let t = fmt_sig_digits(b, n);
    match parse_sci(t.as_str()) {
        Some(parts) => {
            let cand = layout_exec(&parts);
            match parse_number(cand.as_str()) {
                Some(b2) => if b2 == b {
                    Some(cand)
                } else {
                    None
                },
                None => None,
            }
        },
        None => None,
    }
}

/// Renders a number's bit pattern as its canonical decimal text.
pub fn render_number(b: u64) -> (s: String)
    ensures
        s@ == number_text(b),
{
    if is_nan_exec(b) {
        return String::from_str("NaN");
    }
    if is_inf_exec(b) {
        if is_neg_exec(b) {
            return String::from_str("-inf");
        }
        return String::from_str("inf");
    }
    let mut n: u64 = 1;
    while n < 17
        invariant
            1 <= n <= 17,
            !is_nan_bits(b),
            !is_inf_bits(b),
            forall|m: u64| 1 <= m < n ==> !good_digit_count(b, m),
        decreases 17 - n,
    {
        match try_digit_count(b, n) {
            Some(out) => {
                proof {
                    lemma_pick_skip(b, n);
                    assert(pick_digit_count(b, n) == n);
                }
                return out;
            },
            None => {},
        }
        n = n + 1;
    }
    proof {
        lemma_pick_skip(b, 17);
        assert(pick_digit_count(b, 17) == 17);
    }
    match try_digit_count(b, 17) {
        Some(out) => out,
        None => fmt_sig_digits(b, 17),
    }
}

} // verus!
