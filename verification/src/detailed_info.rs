//! Types and parsers for the "Detailed Info" section of a product page.
//!
//! Each field arrives as free text ("12.5 %", "6 x 200ml", ">60 g/L",
//! "Zinfandel 95 %, Petite sirah 5 %") and is parsed into an exact,
//! integer-based representation.

use vstd::prelude::*;
use vstd::string::StringExecFns;
use vstd::arithmetic::div_mod::lemma_fundamental_div_mod_converse;
use vstd::string::StrSliceExecFns;
use crate::text::{
    all_digits, chars_of, digit_prefix_len, digit_suffix_len, digits_val, is_digit, is_space,
    pow10, pow10_u128, read_digits, scan_comma, scan_digits,
    scan_digits_back, space, spec_trim, split_commas, trim_range,
};

verus! {

broadcast use vstd::string::group_string_axioms;

/// An exact decimal number: `mantissa / 10^scale`.
///
/// "12.5" is `{ mantissa: 125, scale: 1 }`, "60" is `{ mantissa: 60, scale: 0 }`.
#[derive(Debug, Clone, Copy, PartialEq, Eq, Structural)]
pub struct Decimal {
    /// All digits of the number, read as one integer.
    pub mantissa: u64,
    /// How many of the trailing digits lie behind the decimal point.
    pub scale: u64,
}

/// Why a detailed-info field failed to parse.
#[derive(Debug, Clone)]
pub enum ParseError {
    /// The text did not fit the field's format at all.
    NoMatch(String),
    /// The text fit the format but a number in it exceeds its range.
    NumberTooLarge(String),
    /// A grape-variety entry had a percentage but no name before it.
    EmptyName(String),
    /// A label field held none of its admitted values.
    InvalidValue(String),
    /// The field map had no product code entry.
    MissingSaqCode,
}

impl ParseError {
    /// A human-readable description of the failure.
    pub fn message(&self) -> (r: String)
        ensures
            match self {
                ParseError::NoMatch(t) => r@ == "failed to match \""@ + t@ + "\""@,
                ParseError::NumberTooLarge(t) => r@ == "number out of range in \""@ + t@ + "\""@,
                ParseError::EmptyName(t) => r@ == "could not detect name in \""@ + t@ + "\""@,
                ParseError::InvalidValue(t) => r@ == "\""@ + t@ + "\" is not a valid value"@,
                ParseError::MissingSaqCode => r@ == "SAQ code not found"@,
            },
    {
        match self {
            ParseError::NoMatch(t) => String::from_str("failed to match \"").concat(
                t.as_str(),
            ).concat("\""),
            ParseError::NumberTooLarge(t) => String::from_str("number out of range in \"").concat(
                t.as_str(),
            ).concat("\""),
            ParseError::EmptyName(t) => String::from_str("could not detect name in \"").concat(
                t.as_str(),
            ).concat("\""),
            ParseError::InvalidValue(t) => String::from_str("\"").concat(t.as_str()).concat(
                "\" is not a valid value",
            ),
            ParseError::MissingSaqCode => String::from_str("SAQ code not found"),
        }
    }
}

/// Whether `s` is a decimal literal: digits, optionally a dot and more digits.
pub open spec fn decimal_shape(s: Seq<char>) -> bool {
    let a = digit_prefix_len(s) as int;
    a > 0 && (a == s.len() || (a + 1 < s.len() && s[a] == '.' && all_digits(s.skip(a + 1))))
}

/// The digits of the literal with the dot removed.
pub open spec fn decimal_digits(s: Seq<char>) -> Seq<char> {
    let a = digit_prefix_len(s) as int;
    if a == s.len() {
        s
    } else {
        s.take(a) + s.skip(a + 1)
    }
}

/// The number of digits behind the dot.
pub open spec fn decimal_scale(s: Seq<char>) -> nat {
    let a = digit_prefix_len(s) as int;
    if a == s.len() {
        0
    } else {
        (s.len() - a - 1) as nat
    }
}

/// Whether the literal's digits, read as one integer, fit in a `u64`.
pub open spec fn decimal_fits(s: Seq<char>) -> bool {
    digits_val(decimal_digits(s)) <= u64::MAX
}

/// The value of a decimal literal, as a [`Decimal`].
pub open spec fn spec_decimal(s: Seq<char>) -> Decimal {
    Decimal { mantissa: digits_val(decimal_digits(s)) as u64, scale: decimal_scale(s) as u64 }
}

/// Outcome of scanning a decimal literal.
enum DecScan {
    /// The range is a decimal literal with this value.
    Value(Decimal),
    /// The range is a decimal literal but its digits exceed `u64`.
    TooLarge,
    /// The range is not a decimal literal.
    NoShape,
}

/// Reads the decimal literal written in `v[lo..hi]`.
fn parse_decimal_range(v: &Vec<char>, lo: usize, hi: usize) -> (r: DecScan)
    requires
        lo <= hi <= v@.len(),
    ensures
        ({
            let s = v@.subrange(lo as int, hi as int);
            match r {
                DecScan::NoShape => !decimal_shape(s),
                DecScan::TooLarge => decimal_shape(s) && !decimal_fits(s),
                DecScan::Value(d) => decimal_shape(s) && decimal_fits(s) && d == spec_decimal(s),
            }
        }),
{
    let ghost s = v@.subrange(lo as int, hi as int);
    let d1 = scan_digits(v, lo, hi);
    proof {
        assert(s.len() == hi - lo);
        assert(digit_prefix_len(s) == d1 - lo);
    }
    if d1 == lo {
        return DecScan::NoShape;
    }
    if d1 == hi {
        proof {
            assert(decimal_digits(s) =~= s);
        }
        return match read_digits(v, lo, hi) {
            None => DecScan::TooLarge,
            Some(m) => DecScan::Value(Decimal { mantissa: m, scale: 0 }),
        };
    }
    if v[d1] != '.' {
        return DecScan::NoShape;
    }
    let d2 = scan_digits(v, d1 + 1, hi);
    proof {
        assert(s.skip(d1 - lo + 1) =~= v@.subrange(d1 + 1, hi as int));
    }
    if d2 == d1 + 1 {
        proof {
            if (d1 - lo) + 1 < s.len() {
                assert(!is_digit(s.skip(d1 - lo + 1)[0]));
            }
        }
        return DecScan::NoShape;
    }
    if d2 != hi {
        proof {
            assert(!is_digit(s.skip(d1 - lo + 1)[d2 - d1 - 1]));
        }
        return DecScan::NoShape;
    }
    // digits '.' digits: gather the digits with the dot removed
    let comb = crate::text::collect_two(v, lo, d1, d1 + 1, hi);
    proof {
        assert(v@.subrange(lo as int, d1 as int) =~= s.take(d1 - lo));
        assert(v@.subrange(d1 + 1, hi as int) =~= s.skip(d1 - lo + 1));
        assert(comb@ =~= decimal_digits(s));
        assert(forall|k: int| 0 <= k < comb@.len() ==> is_digit(#[trigger] comb@[k]));
        assert(comb@.subrange(0, comb@.len() as int) =~= comb@);
    }
    let m = match read_digits(&comb, 0, comb.len()) {
        None => {
            return DecScan::TooLarge;
        },
        Some(m) => m,
    };
    DecScan::Value(Decimal { mantissa: m, scale: (hi - d1 - 1) as u64 })
}

/// Whether `s` is an alcohol-by-volume field: a decimal literal then " %".
pub open spec fn abv_shape(s: Seq<char>) -> bool {
    s.len() >= 3 && s[s.len() - 2] == ' ' && s[s.len() - 1] == '%' && decimal_shape(
        s.take(s.len() - 2),
    )
}

/// The percentage written in an alcohol-by-volume field.
pub open spec fn spec_abv(s: Seq<char>) -> Decimal {
    spec_decimal(s.take(s.len() - 2))
}

/// Parses an alcohol-by-volume field such as `"12.5 %"`.
///
/// Returns the percentage as an exact decimal.
pub fn parse_abv(text: &str) -> (r: Result<Decimal, ParseError>)
    ensures
        abv_shape(text@) && decimal_fits(text@.take(text@.len() - 2)) ==> r == Ok::<
            Decimal,
            ParseError,
        >(spec_abv(text@)),
        !abv_shape(text@) ==> (r matches Err(ParseError::NoMatch(t)) && t@ == text@),
        abv_shape(text@) && !decimal_fits(text@.take(text@.len() - 2)) ==> (r matches Err(
            ParseError::NumberTooLarge(t),
        ) && t@ == text@),
{
    let v = chars_of(text);
    let n = v.len();
    if n < 3 || !(v[n - 2] == ' ') || !(v[n - 1] == '%') {
        return Err(ParseError::NoMatch(text.to_owned()));
    }
    proof {
        assert(v@.subrange(0, n - 2) =~= text@.take(text@.len() - 2));
    }
    match parse_decimal_range(&v, 0, n - 2) {
        DecScan::NoShape => Err(ParseError::NoMatch(text.to_owned())),
        DecScan::TooLarge => Err(ParseError::NumberTooLarge(text.to_owned())),
        DecScan::Value(d) => Ok(d),
    }
}

/// Whether the written sugar quantity is a lower bound, an upper bound, or
/// the measured value.
#[derive(Debug, Clone, Copy, PartialEq, Eq, Structural)]
pub enum SugarContentEquality {
    /// The actual sugar content is **greater than** what's indicated.
    GreaterThan,
    /// The actual sugar content is **less than** what's indicated.
    LessThan,
    /// The actual sugar content is **equal** to what's indicated.
    Equal,
}

/// The product's sugar content.
#[derive(Debug, Clone, Copy, PartialEq, Eq, Structural)]
pub struct SugarContent {
    /// The quantity of sugar in grams per liter, as an exact decimal.
    pub grams_per_liter: Decimal,
    /// Whether the actual quantity is less than, greater than, or equal to
    /// `grams_per_liter`.
    pub equality: SugarContentEquality,
}

/// Index where the numeric part of a sugar-content field starts: right after
/// an optional leading `<` or `>`.
pub open spec fn sugar_body_start(s: Seq<char>) -> int {
    if s.len() > 0 && (s[0] == '<' || s[0] == '>') {
        1
    } else {
        0
    }
}

/// Whether `s` is a sugar-content field: `[<>]?`, a decimal literal, " g/L".
pub open spec fn sugar_shape(s: Seq<char>) -> bool {
    let b = sugar_body_start(s);
    &&& s.len() >= b + 4
    &&& s[s.len() - 4] == ' '
    &&& s[s.len() - 3] == 'g'
    &&& s[s.len() - 2] == '/'
    &&& s[s.len() - 1] == 'L'
    &&& decimal_shape(s.subrange(b, s.len() - 4))
}

/// The qualifier written at the front of a sugar-content field.
pub open spec fn spec_sugar_equality(s: Seq<char>) -> SugarContentEquality {
    if s.len() > 0 && s[0] == '>' {
        SugarContentEquality::GreaterThan
    } else if s.len() > 0 && s[0] == '<' {
        SugarContentEquality::LessThan
    } else {
        SugarContentEquality::Equal
    }
}

/// The quantity written in a sugar-content field.
pub open spec fn spec_sugar_grams(s: Seq<char>) -> Decimal {
    spec_decimal(s.subrange(sugar_body_start(s), s.len() - 4))
}

/// Whether the quantity's digits fit in a `u64`.
pub open spec fn sugar_fits(s: Seq<char>) -> bool {
    decimal_fits(s.subrange(sugar_body_start(s), s.len() - 4))
}

/// Parses a sugar-content field such as `"<1.2 g/L"` or `"60 g/L"`.
pub fn parse_sugar_content(text: &str) -> (r: Result<SugarContent, ParseError>)
    ensures
        sugar_shape(text@) && sugar_fits(text@) ==> r == Ok::<SugarContent, ParseError>(
            SugarContent {
                grams_per_liter: spec_sugar_grams(text@),
                equality: spec_sugar_equality(text@),
            },
        ),
        !sugar_shape(text@) ==> (r matches Err(ParseError::NoMatch(t)) && t@ == text@),
        sugar_shape(text@) && !sugar_fits(text@) ==> (r matches Err(ParseError::NumberTooLarge(t))
            && t@ == text@),
{
    let v = chars_of(text);
    let n = v.len();
    let body: usize = if n > 0 && (v[0] == '<' || v[0] == '>') {
        1
    } else {
        0
    };
    if n < body + 4 || !(v[n - 4] == ' ') || !(v[n - 3] == 'g') || !(v[n - 2] == '/') || !(v[n - 1]
        == 'L') {
        return Err(ParseError::NoMatch(text.to_owned()));
    }
    let equality = if body == 1 && v[0] == '>' {
        SugarContentEquality::GreaterThan
    } else if body == 1 && v[0] == '<' {
        SugarContentEquality::LessThan
    } else {
        SugarContentEquality::Equal
    };
    match parse_decimal_range(&v, body, n - 4) {
        DecScan::NoShape => Err(ParseError::NoMatch(text.to_owned())),
        DecScan::TooLarge => Err(ParseError::NumberTooLarge(text.to_owned())),
        DecScan::Value(d) => Ok(SugarContent { grams_per_liter: d, equality }),
    }
}

/// The product's size: how many containers, and how much each holds.
#[derive(Debug, Clone, Copy, PartialEq, Eq, Structural)]
pub struct Size {
    /// The number of containers for the given product.
    pub container_count: u8,
    /// The volume in milliliters in each container.
    pub container_milliliters: u32,
}

/// Whether a size field starts with a container count: digits then " x ".
pub open spec fn size_count_present(s: Seq<char>) -> bool {
    let a = digit_prefix_len(s) as int;
    a > 0 && a + 3 <= s.len() && s[a] == ' ' && s[a + 1] == 'x' && s[a + 2] == ' '
}

/// The container count written at the front of a size field.
pub open spec fn size_count_val(s: Seq<char>) -> nat {
    digits_val(s.take(digit_prefix_len(s) as int))
}

/// The volume part of a size field: everything after the count, if any.
pub open spec fn size_rest(s: Seq<char>) -> Seq<char> {
    if size_count_present(s) {
        s.skip(digit_prefix_len(s) as int + 3)
    } else {
        s
    }
}

/// Index just past the decimal volume literal at the front of `r`.
pub open spec fn size_value_end(r: Seq<char>) -> int {
    let a = digit_prefix_len(r) as int;
    if a == 0 {
        0
    } else if a < r.len() && r[a] == '.' {
        let b = digit_prefix_len(r.skip(a + 1)) as int;
        if b > 0 {
            a + 1 + b
        } else {
            a
        }
    } else {
        a
    }
}

/// The unit at the end of the volume part: `Some(true)` for liters,
/// `Some(false)` for milliliters, `None` when no admitted unit is there.
/// A single space may stand between the number and the unit.
pub open spec fn size_unit_liters(r: Seq<char>) -> Option<bool> {
    let ve = size_value_end(r);
    let u = if ve < r.len() && r[ve] == ' ' {
        r.skip(ve + 1)
    } else {
        r.skip(ve)
    };
    if u == seq!['m', 'L'] || u == seq!['m', 'l'] {
        Some(false)
    } else if u == seq!['L'] {
        Some(true)
    } else {
        None
    }
}

/// Whether `s` is a size field: `(digits " x ")?`, a decimal literal,
/// an optional space, and a volume unit.
pub open spec fn size_shape(s: Seq<char>) -> bool {
    let r = size_rest(s);
    size_value_end(r) > 0 && size_unit_liters(r) is Some
}

/// The digits of the volume literal with the dot removed.
pub open spec fn size_mantissa_digits(r: Seq<char>) -> Seq<char> {
    let a = digit_prefix_len(r) as int;
    let ve = size_value_end(r);
    if ve == a {
        r.take(a)
    } else {
        r.take(a) + r.subrange(a + 1, ve)
    }
}

/// How many digits of the volume literal lie behind the dot.
pub open spec fn size_scale(r: Seq<char>) -> nat {
    let a = digit_prefix_len(r) as int;
    let ve = size_value_end(r);
    if ve == a {
        0
    } else {
        (ve - a - 1) as nat
    }
}

/// `a / b` rounded up, for positive `b`.
pub open spec fn ceil_div(a: int, b: int) -> int {
    (a + b - 1) / b
}

/// The exact number of milliliters written in the volume part `r`,
/// rounded up to a whole milliliter.
pub open spec fn spec_size_ml(r: Seq<char>) -> int {
    let mul: int = if size_unit_liters(r) == Some(true) {
        1000
    } else {
        1
    };
    ceil_div(digits_val(size_mantissa_digits(r)) * mul, pow10(size_scale(r)) as int)
}

/// Whether every number in a size field fits its machine range.
pub open spec fn size_fits(s: Seq<char>) -> bool {
    let r = size_rest(s);
    &&& (!size_count_present(s) || size_count_val(s) <= u8::MAX)
    &&& digits_val(size_mantissa_digits(r)) <= u64::MAX
    &&& spec_size_ml(r) <= u32::MAX
}

/// The [`Size`] written in a size field.
pub open spec fn spec_size(s: Seq<char>) -> Size {
    Size {
        container_count: if size_count_present(s) {
            size_count_val(s) as u8
        } else {
            1 as u8
        },
        container_milliliters: spec_size_ml(size_rest(s)) as u32,
    }
}

/// Parses a size field such as `"750 mL"`, `"2.25 L"` or `"6 x 200ml"`.
///
/// When no count is given it is 1; a volume in liters is converted to
/// milliliters, rounded up to a whole milliliter.
#[verifier::rlimit(100)]
pub fn parse_size(text: &str) -> (r: Result<Size, ParseError>)
    ensures
        size_shape(text@) && size_fits(text@) ==> r == Ok::<Size, ParseError>(spec_size(text@)),
        !size_shape(text@) ==> (r matches Err(ParseError::NoMatch(t)) && t@ == text@),
        size_shape(text@) && !size_fits(text@) ==> (r matches Err(ParseError::NumberTooLarge(t))
            && t@ == text@),
{
    let v = chars_of(text);
    let n = v.len();
    let ghost s = text@;
    proof {
        assert(v@.subrange(0, n as int) =~= s);
    }
    let d1 = scan_digits(&v, 0, n);
    let has_count = d1 > 0 && n - d1 >= 3 && v[d1] == ' ' && v[d1 + 1] == 'x' && v[d1 + 2] == ' ';
    proof {
        assert(has_count == size_count_present(s));
    }
    let rest_lo: usize = if has_count {
        d1 + 3
    } else {
        0
    };
    let ghost rr = size_rest(s);
    proof {
        assert(v@.subrange(rest_lo as int, n as int) =~= rr);
    }
    let a2 = scan_digits(&v, rest_lo, n);
    proof {
        assert(digit_prefix_len(rr) == a2 - rest_lo);
    }
    if a2 == rest_lo {
        return Err(ParseError::NoMatch(text.to_owned()));
    }
    let mut ve = a2;
    let mut frac_lo = a2;
    let mut frac_hi = a2;
    if a2 < n && v[a2] == '.' {
        let b2 = scan_digits(&v, a2 + 1, n);
        proof {
            assert(rr.skip(a2 - rest_lo + 1) =~= v@.subrange(a2 + 1, n as int));
        }
        if b2 > a2 + 1 {
            ve = b2;
            frac_lo = a2 + 1;
            frac_hi = b2;
        }
    }
    proof {
        assert(ve - rest_lo == size_value_end(rr));
    }
    let mut ulo = ve;
    if ulo < n && v[ulo] == ' ' {
        ulo += 1;
    }
    let ghost u = if ve - rest_lo < rr.len() && rr[ve - rest_lo] == ' ' {
        rr.skip(ve - rest_lo + 1)
    } else {
        rr.skip(ve - rest_lo)
    };
    proof {
        assert(v@.subrange(ulo as int, n as int) =~= u);
    }
    let liters: bool;
    match match_unit(&v, ulo, n) {
        Some(l) => {
            liters = l;
        },
        None => {
            proof {
                assert(size_unit_liters(rr) is None);
            }
            return Err(ParseError::NoMatch(text.to_owned()));
        },
    }
    proof {
        assert(size_unit_liters(rr) == Some(liters));
    }
    // container count
    let container_count: u8;
    if has_count {
        proof {
            assert(v@.subrange(0, d1 as int) =~= s.take(digit_prefix_len(s) as int));
        }
        match read_digits(&v, 0, d1) {
            None => {
                return Err(ParseError::NumberTooLarge(text.to_owned()));
            },
            Some(c) => {
                if c > 255 {
                    return Err(ParseError::NumberTooLarge(text.to_owned()));
                }
                container_count = c as u8;
            },
        }
    } else {
        container_count = 1;
    }
    // volume digits with the dot removed
    let comb = crate::text::collect_two(&v, rest_lo, a2, frac_lo, frac_hi);
    proof {
        assert(v@.subrange(rest_lo as int, a2 as int) =~= rr.take(a2 - rest_lo));
        if frac_hi > frac_lo {
            assert(v@.subrange(frac_lo as int, frac_hi as int) =~= rr.subrange(
                a2 - rest_lo + 1,
                ve - rest_lo,
            ));
        } else {
            assert(v@.subrange(frac_lo as int, frac_hi as int) =~= Seq::<char>::empty());
        }
        assert(comb@ =~= size_mantissa_digits(rr));
        assert(comb@.subrange(0, comb@.len() as int) =~= comb@);
    }
    let m = match read_digits(&comb, 0, comb.len()) {
        None => {
            return Err(ParseError::NumberTooLarge(text.to_owned()));
        },
        Some(m) => m,
    };
    let scale: u64 = (frac_hi - frac_lo) as u64;
    proof {
        assert(scale == size_scale(rr));
    }
    match ml_from_parts(m, scale, liters) {
        None => Err(ParseError::NumberTooLarge(text.to_owned())),
        Some(ml) => Ok(Size { container_count, container_milliliters: ml }),
    }
}

/// Recognises the volume unit written in `v[ulo..n]`: liters, or one of
/// the two milliliter spellings.
fn match_unit(v: &Vec<char>, ulo: usize, n: usize) -> (r: Option<bool>)
    requires
        ulo <= n <= v@.len(),
    ensures
        ({
            let u = v@.subrange(ulo as int, n as int);
            match r {
                Some(liters) => if liters {
                    u == seq!['L']
                } else {
                    u == seq!['m', 'L'] || u == seq!['m', 'l']
                },
                None => u != seq!['m', 'L'] && u != seq!['m', 'l'] && u != seq!['L'],
            }
        }),
{
    let ghost u = v@.subrange(ulo as int, n as int);
    if n - ulo == 2 && v[ulo] == 'm' && (v[ulo + 1] == 'L' || v[ulo + 1] == 'l') {
        proof {
            if v@[ulo + 1] == 'L' {
                assert(u =~= seq!['m', 'L']);
            } else {
                assert(u =~= seq!['m', 'l']);
            }
        }
        Some(false)
    } else if n - ulo == 1 && v[ulo] == 'L' {
        proof {
            assert(u =~= seq!['L']);
        }
        Some(true)
    } else {
        proof {
            assert(u.len() == n - ulo);
            assert(forall|k: int| 0 <= k < u.len() ==> u[k] == v@[ulo + k]);
            assert(seq!['m', 'L'].len() == 2 && seq!['m', 'l'].len() == 2 && seq!['L'].len() == 1);
            assert(u != seq!['m', 'L'] && u != seq!['m', 'l'] && u != seq!['L']) by {
                if u == seq!['m', 'L'] || u == seq!['m', 'l'] {
                    assert(u[0] == 'm' && (u[1] == 'L' || u[1] == 'l'));
                    assert(u[0] == v@[ulo as int] && u[1] == v@[ulo + 1]);
                }
                if u == seq!['L'] {
                    assert(u[0] == 'L');
                    assert(u[0] == v@[ulo as int]);
                }
            }
        }
        None
    }
}

/// `ceil(m * (1000 if liters) / 10^scale)` when it fits in a `u32`.
fn ml_from_parts(m: u64, scale: u64, liters: bool) -> (r: Option<u32>)
    ensures
        ({
            let mul: int = if liters {
                1000
            } else {
                1
            };
            let val = ceil_div(m as int * mul, pow10(scale as nat) as int);
            match r {
                Some(x) => x == val,
                None => val > u32::MAX,
            }
        }),
{
    let mul: u128 = if liters {
        1000
    } else {
        1
    };
    let aa: u128 = (m as u128) * mul;
    let q: u128;
    if scale <= 38 {
        let p = pow10_u128(scale);
        proof {
            crate::text::lemma_pow10_38();
            crate::text::lemma_pow10_monotone(0, scale as nat);
            crate::text::lemma_pow10_monotone(scale as nat, 38);
            assert(aa <= 18446744073709551615000);
        }
        q = (aa + p - 1) / p;
        proof {
            assert(q == ceil_div(aa as int, p as int));
        }
    } else {
        q = if m == 0 {
            0
        } else {
            1
        };
        proof {
            crate::text::lemma_pow10_38();
            crate::text::lemma_pow10_monotone(39, scale as nat);
            assert(pow10(39) == 10 * pow10(38));
            let pi = pow10(scale as nat) as int;
            assert(aa < pi);
            if m == 0 {
                lemma_fundamental_div_mod_converse(pi - 1, pi, 0, pi - 1);
            } else {
                assert(aa >= 1) by (nonlinear_arith)
                    requires
                        aa == (m as u128) * mul,
                        m >= 1,
                        mul >= 1,
                ;
                lemma_fundamental_div_mod_converse(aa + pi - 1, pi, 1, aa as int - 1);
            }
            assert(q == ceil_div(aa as int, pi));
        }
    }
    if q > 0xffff_ffff {
        return None;
    }
    Some(q as u32)
}

/// The grape variety and percentage of it present in the product.
#[derive(Debug, Clone)]
pub struct GrapeVariety {
    /// The grape variety name (i.e. chardonnay).
    pub name: String,
    /// The percentage of the grape variety present in the product.
    pub percentage: Option<u8>,
}

/// Length of the digit run standing right before the trailing
/// whitespace-percent pair of a trimmed grape-variety entry `t`.
pub open spec fn variety_pct_digit_len(t: Seq<char>) -> int {
    digit_suffix_len(t.take(t.len() as int - 2)) as int
}

/// Whether the trimmed entry `t` ends with a percentage: one whitespace
/// character, digits, one whitespace character, and `%`.
pub open spec fn variety_has_percent(t: Seq<char>) -> bool {
    let n = t.len() as int;
    let d = variety_pct_digit_len(t);
    n >= 4 && t[n - 1] == '%' && is_space(t[n - 2]) && d >= 1 && n - 3 - d >= 0 && is_space(
        t[n - 3 - d],
    )
}

/// The percentage written at the end of the trimmed entry `t`.
pub open spec fn variety_pct_val(t: Seq<char>) -> nat {
    digits_val(t.subrange(t.len() as int - 2 - variety_pct_digit_len(t), t.len() as int - 2))
}

/// The name part of the trimmed entry `t`: everything before the
/// percentage, trimmed; or all of `t` when no percentage is written.
pub open spec fn variety_name(t: Seq<char>) -> Seq<char> {
    if variety_has_percent(t) {
        spec_trim(t.take(t.len() as int - 3 - variety_pct_digit_len(t)))
    } else {
        t
    }
}

/// Whether the trimmed entry `t` is acceptable: non-empty, and any
/// percentage it carries fits in a `u8`.
pub open spec fn variety_part_ok(t: Seq<char>) -> bool {
    if t.len() == 0 {
        false
    } else if variety_has_percent(t) {
        variety_pct_val(t) <= u8::MAX
    } else {
        true
    }
}

/// Index of the first unacceptable entry among the comma-split parts `ps`,
/// or `ps.len()` when all are acceptable.
pub open spec fn first_bad_variety(ps: Seq<Seq<char>>) -> int
    decreases ps.len(),
{
    if ps.len() == 0 {
        0
    } else if !variety_part_ok(spec_trim(ps[0])) {
        0
    } else {
        1 + first_bad_variety(ps.drop_first())
    }
}

proof fn lemma_first_bad_variety_step(ps: Seq<Seq<char>>, k: int)
    requires
        0 <= k <= ps.len(),
        forall|i: int| 0 <= i < k ==> variety_part_ok(spec_trim(#[trigger] ps[i])),
    ensures
        first_bad_variety(ps) == k + first_bad_variety(ps.skip(k)),
    decreases k,
{
    if k == 0 {
        assert(ps.skip(0) =~= ps);
    } else {
        lemma_first_bad_variety_step(ps, k - 1);
        let q = ps.skip(k - 1);
        assert(q[0] == ps[k - 1]);
        assert(q.drop_first() =~= ps.skip(k));
        assert(first_bad_variety(q) == 1 + first_bad_variety(ps.skip(k)));
    }
}

/// Parses the trimmed grape-variety entry `v[tlo..thi]`.
fn parse_variety_part(text: &str, v: &Vec<char>, tlo: usize, thi: usize) -> (r: Result<
    GrapeVariety,
    ParseError,
>)
    requires
        v@ == text@,
        tlo <= thi <= v@.len(),
        tlo < thi ==> !is_space(v@[tlo as int]) && !is_space(v@[thi - 1]),
    ensures
        ({
            let t = v@.subrange(tlo as int, thi as int);
            if t.len() == 0 {
                r matches Err(ParseError::EmptyName(x)) && x@ == t
            } else if variety_has_percent(t) {
                if variety_pct_val(t) <= u8::MAX {
                    r matches Ok(g) && g.name@ == variety_name(t) && (g.percentage matches Some(p)
                        && p == variety_pct_val(t))
                } else {
                    r matches Err(ParseError::NumberTooLarge(x)) && x@ == t
                }
            } else {
                r matches Ok(g) && g.name@ == t && g.percentage is None
            }
        }),
{
    let ghost t = v@.subrange(tlo as int, thi as int);
    if thi == tlo {
        proof {
            assert(t.len() == 0);
        }
        return Err(ParseError::EmptyName(String::new()));
    }
    if thi - tlo >= 4 && v[thi - 1] == '%' && space(v[thi - 2]) {
        let ds = scan_digits_back(v, tlo, thi - 2);
        proof {
            assert(v@.subrange(tlo as int, thi - 2) =~= t.take(t.len() as int - 2));
        }
        let ghost d = variety_pct_digit_len(t);
        proof {
            assert(d == thi - 2 - ds);
        }
        if thi - 2 - ds >= 1 && ds > tlo && space(v[ds - 1]) {
            proof {
                assert(t[t.len() as int - 3 - d] == v@[ds - 1]);
                assert(variety_has_percent(t));
                assert(t.subrange(t.len() as int - 2 - d, t.len() as int - 2) =~= v@.subrange(
                    ds as int,
                    thi - 2,
                ));
            }
            let pct = match read_digits(v, ds, thi - 2) {
                None => {
                    return Err(ParseError::NumberTooLarge(text.substring_char(tlo, thi).to_owned()));
                },
                Some(p) => p,
            };
            if pct > 255 {
                return Err(ParseError::NumberTooLarge(text.substring_char(tlo, thi).to_owned()));
            }
            let (nlo, nhi) = trim_range(v, tlo, ds - 1);
            proof {
                assert(v@.subrange(tlo as int, ds - 1) =~= t.take(t.len() as int - 3 - d));
            }
            let name = text.substring_char(nlo, nhi).to_owned();
            return Ok(GrapeVariety { name, percentage: Some(pct as u8) });
        }
        proof {
            if thi - 2 - ds == 0 {
                assert(!variety_has_percent(t));
            } else if ds == tlo {
                assert(t.len() as int - 3 - d == -1);
                assert(!variety_has_percent(t));
            } else {
                assert(t[t.len() as int - 3 - d] == v@[ds - 1]);
                assert(!variety_has_percent(t));
            }
        }
        let name = text.substring_char(tlo, thi).to_owned();
        return Ok(GrapeVariety { name, percentage: None });
    }
    proof {
        assert(t[t.len() as int - 1] == v@[thi - 1]);
        if t.len() >= 2 {
            assert(t[t.len() as int - 2] == v@[thi - 2]);
        }
        assert(!variety_has_percent(t));
    }
    let name = text.substring_char(tlo, thi).to_owned();
    Ok(GrapeVariety { name, percentage: None })
}

/// Parses a comma-separated grape-variety field such as
/// `"Zinfandel 95 %, Petite sirah 5 %"` or `"Chardonnay"`.
///
/// Each entry is trimmed; an entry may end with a percentage, set off by
/// whitespace before and after the digits and closed with `%`.
#[verifier::rlimit(60)]
pub fn parse_grape_varieties(text: &str) -> (r: Result<Vec<GrapeVariety>, ParseError>)
    ensures
        ({
            let ps = split_commas(text@);
            let fb = first_bad_variety(ps);
            if fb == ps.len() {
                r matches Ok(list) && list@.len() == ps.len() && (forall|i: int|
                    0 <= i < ps.len() ==> {
                        let t = spec_trim(ps[i]);
                        &&& (#[trigger] list@[i]).name@ == variety_name(t)
                        &&& (variety_has_percent(t) ==> (list@[i].percentage matches Some(p) && p
                            == variety_pct_val(t)))
                        &&& (!variety_has_percent(t) ==> list@[i].percentage is None)
                    })
            } else {
                let t = spec_trim(ps[fb]);
                if t.len() == 0 {
                    r matches Err(ParseError::EmptyName(x)) && x@ == t
                } else {
                    r matches Err(ParseError::NumberTooLarge(x)) && x@ == t
                }
            }
        }),
{
    let v = chars_of(text);
    let n = v.len();
    let ghost s = text@;
    let ghost ps = split_commas(s);
    proof {
        assert(v@.subrange(0, n as int) =~= s);
        assert(s.skip(0) =~= s);
    }
    let mut out: Vec<GrapeVariety> = Vec::new();
    let mut pos: usize = 0;
    loop
        invariant_except_break
            pos <= n,
            split_commas(s.skip(pos as int)) == ps.skip(out@.len() as int),
        invariant
            v@ == s,
            s == text@,
            n == s.len(),
            out@.len() <= ps.len(),
            ps == split_commas(s),
            forall|i: int| 0 <= i < out@.len() ==> variety_part_ok(spec_trim(#[trigger] ps[i])),
            forall|i: int|
                0 <= i < out@.len() ==> {
                    let t = spec_trim(ps[i]);
                    &&& (#[trigger] out@[i]).name@ == variety_name(t)
                    &&& (variety_has_percent(t) ==> (out@[i].percentage matches Some(p) && p
                        == variety_pct_val(t)))
                    &&& (!variety_has_percent(t) ==> out@[i].percentage is None)
                },
        ensures
            out@.len() == ps.len(),
            first_bad_variety(ps) == ps.len(),
        decreases n - pos,
    {
        let ghost k = out@.len() as int;
        let c = scan_comma(&v, pos, n);
        let ghost rest = s.skip(pos as int);
        let ghost part = s.subrange(pos as int, c as int);
        proof {
            assert(rest =~= v@.subrange(pos as int, n as int));
            assert(crate::text::comma_free_prefix(rest) == c - pos);
            assert(k < ps.len()) by {
                assert(ps.skip(k).len() >= 1);
            }
            if c == n {
                assert(split_commas(rest) == seq![rest]);
                assert(part =~= rest);
                assert(ps[k] == ps.skip(k)[0]);
                assert(ps[k] == part);
                assert(ps.len() == k + 1);
            } else {
                assert(split_commas(rest) == seq![rest.take(c - pos)] + split_commas(
                    rest.skip(c - pos + 1),
                ));
                assert(rest.take(c - pos) =~= part);
                assert(ps[k] == ps.skip(k)[0]);
                assert(ps[k] == part);
                assert(rest.skip(c - pos + 1) =~= s.skip(c + 1));
                assert(ps.skip(k).drop_first() =~= ps.skip(k + 1));
                assert(split_commas(s.skip(c + 1)) == ps.skip(k + 1));
            }
        }
        let (tlo, thi) = trim_range(&v, pos, c);
        proof {
            assert(v@.subrange(pos as int, c as int) == part);
        }
        match parse_variety_part(text, &v, tlo, thi) {
            Err(e) => {
                proof {
                    let t = spec_trim(part);
                    assert(!variety_part_ok(t));
                    lemma_first_bad_variety_step(ps, k);
                    assert(first_bad_variety(ps.skip(k)) == 0);
                    assert(first_bad_variety(ps) == k);
                }
                return Err(e);
            },
            Ok(g) => {
                out.push(g);
            },
        }
        if c == n {
            proof {
                lemma_first_bad_variety_step(ps, k + 1);
                assert(ps.skip(k + 1) =~= Seq::<Seq<char>>::empty());
                assert(first_bad_variety(ps) == ps.len());
            }
            break ;
        }
        pos = c + 1;
    }
    Ok(out)
}

/// The specifics of the "Product of Québec" label.
#[derive(Debug, Clone, Copy, PartialEq, Eq, Structural)]
pub enum ProductOfQuebec {
    /// The final product was bottled in Québec.
    BottledIn,
    /// The product was made in Québec, partially or fully from ingredients
    /// sourced outside of Québec.
    MadeIn,
    /// The product was made in Québec using ingredients from Québec.
    Origine,
}

/// Parses the "Product of Québec" label, which admits exactly three values.
pub fn parse_product_of_quebec(text: &str) -> (r: Result<ProductOfQuebec, ParseError>)
    ensures
        text@ == "Bottled in Québec"@ ==> r == Ok::<ProductOfQuebec, ParseError>(
            ProductOfQuebec::BottledIn,
        ),
        text@ == "Made in Québec"@ ==> r == Ok::<ProductOfQuebec, ParseError>(
            ProductOfQuebec::MadeIn,
        ),
        text@ == "Origine Québec"@ ==> r == Ok::<ProductOfQuebec, ParseError>(
            ProductOfQuebec::Origine,
        ),
        text@ != "Bottled in Québec"@ && text@ != "Made in Québec"@ && text@
            != "Origine Québec"@ ==> (r matches Err(ParseError::InvalidValue(t)) && t@ == text@),
{
    proof {
        reveal_strlit("Bottled in Québec");
        reveal_strlit("Made in Québec");
        reveal_strlit("Origine Québec");
        assert("Bottled in Québec"@.len() == 17);
        assert("Made in Québec"@.len() == 14);
        assert("Origine Québec"@.len() == 14);
        assert("Made in Québec"@[0] == 'M');
        assert("Origine Québec"@[0] == 'O');
    }
    let o = text.to_owned();
    if o == String::from_str("Bottled in Québec") {
        Ok(ProductOfQuebec::BottledIn)
    } else if o == String::from_str("Made in Québec") {
        Ok(ProductOfQuebec::MadeIn)
    } else if o == String::from_str("Origine Québec") {
        Ok(ProductOfQuebec::Origine)
    } else {
        Err(ParseError::InvalidValue(o))
    }
}

/// The value stored under `key` in the field list `ps`, reading the list as
/// a map in which a later entry for the same key wins.
pub open spec fn map_lookup(ps: Seq<(String, String)>, key: Seq<char>) -> Option<Seq<char>>
    decreases ps.len(),
{
    if ps.len() == 0 {
        None
    } else if ps.last().0@ == key {
        Some(ps.last().1@)
    } else {
        map_lookup(ps.drop_last(), key)
    }
}

/// Finds the value stored under `key` in the field list.
fn lookup_field<'a>(map: &'a Vec<(String, String)>, key: &String) -> (r: Option<&'a String>)
    ensures
        match r {
            Some(s) => map_lookup(map@, key@) == Some(s@),
            None => map_lookup(map@, key@) is None,
        },
{
    let mut i = map.len();
    proof {
        assert(map@.take(map@.len() as int) =~= map@);
    }
    while i > 0
        invariant
            i <= map@.len(),
            map_lookup(map@, key@) == map_lookup(map@.take(i as int), key@),
        decreases i,
    {
        i -= 1;
        proof {
            assert(map@.take(i + 1).drop_last() =~= map@.take(i as int));
            assert(map@.take(i + 1).last() == map@[i as int]);
        }
        let p = &map[i];
        if p.0 == *key {
            return Some(&p.1);
        }
    }
    proof {
        assert(map@.take(0) =~= Seq::<(String, String)>::empty());
    }
    None
}

/// Splits a special-features field on its ", " separators, without
/// trimming the parts.
fn split_special_features(text: &str) -> (r: Vec<String>)
    ensures
        r@.len() == crate::text::split_comma_space(text@).len(),
        forall|i: int|
            0 <= i < r@.len() ==> (#[trigger] r@[i])@ == crate::text::split_comma_space(text@)[i],
{
    let v = chars_of(text);
    let n = v.len();
    let ghost s = text@;
    let ghost ps = crate::text::split_comma_space(s);
    proof {
        assert(v@.subrange(0, n as int) =~= s);
        assert(s.skip(0) =~= s);
    }
    let mut out: Vec<String> = Vec::new();
    let mut pos: usize = 0;
    loop
        invariant_except_break
            pos <= n,
            crate::text::split_comma_space(s.skip(pos as int)) == ps.skip(out@.len() as int),
        invariant
            v@ == s,
            s == text@,
            n == s.len(),
            out@.len() <= ps.len(),
            ps == crate::text::split_comma_space(s),
            forall|i: int| 0 <= i < out@.len() ==> (#[trigger] out@[i])@ == ps[i],
        ensures
            out@.len() == ps.len(),
            forall|i: int| 0 <= i < out@.len() ==> (#[trigger] out@[i])@ == ps[i],
        decreases n - pos,
    {
        let ghost k = out@.len() as int;
        let c = crate::text::scan_sep2(&v, pos, n);
        let ghost rest = s.skip(pos as int);
        let ghost part = s.subrange(pos as int, c as int);
        proof {
            assert(rest =~= v@.subrange(pos as int, n as int));
            assert(k < ps.len()) by {
                assert(ps.skip(k).len() >= 1);
            }
            if c == n {
                assert(crate::text::sep2_free_prefix(rest) + 2 > rest.len());
                assert(crate::text::split_comma_space(rest) == seq![rest]);
                assert(part =~= rest);
                assert(ps[k] == ps.skip(k)[0]);
                assert(ps.len() == k + 1);
            } else {
                assert(crate::text::sep2_free_prefix(rest) == c - pos);
                assert(crate::text::split_comma_space(rest) == seq![rest.take(c - pos)]
                    + crate::text::split_comma_space(rest.skip(c - pos + 2)));
                assert(rest.take(c - pos) =~= part);
                assert(ps[k] == ps.skip(k)[0]);
                assert(rest.skip(c - pos + 2) =~= s.skip(c + 2));
                assert(ps.skip(k).drop_first() =~= ps.skip(k + 1));
            }
            assert(ps[k] == part);
        }
        let piece = text.substring_char(pos, c).to_owned();
        out.push(piece);
        if c == n {
            break ;
        }
        pos = c + 2;
    }
    out
}

/// Data extracted from the Detailed Info section of product pages.
#[derive(Debug, Clone)]
pub struct DetailedInfo {
    /// The product's producer (i.e. "The Absolut Company").
    pub producer: Option<String>,
    /// The catalog's unique identifier for the product.
    pub saq_code: String,
    /// The product's promoting agent/importer (i.e. "La QV Inc. (GB)").
    pub promoting_agent: Option<String>,
    /// The product's percentage of alcohol (i.e. "12.3 %").
    pub abv_percentage: Option<Decimal>,
    /// The number of containers and volume contained in each one. If
    /// no number is provided it is assumed to be 1.
    pub size: Option<Size>,
    /// The product's color (i.e. "Amber", "Beige", "Black").
    pub color: Option<String>,
    /// The region where the product was produced (i.e. "Jura").
    pub region: Option<String>,
    /// The product's UPC code.
    pub upc_code: Option<String>,
    /// The country where the product was produced (i.e. "Argentina").
    pub country: Option<String>,
    /// The specific "Product of Québec" labelling.
    pub product_of_quebec: Option<ProductOfQuebec>,
    /// Comma-separated grape varieties, optionally including a percentage.
    pub grape_varieties: Option<Vec<GrapeVariety>>,
    /// The product's sugar content in grams per liter, optionally preceded
    /// by a `<` or `>` sign to indicate imprecise measurements.
    pub sugar_content: Option<SugarContent>,
    /// Any regulated designations the product is subject to.
    pub regulated_designation: Option<String>,
    /// The product's designated origin (i.e. "Arbois").
    pub designation_of_origin: Option<String>,
    /// The product's classification (i.e. "1er cru classé").
    pub classification: Option<String>,
    /// A comma-separated list of special features (i.e. whether the
    /// product is organic).
    pub special_features: Option<Vec<String>>,
}

/// Whether the alcohol field of the map, if present, parses.
pub open spec fn abv_field_ok(m: Seq<(String, String)>) -> bool {
    match map_lookup(m, "Degree of alcohol"@) {
        None => true,
        Some(t) => abv_shape(t) && decimal_fits(t.take(t.len() as int - 2)),
    }
}

/// Whether the size field of the map, if present, parses.
pub open spec fn size_field_ok(m: Seq<(String, String)>) -> bool {
    match map_lookup(m, "Size"@) {
        None => true,
        Some(t) => size_shape(t) && size_fits(t),
    }
}

/// Whether the "Product of Québec" field of the map, if present, parses.
pub open spec fn quebec_field_ok(m: Seq<(String, String)>) -> bool {
    match map_lookup(m, "Product of Québec"@) {
        None => true,
        Some(t) => t == "Bottled in Québec"@ || t == "Made in Québec"@ || t
            == "Origine Québec"@,
    }
}

/// Whether the grape-variety field of the map, if present, parses.
pub open spec fn grapes_field_ok(m: Seq<(String, String)>) -> bool {
    match map_lookup(m, "Grape variety"@) {
        None => true,
        Some(t) => first_bad_variety(split_commas(t)) == split_commas(t).len(),
    }
}

/// Whether the sugar-content field of the map, if present, parses.
pub open spec fn sugar_field_ok(m: Seq<(String, String)>) -> bool {
    match map_lookup(m, "Sugar content"@) {
        None => true,
        Some(t) => sugar_shape(t) && sugar_fits(t),
    }
}

/// Whether the whole field map converts to a [`DetailedInfo`]: every
/// parsed field parses, and the product code is present.
pub open spec fn detailed_info_ok(m: Seq<(String, String)>) -> bool {
    &&& abv_field_ok(m)
    &&& size_field_ok(m)
    &&& quebec_field_ok(m)
    &&& grapes_field_ok(m)
    &&& sugar_field_ok(m)
    &&& map_lookup(m, "SAQ code"@) is Some
}

/// An optional plain-text field of the result holds exactly what the map
/// holds under `key`.
pub open spec fn text_field_matches(
    m: Seq<(String, String)>,
    key: Seq<char>,
    f: Option<String>,
) -> bool {
    match f {
        Some(x) => map_lookup(m, key) == Some(x@),
        None => map_lookup(m, key) is None,
    }
}

impl DetailedInfo {
    /// Converts the key/value pairs scraped from a product page's
    /// "Detailed Info" section into a [`DetailedInfo`], parsing each
    /// structured field. A later pair with the same key shadows an
    /// earlier one.
    pub fn from_hash_map(map: Vec<(String, String)>) -> (r: Result<DetailedInfo, ParseError>)
        ensures
            r is Ok <==> detailed_info_ok(map@),
            r matches Ok(d) ==> {
                &&& text_field_matches(map@, "Producer"@, d.producer)
                &&& map_lookup(map@, "SAQ code"@) == Some(d.saq_code@)
                &&& text_field_matches(map@, "Promoting agent"@, d.promoting_agent)
                &&& text_field_matches(map@, "Color"@, d.color)
                &&& text_field_matches(map@, "Region"@, d.region)
                &&& text_field_matches(map@, "UPC code"@, d.upc_code)
                &&& text_field_matches(map@, "Country"@, d.country)
                &&& text_field_matches(map@, "Regulated Designation"@, d.regulated_designation)
                &&& text_field_matches(map@, "Designation of origin"@, d.designation_of_origin)
                &&& text_field_matches(map@, "Classification"@, d.classification)
                &&& (match map_lookup(map@, "Degree of alcohol"@) {
                    None => d.abv_percentage is None,
                    Some(t) => d.abv_percentage == Some(spec_abv(t)),
                })
                &&& (match map_lookup(map@, "Size"@) {
                    None => d.size is None,
                    Some(t) => d.size == Some(spec_size(t)),
                })
                &&& (match map_lookup(map@, "Product of Québec"@) {
                    None => d.product_of_quebec is None,
                    Some(t) => {
                        &&& t == "Bottled in Québec"@ ==> d.product_of_quebec == Some(
                            ProductOfQuebec::BottledIn,
                        )
                        &&& t == "Made in Québec"@ ==> d.product_of_quebec == Some(
                            ProductOfQuebec::MadeIn,
                        )
                        &&& t == "Origine Québec"@ ==> d.product_of_quebec == Some(
                            ProductOfQuebec::Origine,
                        )
                    },
                })
                &&& (match map_lookup(map@, "Grape variety"@) {
                    None => d.grape_varieties is None,
                    Some(t) => d.grape_varieties matches Some(list) && {
                        let ps = split_commas(t);
                        &&& list@.len() == ps.len()
                        &&& forall|i: int|
                            0 <= i < ps.len() ==> {
                                let u = spec_trim(ps[i]);
                                &&& (#[trigger] list@[i]).name@ == variety_name(u)
                                &&& (variety_has_percent(u) ==> (list@[i].percentage matches Some(
                                    p,
                                ) && p == variety_pct_val(u)))
                                &&& (!variety_has_percent(u) ==> list@[i].percentage is None)
                            }
                    },
                })
                &&& (match map_lookup(map@, "Sugar content"@) {
                    None => d.sugar_content is None,
                    Some(t) => d.sugar_content == Some(
                        SugarContent {
                            grams_per_liter: spec_sugar_grams(t),
                            equality: spec_sugar_equality(t),
                        },
                    ),
                })
                &&& (match map_lookup(map@, "Special feature"@) {
                    None => d.special_features is None,
                    Some(t) => d.special_features matches Some(list) && {
                        let ps = crate::text::split_comma_space(t);
                        &&& list@.len() == ps.len()
                        &&& forall|i: int| 0 <= i < ps.len() ==> (#[trigger] list@[i])@ == ps[i]
                    },
                })
            },
            !abv_field_ok(map@) ==> (map_lookup(map@, "Degree of alcohol"@) matches Some(t) && (
            if !abv_shape(t) {
                r matches Err(ParseError::NoMatch(x)) && x@ == t
            } else {
                r matches Err(ParseError::NumberTooLarge(x)) && x@ == t
            })),
            abv_field_ok(map@) && !size_field_ok(map@) ==> (map_lookup(map@, "Size"@) matches Some(
                t,
            ) && (if !size_shape(t) {
                r matches Err(ParseError::NoMatch(x)) && x@ == t
            } else {
                r matches Err(ParseError::NumberTooLarge(x)) && x@ == t
            })),
            abv_field_ok(map@) && size_field_ok(map@) && !quebec_field_ok(map@) ==> (r matches Err(
                ParseError::InvalidValue(x),
            ) && map_lookup(map@, "Product of Québec"@) == Some(x@)),
            abv_field_ok(map@) && size_field_ok(map@) && quebec_field_ok(map@) && !grapes_field_ok(
                map@,
            ) ==> (map_lookup(map@, "Grape variety"@) matches Some(t) && ({
                let u = spec_trim(split_commas(t)[first_bad_variety(split_commas(t))]);
                if u.len() == 0 {
                    r matches Err(ParseError::EmptyName(x)) && x@ == u
                } else {
                    r matches Err(ParseError::NumberTooLarge(x)) && x@ == u
                }
            })),
            abv_field_ok(map@) && size_field_ok(map@) && quebec_field_ok(map@) && grapes_field_ok(
                map@,
            ) && !sugar_field_ok(map@) ==> (map_lookup(map@, "Sugar content"@) matches Some(t) && (
            if !sugar_shape(t) {
                r matches Err(ParseError::NoMatch(x)) && x@ == t
            } else {
                r matches Err(ParseError::NumberTooLarge(x)) && x@ == t
            })),
            abv_field_ok(map@) && size_field_ok(map@) && quebec_field_ok(map@) && grapes_field_ok(
                map@,
            ) && sugar_field_ok(map@) && map_lookup(map@, "SAQ code"@) is None ==> r == Err::<
                DetailedInfo,
                ParseError,
            >(ParseError::MissingSaqCode),
    {
        let abv_percentage = match lookup_field(&map, &String::from_str("Degree of alcohol")) {
            Some(t) => match parse_abv(t.as_str()) {
                Ok(d) => Some(d),
                Err(e) => {
                    return Err(e);
                },
            },
            None => None,
        };
        let size = match lookup_field(&map, &String::from_str("Size")) {
            Some(t) => match parse_size(t.as_str()) {
                Ok(d) => Some(d),
                Err(e) => {
                    return Err(e);
                },
            },
            None => None,
        };
        let product_of_quebec = match lookup_field(&map, &String::from_str("Product of Québec")) {
            Some(t) => match parse_product_of_quebec(t.as_str()) {
                Ok(d) => Some(d),
                Err(e) => {
                    return Err(e);
                },
            },
            None => None,
        };
        let grape_varieties = match lookup_field(&map, &String::from_str("Grape variety")) {
            Some(t) => match parse_grape_varieties(t.as_str()) {
                Ok(d) => Some(d),
                Err(e) => {
                    return Err(e);
                },
            },
            None => None,
        };
        let sugar_content = match lookup_field(&map, &String::from_str("Sugar content")) {
            Some(t) => match parse_sugar_content(t.as_str()) {
                Ok(d) => Some(d),
                Err(e) => {
                    return Err(e);
                },
            },
            None => None,
        };
        let special_features = match lookup_field(&map, &String::from_str("Special feature")) {
            Some(t) => Some(split_special_features(t.as_str())),
            None => None,
        };
        let saq_code = match lookup_field(&map, &String::from_str("SAQ code")) {
            Some(t) => t.clone(),
            None => {
                return Err(ParseError::MissingSaqCode);
            },
        };
        Ok(
            DetailedInfo {
                producer: clone_field(lookup_field(&map, &String::from_str("Producer"))),
                saq_code,
                promoting_agent: clone_field(
                    lookup_field(&map, &String::from_str("Promoting agent")),
                ),
                abv_percentage,
                size,
                color: clone_field(lookup_field(&map, &String::from_str("Color"))),
                region: clone_field(lookup_field(&map, &String::from_str("Region"))),
                upc_code: clone_field(lookup_field(&map, &String::from_str("UPC code"))),
                country: clone_field(lookup_field(&map, &String::from_str("Country"))),
                product_of_quebec,
                grape_varieties,
                sugar_content,
                regulated_designation: clone_field(
                    lookup_field(&map, &String::from_str("Regulated Designation")),
                ),
                designation_of_origin: clone_field(
                    lookup_field(&map, &String::from_str("Designation of origin")),
                ),
                classification: clone_field(
                    lookup_field(&map, &String::from_str("Classification")),
                ),
                special_features,
            },
        )
    }
}

/// Turns a borrowed optional field value into an owned one.
fn clone_field(o: Option<&String>) -> (r: Option<String>)
    ensures
        match r {
            Some(x) => o matches Some(y) && x@ == y@,
            None => o is None,
        },
{
    match o {
        Some(s) => Some(s.clone()),
        None => None,
    }
}

} // verus!
