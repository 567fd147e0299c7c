use vstd::prelude::*;
use rustc_apfloat::Float;
use rustc_apfloat::ieee::Double;

verus! {

// A number value of the language is an IEEE-754 double, carried everywhere
// as its 64-bit encoding.  The arithmetic, comparisons, parsing and
// rendering of doubles are delegated to the `rustc_apfloat` software
// implementation of IEEE-754; each operation below is a pure function of
// the bit patterns alone, so each is given a name that the contracts of
// the compiler and the machine can speak of.

/// The IEEE-754 sum of the doubles encoded by `a` and `b`, rounding to
/// nearest-even, as a bit pattern.
pub uninterp spec fn num_add(a: u64, b: u64) -> u64;

/// The IEEE-754 difference of the doubles encoded by `a` and `b`.
pub uninterp spec fn num_sub(a: u64, b: u64) -> u64;

/// The IEEE-754 product of the doubles encoded by `a` and `b`.
pub uninterp spec fn num_mul(a: u64, b: u64) -> u64;

/// The IEEE-754 quotient of the doubles encoded by `a` and `b`.
pub uninterp spec fn num_div(a: u64, b: u64) -> u64;

/// The double encoded by `a` with its sign flipped.
pub uninterp spec fn num_neg(a: u64) -> u64;

/// Whether the double encoded by `a` orders strictly below the one
/// encoded by `b`.
pub uninterp spec fn num_lt(a: u64, b: u64) -> bool;

/// Whether the double encoded by `a` orders strictly above the one
/// encoded by `b`.
pub uninterp spec fn num_gt(a: u64, b: u64) -> bool;

/// Whether the doubles encoded by `a` and `b` are equal in the IEEE-754
/// sense: the two zeroes are equal, and a NaN equals nothing.
pub uninterp spec fn num_eq(a: u64, b: u64) -> bool;

/// The double, as a bit pattern, nearest to the decimal value spelled by a
/// number lexeme.
pub uninterp spec fn num_of_lexeme(s: Seq<char>) -> u64;

/// The decimal rendering of the double encoded by `bits`.
pub uninterp spec fn num_text(bits: u64) -> Seq<char>;

/// Whether `c` is a decimal digit.
pub open spec fn is_digit_char(c: char) -> bool {
    '0' <= c && c <= '9'
}

/// The first position at or after `i` that does not hold a digit.
pub open spec fn skip_digits(s: Seq<char>, i: int) -> int
    decreases s.len() - i,
{
    if i < s.len() && is_digit_char(s[i]) {
        skip_digits(s, i + 1)
    } else {
        i
    }
}

/// The shape of a number lexeme as the scanner produces it: one or more
/// digits, optionally followed by a dot and one or more digits.
pub open spec fn is_number_lexeme(s: Seq<char>) -> bool {
    &&& s.len() > 0
    &&& is_digit_char(s[0])
    &&& ({
        let k = skip_digits(s, 0);
        k == s.len() || (k < s.len() - 1 && s[k] == '.' && skip_digits(s, k + 1) == s.len())
    })
}

/// Relies on `Add for rustc_apfloat::ieee::Double`: the IEEE-754 sum of
/// two doubles given by their bit patterns.
#[verifier::external_body]
pub fn add_numbers(a: u64, b: u64) -> (r: u64)
    ensures
        r == num_add(a, b),
{
    (Double::from_bits(a as u128) + Double::from_bits(b as u128)).value.to_bits() as u64
}

/// Relies on `Sub for rustc_apfloat::ieee::Double`: the IEEE-754
/// difference of two doubles given by their bit patterns.
#[verifier::external_body]
pub fn sub_numbers(a: u64, b: u64) -> (r: u64)
    ensures
        r == num_sub(a, b),
{
    (Double::from_bits(a as u128) - Double::from_bits(b as u128)).value.to_bits() as u64
}

/// Relies on `Mul for rustc_apfloat::ieee::Double`: the IEEE-754 product
/// of two doubles given by their bit patterns.
#[verifier::external_body]
pub fn mul_numbers(a: u64, b: u64) -> (r: u64)
    ensures
        r == num_mul(a, b),
{
    (Double::from_bits(a as u128) * Double::from_bits(b as u128)).value.to_bits() as u64
}

/// Relies on `Div for rustc_apfloat::ieee::Double`: the IEEE-754 quotient
/// of two doubles given by their bit patterns.
#[verifier::external_body]
pub fn div_numbers(a: u64, b: u64) -> (r: u64)
    ensures
        r == num_div(a, b),
{
    (Double::from_bits(a as u128) / Double::from_bits(b as u128)).value.to_bits() as u64
}

/// Relies on `Neg for rustc_apfloat::ieee::Double`: sign negation of a
/// double given by its bit pattern.
#[verifier::external_body]
pub fn neg_number(a: u64) -> (r: u64)
    ensures
        r == num_neg(a),
{
    (-Double::from_bits(a as u128)).to_bits() as u64
}

/// Relies on `PartialOrd for rustc_apfloat::ieee::Double`: the IEEE-754
/// `<` comparison of two doubles given by their bit patterns.
#[verifier::external_body]
pub fn lt_numbers(a: u64, b: u64) -> (r: bool)
    ensures
        r == num_lt(a, b),
{
    Double::from_bits(a as u128) < Double::from_bits(b as u128)
}

/// Relies on `PartialOrd for rustc_apfloat::ieee::Double`: the IEEE-754
/// `>` comparison of two doubles given by their bit patterns.
#[verifier::external_body]
pub fn gt_numbers(a: u64, b: u64) -> (r: bool)
    ensures
        r == num_gt(a, b),
{
    Double::from_bits(a as u128) > Double::from_bits(b as u128)
}

/// Relies on `PartialEq for rustc_apfloat::ieee::IeeeFloat` (equality
/// through `partial_cmp`): the IEEE-754 `==` comparison of two doubles
/// given by their bit patterns.
#[verifier::external_body]
pub fn eq_numbers(a: u64, b: u64) -> (r: bool)
    ensures
        r == num_eq(a, b),
{
    Double::from_bits(a as u128) == Double::from_bits(b as u128)
}

/// Relies on `FromStr for rustc_apfloat::ieee::Double`: a nonempty string
/// of digits, optionally with a fractional part, parses to the nearest
/// double.
#[verifier::external_body]
pub fn parse_number(s: &Vec<char>) -> (r: u64)
    requires
        is_number_lexeme(s@),
    ensures
        r == num_of_lexeme(s@),
{
    let text: std::string::String = s.iter().collect();
    text.parse::<Double>().unwrap().to_bits() as u64
}

/// Relies on `Display for rustc_apfloat::ieee::Double`: a decimal
/// rendering, a function of the bit pattern alone, that omits a trailing
/// fractional part when the value is integral.
#[verifier::external_body]
pub fn render_number(bits: u64) -> (r: Vec<char>)
    ensures
        r@ == num_text(bits),
{
    format!("{}", Double::from_bits(bits as u128)).chars().collect()
}

} // verus!
