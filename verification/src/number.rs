use vstd::prelude::*;

verus! {

/// A number of the language: an IEEE-754 binary64 value, held by its bit pattern.
///
/// The arithmetic on such numbers, their decimal reading and their printing are
/// supplied by an [`Arithmetic`]; what depends only on the encoding (equality,
/// ordering, the test for zero) is computed here.
#[derive(Debug, Clone, Copy)]
pub struct Number {
    pub bits: u64,
}

pub open spec fn sign_mask() -> u64 {
    0x8000_0000_0000_0000u64
}

pub open spec fn magnitude_mask() -> u64 {
    0x7fff_ffff_ffff_ffffu64
}

pub open spec fn exponent_mask() -> u64 {
    0x7ff0_0000_0000_0000u64
}

pub open spec fn fraction_mask() -> u64 {
    0x000f_ffff_ffff_ffffu64
}

/// The encoding is a NaN: all exponent bits set and a non-zero fraction.
pub open spec fn spec_is_nan(b: u64) -> bool {
    (b & exponent_mask()) == exponent_mask() && (b & fraction_mask()) != 0
}

/// The encoding is +0.0 or -0.0.
pub open spec fn spec_is_zero(b: u64) -> bool {
    (b & magnitude_mask()) == 0
}

/// The sign bit is set.
pub open spec fn spec_is_negative(b: u64) -> bool {
    (b & sign_mask()) != 0
}

/// IEEE-754 equality: NaN equals nothing, the two zeros are equal, and
/// otherwise two numbers are equal exactly when their encodings are.
pub open spec fn spec_num_eq(a: u64, b: u64) -> bool {
    !spec_is_nan(a) && !spec_is_nan(b) && (a == b || (spec_is_zero(a) && spec_is_zero(b)))
}

/// IEEE-754 "less than": false when either side is NaN or both are zeros;
/// otherwise ordered by sign, then by magnitude (reversed for negatives).
pub open spec fn spec_num_lt(a: u64, b: u64) -> bool {
    if spec_is_nan(a) || spec_is_nan(b) || (spec_is_zero(a) && spec_is_zero(b)) {
        false
    } else if spec_is_negative(a) && !spec_is_negative(b) {
        true
    } else if !spec_is_negative(a) && spec_is_negative(b) {
        false
    } else if !spec_is_negative(a) {
        a < b
    } else {
        a > b
    }
}

/// Where a non-NaN encoding stands on the number line: its magnitude bits
/// read as an integer, negated for a negative sign. Finite numbers and the
/// infinities of one sign are ordered by their magnitude bits, and the two
/// zeros both stand at 0.
pub open spec fn order_key(b: u64) -> int {
    if spec_is_negative(b) {
        -((b & magnitude_mask()) as int)
    } else {
        (b & magnitude_mask()) as int
    }
}

/// `<` on numbers other than NaN is the order of the number line: `a < b`
/// exactly when `a` stands before `b`. So it is irreflexive and asymmetric,
/// a number with no sign bit is never less than one with the sign bit, and
/// the two zeros are not less than each other.
pub proof fn law_num_lt_is_number_order(a: u64, b: u64)
    requires
        !spec_is_nan(a),
        !spec_is_nan(b),
    ensures
        spec_num_lt(a, b) <==> order_key(a) < order_key(b),
        spec_num_lt(a, b) ==> !spec_num_lt(b, a),
        !spec_num_lt(a, a),
        !spec_is_negative(a) && spec_is_negative(b) ==> !spec_num_lt(a, b),
        spec_is_zero(a) && spec_is_zero(b) ==> !spec_num_lt(a, b),
{
    assert((a & 0x8000_0000_0000_0000u64) == 0 ==> (a & 0x7fff_ffff_ffff_ffffu64) == a) by (bit_vector);
    assert((b & 0x8000_0000_0000_0000u64) == 0 ==> (b & 0x7fff_ffff_ffff_ffffu64) == b) by (bit_vector);
    assert(((a & 0x8000_0000_0000_0000u64) != 0 && (b & 0x8000_0000_0000_0000u64) != 0) ==> ((a > b) == ((a & 0x7fff_ffff_ffff_ffffu64) > (b & 0x7fff_ffff_ffff_ffffu64)))) by (bit_vector);
    assert(((a & 0x8000_0000_0000_0000u64) != 0 && (b & 0x8000_0000_0000_0000u64) != 0) ==> ((a < b) == ((a & 0x7fff_ffff_ffff_ffffu64) < (b & 0x7fff_ffff_ffff_ffffu64)))) by (bit_vector);
}

/// Equality of numbers is equality on the number line: two numbers other
/// than NaN are equal exactly when they stand at the same place (so +0 and
/// -0 are equal), and a NaN equals nothing, itself included. It is symmetric,
/// and no two numbers are both equal and one less than the other.
pub proof fn law_num_eq_is_number_equality(a: u64, b: u64)
    ensures
        spec_num_eq(a, b) <==> (!spec_is_nan(a) && !spec_is_nan(b) && order_key(a) == order_key(b)),
        spec_num_eq(a, b) == spec_num_eq(b, a),
        !spec_is_nan(a) ==> spec_num_eq(a, a),
        spec_num_eq(a, b) ==> !spec_num_lt(a, b) && !spec_num_lt(b, a),
        !spec_is_nan(a) && !spec_is_nan(b) ==> (spec_num_lt(a, b) || spec_num_lt(b, a) || spec_num_eq(a, b)),
{
    assert((a & 0x8000_0000_0000_0000u64) == 0 ==> (a & 0x7fff_ffff_ffff_ffffu64) == a) by (bit_vector);
    assert((b & 0x8000_0000_0000_0000u64) == 0 ==> (b & 0x7fff_ffff_ffff_ffffu64) == b) by (bit_vector);
    assert(((a & 0x8000_0000_0000_0000u64) != 0 && (b & 0x8000_0000_0000_0000u64) != 0) ==> ((a == b) == ((a & 0x7fff_ffff_ffff_ffffu64) == (b & 0x7fff_ffff_ffff_ffffu64)))) by (bit_vector);
    if !spec_is_nan(a) && !spec_is_nan(b) {
        law_num_lt_is_number_order(a, b);
        law_num_lt_is_number_order(b, a);
    }
}

impl Number {
    pub fn is_nan(&self) -> (r: bool)
        ensures
            r == spec_is_nan(self.bits),
    {
        (self.bits & 0x7ff0_0000_0000_0000u64) == 0x7ff0_0000_0000_0000u64 && (self.bits
            & 0x000f_ffff_ffff_ffffu64) != 0
    }

    pub fn is_zero(&self) -> (r: bool)
        ensures
            r == spec_is_zero(self.bits),
    {
        (self.bits & 0x7fff_ffff_ffff_ffffu64) == 0
    }

    pub fn is_negative(&self) -> (r: bool)
        ensures
            r == spec_is_negative(self.bits),
    {
        (self.bits & 0x8000_0000_0000_0000u64) != 0
    }

    /// Equality of the numbers the encodings stand for.
    pub fn num_eq(&self, other: &Number) -> (r: bool)
        ensures
            r == spec_num_eq(self.bits, other.bits),
    {
        !self.is_nan() && !other.is_nan() && (self.bits == other.bits || (self.is_zero()
            && other.is_zero()))
    }

    /// Whether this number is less than `other`.
    pub fn num_lt(&self, other: &Number) -> (r: bool)
        ensures
            r == spec_num_lt(self.bits, other.bits),
    {
        if self.is_nan() || other.is_nan() || (self.is_zero() && other.is_zero()) {
            false
        } else if self.is_negative() && !other.is_negative() {
            true
        } else if !self.is_negative() && other.is_negative() {
            false
        } else if !self.is_negative() {
            self.bits < other.bits
        } else {
            self.bits > other.bits
        }
    }
}

impl PartialEq for Number {
    fn eq(&self, other: &Number) -> (r: bool) {
        self.num_eq(other)
    }
}

impl vstd::std_specs::cmp::PartialEqSpecImpl for Number {
    open spec fn obeys_eq_spec() -> bool {
        true
    }

    open spec fn eq_spec(&self, other: &Number) -> bool {
        spec_num_eq(self.bits, other.bits)
    }
}

/// Text as a mathematical value: a sequence of characters.
pub type Text = Seq<char>;

/// The floating-point work that the interpreter hands to its host: reading a
/// decimal literal, the four arithmetic operations, and printing a number.
/// Each is a function of its arguments: the spec functions name its result,
/// and every specification of the library that involves numbers is stated
/// over those names. The implementations are written outside the verified
/// library (floating point cannot be verified here), so that each operation
/// gives the same result for the same arguments is assumed of them, and what
/// the names are on given values is left to the host (IEEE-754 double
/// arithmetic, Rust's reading and printing of `f64`, in the command-line
/// program and the tests).
pub trait Arithmetic {
    /// The number a decimal literal (optional sign, digits, at most one dot)
    /// denotes, or `None` where the host cannot read it.
    spec fn spec_read(&self, text: Text) -> Option<Number>;

    /// The sum `a + b`.
    spec fn spec_sum(&self, a: Number, b: Number) -> Number;

    /// The difference `a - b`.
    spec fn spec_difference(&self, a: Number, b: Number) -> Number;

    /// The product `a * b`.
    spec fn spec_product(&self, a: Number, b: Number) -> Number;

    /// The quotient `a / b`.
    spec fn spec_quotient(&self, a: Number, b: Number) -> Number;

    /// The printed form of a number.
    spec fn spec_render(&self, n: Number) -> Text;

    fn read_decimal(&self, text: &str) -> (r: Option<Number>)
        ensures
            r == self.spec_read(text@),
    ;

    fn sum(&self, a: Number, b: Number) -> (r: Number)
        ensures
            r == self.spec_sum(a, b),
    ;

    fn difference(&self, a: Number, b: Number) -> (r: Number)
        ensures
            r == self.spec_difference(a, b),
    ;

    fn product(&self, a: Number, b: Number) -> (r: Number)
        ensures
            r == self.spec_product(a, b),
    ;

    fn quotient(&self, a: Number, b: Number) -> (r: Number)
        ensures
            r == self.spec_quotient(a, b),
    ;

    fn render(&self, n: Number) -> (s: String)
        ensures
            s@ == self.spec_render(n),
    ;
}

} // verus!
