//! Fixed-point decimal numbers: a 96-bit signed mantissa over a power of ten.
//!
//! A [`Decimal`] is held as plain integers. Multiplication, division, addition,
//! subtraction, comparison, reading and printing are those of the
//! `rust_decimal` crate.
//!
//! A zero can carry a minus sign: a negative product that is rounded to zero
//! does, and it is printed.

use vstd::prelude::*;

verus! {

/// The largest magnitude of a mantissa.
pub const MAX_MANTISSA: i128 = 0xFFFF_FFFF_FFFF_FFFF_FFFF_FFFF;

/// The largest number of digits behind the decimal point.
pub const MAX_SCALE: u32 = 28;

/// Ten to the power of `n`.
pub open spec fn pow10(n: nat) -> int
    decreases n,
{
    if n == 0 {
        1
    } else {
        10 * pow10((n - 1) as nat)
    }
}

/// A number as it is written: a mantissa, a scale, and whether it is a zero with
/// a minus sign.
pub type Number = (int, int, bool);

/// Whether a mantissa and a scale make up a decimal number.
pub open spec fn in_range(mantissa: int, scale: int) -> bool {
    &&& -MAX_MANTISSA <= mantissa <= MAX_MANTISSA
    &&& 0 <= scale <= MAX_SCALE
}

/// Whether parts make up a decimal number, which has a minus sign of its own only
/// where it is zero.
pub open spec fn is_number(n: Number) -> bool {
    in_range(n.0, n.1) && (n.2 ==> n.0 == 0)
}

/// The number `mantissa / 10^scale`, counted in units of `10^-28`.
///
/// Every decimal number is a whole count of these units, so the order of the
/// counts is the order of the numbers.
pub open spec fn units(mantissa: int, scale: int) -> int {
    mantissa * pow10((MAX_SCALE - scale) as nat)
}

/// A mantissa rewritten for a larger scale.
pub open spec fn aligned(mantissa: int, scale: int, to: int) -> int {
    mantissa * pow10((to - scale) as nat)
}

pub open spec fn larger(a: int, b: int) -> int {
    if a >= b {
        a
    } else {
        b
    }
}

/// Whether a product is representable without rounding.
pub open spec fn product_is_exact(am: int, ascale: int, bm: int, bscale: int) -> bool {
    am == 0 || bm == 0 || in_range(am * bm, ascale + bscale)
}

/// A product that is representable without rounding.
pub open spec fn exact_product(am: int, ascale: int, bm: int, bscale: int) -> Number {
    if am == 0 || bm == 0 {
        (0, 0, false)
    } else {
        (am * bm, ascale + bscale, false)
    }
}

/// Whether a quotient needs no digits beyond those of the dividend.
pub open spec fn quotient_is_exact(am: int, ascale: int, bm: int, bscale: int) -> bool {
    bm != 0 && (am == 0 || (am % bm == 0 && bscale <= ascale))
}

/// A quotient that needs no digits beyond those of the dividend.
pub open spec fn exact_quotient(am: int, ascale: int, bm: int, bscale: int) -> Number {
    if am == 0 {
        (0, 0, false)
    } else {
        (am / bm, ascale - bscale, false)
    }
}

/// The size of an integer, without its sign.
pub open spec fn size(n: int) -> int {
    if n < 0 {
        -n
    } else {
        n
    }
}

/// By how much a number times the divisor misses the dividend, in units of
/// `10^-56`.
pub open spec fn missed(q: Number, a: Number, b: Number) -> int {
    units(q.0, q.1) * units(b.0, b.1) - units(a.0, a.1) * pow10(MAX_SCALE as nat)
}

/// Whether a decimal number is the quotient of two others: times the divisor it
/// makes up the dividend.
pub open spec fn is_quotient(q: Number, a: Number, b: Number) -> bool {
    &&& b.0 != 0
    &&& in_range(q.0, q.1)
    &&& missed(q, a, b) == 0
}

/// Whether a decimal number is as near to the quotient of two others as its
/// digits allow: it is off by no more than half a unit of its last digit.
pub open spec fn is_near_quotient(q: Number, a: Number, b: Number) -> bool {
    &&& b.0 != 0
    &&& in_range(q.0, q.1)
    &&& 2 * size(missed(q, a, b)) <= pow10((MAX_SCALE - q.1) as nat) * size(units(b.0, b.1))
}

/// Whether a quotient is a decimal number.
pub open spec fn quotient_fits(a: Number, b: Number) -> bool {
    exists|q: Number| is_quotient(q, a, b)
}

/// Whether a sum is representable over the larger of the two scales.
pub open spec fn sum_is_exact(am: int, ascale: int, bm: int, bscale: int) -> bool {
    let to = larger(ascale, bscale);
    ||| am == 0
    ||| bm == 0
    ||| {
        &&& in_range(aligned(am, ascale, to), to)
        &&& in_range(aligned(bm, bscale, to), to)
        &&& in_range(aligned(am, ascale, to) + aligned(bm, bscale, to), to)
    }
}

/// A sum that is representable over the larger of the two scales. Adding to
/// zero keeps the other number as it is written.
pub open spec fn exact_sum(a: Number, b: Number) -> Number {
    let to = larger(a.1, b.1);
    if a.0 == 0 {
        b
    } else if b.0 == 0 {
        a
    } else {
        (aligned(a.0, a.1, to) + aligned(b.0, b.1, to), to, false)
    }
}

/// A number with the other sign; a zero stays as it is written.
pub open spec fn negated(n: Number) -> Number {
    (-n.0, n.1, n.2)
}

/// What `rust_decimal` gives for a product that it has to round; `None` where
/// the product is too large.
pub uninterp spec fn rounded_product(am: int, ascale: int, bm: int, bscale: int) -> Option<Number>;

/// What `rust_decimal` gives for a quotient that needs more digits than the
/// dividend has: one of the ways to write it where it is a decimal number, and a
/// rounded one otherwise; `None` where the quotient is too large.
pub uninterp spec fn rounded_quotient(am: int, ascale: int, bm: int, bscale: int) -> Option<Number>;

/// What `rust_decimal` gives for a sum that it has to round; `None` where the
/// sum is too large.
pub uninterp spec fn rounded_sum(am: int, ascale: int, bm: int, bscale: int) -> Option<Number>;

/// What `rust_decimal` gives for a difference that it has to round; `None`
/// where the difference is too large.
pub uninterp spec fn rounded_difference(am: int, ascale: int, bm: int, bscale: int) -> Option<Number>;

/// The number that `rust_decimal` reads in a text, where it reads one.
pub uninterp spec fn number_in_text(text: Seq<char>) -> Option<Number>;

/// The last digits of a number, with zeros in front.
pub open spec fn last_digits(n: nat, count: nat) -> Seq<char>
    decreases count,
{
    if count == 0 {
        Seq::empty()
    } else {
        last_digits(n / 10, (count - 1) as nat).push(crate::text::digit(n % 10))
    }
}

/// A number as it is printed: a minus sign where it has one, the digits in front
/// of the point, at least one, and then the point and the digits behind it, if
/// there are any.
pub open spec fn text_of_number(n: Number) -> Seq<char> {
    let sign = if n.0 < 0 || n.2 {
        seq!['-']
    } else {
        Seq::empty()
    };
    let whole = crate::text::digits((size(n.0) / pow10(n.1 as nat)) as nat);
    if n.1 == 0 {
        sign + whole
    } else {
        sign + whole + seq!['.'] + last_digits(size(n.0) as nat, n.1 as nat)
    }
}

/// A number without the minus sign of a zero.
pub open spec fn unsigned_zero(n: Number) -> Number {
    (n.0, n.1, false)
}

/// A mantissa, a scale and a sign as a number.
pub open spec fn written(mantissa: i128, scale: u32, negative: bool) -> Number {
    (mantissa as int, scale as int, negative && mantissa == 0)
}

/// Whether a sign can be that of a mantissa; a zero can have either.
pub open spec fn sign_fits(mantissa: i128, negative: bool) -> bool {
    (mantissa < 0 ==> negative) && (mantissa > 0 ==> !negative)
}

/// The number of an optional result.
pub open spec fn parts_of(r: Option<(i128, u32, bool)>) -> Option<Number> {
    match r {
        Some(p) => Some(written(p.0, p.1, p.2)),
        None => None,
    }
}

/// `Decimal::checked_mul` of `rust_decimal`: the exact product where 96 bits
/// and 28 digits hold it (a zero factor gives a plain zero), the crate's
/// rounded product otherwise, and `None` where that is too large.
#[verifier::external_body]
fn multiply(am: i128, ascale: u32, bm: i128, bscale: u32) -> (r: Option<(i128, u32, bool)>)
    requires
        in_range(am as int, ascale as int),
        in_range(bm as int, bscale as int),
    ensures
        product_is_exact(am as int, ascale as int, bm as int, bscale as int) ==> parts_of(r)
            == Some(exact_product(am as int, ascale as int, bm as int, bscale as int)),
        !product_is_exact(am as int, ascale as int, bm as int, bscale as int) ==> parts_of(r)
            == rounded_product(am as int, ascale as int, bm as int, bscale as int),
        r matches Some(p) ==> in_range(p.0 as int, p.1 as int),
{
    let a = rust_decimal::Decimal::from_i128_with_scale(am, ascale);
    let b = rust_decimal::Decimal::from_i128_with_scale(bm, bscale);
    a.checked_mul(b).map(|d| (d.mantissa(), d.scale(), d.is_sign_negative()))
}

/// `Decimal::checked_div` of `rust_decimal`: `None` for a zero divisor; the
/// plain quotient where the divisor goes into the dividend's mantissa and its
/// scale is not the larger one; otherwise the crate's own quotient, which is
/// exact where the quotient is a decimal number, and elsewhere is rounded to the
/// nearest number with its digits, with `None` where that is too large.
#[verifier::external_body]
fn divide(am: i128, ascale: u32, bm: i128, bscale: u32) -> (r: Option<(i128, u32, bool)>)
    requires
        in_range(am as int, ascale as int),
        in_range(bm as int, bscale as int),
    ensures
        quotient_is_exact(am as int, ascale as int, bm as int, bscale as int) ==> parts_of(r)
            == Some(exact_quotient(am as int, ascale as int, bm as int, bscale as int)),
        bm == 0 ==> r is None,
        bm != 0 && !quotient_is_exact(am as int, ascale as int, bm as int, bscale as int) ==> parts_of(r)
            == rounded_quotient(am as int, ascale as int, bm as int, bscale as int),
        quotient_fits(written(am, ascale, false), written(bm, bscale, false)) ==> r is Some
            && is_quotient(
            parts_of(r)->0,
            written(am, ascale, false),
            written(bm, bscale, false),
        ),
        r is Some ==> is_near_quotient(
            parts_of(r)->0,
            written(am, ascale, false),
            written(bm, bscale, false),
        ),
{
    let a = rust_decimal::Decimal::from_i128_with_scale(am, ascale);
    let b = rust_decimal::Decimal::from_i128_with_scale(bm, bscale);
    a.checked_div(b).map(|d| (d.mantissa(), d.scale(), d.is_sign_negative()))
}

/// `Decimal::checked_add` of `rust_decimal`: the exact sum where both numbers
/// and the sum fit over the larger scale, the crate's rounded sum otherwise,
/// and `None` where that is too large. Only the sign of the second number can
/// show where both are zero.
#[verifier::external_body]
fn plus(am: i128, ascale: u32, bm: i128, bscale: u32, bnegative: bool) -> (r: Option<(i128, u32, bool)>)
    requires
        in_range(am as int, ascale as int),
        in_range(bm as int, bscale as int),
        sign_fits(bm, bnegative),
    ensures
        sum_is_exact(am as int, ascale as int, bm as int, bscale as int) ==> parts_of(r)
            == Some(exact_sum(written(am, ascale, false), written(bm, bscale, bnegative))),
        !sum_is_exact(am as int, ascale as int, bm as int, bscale as int) ==> parts_of(r)
            == rounded_sum(am as int, ascale as int, bm as int, bscale as int),
        r matches Some(p) ==> in_range(p.0 as int, p.1 as int),
{
    let a = rust_decimal::Decimal::from_i128_with_scale(am, ascale);
    let mut b = rust_decimal::Decimal::from_i128_with_scale(bm, bscale);
    b.set_sign_negative(bnegative);
    a.checked_add(b).map(|d| (d.mantissa(), d.scale(), d.is_sign_negative()))
}

/// `Decimal::checked_sub` of `rust_decimal`: the exact difference where both
/// numbers and the difference fit over the larger scale, the crate's rounded
/// difference otherwise, and `None` where that is too large. Only the sign of
/// the second number can show where both are zero, and it is not turned.
#[verifier::external_body]
fn minus(am: i128, ascale: u32, bm: i128, bscale: u32, bnegative: bool) -> (r: Option<(i128, u32, bool)>)
    requires
        in_range(am as int, ascale as int),
        in_range(bm as int, bscale as int),
        sign_fits(bm, bnegative),
    ensures
        sum_is_exact(am as int, ascale as int, -bm, bscale as int) ==> parts_of(r) == Some(
            exact_sum(written(am, ascale, false), negated(written(bm, bscale, bnegative))),
        ),
        !sum_is_exact(am as int, ascale as int, -bm, bscale as int) ==> parts_of(r)
            == rounded_difference(am as int, ascale as int, bm as int, bscale as int),
        r matches Some(p) ==> in_range(p.0 as int, p.1 as int),
{
    let a = rust_decimal::Decimal::from_i128_with_scale(am, ascale);
    let mut b = rust_decimal::Decimal::from_i128_with_scale(bm, bscale);
    b.set_sign_negative(bnegative);
    a.checked_sub(b).map(|d| (d.mantissa(), d.scale(), d.is_sign_negative()))
}

/// The order of `rust_decimal`: by the numbers that the two values stand for,
/// whatever their scales.
#[verifier::external_body]
fn precedes(am: i128, ascale: u32, bm: i128, bscale: u32) -> (r: bool)
    requires
        in_range(am as int, ascale as int),
        in_range(bm as int, bscale as int),
    ensures
        r == (units(am as int, ascale as int) < units(bm as int, bscale as int)),
{
    rust_decimal::Decimal::from_i128_with_scale(am, ascale)
        < rust_decimal::Decimal::from_i128_with_scale(bm, bscale)
}

/// `Decimal::from_str` of `rust_decimal`: the number that the crate reads in
/// the text; `None` where it reports an error.
#[verifier::external_body]
fn read_parts(text: &str) -> (r: Option<(i128, u32, bool)>)
    ensures
        parts_of(r) == number_in_text(text@),
        r matches Some(p) ==> in_range(p.0 as int, p.1 as int),
{
    text.parse::<rust_decimal::Decimal>().ok().map(
        |d| (d.mantissa(), d.scale(), d.is_sign_negative()),
    )
}

/// `to_string` of a `rust_decimal` number: its sign and all of its digits, with
/// as many behind the point as the scale says, which the crate reads back as the
/// same mantissa and scale; the minus sign of a zero is not read back.
#[verifier::external_body]
fn print_parts(mantissa: i128, scale: u32, negative: bool) -> (r: String)
    requires
        in_range(mantissa as int, scale as int),
        sign_fits(mantissa, negative),
    ensures
        r@ == text_of_number(written(mantissa, scale, negative)),
        number_in_text(r@) == Some(written(mantissa, scale, false)),
{
    let mut d = rust_decimal::Decimal::from_i128_with_scale(mantissa, scale);
    d.set_sign_negative(negative);
    d.to_string()
}

/// The product of two decimal numbers; `None` where it is too large.
pub open spec fn product(a: Number, b: Number) -> Option<Number> {
    if product_is_exact(a.0, a.1, b.0, b.1) {
        Some(exact_product(a.0, a.1, b.0, b.1))
    } else {
        match rounded_product(a.0, a.1, b.0, b.1) {
            Some(n) if is_number(n) => Some(n),
            _ => None,
        }
    }
}

/// A quotient that is a decimal number, as `rust_decimal` writes it.
pub open spec fn fitting_quotient(a: Number, b: Number) -> Number {
    match rounded_quotient(a.0, a.1, b.0, b.1) {
        Some(q) if is_quotient(q, a, b) => q,
        _ => choose|q: Number| is_quotient(q, a, b),
    }
}

/// A quotient that is no decimal number, as `rust_decimal` rounds it.
pub open spec fn nearest_quotient(a: Number, b: Number) -> Option<Number> {
    match rounded_quotient(a.0, a.1, b.0, b.1) {
        Some(q) if is_near_quotient(q, a, b) => Some(q),
        _ => None,
    }
}

/// The quotient of two decimal numbers; `None` for a zero divisor and where
/// the quotient is too large.
pub open spec fn quotient(a: Number, b: Number) -> Option<Number> {
    if b.0 == 0 {
        None
    } else if quotient_is_exact(a.0, a.1, b.0, b.1) {
        Some(exact_quotient(a.0, a.1, b.0, b.1))
    } else if quotient_fits(a, b) {
        Some(fitting_quotient(a, b))
    } else {
        nearest_quotient(a, b)
    }
}

/// The sum of two decimal numbers; `None` where it is too large.
pub open spec fn total(a: Number, b: Number) -> Option<Number> {
    if sum_is_exact(a.0, a.1, b.0, b.1) {
        Some(exact_sum(a, b))
    } else {
        match rounded_sum(a.0, a.1, b.0, b.1) {
            Some(n) if is_number(n) => Some(n),
            _ => None,
        }
    }
}

/// The difference of two decimal numbers; `None` where it is too large.
pub open spec fn difference(a: Number, b: Number) -> Option<Number> {
    if sum_is_exact(a.0, a.1, -b.0, b.1) {
        Some(exact_sum(a, negated(b)))
    } else {
        match rounded_difference(a.0, a.1, b.0, b.1) {
            Some(n) if is_number(n) => Some(n),
            _ => None,
        }
    }
}

/// The largest whole number that is not above a number, without digits behind
/// the point. A zero keeps its sign.
pub open spec fn whole_part(n: Number) -> Number {
    (n.0 / pow10(n.1 as nat), 0, n.2)
}

/// The place of a decimal number in the order of numbers.
pub open spec fn place(n: Number) -> int {
    units(n.0, n.1)
}

/// The numbers of an optional result.
pub open spec fn number(d: Option<Decimal>) -> Option<Number> {
    match d {
        Some(d) => Some(d@),
        None => None,
    }
}

/// A decimal number: a mantissa over a power of ten, as it is written. Two
/// numbers that are written with different scales can be equal.
#[derive(Clone, Copy, Debug)]
pub struct Decimal {
    mantissa: i128,
    scale: u32,
    minus_zero: bool,
}

impl View for Decimal {
    type V = Number;

    closed spec fn view(&self) -> Number {
        (self.mantissa as int, self.scale as int, self.minus_zero)
    }
}

impl Decimal {
    #[verifier::type_invariant]
    spec fn well_formed(self) -> bool {
        in_range(self.mantissa as int, self.scale as int) && (self.minus_zero ==> self.mantissa == 0)
    }

    fn of_parts(parts: Option<(i128, u32, bool)>) -> (r: Option<Decimal>)
        requires
            parts matches Some(p) ==> in_range(p.0 as int, p.1 as int),
        ensures
            number(r) == parts_of(parts),
    {
        match parts {
            Some((mantissa, scale, negative)) => Some(
                Decimal { mantissa, scale, minus_zero: negative && mantissa == 0 },
            ),
            None => None,
        }
    }

    /// Whether the number is written with a minus sign.
    pub fn is_sign_negative(&self) -> (r: bool)
        ensures
            r == (self@.0 < 0 || self@.2),
    {
        self.mantissa < 0 || self.minus_zero
    }

    /// The number in units of `10^-28`.
    pub open spec fn amount(self) -> int {
        place(self@)
    }

    /// Zero, without digits behind the point.
    pub fn zero() -> (r: Decimal)
        ensures
            r@ == (0int, 0int, false),
            r.amount() == 0,
    {
        Decimal { mantissa: 0, scale: 0, minus_zero: false }
    }

    /// One, without digits behind the point.
    pub fn one() -> (r: Decimal)
        ensures
            r@ == (1int, 0int, false),
    {
        Decimal { mantissa: 1, scale: 0, minus_zero: false }
    }

    /// The number `num / 10^scale`.
    pub fn new(num: i64, scale: u32) -> (r: Decimal)
        requires
            scale <= MAX_SCALE,
        ensures
            r@ == (num as int, scale as int, false),
    {
        Decimal { mantissa: num as i128, scale, minus_zero: false }
    }

    /// The number `mantissa / 10^scale`, where that is a decimal number.
    pub fn from_parts(mantissa: i128, scale: u32) -> (r: Option<Decimal>)
        ensures
            r is Some <==> in_range(mantissa as int, scale as int),
            r matches Some(d) ==> d@ == (mantissa as int, scale as int, false),
    {
        Decimal::from_signed_parts(mantissa, scale, false)
    }

    /// The number `mantissa / 10^scale`, where that is a decimal number. The sign
    /// counts for a zero only.
    pub fn from_signed_parts(mantissa: i128, scale: u32, negative: bool) -> (r: Option<Decimal>)
        ensures
            r is Some <==> in_range(mantissa as int, scale as int),
            r matches Some(d) ==> d@ == (mantissa as int, scale as int, negative && mantissa == 0),
    {
        if -MAX_MANTISSA <= mantissa && mantissa <= MAX_MANTISSA && scale <= MAX_SCALE {
            Some(Decimal { mantissa, scale, minus_zero: negative && mantissa == 0 })
        } else {
            None
        }
    }

    /// A whole number.
    pub fn from_i64(value: i64) -> (r: Decimal)
        ensures
            r@ == (value as int, 0int, false),
    {
        Decimal { mantissa: value as i128, scale: 0, minus_zero: false }
    }

    /// A whole number.
    pub fn from_usize(value: usize) -> (r: Decimal)
        ensures
            r@ == (value as int, 0int, false),
    {
        Decimal { mantissa: value as i128, scale: 0, minus_zero: false }
    }

    /// The digits of the number, without the point.
    pub fn mantissa(&self) -> (r: i128)
        ensures
            r == self@.0,
    {
        self.mantissa
    }

    /// The number of digits behind the point.
    pub fn scale(&self) -> (r: u32)
        ensures
            r == self@.1,
    {
        self.scale
    }

    /// Whether the number is below another.
    pub fn below(self, other: Decimal) -> (r: bool)
        ensures
            r == (self.amount() < other.amount()),
    {
        proof {
            use_type_invariant(&self);
            use_type_invariant(&other);
        }
        precedes(self.mantissa, self.scale, other.mantissa, other.scale)
    }

    /// Whether the number is above zero.
    pub fn is_positive(self) -> (r: bool)
        ensures
            r == (self.amount() > 0),
    {
        Decimal::zero().below(self)
    }

    /// The larger of two numbers; the first where they are equal.
    pub fn max(self, other: Decimal) -> (r: Decimal)
        ensures
            r == (if self.amount() < other.amount() { other } else { self }),
    {
        if self.below(other) {
            other
        } else {
            self
        }
    }

    /// Multiplies, giving `None` where the product is too large.
    pub fn checked_mul(self, other: Decimal) -> (r: Option<Decimal>)
        ensures
            number(r) == product(self@, other@),
    {
        proof {
            use_type_invariant(&self);
            use_type_invariant(&other);
        }
        Decimal::of_parts(multiply(self.mantissa, self.scale, other.mantissa, other.scale))
    }

    /// Divides, giving `None` for a zero divisor and where the quotient is too
    /// large.
    pub fn checked_div(self, other: Decimal) -> (r: Option<Decimal>)
        ensures
            number(r) == quotient(self@, other@),
    {
        proof {
            use_type_invariant(&self);
            use_type_invariant(&other);
        }
        Decimal::of_parts(divide(self.mantissa, self.scale, other.mantissa, other.scale))
    }

    /// Adds, giving `None` where the sum is too large.
    pub fn checked_add(self, other: Decimal) -> (r: Option<Decimal>)
        ensures
            number(r) == total(self@, other@),
    {
        proof {
            use_type_invariant(&self);
            use_type_invariant(&other);
        }
        let negative: bool = other.is_sign_negative();
        Decimal::of_parts(
            plus(self.mantissa, self.scale, other.mantissa, other.scale, negative),
        )
    }

    /// Subtracts, giving `None` where the difference is too large.
    pub fn checked_sub(self, other: Decimal) -> (r: Option<Decimal>)
        ensures
            number(r) == difference(self@, other@),
    {
        proof {
            use_type_invariant(&self);
            use_type_invariant(&other);
        }
        let negative: bool = other.is_sign_negative();
        Decimal::of_parts(
            minus(self.mantissa, self.scale, other.mantissa, other.scale, negative),
        )
    }

    /// The largest whole number that is not above the number.
    pub fn floor(self) -> (r: Decimal)
        ensures
            r@ == whole_part(self@),
    {
        proof {
            use_type_invariant(&self);
            lemma_pow10_positive(self.scale as nat);
        }
        let unit: u128 = power_of_ten(self.scale);
        let ghost m = self.mantissa as int;
        if self.mantissa >= 0 {
            let whole: u128 = self.mantissa as u128 / unit;
            proof {
                lemma_shrinks(m, unit as int);
                if m == 0 {
                    assert(0int / (unit as int) == 0) by (nonlinear_arith)
                        requires
                            unit > 0,
                    ;
                }
            }
            Decimal { mantissa: whole as i128, scale: 0, minus_zero: self.minus_zero }
        } else {
            let above: u128 = (-(self.mantissa + 1)) as u128 / unit;
            proof {
                lemma_shrinks(-(m + 1), unit as int);
                lemma_below_zero(m, unit as int);
            }
            Decimal { mantissa: -(above as i128) - 1, scale: 0, minus_zero: false }
        }
    }

    /// Reads a number, giving `None` where the text is not one.
    pub fn parse(text: &str) -> (r: Option<Decimal>)
        ensures
            number(r) == number_in_text(text@),
    {
        Decimal::of_parts(read_parts(text))
    }

    /// Prints the number with all of its digits, so that reading the text
    /// gives the number back as it is written, but for the minus sign of a zero.
    pub fn to_text(&self) -> (r: String)
        ensures
            r@ == text_of_number(self@),
            number_in_text(r@) == Some(unsigned_zero(self@)),
    {
        proof {
            use_type_invariant(self);
        }
        print_parts(self.mantissa, self.scale, self.is_sign_negative())
    }
}

proof fn lemma_pow10_sum(a: nat, b: nat)
    ensures
        pow10(a + b) == pow10(a) * pow10(b),
    decreases a,
{
    if a > 0 {
        lemma_pow10_sum((a - 1) as nat, b);
        assert(10 * (pow10((a - 1) as nat) * pow10(b)) == (10 * pow10((a - 1) as nat)) * pow10(b))
            by (nonlinear_arith);
    } else {
        assert(1 * pow10(b) == pow10(b));
    }
}

proof fn lemma_exact_quotient(a: Number, b: Number)
    requires
        in_range(a.0, a.1),
        in_range(b.0, b.1),
        quotient_is_exact(a.0, a.1, b.0, b.1),
    ensures
        is_quotient(exact_quotient(a.0, a.1, b.0, b.1), a, b),
{
    let (am, s, _) = a;
    let (bm, t, _) = b;
    if am == 0 {
        assert(0 * pow10((MAX_SCALE - s) as nat) == 0);
        assert(0 * pow10(MAX_SCALE as nat) == 0);
        assert(0 * units(bm, t) == 0);
    } else {
        let q = am / bm;
        let m = MAX_SCALE as nat;
        assert(q * bm == am) by (nonlinear_arith)
            requires
                q == am / bm,
                am % bm == 0,
                bm != 0,
        ;
        assert(-MAX_MANTISSA <= q <= MAX_MANTISSA) by (nonlinear_arith)
            requires
                q * bm == am,
                bm != 0,
                -MAX_MANTISSA <= am <= MAX_MANTISSA,
        ;
        let left = pow10((m - s + t) as nat);
        let right = pow10((m - t) as nat);
        lemma_pow10_sum((m - s + t) as nat, (m - t) as nat);
        lemma_pow10_sum((m - s) as nat, m);
        assert((m - s + t) as nat + (m - t) as nat == (m - s) as nat + m);
        let up = pow10((m - s) as nat);
        let one = pow10(m);
        assert((q * left) * (bm * right) == (am * up) * one) by (nonlinear_arith)
            requires
                q * bm == am,
                left * right == up * one,
        ;
    }
}

/// A quotient that is a decimal number is not rounded.
pub proof fn law_fitting_quotients_are_exact(a: Number, b: Number)
    requires
        in_range(a.0, a.1),
        in_range(b.0, b.1),
        quotient_fits(a, b),
    ensures
        quotient(a, b) matches Some(q) && is_quotient(q, a, b),
{
    if quotient_is_exact(a.0, a.1, b.0, b.1) {
        lemma_exact_quotient(a, b);
    }
}

/// A quotient is off by no more than half a unit of its last digit.
pub proof fn law_quotients_are_near(a: Number, b: Number)
    requires
        in_range(a.0, a.1),
        in_range(b.0, b.1),
    ensures
        quotient(a, b) matches Some(q) ==> is_near_quotient(q, a, b),
{
    if b.0 != 0 {
        if quotient_is_exact(a.0, a.1, b.0, b.1) {
            lemma_exact_quotient(a, b);
            lemma_quotient_is_near(exact_quotient(a.0, a.1, b.0, b.1), a, b);
        } else if quotient_fits(a, b) {
            lemma_quotient_is_near(fitting_quotient(a, b), a, b);
        }
    }
}

proof fn lemma_quotient_is_near(q: Number, a: Number, b: Number)
    requires
        is_quotient(q, a, b),
    ensures
        is_near_quotient(q, a, b),
{
    let unit = pow10((MAX_SCALE - q.1) as nat);
    lemma_pow10_positive((MAX_SCALE - q.1) as nat);
    assert(unit * size(units(b.0, b.1)) >= 0) by (nonlinear_arith)
        requires
            unit > 0,
            size(units(b.0, b.1)) >= 0,
    ;
}

/// The whole part of a number is not above it and less than one below it, and
/// both are counted here in units of `10^-28`.
pub proof fn law_whole_part(n: Number)
    requires
        in_range(n.0, n.1),
    ensures
        whole_part(n).0 * pow10(MAX_SCALE as nat) <= place(n) < (whole_part(n).0 + 1) * pow10(
            MAX_SCALE as nat,
        ),
{
    let digits = pow10(n.1 as nat);
    let unit = pow10((MAX_SCALE - n.1) as nat);
    let k = n.0 / digits;
    lemma_pow10_positive(n.1 as nat);
    lemma_pow10_positive((MAX_SCALE - n.1) as nat);
    lemma_pow10_sum(n.1 as nat, (MAX_SCALE - n.1) as nat);
    assert(n.1 as nat + (MAX_SCALE - n.1) as nat == MAX_SCALE as nat);
    assert(k * digits <= n.0 < (k + 1) * digits) by (nonlinear_arith)
        requires
            k == n.0 / digits,
            digits > 0,
    ;
    assert(k * (digits * unit) <= n.0 * unit < (k + 1) * (digits * unit)) by (nonlinear_arith)
        requires
            k * digits <= n.0 < (k + 1) * digits,
            unit > 0,
    ;
}

/// The whole part of a quotient by a number above zero: that many times the
/// divisor is not above the dividend, and one more time is above it. Where the
/// quotient is no decimal number, both hold but for half a unit of its last digit
/// times the divisor.
pub proof fn law_whole_part_of_quotient(a: Number, b: Number, q: Number)
    requires
        in_range(a.0, a.1),
        in_range(b.0, b.1),
        place(b) > 0,
        quotient(a, b) == Some(q),
    ensures
        ({
            let k = whole_part(q).0;
            &&& quotient_fits(a, b) ==> k * place(b) <= place(a) < (k + 1) * place(b)
            &&& 2 * pow10(q.1 as nat) * (k * place(b) - place(a)) <= place(b)
            &&& 2 * pow10(q.1 as nat) * (place(a) - (k + 1) * place(b)) < place(b)
        }),
{
    law_quotients_are_near(a, b);
    law_whole_part(q);
    let k = whole_part(q).0;
    let digits = pow10(q.1 as nat);
    let unit = pow10((MAX_SCALE - q.1) as nat);
    let one = pow10(MAX_SCALE as nat);
    lemma_pow10_positive(q.1 as nat);
    lemma_pow10_positive((MAX_SCALE - q.1) as nat);
    lemma_pow10_sum(q.1 as nat, (MAX_SCALE - q.1) as nat);
    assert(q.1 as nat + (MAX_SCALE - q.1) as nat == MAX_SCALE as nat);
    let x = place(q) * place(b);
    let y = place(a) * one;
    let low = k * place(b) - place(a);
    let high = place(a) - (k + 1) * place(b);
    assert((k * one) * place(b) <= x < ((k + 1) * one) * place(b)) by (nonlinear_arith)
        requires
            x == place(q) * place(b),
            k * one <= place(q) < (k + 1) * one,
            place(b) > 0,
    ;
    assert((k * one) * place(b) - y == one * low) by (nonlinear_arith)
        requires
            y == place(a) * one,
            low == k * place(b) - place(a),
    ;
    assert(y - ((k + 1) * one) * place(b) == one * high) by (nonlinear_arith)
        requires
            y == place(a) * one,
            high == place(a) - (k + 1) * place(b),
    ;
    assert(2 * (one * low) <= unit * place(b));
    assert(2 * (one * high) < unit * place(b));
    assert(2 * digits * low <= place(b)) by (nonlinear_arith)
        requires
            2 * (one * low) <= unit * place(b),
            one == digits * unit,
            unit > 0,
    ;
    assert(2 * digits * high < place(b)) by (nonlinear_arith)
        requires
            2 * (one * high) < unit * place(b),
            one == digits * unit,
            unit > 0,
    ;
    if quotient_fits(a, b) {
        law_fitting_quotients_are_exact(a, b);
        assert(low <= 0 && high < 0) by (nonlinear_arith)
            requires
                one * low <= 0,
                one * high < 0,
                one == digits * unit,
                digits > 0,
                unit > 0,
        ;
    }
}

/// There is only one quotient: two decimal numbers that are the quotient of the
/// same two are equal.
pub proof fn law_quotients_are_unique(q: Number, other: Number, a: Number, b: Number)
    requires
        in_range(b.0, b.1),
        is_quotient(q, a, b),
        is_quotient(other, a, b),
    ensures
        place(q) == place(other),
{
    lemma_pow10_positive((MAX_SCALE - b.1) as nat);
    let n = units(b.0, b.1);
    assert(n != 0) by (nonlinear_arith)
        requires
            n == b.0 * pow10((MAX_SCALE - b.1) as nat),
            b.0 != 0,
            pow10((MAX_SCALE - b.1) as nat) > 0,
    ;
    assert(place(q) == place(other)) by (nonlinear_arith)
        requires
            place(q) * n == place(other) * n,
            n != 0,
    ;
}

proof fn lemma_pow10_positive(n: nat)
    ensures
        pow10(n) > 0,
    decreases n,
{
    if n > 0 {
        lemma_pow10_positive((n - 1) as nat);
    }
}

proof fn lemma_pow10_grows(a: nat, b: nat)
    requires
        a <= b,
    ensures
        0 < pow10(a) <= pow10(b),
    decreases b,
{
    lemma_pow10_positive(a);
    if a < b {
        lemma_pow10_grows(a, (b - 1) as nat);
    }
}

/// Ten to the power of a scale.
fn power_of_ten(n: u32) -> (r: u128)
    requires
        n <= MAX_SCALE,
    ensures
        r == pow10(n as nat),
        r > 0,
{
    let mut r: u128 = 1;
    let mut i: u32 = 0;
    while i < n
        invariant
            i <= n <= MAX_SCALE,
            r == pow10(i as nat),
            r > 0,
        decreases n - i,
    {
        proof {
            lemma_pow10_grows((i + 1) as nat, MAX_SCALE as nat);
            reveal_with_fuel(pow10, 29);
            assert(pow10(28) <= u128::MAX);
        }
        r = r * 10;
        i = i + 1;
    }
    r
}

proof fn lemma_shrinks(n: int, unit: int)
    requires
        0 <= n,
        0 < unit,
    ensures
        0 <= n / unit <= n,
{
    assert(0 <= n / unit <= n) by (nonlinear_arith)
        requires
            0 <= n,
            0 < unit,
    ;
}

proof fn lemma_below_zero(m: int, unit: int)
    requires
        m < 0,
        0 < unit,
    ensures
        m / unit == -((-(m + 1)) / unit) - 1,
{
    let n = -(m + 1);
    let q = n / unit;
    let r = n % unit;
    assert(n == unit * q + r && 0 <= r < unit) by (nonlinear_arith)
        requires
            q == n / unit,
            r == n % unit,
            0 < unit,
    ;
    assert(unit * (-q - 1) == -(unit * q) - unit) by (nonlinear_arith);
    assert(m / unit == -q - 1) by (nonlinear_arith)
        requires
            m == unit * (-q - 1) + (unit - 1 - r),
            0 <= unit - 1 - r < unit,
            0 < unit,
    ;
}

/// A decimal number is determined by how it is written.
pub proof fn lemma_written_alike(a: Decimal, b: Decimal)
    requires
        a@ == b@,
    ensures
        a == b,
{
}

impl PartialEq for Decimal {
    fn eq(&self, other: &Decimal) -> (r: bool) {
        !self.below(*other) && !other.below(*self)
    }
}

impl vstd::std_specs::cmp::PartialEqSpecImpl for Decimal {
    open spec fn obeys_eq_spec() -> bool {
        true
    }

    open spec fn eq_spec(&self, other: &Decimal) -> bool {
        self.amount() == other.amount()
    }
}

impl Eq for Decimal {

}

/// What the operations on decimal numbers give are decimal numbers.
pub proof fn law_results_are_numbers(a: Number, b: Number)
    requires
        is_number(a),
        is_number(b),
    ensures
        product(a, b) matches Some(n) ==> is_number(n),
        total(a, b) matches Some(n) ==> is_number(n),
        difference(a, b) matches Some(n) ==> is_number(n),
        quotient(a, b) matches Some(n) ==> in_range(n.0, n.1),
{
    law_quotients_are_near(a, b);
}

/// A product that fits is not rounded: in units it is the product of the units.
pub proof fn law_fitting_products_are_exact(a: Number, b: Number)
    requires
        in_range(a.0, a.1),
        in_range(b.0, b.1),
        product_is_exact(a.0, a.1, b.0, b.1),
    ensures
        product(a, b) matches Some(n) && in_range(n.0, n.1) && place(n) * pow10(MAX_SCALE as nat)
            == place(a) * place(b),
{
    let one = pow10(MAX_SCALE as nat);
    let pa = pow10((MAX_SCALE - a.1) as nat);
    let pb = pow10((MAX_SCALE - b.1) as nat);
    if a.0 == 0 || b.0 == 0 {
        assert(0 * one == 0);
        assert(a.0 == 0 ==> a.0 * pa == 0) by (nonlinear_arith);
        assert(b.0 == 0 ==> b.0 * pb == 0) by (nonlinear_arith);
        assert(place(a) * place(b) == 0) by (nonlinear_arith)
            requires
                place(a) == 0 || place(b) == 0,
        ;
    } else {
        let scale = a.1 + b.1;
        let pn = pow10((MAX_SCALE - scale) as nat);
        lemma_pow10_sum((MAX_SCALE - scale) as nat, MAX_SCALE as nat);
        lemma_pow10_sum((MAX_SCALE - a.1) as nat, (MAX_SCALE - b.1) as nat);
        assert(pn * one == pa * pb);
        assert((a.0 * b.0) * pn * one == (a.0 * pa) * (b.0 * pb)) by (nonlinear_arith)
            requires
                pn * one == pa * pb,
        ;
    }
}

proof fn lemma_aligned(mantissa: int, scale: int, to: int)
    requires
        0 <= scale <= to <= MAX_SCALE,
    ensures
        units(aligned(mantissa, scale, to), to) == units(mantissa, scale),
{
    let p = pow10((to - scale) as nat);
    let q = pow10((MAX_SCALE - to) as nat);
    lemma_pow10_sum((to - scale) as nat, (MAX_SCALE - to) as nat);
    assert((mantissa * p) * q == mantissa * (p * q)) by (nonlinear_arith);
}

proof fn lemma_exact_sum(a: Number, b: Number)
    requires
        in_range(a.0, a.1),
        in_range(b.0, b.1),
        sum_is_exact(a.0, a.1, b.0, b.1),
    ensures
        in_range(exact_sum(a, b).0, exact_sum(a, b).1),
        place(exact_sum(a, b)) == place(a) + place(b),
{
    let to = larger(a.1, b.1);
    let p = pow10((MAX_SCALE - to) as nat);
    assert(0 * pow10((MAX_SCALE - a.1) as nat) == 0);
    assert(0 * pow10((MAX_SCALE - b.1) as nat) == 0);
    lemma_aligned(a.0, a.1, to);
    lemma_aligned(b.0, b.1, to);
    let x = aligned(a.0, a.1, to);
    let y = aligned(b.0, b.1, to);
    assert((x + y) * p == x * p + y * p) by (nonlinear_arith);
}

/// A sum that fits is not rounded: in units it is the sum of the units.
pub proof fn law_fitting_sums_are_exact(a: Number, b: Number)
    requires
        in_range(a.0, a.1),
        in_range(b.0, b.1),
        sum_is_exact(a.0, a.1, b.0, b.1),
    ensures
        total(a, b) matches Some(n) && in_range(n.0, n.1) && place(n) == place(a) + place(b),
{
    lemma_exact_sum(a, b);
}

/// A difference that fits is not rounded: in units it is the difference of the
/// units.
pub proof fn law_fitting_differences_are_exact(a: Number, b: Number)
    requires
        in_range(a.0, a.1),
        in_range(b.0, b.1),
        sum_is_exact(a.0, a.1, -b.0, b.1),
    ensures
        difference(a, b) matches Some(n) && in_range(n.0, n.1) && place(n) == place(a) - place(b),
{
    lemma_exact_sum(a, negated(b));
    let p = pow10((MAX_SCALE - b.1) as nat);
    assert((-b.0) * p == -(b.0 * p)) by (nonlinear_arith);
}

/// The number one, and every whole number that fits, in units.
pub proof fn law_whole_numbers(n: int)
    ensures
        place((n, 0, false)) == n * pow10(MAX_SCALE as nat),
        pow10(MAX_SCALE as nat) > 0,
{
    lemma_pow10_positive(MAX_SCALE as nat);
}

} // verus!
