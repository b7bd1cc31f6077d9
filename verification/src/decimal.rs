//! Fixed-point decimal numbers.
//!
//! A [`Decimal`] holds the two integers that a `rust_decimal::Decimal` is made
//! of: a mantissa of at most 96 bits and a scale of at most 28, standing for
//! `mantissa / 10^scale`. Arithmetic, comparison, rounding and text are those
//! of `rust_decimal`, reached through the trusted functions of this module.

use crate::text::nat_text;
use vstd::arithmetic::power::lemma_pow_positive;
use vstd::arithmetic::power::pow;
use vstd::prelude::*;

verus! {

/// A decimal number `mantissa / 10^scale`.
#[derive(Clone, Copy, Debug)]
pub struct Decimal {
    mantissa: i128,
    scale: u32,
}

/// The largest mantissa: `2^96 - 1`.
pub const MAX_MANTISSA: i128 = 79_228_162_514_264_337_593_543_950_335;

/// The largest scale.
pub const MAX_SCALE: u32 = 28;

/// The power of ten with the given exponent.
pub open spec fn ten_to(exponent: nat) -> int {
    pow(10, exponent)
}

/// The decimal with the given mantissa and scale.
pub closed spec fn decimal_of(mantissa: int, scale: nat) -> Decimal {
    Decimal { mantissa: mantissa as i128, scale: scale as u32 }
}

/// Zero.
pub open spec fn zero() -> Decimal {
    decimal_of(0, 0)
}

/// One.
pub open spec fn one() -> Decimal {
    decimal_of(1, 0)
}

/// `a < b`, as numbers.
pub open spec fn lt(a: Decimal, b: Decimal) -> bool {
    a.m() * ten_to(b.s()) < b.m() * ten_to(a.s())
}

/// `a <= b`, as numbers.
pub open spec fn le(a: Decimal, b: Decimal) -> bool {
    !lt(b, a)
}

/// Whether two decimals are the same number: `0.10` and `0.1` are.
pub open spec fn same(a: Decimal, b: Decimal) -> bool {
    !lt(a, b) && !lt(b, a)
}

/// The lesser of two decimals; the first of two equal ones.
pub open spec fn lesser(a: Decimal, b: Decimal) -> Decimal {
    if lt(b, a) {
        b
    } else {
        a
    }
}

/// The greater of two decimals; the first of two equal ones.
pub open spec fn greater(a: Decimal, b: Decimal) -> Decimal {
    if lt(a, b) {
        b
    } else {
        a
    }
}

/// The same magnitude without the sign.
pub open spec fn magnitude(a: Decimal) -> Decimal {
    if a.m() < 0 {
        decimal_of(-a.m(), a.s())
    } else {
        a
    }
}

/// The number with the opposite sign.
pub open spec fn opposite(a: Decimal) -> Decimal {
    decimal_of(-a.m(), a.s())
}

impl Decimal {
    /// The mantissa.
    pub closed spec fn m(self) -> int {
        self.mantissa as int
    }

    /// The scale.
    pub closed spec fn s(self) -> nat {
        self.scale as nat
    }

    /// What every decimal satisfies.
    pub open spec fn is_representable(self) -> bool {
        &&& -MAX_MANTISSA <= self.m() <= MAX_MANTISSA
        &&& self.s() <= MAX_SCALE
    }

    #[verifier::type_invariant]
    spec fn representable(self) -> bool {
        self.is_representable()
    }

    /// The decimal `num / 10^scale`.
    pub fn new(num: i64, scale: u32) -> (r: Decimal)
        requires
            scale <= MAX_SCALE,
        ensures
            r == decimal_of(num as int, scale as nat),
            r.m() == num,
            r.s() == scale,
    {
        Decimal { mantissa: num as i128, scale }
    }

    /// A whole number.
    pub fn from_u64(num: u64) -> (r: Decimal)
        ensures
            r == decimal_of(num as int, 0),
            r.m() == num,
            r.s() == 0,
    {
        Decimal { mantissa: num as i128, scale: 0 }
    }

    /// Zero.
    pub fn zero() -> (r: Decimal)
        ensures
            r == zero(),
            r.m() == 0,
            r.s() == 0,
    {
        Decimal { mantissa: 0, scale: 0 }
    }

    /// One.
    pub fn one() -> (r: Decimal)
        ensures
            r == one(),
            r.m() == 1,
            r.s() == 0,
    {
        Decimal { mantissa: 1, scale: 0 }
    }

    /// Whether the number is greater than zero.
    pub fn is_positive(&self) -> (r: bool)
        ensures
            r == (self.m() > 0),
    {
        self.mantissa > 0
    }

    /// Whether the number is less than zero.
    pub fn is_negative(&self) -> (r: bool)
        ensures
            r == (self.m() < 0),
    {
        self.mantissa < 0
    }

    /// The number without its sign.
    pub fn abs(&self) -> (r: Decimal)
        ensures
            r == magnitude(*self),
    {
        proof {
            use_type_invariant(self);
        }
        if self.mantissa < 0 {
            Decimal { mantissa: -self.mantissa, scale: self.scale }
        } else {
            *self
        }
    }

    /// The number with the opposite sign.
    pub fn negated(&self) -> (r: Decimal)
        ensures
            r == opposite(*self),
    {
        proof {
            use_type_invariant(self);
        }
        Decimal { mantissa: -self.mantissa, scale: self.scale }
    }

    /// The number that a text stands for, if it stands for one.
    pub fn from_text(text: &str) -> (r: Option<Decimal>)
        ensures
            r == parsed_decimal(text@),
            forall|d: Decimal| #[trigger]
                decimal_text(d) == text@ && d.is_representable() ==> r == Some(d),
    {
        parse_text(text)
    }

    /// The number in decimal notation.
    pub fn text(&self) -> (r: String)
        ensures
            r@ == decimal_text(*self),
    {
        to_text(*self)
    }

    /// The lesser of two numbers; the first of two equal ones.
    pub fn min(self, other: Decimal) -> (r: Decimal)
        ensures
            r == lesser(self, other),
    {
        if less(other, self) {
            other
        } else {
            self
        }
    }

    /// The greater of two numbers; the first of two equal ones.
    pub fn max(self, other: Decimal) -> (r: Decimal)
        ensures
            r == greater(self, other),
    {
        if less(self, other) {
            other
        } else {
            self
        }
    }
}

/// The parts of a decimal built from parts in range.
pub broadcast proof fn lemma_decimal_of(mantissa: int, scale: nat)
    requires
        -MAX_MANTISSA <= mantissa <= MAX_MANTISSA,
        scale <= MAX_SCALE,
    ensures
        (#[trigger] decimal_of(mantissa, scale)).m() == mantissa,
        decimal_of(mantissa, scale).s() == scale,
{
}

// ---------------------------------------------------------------------------
// Arithmetic
// ---------------------------------------------------------------------------

/// The greater of two scales.
pub open spec fn common_scale(a: Decimal, b: Decimal) -> nat {
    if a.s() < b.s() {
        b.s()
    } else {
        a.s()
    }
}

/// The mantissa of `a` at a scale not below its own.
pub open spec fn mantissa_at(a: Decimal, scale: nat) -> int {
    a.m() * ten_to((scale - a.s()) as nat)
}

/// The absolute value of an integer.
pub open spec fn abs_int(n: int) -> int {
    if n < 0 {
        -n
    } else {
        n
    }
}

/// Whether `d` is exactly `mantissa / 10^scale`.
pub open spec fn is_exactly(d: Decimal, mantissa: int, scale: nat) -> bool {
    d.m() * ten_to(scale) == mantissa * ten_to(d.s())
}

/// The exact sum, as a mantissa at the common scale.
pub open spec fn exact_sum(a: Decimal, b: Decimal) -> int {
    mantissa_at(a, common_scale(a, b)) + mantissa_at(b, common_scale(a, b))
}

/// The exact difference, as a mantissa at the common scale.
pub open spec fn exact_difference(a: Decimal, b: Decimal) -> int {
    mantissa_at(a, common_scale(a, b)) - mantissa_at(b, common_scale(a, b))
}

/// What holds of `d` where it stands for the exact `mantissa / 10^scale`: it is
/// that number when that number is representable at that scale, and it never
/// has the opposite sign.
pub open spec fn stands_for(d: Decimal, mantissa: int, scale: nat) -> bool {
    &&& abs_int(mantissa) <= MAX_MANTISSA && scale <= MAX_SCALE ==> is_exactly(d, mantissa, scale)
    &&& mantissa >= 0 ==> d.m() >= 0
    &&& mantissa <= 0 ==> d.m() <= 0
}

/// The result of `rust_decimal`'s checked addition of two decimals.
pub uninterp spec fn sum(a: Decimal, b: Decimal) -> Option<Decimal>;

/// The result of `rust_decimal`'s checked subtraction of two decimals.
pub uninterp spec fn difference(a: Decimal, b: Decimal) -> Option<Decimal>;

/// The result of `rust_decimal`'s checked multiplication of two decimals.
pub uninterp spec fn product(a: Decimal, b: Decimal) -> Option<Decimal>;

/// The result of `rust_decimal`'s checked division of two decimals.
pub uninterp spec fn quotient(a: Decimal, b: Decimal) -> Option<Decimal>;

/// `rust_decimal::Decimal::checked_add`.
///
/// Claimed of it: it is a function of its two arguments; it fails only when
/// the exact sum is greater in magnitude than every decimal; a sum with zero is
/// the other number, at its own scale; any other sum that fits at the greater of
/// the two scales is exact and has that scale; and otherwise it rounds, to a
/// number of the same sign. To which digit it rounds is not stated.
#[verifier::external_body]
pub(crate) fn checked_add(a: Decimal, b: Decimal) -> (r: Option<Decimal>)
    ensures
        r == sum(a, b),
        r is None ==> abs_int(exact_sum(a, b)) > MAX_MANTISSA * ten_to(common_scale(a, b)),
        r matches Some(d) ==> stands_for(d, exact_sum(a, b), common_scale(a, b)),
        r matches Some(d) ==> (d.m() == 0 ==> exact_sum(a, b) == 0),
        a.m() == 0 ==> r == Some(b),
        a.m() != 0 && b.m() == 0 ==> r == Some(a),
        a.m() != 0 && b.m() != 0 && abs_int(exact_sum(a, b)) <= MAX_MANTISSA ==> r == Some(
            decimal_of(exact_sum(a, b), common_scale(a, b)),
        ),
{
    let left = rust_decimal::Decimal::from_i128_with_scale(a.mantissa, a.scale);
    let right = rust_decimal::Decimal::from_i128_with_scale(b.mantissa, b.scale);
    left.checked_add(right).map(|d| Decimal { mantissa: d.mantissa(), scale: d.scale() })
}

/// `rust_decimal::Decimal::checked_sub`.
///
/// Claimed of it: it is a function of its two arguments; it fails only when
/// the exact difference is greater in magnitude than every decimal; zero less a
/// number is its opposite, and a number less zero is that number, each at its own
/// scale; any other difference that fits at the greater of the two scales is exact
/// and has that scale; and otherwise it rounds, to a number of the same sign. To
/// which digit it rounds is not stated.
#[verifier::external_body]
pub(crate) fn checked_sub(a: Decimal, b: Decimal) -> (r: Option<Decimal>)
    ensures
        r == difference(a, b),
        r is None ==> abs_int(exact_difference(a, b)) > MAX_MANTISSA * ten_to(common_scale(a, b)),
        r matches Some(d) ==> stands_for(d, exact_difference(a, b), common_scale(a, b)),
        r matches Some(d) ==> (d.m() == 0 ==> exact_difference(a, b) == 0),
        a.m() == 0 ==> r == Some(opposite(b)),
        a.m() != 0 && b.m() == 0 ==> r == Some(a),
        a.m() != 0 && b.m() != 0 && abs_int(exact_difference(a, b)) <= MAX_MANTISSA ==> r == Some(
            decimal_of(exact_difference(a, b), common_scale(a, b)),
        ),
{
    let left = rust_decimal::Decimal::from_i128_with_scale(a.mantissa, a.scale);
    let right = rust_decimal::Decimal::from_i128_with_scale(b.mantissa, b.scale);
    left.checked_sub(right).map(|d| Decimal { mantissa: d.mantissa(), scale: d.scale() })
}

/// `rust_decimal::Decimal::checked_mul`.
///
/// Claimed of it: it is a function of its two arguments; it fails only when
/// the exact product is greater in magnitude than every decimal; a product with
/// zero is zero at scale zero; any other product whose mantissa and scale, the
/// product of the mantissas and the sum of the scales, are in range has exactly
/// those; and otherwise it rounds, to zero or to a number of the same sign. To
/// which digit it rounds is not stated.
#[verifier::external_body]
pub(crate) fn checked_mul(a: Decimal, b: Decimal) -> (r: Option<Decimal>)
    ensures
        r == product(a, b),
        r is None ==> abs_int(a.m() * b.m()) > MAX_MANTISSA * ten_to(a.s() + b.s()),
        r matches Some(d) ==> stands_for(d, a.m() * b.m(), a.s() + b.s()),
        a.m() == 0 || b.m() == 0 ==> r == Some(zero()),
        a.m() != 0 && b.m() != 0 && abs_int(a.m() * b.m()) <= MAX_MANTISSA && a.s() + b.s()
            <= MAX_SCALE ==> r == Some(decimal_of(a.m() * b.m(), a.s() + b.s())),
{
    let left = rust_decimal::Decimal::from_i128_with_scale(a.mantissa, a.scale);
    let right = rust_decimal::Decimal::from_i128_with_scale(b.mantissa, b.scale);
    left.checked_mul(right).map(|d| Decimal { mantissa: d.mantissa(), scale: d.scale() })
}

/// `rust_decimal::Decimal::checked_div`.
///
/// Claimed of it: it is a function of its two arguments; a division by zero
/// fails; zero divided by anything else is zero; where the mantissas divide and
/// the scale of the divisor is not the greater one, the quotient is exact; and a
/// quotient never has the sign opposite to the exact one. When any other division
/// fails, how many digits it keeps and how it rounds are not stated.
#[verifier::external_body]
pub(crate) fn checked_div(a: Decimal, b: Decimal) -> (r: Option<Decimal>)
    ensures
        r == quotient(a, b),
        b.m() == 0 ==> r is None,
        a.m() == 0 && b.m() != 0 ==> r == Some(zero()),
        a.m() != 0 && b.m() != 0 && a.m() % b.m() == 0 && b.s() <= a.s() ==> r == Some(
            decimal_of(a.m() / b.m(), (a.s() - b.s()) as nat),
        ),
        r matches Some(d) ==> (a.m() * b.m() >= 0 ==> d.m() >= 0),
        r matches Some(d) ==> (a.m() * b.m() <= 0 ==> d.m() <= 0),
{
    let left = rust_decimal::Decimal::from_i128_with_scale(a.mantissa, a.scale);
    let right = rust_decimal::Decimal::from_i128_with_scale(b.mantissa, b.scale);
    left.checked_div(right).map(|d| Decimal { mantissa: d.mantissa(), scale: d.scale() })
}

/// The `<` of `rust_decimal::Decimal`: the order of the numbers, whatever
/// their scales.
#[verifier::external_body]
pub(crate) fn less(a: Decimal, b: Decimal) -> (r: bool)
    ensures
        r == lt(a, b),
{
    let left = rust_decimal::Decimal::from_i128_with_scale(a.mantissa, a.scale);
    let right = rust_decimal::Decimal::from_i128_with_scale(b.mantissa, b.scale);
    left < right
}

// ---------------------------------------------------------------------------
// Rounding
// ---------------------------------------------------------------------------

/// The number rounded towards positive infinity at `places` decimal places.
pub open spec fn rounded_up(d: Decimal, places: nat) -> Decimal {
    if d.s() <= places {
        d
    } else {
        decimal_of(-((-d.m()) / ten_to((d.s() - places) as nat)), places)
    }
}

/// The number rounded towards negative infinity at `places` decimal places.
pub open spec fn rounded_down(d: Decimal, places: nat) -> Decimal {
    if d.s() <= places {
        d
    } else {
        decimal_of(d.m() / ten_to((d.s() - places) as nat), places)
    }
}

/// `rust_decimal::Decimal::round_dp_with_strategy` with `ToPositiveInfinity`:
/// a number with no more places is kept, any other becomes the least number
/// with that many places that is not below it.
#[verifier::external_body]
pub(crate) fn round_up(d: Decimal, places: u32) -> (r: Decimal)
    ensures
        r == rounded_up(d, places as nat),
{
    let value = rust_decimal::Decimal::from_i128_with_scale(d.mantissa, d.scale);
    let strategy = rust_decimal::RoundingStrategy::ToPositiveInfinity;
    let rounded = value.round_dp_with_strategy(places, strategy);
    Decimal { mantissa: rounded.mantissa(), scale: rounded.scale() }
}

/// `rust_decimal::Decimal::round_dp_with_strategy` with `ToNegativeInfinity`:
/// a number with no more places is kept, any other becomes the greatest number
/// with that many places that is not above it.
#[verifier::external_body]
pub(crate) fn round_down(d: Decimal, places: u32) -> (r: Decimal)
    ensures
        r == rounded_down(d, places as nat),
{
    let value = rust_decimal::Decimal::from_i128_with_scale(d.mantissa, d.scale);
    let strategy = rust_decimal::RoundingStrategy::ToNegativeInfinity;
    let rounded = value.round_dp_with_strategy(places, strategy);
    Decimal { mantissa: rounded.mantissa(), scale: rounded.scale() }
}

/// Rounding up never lowers a number, and rounding down never raises one: a
/// cost is never understated, and proceeds are never overstated.
pub proof fn law_rounding_is_conservative(d: Decimal, places: nat)
    requires
        d.is_representable(),
    ensures
        le(d, rounded_up(d, places)),
        le(rounded_down(d, places), d),
{
    broadcast use {lemma_decimal_of, lemma_ten_to_positive};

    lemma_lt_asymmetric(d, d);
    if d.s() > places {
        let k = (d.s() - places) as nat;
        let m = d.m();
        let t = ten_to(k);
        let p = ten_to(places);
        vstd::arithmetic::power::lemma_pow_adds(10, places, k);
        assert(ten_to(d.s()) == p * t);
        let floor = m / t;
        let below = (-m) / t;
        vstd::arithmetic::div_mod::lemma_fundamental_div_mod(m, t);
        vstd::arithmetic::div_mod::lemma_fundamental_div_mod(-m, t);
        vstd::arithmetic::div_mod::lemma_mod_bound(m, t);
        vstd::arithmetic::div_mod::lemma_mod_bound(-m, t);
        lemma_quotient_is_smaller(m, t);
        lemma_quotient_is_smaller(-m, t);
        assert(floor * (p * t) <= m * p) by (nonlinear_arith)
            requires
                t * floor <= m,
                p > 0,
        ;
        assert((-below) * (p * t) >= m * p) by (nonlinear_arith)
            requires
                t * below <= -m,
                p > 0,
        ;
        assert(rounded_down(d, places).m() == floor);
        assert(rounded_up(d, places).m() == -below);
    }
}

/// Whether `above` is less than one unit at `places` decimal places above `below`.
pub open spec fn is_within_a_unit(above: Decimal, below: Decimal, places: nat) -> bool {
    (above.m() * ten_to(below.s()) - below.m() * ten_to(above.s())) * ten_to(places) < ten_to(
        above.s() + below.s(),
    )
}

/// Whether a number has at most `places` decimal places and is the least such
/// number that is not below another.
pub open spec fn is_next_above(rounded: Decimal, exact: Decimal, places: nat) -> bool {
    &&& rounded.s() <= places
    &&& le(exact, rounded)
    &&& is_within_a_unit(rounded, exact, places)
}

/// Whether a number has at most `places` decimal places and is the greatest such
/// number that is not above another.
pub open spec fn is_next_below(rounded: Decimal, exact: Decimal, places: nat) -> bool {
    &&& rounded.s() <= places
    &&& le(rounded, exact)
    &&& is_within_a_unit(exact, rounded, places)
}

/// Rounding keeps so many places and moves a number by less than one unit of the
/// last of them: upwards, or downwards.
pub proof fn law_rounding_is_tight(d: Decimal, places: nat)
    requires
        d.is_representable(),
    ensures
        is_next_above(rounded_up(d, places), d, places),
        is_next_below(rounded_down(d, places), d, places),
{
    broadcast use {lemma_decimal_of, lemma_ten_to_positive};

    law_rounding_is_conservative(d, places);
    let m = d.m();
    let p = ten_to(places);
    if d.s() > places {
        let k = (d.s() - places) as nat;
        let t = ten_to(k);
        vstd::arithmetic::power::lemma_pow_adds(10, places, k);
        vstd::arithmetic::power::lemma_pow_adds(10, places, d.s());
        let floor = m / t;
        let below = (-m) / t;
        vstd::arithmetic::div_mod::lemma_fundamental_div_mod(m, t);
        vstd::arithmetic::div_mod::lemma_fundamental_div_mod(-m, t);
        vstd::arithmetic::div_mod::lemma_mod_bound(m, t);
        vstd::arithmetic::div_mod::lemma_mod_bound(-m, t);
        lemma_quotient_is_smaller(m, t);
        lemma_quotient_is_smaller(-m, t);
        assert(rounded_down(d, places).m() == floor);
        assert(rounded_up(d, places).m() == -below);
        assert((m * p - floor * (p * t)) * p < p * (p * t)) by (nonlinear_arith)
            requires
                m - t * floor < t,
                p > 0,
        ;
        assert(((-below) * (p * t) - m * p) * p < p * (p * t)) by (nonlinear_arith)
            requires
                -m - t * below < t,
                p > 0,
        ;
    } else {
        let u = m * ten_to(d.s());
        assert((u - u) * p == 0) by (nonlinear_arith);
    }
}

proof fn lemma_quotient_is_smaller(m: int, t: int)
    by (nonlinear_arith)
    requires
        t > 0,
    ensures
        -abs_int(m) <= m / t <= abs_int(m),
{
}

// ---------------------------------------------------------------------------
// Text
// ---------------------------------------------------------------------------

/// The last `width` decimal digits of a number, zeros included.
pub open spec fn padded_digits(n: nat, width: nat) -> Seq<char>
    decreases width,
{
    if width == 0 {
        Seq::empty()
    } else {
        padded_digits(n / 10, (width - 1) as nat).push(crate::text::digit_char((n % 10) as int))
    }
}

/// The number in decimal notation, with exactly as many places as its scale.
pub open spec fn decimal_text(d: Decimal) -> Seq<char> {
    let n = abs_int(d.m()) as nat;
    let unit = ten_to(d.s()) as nat;
    let sign = if d.m() < 0 {
        seq!['-']
    } else {
        Seq::<char>::empty()
    };
    let whole = sign + nat_text(n / unit);
    if d.s() == 0 {
        whole
    } else {
        whole.push('.') + padded_digits(n % unit, d.s())
    }
}

/// What `rust_decimal`'s `FromStr` makes of a text: `None` is its error.
pub uninterp spec fn parsed_decimal(text: Seq<char>) -> Option<Decimal>;

/// The `Display` of `rust_decimal::Decimal`: decimal notation, with exactly as
/// many places as the scale and without an exponent.
#[verifier::external_body]
pub(crate) fn to_text(d: Decimal) -> (r: String)
    ensures
        r@ == decimal_text(d),
{
    rust_decimal::Decimal::from_i128_with_scale(d.mantissa, d.scale).to_string()
}

/// The `FromStr` of `rust_decimal::Decimal`.
///
/// Claimed of it: it is a function of the text, and it reads back every
/// decimal from its own notation, scale included. The rest of the accepted
/// notation (signs, separators, exponents, surplus digits) is not stated.
#[verifier::external_body]
pub(crate) fn parse_text(text: &str) -> (r: Option<Decimal>)
    ensures
        r == parsed_decimal(text@),
        forall|d: Decimal| #[trigger] decimal_text(d) == text@ && d.is_representable() ==> r == Some(d),
{
    let parsed: Result<rust_decimal::Decimal, rust_decimal::Error> = text.parse();
    parsed.ok().map(|d| Decimal { mantissa: d.mantissa(), scale: d.scale() })
}

// ---------------------------------------------------------------------------
// Order
// ---------------------------------------------------------------------------

/// Powers of ten are positive.
pub broadcast proof fn lemma_ten_to_positive(exponent: nat)
    ensures
        #[trigger] ten_to(exponent) > 0,
{
    lemma_pow_positive(10, exponent);
}

proof fn lemma_chain(a: int, b: int, c: int, p: int, q: int, r: int)
    by (nonlinear_arith)
    requires
        a * q <= b * p,
        b * r <= c * q,
        p > 0,
        q > 0,
        r > 0,
    ensures
        a * r <= c * p,
{
    assert((a * q) * r <= (b * p) * r);
    assert((b * r) * p <= (c * q) * p);
    assert((b * p) * r == (b * r) * p);
    assert((a * r) * q <= (c * p) * q);
}

/// `<=` is transitive.
pub proof fn lemma_le_transitive(a: Decimal, b: Decimal, c: Decimal)
    requires
        le(a, b),
        le(b, c),
    ensures
        le(a, c),
{
    broadcast use lemma_ten_to_positive;

    lemma_chain(a.m(), b.m(), c.m(), ten_to(a.s()), ten_to(b.s()), ten_to(c.s()));
}

/// `<` orders the numbers: it is irreflexive and asymmetric.
pub proof fn lemma_lt_asymmetric(a: Decimal, b: Decimal)
    ensures
        !lt(a, a),
        lt(a, b) ==> !lt(b, a),
{
}

/// A number below another that is not above a third is below the third.
pub proof fn lemma_lt_le_transitive(a: Decimal, b: Decimal, c: Decimal)
    requires
        le(a, b),
        le(b, c),
        lt(a, b) || lt(b, c),
    ensures
        lt(a, c),
{
    lemma_le_transitive(a, b, c);
    if !lt(a, c) {
        lemma_le_transitive(c, a, b);
        lemma_le_transitive(b, c, a);
    }
}

/// A number is positive exactly when it is above zero.
pub proof fn lemma_positive_above_zero(a: Decimal)
    ensures
        lt(zero(), a) <==> a.m() > 0,
        lt(a, zero()) <==> a.m() < 0,
{
    broadcast use lemma_decimal_of;

    vstd::arithmetic::power::lemma_pow0(10);
    let p = ten_to(a.s());
    let z = zero().m();
    assert(z * p == 0) by (nonlinear_arith)
        requires
            z == 0,
    ;
}

/// Comparing at a common scale is comparing the numbers.
pub proof fn lemma_common_scale_orders(a: Decimal, b: Decimal)
    ensures
        lt(a, b) <==> mantissa_at(a, common_scale(a, b)) < mantissa_at(b, common_scale(a, b)),
{
    broadcast use lemma_ten_to_positive;

    let k = common_scale(a, b);
    let x = (k - a.s()) as nat;
    let y = (k - b.s()) as nat;
    vstd::arithmetic::power::lemma_pow0(10);
    vstd::arithmetic::power::lemma_pow_adds(10, a.s(), x);
    vstd::arithmetic::power::lemma_pow_adds(10, b.s(), y);
    if a.s() < b.s() {
        let p = ten_to(a.s());
        let q = ten_to(x);
        assert(a.m() * (p * q) < b.m() * p <==> a.m() * q < b.m()) by (nonlinear_arith)
            requires
                p > 0,
        ;
        assert(ten_to(b.s()) == p * q);
        let unit = ten_to(y);
        assert(y == 0);
        assert(b.m() * unit == b.m()) by (nonlinear_arith)
            requires
                unit == 1,
        ;
    } else {
        let p = ten_to(b.s());
        let q = ten_to(y);
        assert(a.m() * p < b.m() * (p * q) <==> a.m() < b.m() * q) by (nonlinear_arith)
            requires
                p > 0,
        ;
        assert(ten_to(a.s()) == p * q);
        let unit = ten_to(x);
        assert(x == 0);
        assert(a.m() * unit == a.m()) by (nonlinear_arith)
            requires
                unit == 1,
        ;
    }
}

// ---------------------------------------------------------------------------
// Chains of arithmetic
// ---------------------------------------------------------------------------

/// The sum of two results, where both are there and it is in range.
pub open spec fn plus(a: Option<Decimal>, b: Option<Decimal>) -> Option<Decimal> {
    match (a, b) {
        (Some(x), Some(y)) => sum(x, y),
        _ => None,
    }
}

/// The difference of two results, where both are there and it is in range.
pub open spec fn minus(a: Option<Decimal>, b: Option<Decimal>) -> Option<Decimal> {
    match (a, b) {
        (Some(x), Some(y)) => difference(x, y),
        _ => None,
    }
}

/// The product of two results, where both are there and it is in range.
pub open spec fn times(a: Option<Decimal>, b: Option<Decimal>) -> Option<Decimal> {
    match (a, b) {
        (Some(x), Some(y)) => product(x, y),
        _ => None,
    }
}

/// The quotient of two results, where both are there and it is in range.
pub open spec fn over(a: Option<Decimal>, b: Option<Decimal>) -> Option<Decimal> {
    match (a, b) {
        (Some(x), Some(y)) => quotient(x, y),
        _ => None,
    }
}

/// A result rounded towards positive infinity.
pub open spec fn up(a: Option<Decimal>, places: nat) -> Option<Decimal> {
    match a {
        Some(x) => Some(rounded_up(x, places)),
        None => None,
    }
}

/// A result rounded towards negative infinity.
pub open spec fn down(a: Option<Decimal>, places: nat) -> Option<Decimal> {
    match a {
        Some(x) => Some(rounded_down(x, places)),
        None => None,
    }
}

pub(crate) fn sum_of(a: Option<Decimal>, b: Option<Decimal>) -> (r: Option<Decimal>)
    ensures
        r == plus(a, b),
{
    match (a, b) {
        (Some(x), Some(y)) => checked_add(x, y),
        _ => None,
    }
}

pub(crate) fn difference_of(a: Option<Decimal>, b: Option<Decimal>) -> (r: Option<Decimal>)
    ensures
        r == minus(a, b),
{
    match (a, b) {
        (Some(x), Some(y)) => checked_sub(x, y),
        _ => None,
    }
}

pub(crate) fn product_of(a: Option<Decimal>, b: Option<Decimal>) -> (r: Option<Decimal>)
    ensures
        r == times(a, b),
{
    match (a, b) {
        (Some(x), Some(y)) => checked_mul(x, y),
        _ => None,
    }
}

pub(crate) fn quotient_of(a: Option<Decimal>, b: Option<Decimal>) -> (r: Option<Decimal>)
    ensures
        r == over(a, b),
{
    match (a, b) {
        (Some(x), Some(y)) => checked_div(x, y),
        _ => None,
    }
}

pub(crate) fn up_of(a: Option<Decimal>, places: u32) -> (r: Option<Decimal>)
    ensures
        r == up(a, places as nat),
        a matches Some(x) ==> le(x, r->0),
        a matches Some(x) ==> is_next_above(r->0, x, places as nat),
{
    match a {
        Some(x) => {
            proof {
                use_type_invariant(&x);
                law_rounding_is_tight(x, places as nat);
            }
            Some(round_up(x, places))
        },
        None => None,
    }
}

pub(crate) fn down_of(a: Option<Decimal>, places: u32) -> (r: Option<Decimal>)
    ensures
        r == down(a, places as nat),
        a matches Some(x) ==> le(r->0, x),
        a matches Some(x) ==> is_next_below(r->0, x, places as nat),
{
    match a {
        Some(x) => {
            proof {
                use_type_invariant(&x);
                law_rounding_is_tight(x, places as nat);
            }
            Some(round_down(x, places))
        },
        None => None,
    }
}

/// Decimals from the least to the greatest.
pub struct LeastFirst;

impl crate::sorting::SortOrder<Decimal> for LeastFirst {
    open spec fn before(a: Decimal, b: Decimal) -> bool {
        lt(a, b)
    }

    proof fn is_weak_order(a: Decimal, b: Decimal, c: Decimal) {
        lemma_lt_asymmetric(a, b);
        if !lt(a, b) && !lt(b, c) {
            lemma_le_transitive(c, b, a);
        }
    }

    fn goes_before(a: &Decimal, b: &Decimal) -> (r: bool) {
        less(*a, *b)
    }
}

/// The sum of the decimals from the first on, starting at zero.
pub open spec fn total(items: Seq<Decimal>) -> Option<Decimal>
    decreases items.len(),
{
    if items.len() == 0 {
        Some(zero())
    } else {
        plus(total(items.drop_last()), Some(items.last()))
    }
}

/// The sum of the decimals from the first on, where it stays in range.
pub(crate) fn checked_total(items: &Vec<Decimal>) -> (r: Option<Decimal>)
    ensures
        r == total(items@),
{
    let mut r = Some(Decimal::zero());
    let mut i: usize = 0;
    while i < items.len()
        invariant
            i <= items@.len(),
            r == total(items@.take(i as int)),
        decreases items@.len() - i,
    {
        r = sum_of(r, Some(items[i]));
        proof {
            assert(items@.take(i + 1).drop_last() =~= items@.take(i as int));
        }
        i += 1;
    }
    proof {
        assert(items@.take(i as int) =~= items@);
    }
    r
}

impl PartialEq for Decimal {
    fn eq(&self, other: &Decimal) -> (r: bool) {
        !less(*self, *other) && !less(*other, *self)
    }
}

impl vstd::std_specs::cmp::PartialEqSpecImpl for Decimal {
    open spec fn obeys_eq_spec() -> bool {
        true
    }

    open spec fn eq_spec(&self, other: &Decimal) -> bool {
        same(*self, *other)
    }
}

impl Eq for Decimal {

}

impl PartialOrd for Decimal {
    fn partial_cmp(&self, other: &Decimal) -> (r: Option<std::cmp::Ordering>) {
        if less(*self, *other) {
            Some(std::cmp::Ordering::Less)
        } else if less(*other, *self) {
            Some(std::cmp::Ordering::Greater)
        } else {
            Some(std::cmp::Ordering::Equal)
        }
    }
}

impl vstd::std_specs::cmp::PartialOrdSpecImpl for Decimal {
    open spec fn obeys_partial_cmp_spec() -> bool {
        true
    }

    open spec fn partial_cmp_spec(&self, other: &Decimal) -> Option<std::cmp::Ordering> {
        if lt(*self, *other) {
            Some(std::cmp::Ordering::Less)
        } else if lt(*other, *self) {
            Some(std::cmp::Ordering::Greater)
        } else {
            Some(std::cmp::Ordering::Equal)
        }
    }
}

} // verus!
