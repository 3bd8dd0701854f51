//! Exact rational numbers: the numeric values of the language.
//!
//! A number is held as a fraction `num / den` of 64-bit integers with a
//! positive denominator. Arithmetic is exact; a result whose numerator or
//! denominator leaves that range is reported as `None`.
use vstd::prelude::*;

verus! {

/// The largest magnitude of a numerator or denominator.
pub const LIMIT: i64 = 0x7fff_ffff_ffff_ffff;

/// Characters of the decimal digits, by value.
pub open spec fn digit_char(d: int) -> char {
    seq!['0', '1', '2', '3', '4', '5', '6', '7', '8', '9'][d]
}

/// Value of a decimal digit character.
pub open spec fn digit_value(c: char) -> int {
    c as int - '0' as int
}

pub open spec fn is_digit(c: char) -> bool {
    '0' <= c && c <= '9'
}

/// Decimal text of a natural number, without leading zeros.
pub open spec fn nat_text(n: nat) -> Seq<char>
    decreases n,
{
    if n < 10 {
        seq![digit_char(n as int)]
    } else {
        nat_text(n / 10).push(digit_char((n % 10) as int))
    }
}

/// The first `k` digits after the point of `r / d`, stopping early when the
/// remainder runs out.
pub open spec fn frac_digits(r: nat, d: nat, k: nat) -> Seq<char>
    decreases k,
{
    if k == 0 || r == 0 || d == 0 {
        Seq::empty()
    } else {
        seq![digit_char(((r * 10) / d) as int)] + frac_digits((r * 10) % d, d, (k - 1) as nat)
    }
}

/// `s` without the zeros at its end.
pub open spec fn trim_zeros(s: Seq<char>) -> Seq<char>
    decreases s.len(),
{
    if s.len() > 0 && s.last() == '0' {
        trim_zeros(s.drop_last())
    } else {
        s
    }
}

/// Digits that are printed after the decimal point at most.
pub const FRACTION_DIGITS: u64 = 16;

/// The integer that the digits of a numeral spell, ignoring its point.
pub open spec fn numeral_mantissa(s: Seq<char>) -> int
    decreases s.len(),
{
    if s.len() == 0 {
        0
    } else if s.last() == '.' {
        numeral_mantissa(s.drop_last())
    } else {
        numeral_mantissa(s.drop_last()) * 10 + digit_value(s.last())
    }
}

/// Whether `s` holds a decimal point.
pub open spec fn has_point(s: Seq<char>) -> bool {
    exists|i: int| 0 <= i < s.len() && s[i] == '.'
}

/// How many digits of a numeral follow its point.
pub open spec fn numeral_scale(s: Seq<char>) -> nat
    decreases s.len(),
{
    if s.len() == 0 {
        0
    } else if s.last() == '.' {
        0
    } else if has_point(s.drop_last()) {
        numeral_scale(s.drop_last()) + 1
    } else {
        0
    }
}

pub open spec fn pow10(k: nat) -> int
    decreases k,
{
    if k == 0 {
        1
    } else {
        10 * pow10((k - 1) as nat)
    }
}

/// A numeral: digits with at most one point, starting with a digit.
pub open spec fn is_numeral(s: Seq<char>) -> bool {
    &&& s.len() > 0
    &&& is_digit(s[0])
    &&& forall|i: int| 0 <= i < s.len() ==> is_digit(#[trigger] s[i]) || s[i] == '.'
    &&& forall|i: int, j: int| 0 <= i < j < s.len() && s[i] == '.' ==> s[j] != '.'
}

pub open spec fn in_range(n: int, d: int) -> bool {
    -LIMIT <= n <= LIMIT && 1 <= d <= LIMIT
}

/// Greatest common divisor, by Euclid's algorithm.
pub open spec fn gcd(a: nat, b: nat) -> nat
    decreases b,
{
    if b == 0 {
        a
    } else {
        gcd(b, a % b)
    }
}

pub proof fn lemma_gcd_positive(a: nat, b: nat)
    requires
        b > 0,
    ensures
        gcd(a, b) > 0,
    decreases b,
{
    if a % b > 0 {
        lemma_gcd_positive(b, a % b);
    } else {
        assert(gcd(b, 0) == b);
    }
}

/// The greatest common divisor divides both.
pub proof fn lemma_gcd_divides(a: nat, b: nat)
    requires
        b > 0,
    ensures
        a % gcd(a, b) == 0,
        b % gcd(a, b) == 0,
    decreases b,
{
    let r = a % b;
    lemma_gcd_positive(a, b);
    let g = gcd(a, b);
    if r == 0 {
        assert(gcd(b, 0) == b);
        assert(g == b);
        vstd::arithmetic::div_mod::lemma_mod_self_0(b as int);
    } else {
        lemma_gcd_divides(b, r);
        let gi = g as int;
        let x = (b as int) / gi;
        let y = (r as int) / gi;
        vstd::arithmetic::div_mod::lemma_fundamental_div_mod(b as int, gi);
        vstd::arithmetic::div_mod::lemma_fundamental_div_mod(r as int, gi);
        vstd::arithmetic::div_mod::lemma_fundamental_div_mod(a as int, b as int);
        let k = (a as int) / (b as int);
        assert(a == gi * (k * x + y)) by (nonlinear_arith)
            requires a == (b as int) * k + r, b == gi * x, r == gi * y;
        vstd::arithmetic::div_mod::lemma_mod_multiples_basic(k * x + y, gi);
        assert((k * x + y) * gi == gi * (k * x + y)) by (nonlinear_arith);
    }
}

pub open spec fn abs(n: int) -> int {
    if n < 0 { -n } else { n }
}

/// `n / d` in lowest terms: both divided by their greatest common divisor.
pub open spec fn reduced(n: int, d: int) -> (int, int) {
    let m = abs(n);
    let g = gcd(m as nat, d as nat) as int;
    (if n < 0 { -(m / g) } else { m / g }, d / g)
}

proof fn lemma_gcd_scale(a: nat, b: nat, k: nat)
    requires
        k > 0,
    ensures
        gcd(a * k, b * k) == gcd(a, b) * k,
    decreases b,
{
    if b == 0 {
        assert(b * k == 0);
    } else {
        let q = (a / b) as int;
        let r = (a % b) as int;
        vstd::arithmetic::div_mod::lemma_fundamental_div_mod(a as int, b as int);
        let ak = (a * k) as int;
        let bk = (b * k) as int;
        assert(ak == q * bk + r * k) by (nonlinear_arith)
            requires a == b * q + r, ak == a * k, bk == b * k;
        assert(0 <= r * k < bk) by (nonlinear_arith)
            requires 0 <= r < b, k > 0, bk == b * k;
        vstd::arithmetic::div_mod::lemma_fundamental_div_mod_converse_mod(ak, bk, q, r * k);
        lemma_gcd_scale(b, a % b, k);
        assert((a * k) % (b * k) == (a % b) * k);
    }
}

/// `reduced` keeps the value, lowers the terms as far as they go, and
/// leaves a fraction that is already in lowest terms as it is.
pub proof fn lemma_reduced(n: int, d: int)
    requires
        d >= 1,
    ensures
        reduced(n, d).0 * d == n * reduced(n, d).1,
        1 <= reduced(n, d).1 <= d,
        abs(reduced(n, d).0) <= abs(n),
        gcd(abs(reduced(n, d).0) as nat, reduced(n, d).1 as nat) == 1,
        gcd(abs(n) as nat, d as nat) == 1 ==> reduced(n, d) == (n, d),
        d == 1 ==> reduced(n, d) == (n, 1int),
{
    let m = abs(n);
    let g = gcd(m as nat, d as nat) as int;
    lemma_gcd_positive(m as nat, d as nat);
    lemma_gcd_divides(m as nat, d as nat);
    let p = m / g;
    let q = d / g;
    vstd::arithmetic::div_mod::lemma_fundamental_div_mod(m, g);
    vstd::arithmetic::div_mod::lemma_fundamental_div_mod(d, g);
    assert(m == g * p);
    assert(d == g * q);
    assert(p * d == m * q) by (nonlinear_arith)
        requires m == g * p, d == g * q;
    if n < 0 {
        assert((-p) * d == n * q) by (nonlinear_arith)
            requires p * d == m * q, m == -n;
    }
    assert(q >= 1 && q <= d && 0 <= p <= m) by (nonlinear_arith)
        requires m == g * p, d == g * q, g >= 1, d >= 1, m >= 0;
    lemma_gcd_scale(p as nat, q as nat, g as nat);
    assert((p * g) as nat == m as nat && (q * g) as nat == d as nat) by (nonlinear_arith)
        requires m == g * p, d == g * q;
    assert(gcd(p as nat, q as nat) * g == g);
    assert(gcd(p as nat, q as nat) == 1) by (nonlinear_arith)
        requires gcd(p as nat, q as nat) * g == g, g >= 1;
    if g == 1 {
        assert(p == m && q == d);
    }
    if d == 1 {
        assert(gcd(m as nat, 0) == m as nat);
        assert((m as nat) % 1 == 0);
        assert(gcd(m as nat, 1) == gcd(1, (m as nat) % 1));
        assert(g == 1);
    }
}

fn gcd_exec(a: u128, b: u128) -> (r: u128)
    ensures
        r == gcd(a as nat, b as nat),
{
    let mut x = a;
    let mut y = b;
    while y != 0
        invariant
            gcd(x as nat, y as nat) == gcd(a as nat, b as nat),
        decreases y,
    {
        let t = x % y;
        x = y;
        y = t;
    }
    x
}

#[derive(Clone, Copy, Debug)]
pub struct Number {
    num: i64,
    den: i64,
}

impl Number {
    #[verifier::type_invariant]
    spec fn inv(&self) -> bool {
        in_range(self.num as int, self.den as int)
    }

    pub closed spec fn numer(&self) -> int {
        self.num as int
    }

    pub closed spec fn denom(&self) -> int {
        self.den as int
    }

    /// The number `n / d` in lowest terms (see `reduced`), where the
    /// reduced numerator and denominator lie in range.
    pub closed spec fn make(n: int, d: int) -> Option<Number> {
        if d < 1 {
            None
        } else if in_range(reduced(n, d).0, reduced(n, d).1) {
            Some(Number { num: reduced(n, d).0 as i64, den: reduced(n, d).1 as i64 })
        } else {
            None
        }
    }

    /// What `make` gives: `None` for a denominator below 1, otherwise the
    /// fraction in lowest terms, whenever that lies in range. In particular
    /// a fraction that lies in range is always a number, and a whole
    /// number in range stays as it is.
    pub broadcast proof fn lemma_make(n: int, d: int)
        ensures
            (#[trigger] Number::make(n, d)) is Some <==> (d >= 1 && in_range(reduced(n, d).0, reduced(n, d).1)),
            Number::make(n, d) is Some ==> Number::make(n, d)->Some_0.numer() == reduced(n, d).0
                && Number::make(n, d)->Some_0.denom() == reduced(n, d).1,
            d >= 1 && in_range(n, d) ==> Number::make(n, d) is Some,
            d == 1 && in_range(n, 1) ==> Number::make(n, d) is Some
                && Number::make(n, d)->Some_0.numer() == n && Number::make(n, d)->Some_0.denom() == 1,
    {
        if d >= 1 {
            lemma_reduced(n, d);
        }
    }

    /// A number made from `n / d` stands for the value `n / d`, in lowest
    /// terms.
    pub proof fn lemma_make_same_value(n: int, d: int)
        requires
            Number::make(n, d) is Some,
        ensures
            Number::make(n, d)->Some_0.numer() * d == n * Number::make(n, d)->Some_0.denom(),
            Number::make(n, d)->Some_0.denom() >= 1,
            gcd(abs(Number::make(n, d)->Some_0.numer()) as nat, Number::make(n, d)->Some_0.denom() as nat) == 1,
    {
        lemma_reduced(n, d);
    }

    /// Whether `a` and `b` stand for the same rational value.
    pub open spec fn same_value(a: Number, b: Number) -> bool {
        a.numer() * b.denom() == b.numer() * a.denom()
    }

    pub open spec fn add_spec(a: Number, b: Number) -> Option<Number> {
        Number::make(a.numer() * b.denom() + b.numer() * a.denom(), a.denom() * b.denom())
    }

    pub open spec fn sub_spec(a: Number, b: Number) -> Option<Number> {
        Number::make(a.numer() * b.denom() - b.numer() * a.denom(), a.denom() * b.denom())
    }

    pub open spec fn mul_spec(a: Number, b: Number) -> Option<Number> {
        Number::make(a.numer() * b.numer(), a.denom() * b.denom())
    }

    /// The quotient `a / b`; `b` is not zero.
    pub open spec fn div_spec(a: Number, b: Number) -> Option<Number> {
        if b.numer() > 0 {
            Number::make(a.numer() * b.denom(), a.denom() * b.numer())
        } else {
            Number::make(-(a.numer() * b.denom()), -(a.denom() * b.numer()))
        }
    }

    pub closed spec fn neg_spec(a: Number) -> Number {
        Number { num: (-a.num) as i64, den: a.den }
    }

    /// Negation flips the sign of the numerator.
    pub proof fn lemma_neg(a: Number)
        requires
            -LIMIT <= a.numer() <= LIMIT,
        ensures
            Number::neg_spec(a).numer() == -a.numer(),
            Number::neg_spec(a).denom() == a.denom(),
    {
    }

    /// Each operation gives the exact rational result, whenever it fits.
    pub proof fn lemma_arithmetic_exact(a: Number, b: Number)
        ensures
            Number::add_spec(a, b) is Some ==> Number::add_spec(a, b)->Some_0.numer() * (a.denom() * b.denom())
                == (a.numer() * b.denom() + b.numer() * a.denom()) * Number::add_spec(a, b)->Some_0.denom(),
            Number::sub_spec(a, b) is Some ==> Number::sub_spec(a, b)->Some_0.numer() * (a.denom() * b.denom())
                == (a.numer() * b.denom() - b.numer() * a.denom()) * Number::sub_spec(a, b)->Some_0.denom(),
            Number::mul_spec(a, b) is Some ==> Number::mul_spec(a, b)->Some_0.numer() * (a.denom() * b.denom())
                == (a.numer() * b.numer()) * Number::mul_spec(a, b)->Some_0.denom(),
            Number::div_spec(a, b) is Some ==> Number::div_spec(a, b)->Some_0.numer() * (a.denom() * b.numer())
                == (a.numer() * b.denom()) * Number::div_spec(a, b)->Some_0.denom(),
    {
        let (p, q, r, t) = (a.numer(), a.denom(), b.numer(), b.denom());
        if Number::add_spec(a, b) is Some {
            Number::lemma_make_same_value(p * t + r * q, q * t);
        }
        if Number::sub_spec(a, b) is Some {
            Number::lemma_make_same_value(p * t - r * q, q * t);
        }
        if Number::mul_spec(a, b) is Some {
            Number::lemma_make_same_value(p * r, q * t);
        }
        if Number::div_spec(a, b) is Some {
            if r > 0 {
                Number::lemma_make_same_value(p * t, q * r);
            } else {
                Number::lemma_make_same_value(-(p * t), -(q * r));
                let x = Number::div_spec(a, b)->Some_0;
                assert(x.numer() * (q * r) == (p * t) * x.denom()) by (nonlinear_arith)
                    requires x.numer() * (-(q * r)) == (-(p * t)) * x.denom();
            }
        }
    }

    /// Whether `a < b`.
    pub open spec fn less(a: Number, b: Number) -> bool {
        a.numer() * b.denom() < b.numer() * a.denom()
    }

    /// The count a number gives when it repeats text: its integer part,
    /// and zero for a negative number.
    pub open spec fn count_spec(a: Number) -> int {
        if a.numer() <= 0 {
            0
        } else {
            a.numer() / a.denom()
        }
    }

    /// The decimal text of a number: its integer part, then up to
    /// sixteen digits of its fraction, cut off and without trailing zeros.
    pub open spec fn text_spec(a: Number) -> Seq<char> {
        let m = if a.numer() < 0 { -a.numer() } else { a.numer() };
        let sign = if a.numer() < 0 { seq!['-'] } else { Seq::empty() };
        let frac = trim_zeros(frac_digits((m % a.denom()) as nat, a.denom() as nat, FRACTION_DIGITS as nat));
        sign + nat_text((m / a.denom()) as nat) + if frac.len() == 0 { frac } else { seq!['.'] + frac }
    }

    /// The value of a numeral, whose digits must fit in range.
    pub open spec fn numeral_spec(s: Seq<char>) -> Option<Number> {
        if in_range(numeral_mantissa(s), pow10(numeral_scale(s))) {
            Number::make(numeral_mantissa(s), pow10(numeral_scale(s)))
        } else {
            None
        }
    }

    proof fn lemma_products(&self, o: &Number)
        requires
            in_range(self.numer(), self.denom()),
            in_range(o.numer(), o.denom()),
        ensures
            -LIMIT * LIMIT <= self.numer() * o.denom() <= LIMIT * LIMIT,
            -LIMIT * LIMIT <= self.numer() * o.numer() <= LIMIT * LIMIT,
            1 <= self.denom() * o.denom() <= LIMIT * LIMIT,
            -LIMIT * LIMIT <= o.numer() * self.denom() <= LIMIT * LIMIT,
            -LIMIT * LIMIT <= self.denom() * o.numer() <= LIMIT * LIMIT,
    {
        let (a, b, c, d) = (self.numer(), self.denom(), o.numer(), o.denom());
        assert(-LIMIT * LIMIT <= a * d <= LIMIT * LIMIT) by (nonlinear_arith)
            requires -LIMIT <= a <= LIMIT, 1 <= d <= LIMIT;
        assert(-LIMIT * LIMIT <= a * c <= LIMIT * LIMIT) by (nonlinear_arith)
            requires -LIMIT <= a <= LIMIT, -LIMIT <= c <= LIMIT;
        assert(1 <= b * d <= LIMIT * LIMIT) by (nonlinear_arith)
            requires 1 <= b <= LIMIT, 1 <= d <= LIMIT;
        assert(-LIMIT * LIMIT <= c * b <= LIMIT * LIMIT) by (nonlinear_arith)
            requires -LIMIT <= c <= LIMIT, 1 <= b <= LIMIT;
        assert(-LIMIT * LIMIT <= b * c <= LIMIT * LIMIT) by (nonlinear_arith)
            requires -LIMIT <= c <= LIMIT, 1 <= b <= LIMIT;
    }

    fn from_wide(n: i128, d: i128) -> (r: Option<Number>)
        requires
            -2 * LIMIT * LIMIT <= n <= 2 * LIMIT * LIMIT,
        ensures
            r == Number::make(n as int, d as int),
    {
        if d < 1 {
            return None;
        }
        let m: u128 = if n < 0 { (-n) as u128 } else { n as u128 };
        let g = gcd_exec(m, d as u128);
        proof {
            lemma_gcd_positive(m as nat, d as nat);
        }
        let rm = m / g;
        let rd = (d as u128) / g;
        if rm <= LIMIT as u128 && 1 <= rd && rd <= LIMIT as u128 {
            let num: i64 = if n < 0 { -(rm as i64) } else { rm as i64 };
            Some(Number { num, den: rd as i64 })
        } else {
            None
        }
    }

    /// The whole number `n`.
    pub fn from_integer(n: i64) -> (r: Number)
        requires
            n >= -LIMIT,
        ensures
            r.numer() == n,
            r.denom() == 1,
    {
        Number { num: n, den: 1 }
    }

    /// The fraction `n / d`, if both lie in range.
    pub fn from_parts(n: i64, d: i64) -> (r: Option<Number>)
        ensures
            r == Number::make(n as int, d as int),
    {
        Number::from_wide(n as i128, d as i128)
    }

    pub fn add(&self, o: &Number) -> (r: Option<Number>)
        ensures
            r == Number::add_spec(*self, *o),
    {
        proof {
            use_type_invariant(self);
            use_type_invariant(o);
            self.lemma_products(o);
        }
        let n = (self.num as i128) * (o.den as i128) + (o.num as i128) * (self.den as i128);
        let d = (self.den as i128) * (o.den as i128);
        Number::from_wide(n, d)
    }

    pub fn sub(&self, o: &Number) -> (r: Option<Number>)
        ensures
            r == Number::sub_spec(*self, *o),
    {
        proof {
            use_type_invariant(self);
            use_type_invariant(o);
            self.lemma_products(o);
        }
        let n = (self.num as i128) * (o.den as i128) - (o.num as i128) * (self.den as i128);
        let d = (self.den as i128) * (o.den as i128);
        Number::from_wide(n, d)
    }

    pub fn mul(&self, o: &Number) -> (r: Option<Number>)
        ensures
            r == Number::mul_spec(*self, *o),
    {
        proof {
            use_type_invariant(self);
            use_type_invariant(o);
            self.lemma_products(o);
        }
        let n = (self.num as i128) * (o.num as i128);
        let d = (self.den as i128) * (o.den as i128);
        Number::from_wide(n, d)
    }

    pub fn div(&self, o: &Number) -> (r: Option<Number>)
        requires
            o.numer() != 0,
        ensures
            r == Number::div_spec(*self, *o),
    {
        proof {
            use_type_invariant(self);
            use_type_invariant(o);
            self.lemma_products(o);
        }
        let n = (self.num as i128) * (o.den as i128);
        let d = (self.den as i128) * (o.num as i128);
        if o.num > 0 {
            Number::from_wide(n, d)
        } else {
            Number::from_wide(-n, -d)
        }
    }

    pub fn neg(&self) -> (r: Number)
        ensures
            r == Number::neg_spec(*self),
    {
        proof {
            use_type_invariant(self);
        }
        Number { num: -self.num, den: self.den }
    }

    pub fn is_zero(&self) -> (r: bool)
        ensures
            r == (self.numer() == 0),
    {
        self.num == 0
    }

    /// Whether both stand for the same value.
    pub fn equals(&self, o: &Number) -> (r: bool)
        ensures
            r == Number::same_value(*self, *o),
    {
        proof {
            use_type_invariant(self);
            use_type_invariant(o);
            self.lemma_products(o);
        }
        (self.num as i128) * (o.den as i128) == (o.num as i128) * (self.den as i128)
    }

    /// Whether `self < o`.
    pub fn less_than(&self, o: &Number) -> (r: bool)
        ensures
            r == Number::less(*self, *o),
    {
        proof {
            use_type_invariant(self);
            use_type_invariant(o);
            self.lemma_products(o);
        }
        (self.num as i128) * (o.den as i128) < (o.num as i128) * (self.den as i128)
    }

    /// How many times a number repeats a text.
    pub fn repeat_count(&self) -> (r: u64)
        ensures
            r as int == Number::count_spec(*self),
    {
        proof {
            use_type_invariant(self);
        }
        if self.num <= 0 {
            0
        } else {
            (self.num / self.den) as u64
        }
    }
}

impl PartialEq for Number {
    /// Equality of the rational values.
    fn eq(&self, o: &Number) -> (r: bool) {
        self.equals(o)
    }
}

impl vstd::std_specs::cmp::PartialEqSpecImpl for Number {
    open spec fn obeys_eq_spec() -> bool {
        true
    }

    open spec fn eq_spec(&self, o: &Number) -> bool {
        Number::same_value(*self, *o)
    }
}

fn digit_of(d: u64) -> (c: char)
    requires
        d < 10,
    ensures
        c == digit_char(d as int),
{
    let table = ['0', '1', '2', '3', '4', '5', '6', '7', '8', '9'];
    proof {
        assert(table@ =~= seq!['0', '1', '2', '3', '4', '5', '6', '7', '8', '9']);
    }
    table[d as usize]
}

/// Appends the decimal text of `n`.
pub fn push_nat_text(n: u64, out: &mut Vec<char>)
    ensures
        final(out)@ == old(out)@ + nat_text(n as nat),
    decreases n,
{
    if n >= 10 {
        push_nat_text(n / 10, out);
    }
    let c = digit_of(n % 10);
    out.push(c);
    proof {
        if n < 10 {
            assert(nat_text(n as nat) == seq![digit_char(n as int)]);
            assert(n % 10 == n);
        }
    }
}

/// Digits of the fraction `r / d`, at most `k` of them.
fn push_frac_digits(r: u64, d: u64, k: u64, out: &mut Vec<char>)
    requires
        r < d,
        d <= LIMIT,
    ensures
        final(out)@ == old(out)@ + frac_digits(r as nat, d as nat, k as nat),
{
    let mut rem: u64 = r;
    let mut left: u64 = k;
    while left > 0 && rem > 0
        invariant
            rem < d <= LIMIT,
            out@ + frac_digits(rem as nat, d as nat, left as nat)
                == old(out)@ + frac_digits(r as nat, d as nat, k as nat),
        decreases left,
    {
        let t: u128 = (rem as u128) * 10;
        let q: u128 = t / (d as u128);
        proof {
            assert(q < 10) by (nonlinear_arith)
                requires q == t / (d as u128), t == rem * 10, rem < d, d > 0;
        }
        let c = digit_of(q as u64);
        let ghost before = out@;
        out.push(c);
        proof {
            assert(out@ + frac_digits(((rem * 10) % (d as int)) as nat, d as nat, (left - 1) as nat)
                =~= before + frac_digits(rem as nat, d as nat, left as nat));
        }
        rem = (t % (d as u128)) as u64;
        left = left - 1;
    }
    proof {
        assert(frac_digits(rem as nat, d as nat, left as nat) =~= Seq::<char>::empty());
        assert(out@ + Seq::<char>::empty() =~= out@);
    }
}

impl Number {
    /// The decimal text of the number.
    pub fn to_text(&self) -> (r: Vec<char>)
        ensures
            r@ == Number::text_spec(*self),
    {
        proof {
            use_type_invariant(self);
        }
        let m: u64 = if self.num < 0 { (-self.num) as u64 } else { self.num as u64 };
        let d: u64 = self.den as u64;
        let mut out: Vec<char> = Vec::new();
        if self.num < 0 {
            out.push('-');
        }
        let ghost sign = out@;
        push_nat_text(m / d, &mut out);
        let mut frac: Vec<char> = Vec::new();
        push_frac_digits(m % d, d, FRACTION_DIGITS, &mut frac);
        let ghost full = frac@;
        while frac.len() > 0 && frac[frac.len() - 1] == '0'
            invariant
                trim_zeros(frac@) == trim_zeros(full),
            decreases frac@.len(),
        {
            frac.pop();
        }
        proof {
            assert(trim_zeros(frac@) == frac@);
            assert(frac@ =~= Seq::<char>::empty() + frac@);
        }
        if frac.len() > 0 {
            out.push('.');
            crate::text::append_chars(&mut out, &frac);
        }
        proof {
            if self.num < 0 {
                assert(sign =~= seq!['-']);
            } else {
                assert(sign =~= Seq::<char>::empty());
            }
        }
        out
    }

    /// The value of a numeral, if it fits.
    pub fn from_numeral(s: &Vec<char>) -> (r: Option<Number>)
        requires
            is_numeral(s@),
        ensures
            r == Number::numeral_spec(s@),
    {
        let mut mant: i64 = 0;
        let mut scale_pow: i64 = 1;
        let mut seen_point = false;
        let ghost mut scale: nat = 0;
        let mut i: usize = 0;
        while i < s.len()
            invariant
                is_numeral(s@),
                i <= s@.len(),
                0 <= mant <= LIMIT,
                mant == numeral_mantissa(s@.take(i as int)),
                scale == numeral_scale(s@.take(i as int)),
                scale_pow == pow10(scale),
                1 <= scale_pow <= LIMIT,
                seen_point == has_point(s@.take(i as int)),
            decreases s@.len() - i,
        {
            let c = s[i];
            let ghost pre = s@.take(i as int);
            proof {
                assert(s@.take(i + 1).drop_last() =~= pre);
                assert(is_digit(s@[i as int]) || s@[i as int] == '.');
            }
            if c == '.' {
                seen_point = true;
                proof {
                    scale = 0;
                    assert(has_point(s@.take(i + 1))) by {
                        assert(s@.take(i + 1)[i as int] == '.');
                    }
                    if has_point(pre) {
                        let j = choose|j: int| 0 <= j < pre.len() && pre[j] == '.';
                        assert(s@[j] == '.');
                    }
                    assert(!has_point(pre));
                    assert(scale_pow == 1);
                }
            } else {
                let dv: i64 = (c as u32 - '0' as u32) as i64;
                if mant > (LIMIT - dv) / 10 {
                    proof {
                        Self::lemma_numeral_grows(s@, i as int);
                    }
                    return None;
                }
                mant = mant * 10 + dv;
                proof {
                    if has_point(pre) {
                        let j = choose|j: int| 0 <= j < pre.len() && pre[j] == '.';
                        assert(s@.take(i + 1)[j] == '.');
                        assert(has_point(s@.take(i + 1)));
                    } else {
                        assert forall|j: int| 0 <= j < i + 1 implies #[trigger] s@.take(i + 1)[j] != '.' by {
                            if j < i {
                                assert(pre[j] == s@.take(i + 1)[j]);
                            }
                        }
                    }
                }
                if seen_point {
                    if scale_pow > LIMIT / 10 {
                        proof {
                            Self::lemma_numeral_scale_grows(s@, i as int);
                        }
                        return None;
                    }
                    scale_pow = scale_pow * 10;
                    proof {
                        scale = scale + 1;
                    }
                }
            }
            i = i + 1;
        }
        proof {
            assert(s@.take(s@.len() as int) =~= s@);
        }
        Number::from_parts(mant, scale_pow)
    }

    proof fn lemma_numeral_grows(s: Seq<char>, i: int)
        requires
            is_numeral(s),
            0 <= i < s.len(),
            s[i] != '.',
            numeral_mantissa(s.take(i)) * 10 + digit_value(s[i]) > LIMIT,
        ensures
            !in_range(numeral_mantissa(s), pow10(numeral_scale(s))),
    {
        assert(s.take(i + 1).drop_last() =~= s.take(i));
        Self::lemma_mantissa_mono(s, i + 1, s.len() as int);
        assert(s.take(s.len() as int) =~= s);
    }

    proof fn lemma_mantissa_mono(s: Seq<char>, i: int, j: int)
        requires
            is_numeral(s),
            0 <= i <= j <= s.len(),
        ensures
            0 <= numeral_mantissa(s.take(i)) <= numeral_mantissa(s.take(j)),
        decreases j,
    {
        if j > 0 {
            assert(s.take(j).drop_last() =~= s.take(j - 1));
            assert(is_digit(s[j - 1]) || s[j - 1] == '.');
            if i < j {
                Self::lemma_mantissa_mono(s, i, j - 1);
            } else {
                Self::lemma_mantissa_mono(s, 0, j - 1);
            }
        } else {
            assert(s.take(0).len() == 0);
        }
    }

    proof fn lemma_pow10_mono(a: nat, b: nat)
        requires
            a <= b,
        ensures
            1 <= pow10(a) <= pow10(b),
        decreases b,
    {
        if b > a {
            Self::lemma_pow10_mono(a, (b - 1) as nat);
        } else if b > 0 {
            Self::lemma_pow10_mono(0, (b - 1) as nat);
        }
    }

    proof fn lemma_scale_mono(s: Seq<char>, i: int, j: int)
        requires
            is_numeral(s),
            0 <= i <= j <= s.len(),
            i > 0,
            has_point(s.take(i)),
        ensures
            numeral_scale(s.take(i)) <= numeral_scale(s.take(j)),
            has_point(s.take(j)),
        decreases j,
    {
        if j > i {
            Self::lemma_scale_mono(s, i, j - 1);
            assert(s.take(j).drop_last() =~= s.take(j - 1));
            let k = choose|k: int| 0 <= k < s.take(j - 1).len() && #[trigger] s.take(j - 1)[k] == '.';
            assert(s[k] == '.');
            assert(s[j - 1] != '.');
            assert(s.take(j)[k] == '.');
        }
    }

    proof fn lemma_numeral_scale_grows(s: Seq<char>, i: int)
        requires
            is_numeral(s),
            0 <= i < s.len(),
            s[i] != '.',
            has_point(s.take(i)),
            pow10(numeral_scale(s.take(i))) * 10 > LIMIT,
        ensures
            !in_range(numeral_mantissa(s), pow10(numeral_scale(s))),
    {
        assert(s.take(i + 1).drop_last() =~= s.take(i));
        let k = choose|k: int| 0 <= k < s.take(i).len() && #[trigger] s.take(i)[k] == '.';
        assert(s.take(i + 1)[k] == '.');
        assert(numeral_scale(s.take(i + 1)) == numeral_scale(s.take(i)) + 1);
        Self::lemma_scale_mono(s, i + 1, s.len() as int);
        assert(s.take(s.len() as int) =~= s);
        Self::lemma_pow10_mono(numeral_scale(s.take(i + 1)), numeral_scale(s));
    }
}

} // verus!
