use vstd::prelude::*;
use vstd::arithmetic::power::pow;
use vstd::arithmetic::div_mod::{lemma_fundamental_div_mod, lemma_div_multiples_vanish,
    lemma_fundamental_div_mod_converse_mod, lemma_mod_division_less_than_divisor, lemma_small_mod};

verus! {

/// Whether a mathematical integer fits in an `i64`.
pub open spec fn in_i64(x: int) -> bool {
    i64::MIN <= x <= i64::MAX
}

/// Truncating (round-toward-zero) integer division, as the hardware performs
/// it on signed integers, expressed over Verus's Euclidean `/`.
pub open spec fn trunc_div(x: int, d: int) -> int
    recommends
        d != 0,
{
    if x == 0 {
        0
    } else if x > 0 && d > 0 {
        x / d
    } else if x < 0 && d < 0 {
        (x * -1) / (d * -1)
    } else if x < 0 {
        ((x * -1) / d) * -1
    } else {
        (x / (d * -1)) * -1
    }
}

/// An exact rational number `num / den`, kept with `den >= 1`.
///
/// Runtime numbers of the language are rationals built from decimal literals
/// and closed under the evaluator's arithmetic; an operation whose exact
/// result cannot be represented (the components do not fit in `i64`, a
/// division by zero, a non-integral exponent) reports failure instead of
/// producing a rounded value.
#[derive(Clone, Copy, Debug)]
pub struct Number {
    pub num: i64,
    pub den: i64,
}

/// The numerator of the (unreduced) sum `a + b`.
pub open spec fn sum_num(a: Number, b: Number) -> int {
    a.num * b.den + b.num * a.den
}

/// The numerator of the (unreduced) difference `a - b`.
pub open spec fn diff_num(a: Number, b: Number) -> int {
    a.num * b.den - b.num * a.den
}

/// The numerator of the (unreduced) product `a * b`.
pub open spec fn prod_num(a: Number, b: Number) -> int {
    a.num * b.num
}

/// The denominator of the sum, difference and product: `a.den * b.den`.
pub open spec fn prod_den(a: Number, b: Number) -> int {
    a.den * b.den
}

/// The numerator of the quotient `a / b`, sign-adjusted so that the
/// denominator stays positive.
pub open spec fn quot_num(a: Number, b: Number) -> int {
    if b.num < 0 {
        -(a.num * b.den)
    } else {
        a.num * b.den
    }
}

/// The denominator of the quotient `a / b`, sign-adjusted to stay positive.
pub open spec fn quot_den(a: Number, b: Number) -> int {
    if b.num < 0 {
        -(a.den * b.num)
    } else {
        a.den * b.num
    }
}

/// The numerator of the floating-style remainder `a % b`:
/// `a - b * trunc(a / b)`, over the common denominator `a.den * b.den`.
pub open spec fn rem_num(a: Number, b: Number) -> int {
    a.num * b.den - trunc_div(a.num * b.den, a.den * b.num) * (b.num * a.den)
}

/// The denominator of the remainder `a % b`.
pub open spec fn rem_den(a: Number, b: Number) -> int {
    a.den * b.den
}

/// Whether every partial power of `n/d` up to exponent `e` fits in an
/// `i64`, for both components; mirrors the step-by-step computation of an
/// exact power.
pub open spec fn pow_ok(n: int, d: int, e: nat) -> bool
    decreases e,
{
    if e == 0 {
        true
    } else {
        pow_ok(n, d, (e - 1) as nat) && in_i64(pow(n, e)) && in_i64(pow(d, e))
    }
}

/// Whether the exact power `(n/d) ** e` is representable.
pub open spec fn rat_pow_defined(n: int, d: int, e: int) -> bool {
    if e >= 0 {
        pow_ok(n, d, e as nat)
    } else {
        n != 0 && pow_ok(n, d, (-e) as nat) && in_i64(
            inv_den(pow(n, (-e) as nat), pow(d, (-e) as nat)),
        )
    }
}

/// The numerator of the exact power `(n/d) ** e`.
pub open spec fn rat_pow_num(n: int, d: int, e: int) -> int {
    if e >= 0 {
        pow(n, e as nat)
    } else {
        inv_num(pow(n, (-e) as nat), pow(d, (-e) as nat))
    }
}

/// The denominator of the exact power `(n/d) ** e`.
pub open spec fn rat_pow_den(n: int, d: int, e: int) -> int {
    if e >= 0 {
        pow(d, e as nat)
    } else {
        inv_den(pow(n, (-e) as nat), pow(d, (-e) as nat))
    }
}

/// The numerator of the reciprocal of `n/d`, keeping the denominator positive.
pub open spec fn inv_num(n: int, d: int) -> int {
    if n < 0 {
        -d
    } else {
        d
    }
}

/// The denominator of the reciprocal of `n/d`.
pub open spec fn inv_den(n: int, d: int) -> int {
    if n < 0 {
        -n
    } else {
        n
    }
}

/// `|a * b|` stays below `2^126 - 2^63` when `a` is an `i64` value and
/// `1 <= b <= i64::MAX`; two such products then fit in an `i128` sum.
proof fn lemma_prod_bound(a: int, b: int) by (nonlinear_arith)
    requires
        i64::MIN <= a <= i64::MAX,
        -0x7fff_ffff_ffff_ffff <= b <= 0x7fff_ffff_ffff_ffff,
    ensures
        -0x3fff_ffff_ffff_ffff_8000_0000_0000_0000 <= a * b
            <= 0x3fff_ffff_ffff_ffff_8000_0000_0000_0000,
{
}

/// `|a * b| <= 2^126` for any two `i64` values, so the product fits in `i128`.
proof fn lemma_prod_bound_full(a: int, b: int) by (nonlinear_arith)
    requires
        i64::MIN <= a <= i64::MAX,
        i64::MIN <= b <= i64::MAX,
    ensures
        -0x4000_0000_0000_0000_0000_0000_0000_0000 <= a * b
            <= 0x4000_0000_0000_0000_0000_0000_0000_0000,
{
}

/// The product of a positive and a nonzero integer is nonzero, with the sign
/// of the nonzero factor.
proof fn lemma_prod_sign(a: int, b: int) by (nonlinear_arith)
    requires
        1 <= a,
        b != 0,
    ensures
        b > 0 ==> a * b >= 1 && b * a >= 1,
        b < 0 ==> a * b <= -1 && b * a <= -1,
{
}

/// `d * trunc_div(x, d)` lies between `0` and `x`, and the quotient itself is
/// bounded by `x` in magnitude.
proof fn lemma_trunc_div_bound(x: int, d: int)
    requires
        d != 0,
    ensures
        x >= 0 ==> 0 <= d * trunc_div(x, d) <= x,
        x < 0 ==> x <= d * trunc_div(x, d) <= 0,
        x >= 0 ==> -x <= trunc_div(x, d) <= x,
        x < 0 ==> x <= trunc_div(x, d) <= -x,
{
    let xa = if x >= 0 { x } else { -x };
    let da = if d >= 0 { d } else { -d };
    if x != 0 {
        lemma_fundamental_div_mod(xa, da);
        assert(0 <= xa % da < da) by (nonlinear_arith)
            requires da >= 1;
        let q = xa / da;
        assert(q >= 0 && da * q <= xa) by (nonlinear_arith)
            requires
                da >= 1,
                xa >= 0,
                xa == da * q + xa % da,
                0 <= xa % da < da,
        ;
        assert(q <= da * q) by (nonlinear_arith)
            requires da >= 1, q >= 0;
        if x > 0 && d > 0 {
            assert(trunc_div(x, d) == q);
        } else if x > 0 && d < 0 {
            assert(trunc_div(x, d) == q * -1);
            assert(d * (q * -1) == da * q) by (nonlinear_arith)
                requires da == -d;
        } else if x < 0 && d > 0 {
            assert(trunc_div(x, d) == q * -1);
            assert(d * (q * -1) == -(da * q)) by (nonlinear_arith)
                requires da == d;
        } else {
            assert(trunc_div(x, d) == q);
            assert(d * q == -(da * q)) by (nonlinear_arith)
                requires da == -d;
        }
    }
}

/// A power of a nonzero base is nonzero.
proof fn lemma_pow_nonzero(b: int, e: nat)
    requires
        b != 0,
    ensures
        pow(b, e) != 0,
    decreases e,
{
    reveal(pow);
    if e > 0 {
        lemma_pow_nonzero(b, (e - 1) as nat);
        assert(b * pow(b, (e - 1) as nat) != 0) by (nonlinear_arith)
            requires b != 0, pow(b, (e - 1) as nat) != 0;
    } else {
        assert(pow(b, 0) == 1);
    }
}

/// If some partial power overflows, every later power check fails too.
proof fn lemma_pow_ok_mono(n: int, d: int, j: nat, e: nat)
    requires
        j <= e,
        pow_ok(n, d, e),
    ensures
        pow_ok(n, d, j),
    decreases e,
{
    if j < e {
        lemma_pow_ok_mono(n, d, j, (e - 1) as nat);
    }
}

impl Number {
    /// The representation invariant: the denominator is positive.
    pub open spec fn wf(self) -> bool {
        1 <= self.den
    }

    /// Rational equality of two representations: `a/b == c/d` iff `a*d == c*b`.
    pub open spec fn ratio_eq(self, other: Number) -> bool {
        self.num * other.den == other.num * self.den
    }

    /// Rational strict order (denominators positive).
    pub open spec fn ratio_lt(self, other: Number) -> bool {
        self.num * other.den < other.num * self.den
    }

    /// Whether the rational is an integer (zero fractional part).
    pub open spec fn is_int_spec(self) -> bool {
        self.num as int % self.den as int == 0
    }

    /// The integer value of an integral rational.
    pub open spec fn int_val(self) -> int {
        self.num as int / self.den as int
    }

    /// The integer `v`, as a rational.
    pub fn from_int(v: i64) -> (r: Number)
        ensures
            r.num == v,
            r.den == 1,
            r.wf(),
    {
        Number { num: v, den: 1 }
    }

    /// A rational from an explicit numerator and positive denominator.
    pub fn new(num: i64, den: i64) -> (r: Number)
        requires
            1 <= den,
        ensures
            r.num == num,
            r.den == den,
            r.wf(),
    {
        Number { num, den }
    }

    /// The exact sum, or `None` when its components do not fit in `i64`.
    pub fn checked_add(self, other: Number) -> (r: Option<Number>)
        requires
            self.wf(),
            other.wf(),
        ensures
            r is Some <==> in_i64(sum_num(self, other)) && in_i64(prod_den(self, other)),
            r matches Some(c) ==> c.wf() && c.num == sum_num(self, other) && c.den == prod_den(
                self,
                other,
            ),
    {
        let an = self.num as i128;
        let ad = self.den as i128;
        let bn = other.num as i128;
        let bd = other.den as i128;
        proof {
            lemma_prod_bound(an as int, bd as int);
            lemma_prod_bound(bn as int, ad as int);
            lemma_prod_bound(ad as int, bd as int);
            lemma_prod_sign(ad as int, bd as int);
        }
        let n = an * bd + bn * ad;
        let d = ad * bd;
        if i64::MIN as i128 <= n && n <= i64::MAX as i128 && d <= i64::MAX as i128 {
            Some(Number { num: n as i64, den: d as i64 })
        } else {
            None
        }
    }

    /// The exact difference, or `None` when it does not fit.
    pub fn checked_sub(self, other: Number) -> (r: Option<Number>)
        requires
            self.wf(),
            other.wf(),
        ensures
            r is Some <==> in_i64(diff_num(self, other)) && in_i64(prod_den(self, other)),
            r matches Some(c) ==> c.wf() && c.num == diff_num(self, other) && c.den == prod_den(
                self,
                other,
            ),
    {
        let an = self.num as i128;
        let ad = self.den as i128;
        let bn = other.num as i128;
        let bd = other.den as i128;
        proof {
            lemma_prod_bound(an as int, bd as int);
            lemma_prod_bound(bn as int, ad as int);
            lemma_prod_bound(ad as int, bd as int);
            lemma_prod_sign(ad as int, bd as int);
        }
        let n = an * bd - bn * ad;
        let d = ad * bd;
        if i64::MIN as i128 <= n && n <= i64::MAX as i128 && d <= i64::MAX as i128 {
            Some(Number { num: n as i64, den: d as i64 })
        } else {
            None
        }
    }

    /// The exact product, or `None` when it does not fit.
    pub fn checked_mul(self, other: Number) -> (r: Option<Number>)
        requires
            self.wf(),
            other.wf(),
        ensures
            r is Some <==> in_i64(prod_num(self, other)) && in_i64(prod_den(self, other)),
            r matches Some(c) ==> c.wf() && c.num == prod_num(self, other) && c.den == prod_den(
                self,
                other,
            ),
    {
        let an = self.num as i128;
        let ad = self.den as i128;
        let bn = other.num as i128;
        let bd = other.den as i128;
        proof {
            lemma_prod_bound_full(an as int, bn as int);
            lemma_prod_bound(ad as int, bd as int);
            lemma_prod_sign(ad as int, bd as int);
        }
        let n = an * bn;
        let d = ad * bd;
        if i64::MIN as i128 <= n && n <= i64::MAX as i128 && d <= i64::MAX as i128 {
            Some(Number { num: n as i64, den: d as i64 })
        } else {
            None
        }
    }

    /// The exact quotient, or `None` on division by zero or when the result
    /// does not fit.
    pub fn checked_div(self, other: Number) -> (r: Option<Number>)
        requires
            self.wf(),
            other.wf(),
        ensures
            r is Some <==> other.num != 0 && in_i64(quot_num(self, other)) && in_i64(
                quot_den(self, other),
            ),
            r matches Some(c) ==> c.wf() && c.num == quot_num(self, other) && c.den == quot_den(
                self,
                other,
            ),
    {
        if other.num == 0 {
            return None;
        }
        let an = self.num as i128;
        let ad = self.den as i128;
        let bn = other.num as i128;
        let bd = other.den as i128;
        proof {
            lemma_prod_bound(an as int, bd as int);
            lemma_prod_bound(bn as int, ad as int);
            lemma_prod_sign(ad as int, bn as int);
        }
        let mut n = an * bd;
        let mut d = ad * bn;
        if d < 0 {
            n = -n;
            d = -d;
        }
        if i64::MIN as i128 <= n && n <= i64::MAX as i128 && d <= i64::MAX as i128 {
            Some(Number { num: n as i64, den: d as i64 })
        } else {
            None
        }
    }

    /// The floating-style remainder `self - other * trunc(self / other)`,
    /// exact over rationals; `None` on a zero divisor or unrepresentable
    /// result.
    pub fn checked_rem(self, other: Number) -> (r: Option<Number>)
        requires
            self.wf(),
            other.wf(),
        ensures
            r is Some <==> other.num != 0 && in_i64(rem_num(self, other)) && in_i64(
                rem_den(self, other),
            ),
            r matches Some(c) ==> c.wf() && c.num == rem_num(self, other) && c.den == rem_den(
                self,
                other,
            ),
    {
        if other.num == 0 {
            return None;
        }
        let an = self.num as i128;
        let ad = self.den as i128;
        let bn = other.num as i128;
        let bd = other.den as i128;
        proof {
            lemma_prod_bound(an as int, bd as int);
            lemma_prod_bound(bn as int, ad as int);
            lemma_prod_bound(ad as int, bd as int);
            lemma_prod_sign(ad as int, bn as int);
            lemma_prod_sign(ad as int, bd as int);
        }
        let x = an * bd;
        let m = ad * bn;
        proof {
            lemma_trunc_div_bound(x as int, m as int);
        }
        let t = x.checked_div(m).unwrap();
        assert(t == trunc_div(x as int, m as int));
        assert(t * m == m * t) by (nonlinear_arith);
        let n = x - t * m;
        let d = ad * bd;
        assert(n == rem_num(self, other)) by {
            assert(t * (bn * ad) == t * m) by (nonlinear_arith)
                requires m == ad * bn;
        }
        if i64::MIN as i128 <= n && n <= i64::MAX as i128 && d <= i64::MAX as i128 {
            Some(Number { num: n as i64, den: d as i64 })
        } else {
            None
        }
    }

    /// The exact integer power `self ** e`; `None` when a partial power does
    /// not fit, or on a negative exponent of zero, or when the reciprocal
    /// does not fit.
    pub fn checked_pow(self, e: i64) -> (r: Option<Number>)
        requires
            self.wf(),
        ensures
            r is Some <==> rat_pow_defined(self.num as int, self.den as int, e as int),
            r matches Some(c) ==> c.wf() && c.num == rat_pow_num(
                self.num as int,
                self.den as int,
                e as int,
            ) && c.den == rat_pow_den(self.num as int, self.den as int, e as int),
    {
        let neg = e < 0;
        if neg && self.num == 0 {
            return None;
        }
        let e_abs: u64 = if e < 0 {
            if e == i64::MIN {
                9223372036854775808u64
            } else {
                (-e) as u64
            }
        } else {
            e as u64
        };
        let ghost m: nat = e_abs as nat;
        let mut j: u64 = 0;
        let mut cn: i64 = 1;
        let mut cd: i64 = 1;
        assert(pow(self.num as int, 0) == 1 && pow(self.den as int, 0) == 1) by {
            reveal(pow);
        }
        while j < e_abs
            invariant
                self.wf(),
                0 <= j <= e_abs,
                m == e_abs as nat,
                e >= 0 ==> m == e as nat,
                e < 0 ==> m == (-(e as int)) as nat,
                pow_ok(self.num as int, self.den as int, j as nat),
                cn == pow(self.num as int, j as nat),
                cd == pow(self.den as int, j as nat),
                1 <= cd,
            decreases e_abs - j,
        {
            proof {
                lemma_prod_bound_full(self.num as int, cn as int);
                lemma_prod_bound(cd as int, self.den as int);
                lemma_prod_sign(cd as int, self.den as int);
            }
            let n2 = (self.num as i128) * (cn as i128);
            let d2 = (self.den as i128) * (cd as i128);
            assert(n2 == pow(self.num as int, (j + 1) as nat) && d2 == pow(
                self.den as int,
                (j + 1) as nat,
            )) by {
                reveal(pow);
            }
            if n2 < i64::MIN as i128 || n2 > i64::MAX as i128 || d2 > i64::MAX as i128 {
                proof {
                    assert(!pow_ok(self.num as int, self.den as int, (j + 1) as nat));
                    if pow_ok(self.num as int, self.den as int, m) {
                        lemma_pow_ok_mono(self.num as int, self.den as int, (j + 1) as nat, m);
                        assert(false);
                    }
                    assert(!pow_ok(self.num as int, self.den as int, m));
                    assert(e >= 0 ==> m == e as nat);
                    assert(e < 0 ==> m == (-(e as int)) as nat);
                }
                return None;
            }
            cn = n2 as i64;
            cd = d2 as i64;
            j = j + 1;
        }
        proof {
            vstd::arithmetic::power::lemma_pow_positive(self.den as int, m);
        }
        if !neg {
            Some(Number { num: cn, den: cd })
        } else {
            proof {
                if cn == 0 {
                    lemma_pow_nonzero(self.num as int, m);
                }
            }
            if cn < 0 {
                if cn == i64::MIN {
                    return None;
                }
                Some(Number { num: -cd, den: -cn })
            } else {
                Some(Number { num: cd, den: cn })
            }
        }
    }

    /// Rational strict comparison `self < other`.
    pub fn less_than(self, other: Number) -> (r: bool)
        requires
            self.wf(),
            other.wf(),
        ensures
            r == self.ratio_lt(other),
    {
        proof {
            lemma_prod_bound(self.num as int, other.den as int);
            lemma_prod_bound(other.num as int, self.den as int);
        }
        (self.num as i128) * (other.den as i128) < (other.num as i128) * (self.den as i128)
    }

    /// Rational comparison `self <= other`.
    pub fn less_eq(self, other: Number) -> (r: bool)
        requires
            self.wf(),
            other.wf(),
        ensures
            r == (self.ratio_lt(other) || self.ratio_eq(other)),
    {
        proof {
            lemma_prod_bound(self.num as int, other.den as int);
            lemma_prod_bound(other.num as int, self.den as int);
        }
        (self.num as i128) * (other.den as i128) <= (other.num as i128) * (self.den as i128)
    }

    /// Whether the rational has zero fractional part.
    pub fn is_int(self) -> (r: bool)
        requires
            self.wf(),
        ensures
            r == self.is_int_spec(),
    {
        proof {
            lemma_neg_mod_zero(self.num as int, self.den as int);
            lemma_mod_division_less_than_divisor(self.num as int, self.den as int);
            lemma_mod_division_less_than_divisor(-(self.num as int), self.den as int);
            if self.num == 0 {
                lemma_small_mod(0nat, self.den as nat);
            }
        }
        let rem = (self.num as i128).checked_rem(self.den as i128).unwrap();
        rem == 0
    }

    /// The integer value of an integral rational.
    pub fn to_i64(self) -> (r: i64)
        requires
            self.wf(),
            self.is_int_spec(),
        ensures
            r == self.int_val(),
            r * self.den == self.num,
    {
        proof {
            lemma_trunc_div_bound(self.num as int, self.den as int);
            lemma_exact_div(self.num as int, self.den as int);
        }
        let t = (self.num as i128).checked_div(self.den as i128).unwrap();
        t as i64
    }
}

impl PartialEq for Number {
    /// Two representations are equal as rationals, by cross-multiplication;
    /// `20/10 == 2/1`.
    fn eq(&self, other: &Number) -> (r: bool) {
        proof {
            lemma_prod_bound_full(self.num as int, other.den as int);
            lemma_prod_bound_full(other.num as int, self.den as int);
        }
        (self.num as i128) * (other.den as i128) == (other.num as i128) * (self.den as i128)
    }
}

impl vstd::std_specs::cmp::PartialEqSpecImpl for Number {
    open spec fn obeys_eq_spec() -> bool {
        true
    }

    open spec fn eq_spec(&self, other: &Number) -> bool {
        self.ratio_eq(*other)
    }
}

/// For a positive modulus, `x` and `-x` are divisible together.
proof fn lemma_neg_mod_zero(x: int, d: int)
    requires
        1 <= d,
    ensures
        ((-x) % d == 0) <==> (x % d == 0),
        (x % d == 0) ==> x == d * (x / d),
{
    lemma_fundamental_div_mod(x, d);
    lemma_fundamental_div_mod(-x, d);
    if x % d == 0 {
        let q = x / d;
        assert(-x == (-q) * d + 0) by (nonlinear_arith)
            requires x == d * q;
        lemma_fundamental_div_mod_converse_mod(-x, d, -q, 0);
    }
    if (-x) % d == 0 {
        let q2 = (-x) / d;
        assert(x == (-q2) * d + 0) by (nonlinear_arith)
            requires -x == d * q2;
        lemma_fundamental_div_mod_converse_mod(x, d, -q2, 0);
    }
}

/// When `d` divides `x` exactly, truncating and Euclidean division agree.
proof fn lemma_exact_div(x: int, d: int)
    requires
        1 <= d,
        x % d == 0,
    ensures
        trunc_div(x, d) == x / d,
        (x / d) * d == x,
        in_i64(x) ==> in_i64(x / d),
{
    lemma_fundamental_div_mod(x, d);
    let q = x / d;
    assert(x == d * q);
    assert((x / d) * d == x) by (nonlinear_arith)
        requires x == d * q, q == x / d;
    if x < 0 {
        // -x == d * (-q), so (-x) / d == -q and the truncating form agrees.
        lemma_div_multiples_vanish(-q, d);
        assert(d * -q == -x) by (nonlinear_arith)
            requires x == d * q;
        assert(trunc_div(x, d) == -((-x) / d));
        assert((-x) / d == -q);
    }
    assert(in_i64(x) ==> in_i64(q)) by (nonlinear_arith)
        requires x == d * q, d >= 1;
}

} // verus!
