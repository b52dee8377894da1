//! An exact fraction type for musical time: a signed numerator over a
//! positive denominator, always stored in lowest terms. No floating point
//! is involved anywhere, so exactness survives arbitrarily many additions.

use vstd::prelude::*;
use vstd::arithmetic::div_mod::lemma_fundamental_div_mod_converse;
use crate::math::divides;
use crate::math::gcd;
use crate::math::lemma_coprime_divides;
use crate::math::lemma_divides_le;
use crate::math::lemma_divides_neg;
use crate::math::lemma_gcd_divides;
use crate::math::lemma_gcd_zero_left;
use crate::math::lemma_gcd_quotients;

verus! {

/// The magnitude of an integer, as a natural number.
pub open spec fn int_abs(x: int) -> nat {
    if x >= 0 {
        x as nat
    } else {
        (-x) as nat
    }
}

/// An exact fraction in lowest terms; the sign lives in the numerator.
#[derive(Clone, Copy, PartialEq, Eq, Structural, Debug)]
pub struct Rational {
    num: i128,
    den: i128,
}

impl Rational {
    /// The numerator of the stored (reduced) form.
    pub closed spec fn num(self) -> int {
        self.num as int
    }

    /// The denominator of the stored (reduced) form.
    pub closed spec fn den(self) -> int {
        self.den as int
    }

    /// Well-formed: positive denominator, fraction in lowest terms.
    pub open spec fn wf(self) -> bool {
        &&& self.den() >= 1
        &&& gcd(int_abs(self.num()), self.den() as nat) == 1
    }

    /// `self` and `other` denote the same fraction (by cross-multiplication).
    pub open spec fn same_value(self, other: Rational) -> bool {
        self.num() * other.den() == other.num() * self.den()
    }

    /// The fraction `self` is strictly below `other`.
    pub open spec fn spec_lt(self, other: Rational) -> bool {
        self.num() * other.den() < other.num() * self.den()
    }
}

/// The reduced representative of the fraction `num / den` (`den >= 1`):
/// the value every constructor and arithmetic result is normalized to.
pub closed spec fn frac(num: int, den: int) -> Rational {
    let g = gcd(int_abs(num), den as nat) as int;
    Rational { num: (num / g) as i128, den: (den / g) as i128 }
}

/// What `frac` yields: the well-formed fraction with the same value,
/// whose parts divide (and so never exceed) the given ones.
pub proof fn lemma_frac_props(num: int, den: int)
    requires
        1 <= den <= i128::MAX,
        -i128::MAX <= num <= i128::MAX,
    ensures
        frac(num, den).wf(),
        frac(num, den).num() * den == num * frac(num, den).den(),
        divides(frac(num, den).den(), den),
        1 <= frac(num, den).den() <= den,
        num >= 0 ==> 0 <= frac(num, den).num() <= num,
        num < 0 ==> num <= frac(num, den).num() < 0,
        num == 0 ==> frac(num, den).num() == 0 && frac(num, den).den() == 1,
{
    let mag = int_abs(num) as int;
    let g = gcd(int_abs(num), den as nat) as int;
    lemma_gcd_quotients(int_abs(num), den as nat);
    lemma_gcd_divides(int_abs(num), den as nat);
    lemma_divides_le(g, den);
    assert(mag as nat / g as nat == mag / g);
    assert(den as nat / g as nat == den / g);
    if mag > 0 {
        lemma_divides_le(g, mag);
    }
    let q = mag / g;
    let d = den / g;
    assert(q * den == mag * d && (-q) * den == (-mag) * d && q <= mag && 1 <= d <= den && den == d
        * g && (mag > 0 ==> q > 0)) by (nonlinear_arith)
        requires
            mag == g * q,
            den == g * d,
            g >= 1,
            mag >= 0,
            den >= 1,
            q >= 0,
            d >= 0,
    ;
    if num < 0 {
        assert(num / g == -q) by {
            assert(num == g * (-q)) by (nonlinear_arith)
                requires
                    -num == g * q,
            ;
            lemma_fundamental_div_mod_converse(num, g, -q, 0);
            assert((-q) * g + 0 == g * (-q)) by (nonlinear_arith);
        }
    }
    if num == 0 {
        lemma_gcd_zero_left(den as nat);
        vstd::arithmetic::div_mod::lemma_div_by_self(den);
        assert(0int / den == 0) by (nonlinear_arith)
            requires
                den >= 1,
        ;
    }
}

/// Euclidean gcd on non-negative machine integers.
fn gcd_i128(a: i128, b: i128) -> (r: i128)
    requires
        a >= 0,
        b >= 0,
    ensures
        r == gcd(a as nat, b as nat),
    decreases b,
{
    if b == 0 {
        a
    } else {
        gcd_i128(b, a % b)
    }
}

impl Rational {
    /// Divide numerator and denominator by their gcd, giving the unique
    /// representative in lowest terms of the same fraction.
    fn normalize(num: i128, den: i128) -> (r: Rational)
        requires
            den >= 1,
            num > i128::MIN,
        ensures
            r.wf(),
            r == frac(num as int, den as int),
            r.num() * den == num * r.den(),
            divides(r.den(), den as int),
            r.den() <= den,
            num >= 0 ==> 0 <= r.num() <= num,
            num < 0 ==> num <= r.num() < 0,
            num == 0 ==> r.num() == 0 && r.den() == 1,
    {
        let mag = if num >= 0 {
            num
        } else {
            -num
        };
        let g = gcd_i128(mag, den);
        proof {
            lemma_gcd_quotients(mag as nat, den as nat);
            lemma_gcd_divides(mag as nat, den as nat);
            lemma_divides_le(g as int, den as int);
            assert(mag as int / g as int == mag as nat / g as nat);
            assert(den as int / g as int == den as nat / g as nat);
            if mag > 0 {
                lemma_divides_le(g as int, mag as int);
            }
        }
        let q = mag / g;
        let d = den / g;
        let n = if num >= 0 {
            q
        } else {
            -q
        };
        proof {
            // mag == g * q and den == g * d, so q * den == mag * d.
            assert(q * den == mag * d && (-q) * den == (-mag) * d && q <= mag && 1 <= d <= den
                && den == d * g && (mag > 0 ==> q > 0)) by (nonlinear_arith)
                requires
                    mag == g * q,
                    den == g * d,
                    g >= 1,
                    mag >= 0,
                    den >= 1,
                    q >= 0,
                    d >= 0,
            ;
            if num == 0 {
                lemma_gcd_zero_left(den as nat);
                vstd::arithmetic::div_mod::lemma_div_by_self(den as int);
            }
        }
        let result = Rational { num: n, den: d };
        proof {
            let f = frac(num as int, den as int);
            lemma_frac_props(num as int, den as int);
            assert(result.num() * f.den() == f.num() * result.den()) by (nonlinear_arith)
                requires
                    result.num() * den == num * result.den(),
                    f.num() * den == num * f.den(),
                    den >= 1,
            ;
            lemma_reduced_unique(result, f);
        }
        result
    }

    /// The reduced fraction `nominator / denominator`.
    pub fn from_u32s(nominator: u32, denominator: u32) -> (r: Rational)
        requires
            denominator >= 1,
        ensures
            r.wf(),
            r == frac(nominator as int, denominator as int),
            r.num() * denominator == nominator * r.den(),
            divides(r.den(), denominator as int),
            0 <= r.num() <= nominator,
            1 <= r.den() <= denominator,
    {
        Rational::normalize(nominator as i128, denominator as i128)
    }

    /// Exact addition: the result denotes precisely the sum of the two
    /// fractions, again in lowest terms.
    pub fn add(self, other: Rational) -> (r: Rational)
        requires
            self.wf(),
            other.wf(),
            -i128::MAX <= self.num() * other.den() <= i128::MAX,
            -i128::MAX <= other.num() * self.den() <= i128::MAX,
            -i128::MAX <= self.num() * other.den() + other.num() * self.den() <= i128::MAX,
            self.den() * other.den() <= i128::MAX,
        ensures
            r.wf(),
            r == frac(
                self.num() * other.den() + other.num() * self.den(),
                self.den() * other.den(),
            ),
            r.num() * (self.den() * other.den()) == (self.num() * other.den() + other.num()
                * self.den()) * r.den(),
            divides(r.den(), self.den() * other.den()),
            r.den() <= self.den() * other.den(),
            int_abs(r.num()) <= int_abs(self.num() * other.den() + other.num() * self.den()),
    {
        proof {
            assert(self.den() * other.den() >= 1) by (nonlinear_arith)
                requires
                    self.den() >= 1,
                    other.den() >= 1,
            ;
        }
        let n = self.num * other.den + other.num * self.den;
        let d = self.den * other.den;
        Rational::normalize(n, d)
    }

    /// Exact subtraction, `self - other`.
    pub fn sub(self, other: Rational) -> (r: Rational)
        requires
            self.wf(),
            other.wf(),
            -i128::MAX <= self.num() * other.den() <= i128::MAX,
            -i128::MAX <= other.num() * self.den() <= i128::MAX,
            -i128::MAX <= self.num() * other.den() - other.num() * self.den() <= i128::MAX,
            self.den() * other.den() <= i128::MAX,
        ensures
            r.wf(),
            r == frac(
                self.num() * other.den() - other.num() * self.den(),
                self.den() * other.den(),
            ),
            r.num() * (self.den() * other.den()) == (self.num() * other.den() - other.num()
                * self.den()) * r.den(),
            divides(r.den(), self.den() * other.den()),
            r.den() <= self.den() * other.den(),
            int_abs(r.num()) <= int_abs(self.num() * other.den() - other.num() * self.den()),
    {
        proof {
            assert(self.den() * other.den() >= 1) by (nonlinear_arith)
                requires
                    self.den() >= 1,
                    other.den() >= 1,
            ;
        }
        let n = self.num * other.den - other.num * self.den;
        let d = self.den * other.den;
        Rational::normalize(n, d)
    }

    /// Exact order: `self < other` as fractions, decided by
    /// cross-multiplication.
    pub fn lt(self, other: Rational) -> (r: bool)
        requires
            self.wf(),
            other.wf(),
            -i128::MAX <= self.num() * other.den() <= i128::MAX,
            -i128::MAX <= other.num() * self.den() <= i128::MAX,
        ensures
            r == self.spec_lt(other),
    {
        self.num * other.den < other.num * self.den
    }
}

/// Lowest terms are unique: two well-formed fractions denoting the same
/// value are equal outright.
pub proof fn lemma_reduced_unique(a: Rational, b: Rational)
    requires
        a.wf(),
        b.wf(),
        a.same_value(b),
    ensures
        a == b,
{
    lemma_den_divides_common_denominator(a, b);
    lemma_den_divides_common_denominator(b, a);
    lemma_divides_le(a.den(), b.den());
    lemma_divides_le(b.den(), a.den());
    assert(a.den() == b.den());
    assert(a.num() == b.num()) by (nonlinear_arith)
        requires
            a.num() * b.den() == b.num() * a.den(),
            a.den() == b.den(),
            a.den() >= 1,
    ;
}

/// The denominator of a reduced fraction divides the denominator of any
/// other fraction with the same value.
proof fn lemma_den_divides_common_denominator(a: Rational, b: Rational)
    requires
        a.wf(),
        b.wf(),
        a.same_value(b),
    ensures
        divides(a.den(), b.den()),
{
    lemma_reduced_den_divides(a, b.den(), b.num());
}

/// If a reduced fraction taken `d` times is an integer (that is,
/// `r.num() * d == m * r.den()` for some integer `m`), then the reduced
/// denominator divides `d`.
pub proof fn lemma_reduced_den_divides(a: Rational, d2: int, m2: int)
    requires
        a.wf(),
        d2 >= 1,
        a.num() * d2 == m2 * a.den(),
    ensures
        divides(a.den(), d2),
{
    let b_den = d2;
    let b_num = m2;
    let d = a.den() as nat;
    let n = int_abs(a.num());
    let m = d2 as nat;
    if a.num() == 0 {
        // A reduced zero has denominator 1, which divides everything.
        lemma_gcd_zero_left(d);
        assert(divides(1int, b_den)) by {
            assert(b_den == 1int * b_den);
        }
    } else {
        // a.den() divides a.num() * d2 (it equals m2 * a.den());
        // coprimality of a's parts lets the denominator pass to d2.
        assert(divides(a.den(), a.num() * b_den)) by {
            assert(a.num() * b_den == a.den() * b_num) by (nonlinear_arith)
                requires
                    a.num() * b_den == b_num * a.den(),
            ;
        }
        assert((n * m) as int == a.num() * b_den || (n * m) as int == -(a.num() * b_den))
            by (nonlinear_arith)
            requires
                n == int_abs(a.num()),
                m == b_den,
                b_den >= 1,
        ;
        if (n * m) as int != a.num() * b_den {
            lemma_divides_neg(a.den(), a.num() * b_den);
        }
        lemma_coprime_divides(d, n, m);
    }
}

impl Rational {
    /// The numerator of the stored reduced form, as a machine integer.
    pub fn numerator(self) -> (n: i128)
        ensures
            n == self.num(),
    {
        self.num
    }

    /// The denominator of the stored reduced form, as a machine integer.
    pub fn denominator(self) -> (d: i128)
        ensures
            d == self.den(),
    {
        self.den
    }
}

/// Comparison can be read off any representation of the two fractions:
/// if `a` denotes `n1 / d1` and `b` denotes `n2 / d2`, then `a < b`
/// exactly when `n1 * d2 < n2 * d1`.
pub proof fn lemma_lt_iff(a: Rational, n1: int, d1: int, b: Rational, n2: int, d2: int)
    requires
        a.wf(),
        b.wf(),
        d1 >= 1,
        d2 >= 1,
        a.num() * d1 == n1 * a.den(),
        b.num() * d2 == n2 * b.den(),
    ensures
        a.spec_lt(b) <==> n1 * d2 < n2 * d1,
{
    assert((a.num() * b.den() < b.num() * a.den()) <==> (n1 * d2 < n2 * d1)) by (nonlinear_arith)
        requires
            a.num() * d1 == n1 * a.den(),
            b.num() * d2 == n2 * b.den(),
            a.den() >= 1,
            b.den() >= 1,
            d1 >= 1,
            d2 >= 1,
    ;
}

/// Any two constructions denoting the same fraction reduce to the very
/// same value: `frac(n1, d1)` and `frac(n2, d2)` are equal (and so in
/// particular compare equal under the fraction ordering) whenever
/// `n1 / d1 == n2 / d2` as mathematical rationals.
pub proof fn lemma_same_fraction_unique(n1: int, d1: int, n2: int, d2: int)
    requires
        1 <= d1 <= i128::MAX,
        1 <= d2 <= i128::MAX,
        -i128::MAX <= n1 <= i128::MAX,
        -i128::MAX <= n2 <= i128::MAX,
        n1 * d2 == n2 * d1,
    ensures
        frac(n1, d1) == frac(n2, d2),
{
    let a = frac(n1, d1);
    let b = frac(n2, d2);
    lemma_frac_props(n1, d1);
    lemma_frac_props(n2, d2);
    assert(a.num() * b.den() == b.num() * a.den()) by (nonlinear_arith)
        requires
            a.num() * d1 == n1 * a.den(),
            b.num() * d2 == n2 * b.den(),
            n1 * d2 == n2 * d1,
            a.den() >= 1,
            b.den() >= 1,
            d1 >= 1,
            d2 >= 1,
    ;
    lemma_reduced_unique(a, b);
}

/// One exact accumulation step: if `a` denotes `k / n` and `step`
/// denotes `1 / n`, their sum denotes `(k + 1) / n` -- with no drift,
/// however `a` and the sum happen to be represented.
pub proof fn lemma_unit_step(a: Rational, step: Rational, r: Rational, k: int, n: int)
    requires
        a.wf(),
        step.wf(),
        r.wf(),
        n >= 1,
        a.num() * n == k * a.den(),
        step.num() * n == step.den(),
        r.num() * (a.den() * step.den()) == (a.num() * step.den() + step.num() * a.den())
            * r.den(),
    ensures
        r.num() * n == (k + 1) * r.den(),
{
    assert(r.num() * n == (k + 1) * r.den()) by (nonlinear_arith)
        requires
            a.num() * n == k * a.den(),
            step.num() * n == step.den(),
            r.num() * (a.den() * step.den()) == (a.num() * step.den() + step.num() * a.den())
                * r.den(),
            a.den() >= 1,
            step.den() >= 1,
            r.den() >= 1,
            n >= 1,
    ;
}

/// Exactness under repeated addition: a chain that starts at zero and
/// advances `n` times by exactly `1 / n` ends at exactly one. The chain
/// is given by its intermediate values; each link is the sum of the
/// previous value and the step, as `Rational::add` produces it.
pub proof fn lemma_repeated_unit_steps(chain: Seq<Rational>, step: Rational, n: int)
    requires
        n >= 1,
        step.wf(),
        step.num() * n == step.den(),
        chain.len() == n + 1,
        forall|i: int| 0 <= i <= n ==> (#[trigger] chain[i]).wf(),
        chain[0].num() == 0,
        forall|i: int|
            0 <= i < n ==> (#[trigger] chain[i + 1]).num() * (chain[i].den() * step.den()) == (
            chain[i].num() * step.den() + step.num() * chain[i].den()) * chain[i + 1].den(),
    ensures
        chain[n as int].num() == chain[n as int].den(),
{
    assert forall|i: int| 0 <= i <= n implies (#[trigger] chain[i]).num() * n == i * chain[i].den() by {
        lemma_chain_position(chain, step, n, i);
    }
    assert(chain[n as int].num() * n == n * chain[n as int].den());
    assert(chain[n as int].num() == chain[n as int].den()) by (nonlinear_arith)
        requires
            chain[n as int].num() * n == n * chain[n as int].den(),
            n >= 1,
    ;
}

/// Position `i` of such a chain denotes exactly `i / n`.
proof fn lemma_chain_position(chain: Seq<Rational>, step: Rational, n: int, i: int)
    requires
        n >= 1,
        step.wf(),
        step.num() * n == step.den(),
        chain.len() == n + 1,
        forall|j: int| 0 <= j <= n ==> (#[trigger] chain[j]).wf(),
        chain[0].num() == 0,
        forall|j: int|
            0 <= j < n ==> (#[trigger] chain[j + 1]).num() * (chain[j].den() * step.den()) == (
            chain[j].num() * step.den() + step.num() * chain[j].den()) * chain[j + 1].den(),
        0 <= i <= n,
    ensures
        chain[i].num() * n == i * chain[i].den(),
    decreases i,
{
    if i > 0 {
        let j = i - 1;
        lemma_chain_position(chain, step, n, j);
        assert(chain[j + 1].num() * (chain[j].den() * step.den()) == (chain[j].num() * step.den()
            + step.num() * chain[j].den()) * chain[j + 1].den());
        lemma_unit_step(chain[j], step, chain[i], j, n);
    }
}

} // verus!
