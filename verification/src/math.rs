//! Shared integer arithmetic: a negative-safe modulo, and greatest common
//! divisor / least common multiple with their divisibility theory.

use vstd::prelude::*;
use vstd::arithmetic::div_mod::lemma_fundamental_div_mod;
use vstd::arithmetic::div_mod::lemma_fundamental_div_mod_converse;
use vstd::arithmetic::div_mod::lemma_mod_multiples_vanish;

verus! {

/// `d` divides `n`: some integer multiple of `d` equals `n`.
pub open spec fn divides(d: int, n: int) -> bool {
    exists|k: int| n == #[trigger] (d * k)
}

/// The greatest common divisor, by the Euclidean recursion;
/// `gcd(a, 0) == a`.
pub open spec fn gcd(a: nat, b: nat) -> nat
    decreases b,
{
    if b == 0 {
        a
    } else {
        gcd(b, (a % b) as nat)
    }
}

/// The least common multiple, `a / gcd(a, b) * b`, with the degenerate
/// rule `lcm(0, 0) == 0`.
pub open spec fn lcm(a: nat, b: nat) -> nat {
    if a == 0 && b == 0 {
        0
    } else {
        (a / gcd(a, b)) * b
    }
}

/// The least common multiple of every entry of `s`, folded up from 1.
pub open spec fn lcm_fold(s: Seq<nat>) -> nat
    decreases s.len(),
{
    if s.len() == 0 {
        1
    } else {
        lcm(lcm_fold(s.drop_last()), s.last())
    }
}

/// Every number divides zero.
pub proof fn lemma_divides_zero(d: int)
    ensures
        divides(d, 0),
{
    assert(0 == d * 0);
}

/// Divisibility is reflexive.
pub proof fn lemma_divides_self(d: int)
    ensures
        divides(d, d),
{
    assert(d == d * 1);
}

/// A divisor of `a` and `b` divides any integer combination `a + m * b`.
pub proof fn lemma_divides_linear(e: int, a: int, b: int, m: int)
    requires
        divides(e, a),
        divides(e, b),
    ensures
        divides(e, a + m * b),
{
    let x = choose|x: int| a == #[trigger] (e * x);
    let y = choose|y: int| b == #[trigger] (e * y);
    assert(a + m * b == e * (x + m * y)) by (nonlinear_arith)
        requires
            a == e * x,
            b == e * y,
    ;
}

/// A positive divisor of a positive number is no larger than it.
pub proof fn lemma_divides_le(e: int, a: int)
    requires
        divides(e, a),
        0 < e,
        0 < a,
    ensures
        e <= a,
{
    let k = choose|k: int| a == #[trigger] (e * k);
    assert(k >= 1 && e * k >= e * 1) by (nonlinear_arith)
        requires
            a == e * k,
            0 < e,
            0 < a,
    ;
}

/// The gcd divides both of its arguments.
pub proof fn lemma_gcd_divides(a: nat, b: nat)
    ensures
        divides(gcd(a, b) as int, a as int),
        divides(gcd(a, b) as int, b as int),
    decreases b,
{
    if b == 0 {
        lemma_divides_self(a as int);
        lemma_divides_zero(a as int);
    } else {
        let r = (a % b) as nat;
        lemma_gcd_divides(b, r);
        let g = gcd(b, r) as int;
        let q = a as int / b as int;
        lemma_fundamental_div_mod(a as int, b as int);
        // a == b * (a / b) + r, so g | a as the combination r + (a / b) * b.
        lemma_divides_linear(g, r as int, b as int, q);
        assert(a == r + q * b) by (nonlinear_arith)
            requires
                a == b * q + r,
        ;
    }
}

/// The gcd of two numbers, not both zero, is positive.
pub proof fn lemma_gcd_pos(a: nat, b: nat)
    requires
        a > 0 || b > 0,
    ensures
        gcd(a, b) > 0,
    decreases b,
{
    if b != 0 {
        lemma_gcd_pos(b, (a % b) as nat);
    }
}

/// Any common divisor of `a` and `b` divides their gcd.
pub proof fn lemma_common_divisor_divides_gcd(a: nat, b: nat, e: int)
    requires
        divides(e, a as int),
        divides(e, b as int),
    ensures
        divides(e, gcd(a, b) as int),
    decreases b,
{
    if b == 0 {
    } else {
        let r = (a % b) as nat;
        let q = a as int / b as int;
        lemma_fundamental_div_mod(a as int, b as int);
        // r == a + (-(a / b)) * b, so e | r.
        lemma_divides_linear(e, a as int, b as int, -q);
        assert(r == a + (-q) * b) by (nonlinear_arith)
            requires
                a == b * q + r,
        ;
        lemma_common_divisor_divides_gcd(b, r, e);
    }
}

/// Scaling both operands of a remainder scales the remainder.
proof fn lemma_mod_scale(k: nat, a: nat, b: nat)
    requires
        k > 0,
        b > 0,
    ensures
        (k * a) % (k * b) == k * (a % b),
{
    let q = a as int / b as int;
    let r = a as int % b as int;
    lemma_fundamental_div_mod(a as int, b as int);
    assert(k * a == q * (k * b) + k * r && 0 <= k * r < k * b) by (nonlinear_arith)
        requires
            a == b * q + r,
            0 <= r < b,
            k > 0,
    ;
    lemma_fundamental_div_mod_converse(k * a as int, k * b as int, q, k * r);
}

/// Scaling both operands of the gcd scales the gcd.
pub proof fn lemma_gcd_scale(k: nat, a: nat, b: nat)
    requires
        k > 0,
    ensures
        gcd(k * a, k * b) == k * gcd(a, b),
    decreases b,
{
    if b == 0 {
        assert(k * b == 0) by (nonlinear_arith)
            requires
                b == 0,
        ;
    } else {
        lemma_mod_scale(k, a, b);
        assert(k * b > 0) by (nonlinear_arith)
            requires
                k > 0,
                b > 0,
        ;
        lemma_gcd_scale(k, b, (a % b) as nat);
    }
}

/// An exact quotient: if `d` divides `a`, then `d * (a / d)` recovers `a`.
pub proof fn lemma_div_exact(d: int, a: int)
    requires
        divides(d, a),
        d > 0,
        a >= 0,
    ensures
        a == d * (a / d),
{
    let k = choose|k: int| a == #[trigger] (d * k);
    assert(a == k * d + 0) by (nonlinear_arith)
        requires
            a == d * k,
    ;
    lemma_fundamental_div_mod_converse(a, d, k, 0);
}

/// Dividing two numbers, not both zero, by their gcd leaves exact,
/// coprime quotients.
pub proof fn lemma_gcd_quotients(a: nat, b: nat)
    requires
        a > 0 || b > 0,
    ensures
        gcd(a, b) > 0,
        a == gcd(a, b) * (a / gcd(a, b)),
        b == gcd(a, b) * (b / gcd(a, b)),
        gcd(a / gcd(a, b), b / gcd(a, b)) == 1,
{
    let g = gcd(a, b);
    lemma_gcd_pos(a, b);
    lemma_gcd_divides(a, b);
    lemma_div_exact(g as int, a as int);
    lemma_div_exact(g as int, b as int);
    let x = a / g;
    let y = b / g;
    lemma_gcd_scale(g, x, y);
    assert(gcd(g * x, g * y) == g * gcd(x, y));
    assert(g == g * gcd(x, y));
    assert(gcd(x, y) == 1) by (nonlinear_arith)
        requires
            g == g * gcd(x, y),
            g > 0,
    ;
}

/// Divisibility is indifferent to the sign of the multiple.
pub proof fn lemma_divides_neg(d: int, n: int)
    requires
        divides(d, n),
    ensures
        divides(d, -n),
{
    let k = choose|k: int| n == #[trigger] (d * k);
    assert(-n == d * (-k)) by (nonlinear_arith)
        requires
            n == d * k,
    ;
}

/// Euclid's lemma: if `d` is coprime to `n` and divides `n * m`, it
/// divides `m`.
pub proof fn lemma_coprime_divides(d: nat, n: nat, m: nat)
    requires
        d > 0,
        gcd(n, d) == 1,
        divides(d as int, (n * m) as int),
    ensures
        divides(d as int, m as int),
{
    if m == 0 {
        lemma_divides_zero(d as int);
    } else {
        lemma_gcd_scale(m, n, d);
        assert(m * n == n * m && m * d == d * m && m * gcd(n, d) == m) by (nonlinear_arith)
            requires
                gcd(n, d) == 1,
        ;
        assert(divides(d as int, (m * d) as int)) by {
            assert((m * d) as int == (d as int) * (m as int));
        }
        lemma_common_divisor_divides_gcd(m * n, m * d, d as int);
    }
}

/// The lcm is a common multiple of its arguments.
pub proof fn lemma_lcm_is_common_multiple(a: nat, b: nat)
    ensures
        divides(a as int, lcm(a, b) as int),
        divides(b as int, lcm(a, b) as int),
{
    if a == 0 && b == 0 {
        lemma_divides_zero(0);
    } else {
        let g = gcd(a, b);
        lemma_gcd_quotients(a, b);
        let x = a / g;
        let y = b / g;
        // lcm == x * b == b * x, so b divides it;
        // and x * b == x * (g * y) == a * y, so a divides it.
        assert(lcm(a, b) == b * x && lcm(a, b) == a * y) by (nonlinear_arith)
            requires
                lcm(a, b) == x * b,
                a == g * x,
                b == g * y,
        ;
    }
}

/// Two positive numbers' lcm is positive and at least as large as each.
pub proof fn lemma_lcm_bounds(a: nat, b: nat)
    requires
        a > 0,
        b > 0,
    ensures
        lcm(a, b) >= a,
        lcm(a, b) >= b,
        lcm(a, b) > 0,
{
    let g = gcd(a, b);
    lemma_gcd_quotients(a, b);
    let x = a / g;
    assert(x >= 1 && x * b >= b) by (nonlinear_arith)
        requires
            a == g * x,
            a > 0,
            g > 0,
            b > 0,
    ;
    lemma_lcm_is_common_multiple(a, b);
    lemma_divides_le(a as int, lcm(a, b) as int);
}

/// The lcm divides every common multiple of its arguments: it is least.
pub proof fn lemma_lcm_divides_common_multiple(a: nat, b: nat, m: nat)
    requires
        a > 0,
        b > 0,
        divides(a as int, m as int),
        divides(b as int, m as int),
    ensures
        divides(lcm(a, b) as int, m as int),
{
    if m == 0 {
        lemma_divides_zero(lcm(a, b) as int);
    } else {
        let g = gcd(a, b);
        lemma_gcd_quotients(a, b);
        let x = choose|x: int| m as int == #[trigger] ((a as int) * x);
        let y = choose|y: int| m as int == #[trigger] ((b as int) * y);
        // a * b divides both m * a and m * b.
        assert(m * a == (a * b) * y && m * b == (a * b) * x) by (nonlinear_arith)
            requires
                m == a * x,
                m == b * y,
        ;
        lemma_common_divisor_divides_gcd(m * a, m * b, (a * b) as int);
        lemma_gcd_scale(m, a, b);
        let z = choose|z: int| m * g == #[trigger] (((a * b) as int) * z);
        // lcm * g == a * b, so m * g == (lcm * z) * g; cancel the positive g.
        assert(m == lcm(a, b) * z) by (nonlinear_arith)
            requires
                m * g == ((a * b) as int) * z,
                a == g * ((a / g) as int),
                lcm(a, b) == ((a / g) as int) * b,
                g > 0,
    ;
    }
}

/// Every positive entry divides the fold of the whole sequence, the fold
/// is positive, and it only grows as entries are appended.
pub proof fn lemma_lcm_fold_properties(s: Seq<nat>)
    requires
        forall|i: int| 0 <= i < s.len() ==> s[i] > 0,
    ensures
        lcm_fold(s) > 0,
        forall|i: int| 0 <= i < s.len() ==> divides(s[i] as int, lcm_fold(s) as int),
        s.len() > 0 ==> lcm_fold(s) >= lcm_fold(s.drop_last()),
    decreases s.len(),
{
    if s.len() > 0 {
        let t = s.drop_last();
        lemma_lcm_fold_properties(t);
        lemma_lcm_bounds(lcm_fold(t), s.last());
        lemma_lcm_is_common_multiple(lcm_fold(t), s.last());
        assert forall|i: int| 0 <= i < s.len() implies divides(
            s[i] as int,
            lcm_fold(s) as int,
        ) by {
            if i < s.len() - 1 {
                assert(t[i] == s[i]);
                assert(divides(t[i] as int, lcm_fold(t) as int));
                let k = choose|k: int|
                    lcm_fold(t) as int == #[trigger] ((s[i] as int) * k);
                let k2 = choose|k2: int|
                    lcm_fold(s) as int == #[trigger] ((lcm_fold(t) as int) * k2);
                assert(lcm_fold(s) as int == (s[i] as int) * (k * k2)) by (nonlinear_arith)
                    requires
                        lcm_fold(t) as int == (s[i] as int) * k,
                        lcm_fold(s) as int == (lcm_fold(t) as int) * k2,
                ;
            }
        }
    }
}

/// The fold of a sequence of positive entries divides every common
/// multiple of all its entries.
pub proof fn lemma_lcm_fold_least(s: Seq<nat>, m: nat)
    requires
        forall|i: int| 0 <= i < s.len() ==> s[i] > 0,
        forall|i: int| 0 <= i < s.len() ==> divides(s[i] as int, m as int),
        m > 0,
    ensures
        divides(lcm_fold(s) as int, m as int),
    decreases s.len(),
{
    if s.len() == 0 {
        lemma_divides_self(m as int);
        assert(m == 1 * m);
        assert(divides(1, m as int));
    } else {
        let t = s.drop_last();
        lemma_lcm_fold_properties(t);
        lemma_lcm_fold_least(t, m);
        lemma_lcm_divides_common_multiple(lcm_fold(t), s.last(), m);
    }
}

/// A prefix's fold divides (and so never exceeds) the whole fold.
pub proof fn lemma_lcm_fold_prefix(s: Seq<nat>, j: int)
    requires
        forall|i: int| 0 <= i < s.len() ==> s[i] > 0,
        0 <= j <= s.len(),
    ensures
        divides(lcm_fold(s.take(j)) as int, lcm_fold(s) as int),
        lcm_fold(s.take(j)) <= lcm_fold(s),
{
    let t = s.take(j);
    lemma_lcm_fold_properties(s);
    assert(forall|i: int| 0 <= i < t.len() ==> t[i] == s[i]);
    lemma_lcm_fold_properties(t);
    lemma_lcm_fold_least(t, lcm_fold(s));
    lemma_divides_le(lcm_fold(t) as int, lcm_fold(s) as int);
}

/// The standard Euclidean recursion for the greatest common divisor,
/// with `gcd(x, 0) == x`; arguments are taken non-negative.
pub fn greatest_common_divisor(value1: i32, value2: i32) -> (r: i32)
    requires
        value1 >= 0,
        value2 >= 0,
    ensures
        r == gcd(value1 as nat, value2 as nat),
    decreases value2,
{
    if value1 == 0 {
        proof {
            lemma_gcd_zero_left(value2 as nat);
        }
        return value2;
    }
    if value2 == 0 {
        return value1;
    }

    greatest_common_divisor(value2, value1 % value2)
}

/// The true mathematical (Euclidean) modulo, well defined for negative
/// values too: the result is always in `[0, divider)`.
pub fn neg_modulo(value: i32, divider: u32) -> (r: u32)
    requires
        divider >= 1,
    ensures
        r == value as int % divider as int,
{
    let d = divider as i64;
    if value < 0 {
        let v = value as i64;
        // Shift the value up by enough multiples of the divider to make it
        // non-negative before taking the remainder.
        let multi = (-v) / d + 1;
        proof {
            let vi = v as int;
            let di = d as int;
            lemma_fundamental_div_mod(-vi, di);
            assert(0 <= vi + multi * di <= di) by (nonlinear_arith)
                requires
                    multi == (-vi) / di + 1,
                    -vi == di * ((-vi) / di) + (-vi) % di,
                    0 <= (-vi) % di < di,
            ;
            lemma_mod_multiples_vanish(multi as int, vi, di);
        }
        let shifted = v + multi * d;
        (shifted % d) as u32
    } else {
        (value as u32) % divider
    }
}

/// The least common multiple as `value1 / gcd * value2`, with
/// `lcm(0, 0) == 0`; arguments are taken non-negative.
pub fn least_common_multiple(value1: i32, value2: i32) -> (r: i32)
    requires
        value1 >= 0,
        value2 >= 0,
        lcm(value1 as nat, value2 as nat) <= i32::MAX,
    ensures
        r == lcm(value1 as nat, value2 as nat),
{
    if (value1 == 0) && (value2 == 0) {
        return 0;
    }

    let g = greatest_common_divisor(value1, value2);
    proof {
        lemma_gcd_pos(value1 as nat, value2 as nat);
        assert(value1 as int / g as int == value1 as nat / g as nat);
    }
    (value1 / g) * value2
}

/// Folds `least_common_multiple` over at least two values, rejecting
/// zeroes; mirrors the pairwise lcm but over a whole collection.
pub fn least_common_multiple_of_vec(vec: &Vec<i32>) -> (r: Result<i32, &'static str>)
    requires
        forall|i: int| 0 <= i < vec@.len() ==> #[trigger] vec@[i] >= 0,
        forall|j: int|
            0 <= j <= vec@.len() && (forall|i: int| 0 <= i < j ==> #[trigger] vec@[i] != 0)
                ==> #[trigger] lcm_fold(seq_as_nats(vec@.take(j))) <= i32::MAX,
    ensures
        vec@.len() < 2 ==> r == Result::<i32, &'static str>::Err(
            "vec should at least contain 2 values",
        ),
        vec@.len() >= 2 && (exists|i: int| 0 <= i < vec@.len() && vec@[i] == 0) ==> r
            == Result::<i32, &'static str>::Err("vec should not contain 0"),
        vec@.len() >= 2 && (forall|i: int| 0 <= i < vec@.len() ==> #[trigger] vec@[i] != 0)
            ==> r == Result::<i32, &'static str>::Ok(lcm_fold(seq_as_nats(vec@)) as i32),
{
    if vec.len() < 2 {
        return Err("vec should at least contain 2 values");
    }
    let mut value: i32 = 1;
    let mut idx: usize = 0;
    proof {
        assert(vec@.take(0) =~= Seq::<i32>::empty());
        assert(seq_as_nats(vec@.take(0)) =~= Seq::<nat>::empty());
    }
    while idx < vec.len()
        invariant
            0 <= idx <= vec@.len(),
            vec@.len() >= 2,
            forall|i: int| 0 <= i < vec@.len() ==> #[trigger] vec@[i] >= 0,
            forall|j: int|
                0 <= j <= vec@.len() && (forall|i: int| 0 <= i < j ==> #[trigger] vec@[i] != 0)
                    ==> #[trigger] lcm_fold(seq_as_nats(vec@.take(j))) <= i32::MAX,
            forall|i: int| 0 <= i < idx ==> #[trigger] vec@[i] != 0,
            value == lcm_fold(seq_as_nats(vec@.take(idx as int))),
            value >= 1,
        decreases vec@.len() - idx,
    {
        let v = vec[idx];
        if v == 0 {
            return Err("vec should not contain 0");
        }
        proof {
            let pre = seq_as_nats(vec@.take(idx as int));
            let post = seq_as_nats(vec@.take(idx + 1));
            assert(post.drop_last() =~= pre);
            assert(post.last() == v as nat);
            lemma_fold_entries_positive(vec@.take(idx + 1));
            lemma_lcm_fold_properties(post);
            lemma_lcm_bounds(value as nat, v as nat);
        }
        value = least_common_multiple(value, v);
        idx = idx + 1;
    }
    proof {
        assert(vec@.take(vec@.len() as int) =~= vec@);
    }
    Ok(value)
}

/// The entries of `s`, read as natural numbers.
pub open spec fn seq_as_nats(s: Seq<i32>) -> Seq<nat> {
    s.map(|_i: int, v: i32| v as nat)
}

/// A sequence of non-zero, non-negative entries maps to positive naturals.
proof fn lemma_fold_entries_positive(s: Seq<i32>)
    requires
        forall|i: int| 0 <= i < s.len() ==> #[trigger] s[i] >= 0,
        forall|i: int| 0 <= i < s.len() ==> #[trigger] s[i] != 0,
    ensures
        forall|i: int| 0 <= i < seq_as_nats(s).len() ==> #[trigger] seq_as_nats(s)[i] > 0,
{
}

/// `gcd(0, b) == b`: one unfolding beyond the defining recursion.
pub proof fn lemma_gcd_zero_left(b: nat)
    ensures
        gcd(0, b) == b,
{
    if b != 0 {
        assert(0nat % b == 0) by (nonlinear_arith)
            requires
                b > 0,
        ;
        assert(gcd(0, b) == gcd(b, 0));
    }
}

} // verus!
