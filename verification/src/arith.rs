//! Divisibility and the greatest common divisor, with the lemmas that the
//! fraction operations rest on.

use vstd::prelude::*;
use vstd::arithmetic::div_mod::{
    lemma_fundamental_div_mod, lemma_fundamental_div_mod_converse, lemma_mod_self_0,
    lemma_small_mod,
};

verus! {

/// `d` divides `n` evenly; only positive divisors count.
pub open spec fn divides(d: nat, n: nat) -> bool {
    d > 0 && n % d == 0
}

/// Greatest common divisor, by the Euclidean recursion: replace the pair
/// `(a, b)` with `(b, a % b)` until the second component is zero.
pub open spec fn gcd(a: nat, b: nat) -> nat
    decreases b,
{
    if b == 0 {
        a
    } else {
        gcd(b, a % b)
    }
}

/// Least common multiple of `a` and `b`.
pub open spec fn lcm(a: nat, b: nat) -> nat {
    (a / gcd(a, b)) * b
}

/// A divisor splits its multiple exactly: `n == d * (n / d)`.
pub proof fn lemma_divides_exact(d: nat, n: nat)
    requires
        divides(d, n),
    ensures
        n == d * (n / d),
{
    lemma_fundamental_div_mod(n as int, d as int);
}

/// A product `k * d` is divisible by `d`, and dividing it by `d` recovers `k`.
pub proof fn lemma_mul_divides(k: nat, d: nat)
    requires
        d > 0,
    ensures
        divides(d, k * d),
        (k * d) / d == k,
{
    lemma_fundamental_div_mod_converse((k * d) as int, d as int, k as int, 0);
}

/// A common divisor of `a` and `b` also divides the remainder `a % b`.
pub proof fn lemma_divides_mod(d: nat, a: nat, b: nat)
    requires
        divides(d, a),
        divides(d, b),
        b > 0,
    ensures
        divides(d, a % b),
{
    let q: int = a as int / b as int;
    let r: int = a as int % b as int;
    let ka: int = a as int / d as int;
    let kb: int = b as int / d as int;
    lemma_fundamental_div_mod(a as int, b as int);
    lemma_fundamental_div_mod(a as int, d as int);
    lemma_fundamental_div_mod(b as int, d as int);
    assert(r == (ka - kb * q) * d as int) by (nonlinear_arith)
        requires
            a as int == b as int * q + r,
            a as int == d as int * ka,
            b as int == d as int * kb,
    ;
    lemma_fundamental_div_mod_converse(r, d as int, ka - kb * q, 0);
}

/// A divisor of `b` and of the remainder `a % b` also divides `a`.
pub proof fn lemma_divides_combine(d: nat, a: nat, b: nat)
    requires
        divides(d, b),
        divides(d, a % b),
        b > 0,
    ensures
        divides(d, a),
{
    let q: int = a as int / b as int;
    let r: int = a as int % b as int;
    let kb: int = b as int / d as int;
    let kr: int = r / d as int;
    lemma_fundamental_div_mod(a as int, b as int);
    lemma_fundamental_div_mod(b as int, d as int);
    lemma_fundamental_div_mod(r, d as int);
    assert(a as int == (kb * q + kr) * d as int) by (nonlinear_arith)
        requires
            a as int == b as int * q + r,
            b as int == d as int * kb,
            r == d as int * kr,
    ;
    lemma_fundamental_div_mod_converse(a as int, d as int, kb * q + kr, 0);
}

/// A divisor of a positive number is no larger than it.
pub proof fn lemma_divides_le(d: nat, n: nat)
    requires
        divides(d, n),
        n > 0,
    ensures
        d <= n,
{
    if n < d {
        lemma_small_mod(n, d);
    }
}

/// The greatest common divisor of two positive numbers divides both of them
/// (and is therefore positive itself).
pub proof fn lemma_gcd_divides(a: nat, b: nat)
    requires
        a > 0,
        b > 0,
    ensures
        divides(gcd(a, b), a),
        divides(gcd(a, b), b),
    decreases b,
{
    let r: nat = a % b;
    if r == 0 {
        assert(gcd(a, b) == gcd(b, 0));
        assert(gcd(b, 0) == b);
        lemma_mod_self_0(b as int);
    } else {
        assert(gcd(a, b) == gcd(b, r));
        lemma_gcd_divides(b, r);
        lemma_divides_combine(gcd(a, b), a, b);
    }
}

/// Every common divisor of `a` and `b` divides their greatest common divisor.
pub proof fn lemma_gcd_greatest(d: nat, a: nat, b: nat)
    requires
        a > 0,
        b > 0,
        divides(d, a),
        divides(d, b),
    ensures
        divides(d, gcd(a, b)),
    decreases b,
{
    let r: nat = a % b;
    if r == 0 {
        assert(gcd(a, b) == gcd(b, 0));
        assert(gcd(b, 0) == b);
    } else {
        assert(gcd(a, b) == gcd(b, r));
        lemma_divides_mod(d, a, b);
        lemma_gcd_greatest(d, b, r);
    }
}

/// The greatest common divisor does not depend on the order of its arguments.
pub proof fn lemma_gcd_commutes(a: nat, b: nat)
    requires
        a > 0,
        b > 0,
    ensures
        gcd(a, b) == gcd(b, a),
{
    if a < b {
        lemma_small_mod(a, b);
    } else if b < a {
        lemma_small_mod(b, a);
    } else {
        lemma_mod_self_0(a as int);
    }
}

/// The greatest common divisor of a positive number with itself is that number.
pub proof fn lemma_gcd_self(x: nat)
    requires
        x > 0,
    ensures
        gcd(x, x) == x,
{
    lemma_mod_self_0(x as int);
    assert(gcd(x, x) == gcd(x, 0));
    assert(gcd(x, 0) == x);
}

/// The greatest common divisor divides both arguments, and no common divisor
/// exceeds it.
pub proof fn lemma_gcd_is_greatest(a: nat, b: nat)
    requires
        a > 0,
        b > 0,
    ensures
        divides(gcd(a, b), a),
        divides(gcd(a, b), b),
        forall|d: nat| divides(d, a) && divides(d, b) ==> d <= gcd(a, b),
{
    lemma_gcd_divides(a, b);
    assert forall|d: nat| divides(d, a) && divides(d, b) implies d <= gcd(a, b) by {
        lemma_gcd_greatest(d, a, b);
        lemma_divides_le(d, gcd(a, b));
    }
}

/// Dividing both numbers by their greatest common divisor leaves a pair with
/// no common factor greater than 1.
pub proof fn lemma_gcd_reduce_coprime(a: nat, b: nat)
    requires
        a > 0,
        b > 0,
    ensures
        gcd(a / gcd(a, b), b / gcd(a, b)) == 1,
{
    let g: nat = gcd(a, b);
    lemma_gcd_divides(a, b);
    let a2: nat = a / g;
    let b2: nat = b / g;
    lemma_divides_exact(g, a);
    lemma_divides_exact(g, b);
    assert(a2 > 0 && b2 > 0) by (nonlinear_arith)
        requires
            a == g * a2,
            b == g * b2,
            a > 0,
            b > 0,
    ;
    let h: nat = gcd(a2, b2);
    lemma_gcd_divides(a2, b2);
    lemma_divides_exact(h, a2);
    lemma_divides_exact(h, b2);
    let ka: nat = a2 / h;
    let kb: nat = b2 / h;
    assert(a == ka * (h * g) && b == kb * (h * g)) by (nonlinear_arith)
        requires
            a == g * a2,
            b == g * b2,
            a2 == h * ka,
            b2 == h * kb,
    ;
    assert(h * g > 0) by (nonlinear_arith)
        requires
            h > 0,
            g > 0,
    ;
    lemma_mul_divides(ka, h * g);
    lemma_mul_divides(kb, h * g);
    lemma_gcd_greatest(h * g, a, b);
    lemma_divides_le(h * g, g);
    if h > 1 {
        assert(h * g > g) by (nonlinear_arith)
            requires
                h > 1,
                g > 0,
        ;
    }
}

/// The least common multiple of two positive numbers is a positive multiple
/// of each, and dividing it by either denominator recovers the other side's
/// scaling factor.
pub proof fn lemma_lcm_structure(a: nat, b: nat)
    requires
        a > 0,
        b > 0,
    ensures
        divides(a, lcm(a, b)),
        divides(b, lcm(a, b)),
        lcm(a, b) / a == b / gcd(a, b),
        lcm(a, b) / b == a / gcd(a, b),
        lcm(a, b) / a >= 1,
        lcm(a, b) / b >= 1,
        lcm(a, b) > 0,
{
    let g: nat = gcd(a, b);
    lemma_gcd_divides(a, b);
    lemma_divides_exact(g, a);
    lemma_divides_exact(g, b);
    let ka: nat = a / g;
    let kb: nat = b / g;
    assert(ka > 0 && kb > 0) by (nonlinear_arith)
        requires
            a == g * ka,
            b == g * kb,
            a > 0,
            b > 0,
    ;
    assert(lcm(a, b) == ka * b && lcm(a, b) == kb * a) by (nonlinear_arith)
        requires
            lcm(a, b) == ka * b,
            a == g * ka,
            b == g * kb,
    ;
    lemma_mul_divides(ka, b);
    lemma_mul_divides(kb, a);
}

/// The least common multiple does not depend on the order of its arguments.
pub proof fn lemma_lcm_commutes(a: nat, b: nat)
    requires
        a > 0,
        b > 0,
    ensures
        lcm(a, b) == lcm(b, a),
{
    lemma_gcd_commutes(a, b);
    lemma_lcm_structure(a, b);
    lemma_lcm_structure(b, a);
    let g: nat = gcd(a, b);
    lemma_gcd_divides(a, b);
    lemma_divides_exact(g, a);
    lemma_divides_exact(g, b);
    assert((a / g) * b == (b / g) * a) by (nonlinear_arith)
        requires
            a == g * (a / g),
            b == g * (b / g),
    ;
}

} // verus!
