//! Number-theoretic groundwork for exact rational arithmetic: Euclid's
//! greatest common divisor, its divisibility facts, and the uniqueness of
//! fractions in lowest terms.

use vstd::prelude::*;
use vstd::arithmetic::div_mod::*;
use vstd::arithmetic::mul::*;

verus! {

/// Absolute value of an integer, as a natural number.
pub open spec fn iabs(x: int) -> nat {
    if x < 0 {
        (-x) as nat
    } else {
        x as nat
    }
}

/// Greatest common divisor by Euclid's recursion.
pub open spec fn gcd(a: nat, b: nat) -> nat
    decreases b,
{
    if b == 0 {
        a
    } else {
        gcd(b, a % b)
    }
}

pub proof fn lemma_gcd_pos(a: nat, b: nat)
    requires
        a > 0 || b > 0,
    ensures
        gcd(a, b) > 0,
    decreases b,
{
    if b > 0 {
        lemma_gcd_pos(b, a % b);
    }
}

/// If d divides x and y, it divides x + y.
proof fn lemma_mod_sum_zero(x: int, y: int, d: int)
    requires
        d > 0,
        x % d == 0,
        y % d == 0,
    ensures
        (x + y) % d == 0,
{
    lemma_add_mod_noop(x, y, d);
    lemma_small_mod(0, d as nat);
    assert((0int) % d == 0);
}

/// If d divides x, it divides k * x.
proof fn lemma_mod_mul_zero(x: int, k: int, d: int)
    requires
        d > 0,
        x % d == 0,
    ensures
        (k * x) % d == 0,
{
    lemma_mul_mod_noop_right(k, x, d);
    assert(k * (x % d) == 0) by (nonlinear_arith)
        requires
            x % d == 0,
    ;
    lemma_small_mod(0, d as nat);
    assert((0int) % d == 0);
}

/// The gcd divides both of its arguments.
pub proof fn lemma_gcd_divides(a: nat, b: nat)
    requires
        a > 0 || b > 0,
    ensures
        a % gcd(a, b) == 0,
        b % gcd(a, b) == 0,
    decreases b,
{
    let g = gcd(a, b);
    if b == 0 {
        lemma_mod_self_0(a as int);
        lemma_small_mod(0, a);
    } else {
        lemma_gcd_divides(b, a % b);
        lemma_gcd_pos(b, a % b);
        lemma_fundamental_div_mod(a as int, b as int);
        assert(a == b * (a / b) + a % b);
        lemma_mod_mul_zero(b as int, (a / b) as int, g as int);
        assert(((b * (a / b)) as int) % (g as int) == ((a / b) as int * (b as int)) % (g as int)) by {
            lemma_mul_is_commutative(b as int, (a / b) as int);
        }
        lemma_mod_sum_zero(b as int * ((a / b) as int), (a % b) as int, g as int);
    }
}

/// Any common divisor of a and b divides their gcd.
pub proof fn lemma_common_divisor(a: nat, b: nat, d: nat)
    requires
        d > 0,
        a % d == 0,
        b % d == 0,
    ensures
        gcd(a, b) % d == 0,
    decreases b,
{
    if b == 0 {
    } else {
        lemma_fundamental_div_mod(a as int, b as int);
        assert(a % b == a - b * (a / b));
        lemma_mod_mul_zero(b as int, (a / b) as int, d as int);
        assert(((b * (a / b)) as int) % (d as int) == ((a / b) as int * (b as int)) % (d as int)) by {
            lemma_mul_is_commutative(b as int, (a / b) as int);
        }
        lemma_mod_neg_zero(b as int * ((a / b) as int), d as int);
        lemma_mod_sum_zero(a as int, -(b as int * ((a / b) as int)), d as int);
        lemma_common_divisor(b, a % b, d);
    }
}

/// If d divides -x then it divides x, and conversely.
proof fn lemma_mod_neg_zero(x: int, d: int)
    requires
        d > 0,
        x % d == 0,
    ensures
        (-x) % d == 0,
{
    lemma_mod_mul_zero(x, -1, d);
    assert(-1 * x == -x) by (nonlinear_arith);
}

/// A linear combination of a and b with the given coefficients yields their gcd.
pub open spec fn is_bezout_pair(a: nat, b: nat, x: int, y: int) -> bool {
    a as int * x + b as int * y == gcd(a, b)
}

/// Bezout's identity: some integer combination of a and b equals their gcd.
pub proof fn lemma_bezout(a: nat, b: nat)
    ensures
        exists|x: int, y: int| is_bezout_pair(a, b, x, y),
    decreases b,
{
    if b == 0 {
        assert(is_bezout_pair(a, b, 1, 0));
    } else {
        lemma_bezout(b, a % b);
        let (x0, y0) = choose|x0: int, y0: int| #[trigger] is_bezout_pair(b, a % b, x0, y0);
        lemma_fundamental_div_mod(a as int, b as int);
        let q = (a / b) as int;
        assert((a % b) as int == a as int - b as int * q);
        let x1 = y0;
        let y1 = x0 - q * y0;
        assert(a as int * x1 + b as int * y1 == b as int * x0 + (a as int - b as int * q) * y0)
            by (nonlinear_arith)
            requires
                x1 == y0,
                y1 == x0 - q * y0,
        ;
        assert(is_bezout_pair(a, b, x1, y1));
    }
}

/// Euclid's lemma in the coprime form: if b divides a * c and shares no
/// factor with a, then b divides c.
pub proof fn lemma_coprime_divides(a: nat, b: nat, c: nat)
    requires
        b > 0,
        gcd(a, b) == 1,
        (a * c) % b == 0,
    ensures
        c % b == 0,
{
    lemma_bezout(a, b);
    let (x, y) = choose|x: int, y: int| #[trigger] is_bezout_pair(a, b, x, y);
    assert(a as int * x + b as int * y == 1);
    lemma_fundamental_div_mod((a * c) as int, b as int);
    let k = ((a * c) / b) as int;
    assert((a * c) as int == b as int * k);
    assert(a as int * c as int == (a * c) as int) by (nonlinear_arith);
    assert(c as int == b as int * (k * x + c as int * y)) by (nonlinear_arith)
        requires
            a as int * x + b as int * y == 1,
            a as int * c as int == b as int * k,
    ;
    lemma_mod_multiples_basic(k * x + c as int * y, b as int);
    assert(((k * x + c as int * y) * (b as int)) % (b as int) == 0);
    assert(c as int == (k * x + c as int * y) * (b as int)) by (nonlinear_arith)
        requires
            c as int == b as int * (k * x + c as int * y),
    ;
    assert((c as int) % (b as int) == 0);
}

/// A positive divisor of a positive number is no larger than it.
proof fn lemma_divisor_le(x: nat, d: nat)
    requires
        x > 0,
        d > 0,
        x % d == 0,
    ensures
        d <= x,
{
    lemma_fundamental_div_mod(x as int, d as int);
    assert(x == d * (x / d));
    if x / d == 0 {
        assert(x == 0) by (nonlinear_arith)
            requires
                x == d * (x / d),
                x / d == 0,
        ;
    } else {
        assert(d * (x / d) >= d) by (nonlinear_arith)
            requires
                d > 0,
                x / d >= 1,
        ;
    }
}

/// Dividing both arguments by their gcd leaves coprime numbers.
pub proof fn lemma_gcd_div_coprime(a: nat, b: nat)
    requires
        a > 0 || b > 0,
    ensures
        gcd(a / gcd(a, b), b / gcd(a, b)) == 1,
{
    let g = gcd(a, b);
    lemma_gcd_pos(a, b);
    lemma_gcd_divides(a, b);
    lemma_fundamental_div_mod(a as int, g as int);
    lemma_fundamental_div_mod(b as int, g as int);
    assert(a == g * (a / g));
    assert(b == g * (b / g));
    let h = gcd(a / g, b / g);
    if a > 0 {
        assert(a / g > 0) by (nonlinear_arith)
            requires
                a > 0,
                a == g * (a / g),
        ;
    } else {
        assert(b / g > 0) by (nonlinear_arith)
            requires
                b > 0,
                b == g * (b / g),
        ;
    }
    lemma_gcd_pos(a / g, b / g);
    lemma_gcd_divides(a / g, b / g);
    // a and b are multiples of g * h.
    lemma_fundamental_div_mod((a / g) as int, h as int);
    lemma_fundamental_div_mod((b / g) as int, h as int);
    assert(a == (g * h) * ((a / g) / h)) by (nonlinear_arith)
        requires
            a == g * (a / g),
            a / g == h * ((a / g) / h),
    ;
    assert(b == (g * h) * ((b / g) / h)) by (nonlinear_arith)
        requires
            b == g * (b / g),
            b / g == h * ((b / g) / h),
    ;
    assert(g * h > 0) by (nonlinear_arith)
        requires
            g > 0,
            h > 0,
    ;
    lemma_mod_multiples_basic(((a / g) / h) as int, (g * h) as int);
    lemma_mod_multiples_basic(((b / g) / h) as int, (g * h) as int);
    assert((g as int * h as int) * (((a / g) / h) as int) == ((g * h) as int) * (((a / g) / h)
        as int));
    assert(a % (g * h) == 0);
    assert(b % (g * h) == 0);
    lemma_common_divisor(a, b, g * h);
    lemma_divisor_le(g, g * h);
    assert(h <= 1) by (nonlinear_arith)
        requires
            g > 0,
            h > 0,
            g * h <= g,
    ;
}

/// Two fractions in lowest terms with positive denominators that denote the
/// same value are the same pair.
pub proof fn lemma_reduced_unique(n1: int, d1: int, n2: int, d2: int)
    requires
        d1 > 0,
        d2 > 0,
        gcd(iabs(n1), d1 as nat) == 1,
        gcd(iabs(n2), d2 as nat) == 1,
        n1 * d2 == n2 * d1,
    ensures
        n1 == n2,
        d1 == d2,
{
    if n1 == 0 {
        assert(n2 * d1 == 0);
        assert(n2 == 0) by (nonlinear_arith)
            requires
                n2 * d1 == 0,
                d1 > 0,
        ;
        // gcd(0, d) == d, so both denominators are 1.
        assert(gcd(0, d1 as nat) == gcd(d1 as nat, 0));
        assert(gcd(0, d2 as nat) == gcd(d2 as nat, 0));
        lemma_small_mod(0, d1 as nat);
        lemma_small_mod(0, d2 as nat);
    } else {
        assert(n2 != 0) by (nonlinear_arith)
            requires
                n1 * d2 == n2 * d1,
                n1 != 0,
                d1 > 0,
                d2 > 0,
        ;
        let a1 = iabs(n1);
        let a2 = iabs(n2);
        // Same sign on both sides, so the magnitudes cross-multiply equally.
        assert(a1 * d2 == a2 * d1) by (nonlinear_arith)
            requires
                n1 * d2 == n2 * d1,
                d1 > 0,
                d2 > 0,
                a1 == iabs(n1),
                a2 == iabs(n2),
                n1 != 0,
                n2 != 0,
        ;
        // d1 divides a1 * d2.
        lemma_mod_multiples_basic(a2 as int, d1 as int);
        assert((a1 * d2) as int == d1 as int * a2 as int) by (nonlinear_arith)
            requires
                a1 * d2 == a2 * d1,
        ;
        assert(((a1 * d2) as int) % (d1 as int) == 0);
        assert((a1 * (d2 as nat)) % (d1 as nat) == 0);
        lemma_coprime_divides(a1, d1 as nat, d2 as nat);
        // d2 divides a2 * d1.
        lemma_mod_multiples_basic(a1 as int, d2 as int);
        assert((a2 * d1) as int == d2 as int * a1 as int) by (nonlinear_arith)
            requires
                a1 * d2 == a2 * d1,
        ;
        assert(((a2 * d1) as int) % (d2 as int) == 0);
        assert((a2 * (d1 as nat)) % (d2 as nat) == 0);
        lemma_coprime_divides(a2, d2 as nat, d1 as nat);
        lemma_divisor_le(d2 as nat, d1 as nat);
        lemma_divisor_le(d1 as nat, d2 as nat);
        assert(d1 == d2);
        assert(n1 == n2) by (nonlinear_arith)
            requires
                n1 * d2 == n2 * d1,
                d1 == d2,
                d1 > 0,
        ;
    }
}

} // verus!
