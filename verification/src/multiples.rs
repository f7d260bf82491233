//! Least common multiples of 32-bit numbers.

use vstd::prelude::*;

verus! {

/// Greatest common divisor by Euclid's algorithm.
pub open spec fn gcd(a: nat, b: nat) -> nat
    decreases b,
{
    if b == 0 {
        a
    } else {
        gcd(b, a % b)
    }
}

/// Least common multiple, cut off at `u32::MAX`. If one of the numbers is zero, the other.
pub open spec fn lcm(a: u32, b: u32) -> u32 {
    if a == 0 {
        b
    } else if b == 0 {
        a
    } else {
        let m = a as nat / gcd(a as nat, b as nat) * b as nat;
        if m > u32::MAX {
            u32::MAX
        } else {
            m as u32
        }
    }
}

/// The numbers folded into one by [`lcm`], from left to right, starting with 1.
pub open spec fn fold_lcm(ks: Seq<u32>) -> u32
    decreases ks.len(),
{
    if ks.len() == 0 {
        1
    } else {
        lcm(fold_lcm(ks.drop_last()), ks.last())
    }
}

/// Greatest common divisor.
pub fn greatest_common_divisor(a: u32, b: u32) -> (r: u32)
    ensures
        r == gcd(a as nat, b as nat),
{
    let mut x: u32 = a;
    let mut y: u32 = b;
    while y != 0
        invariant
            gcd(x as nat, y as nat) == gcd(a as nat, b as nat),
        decreases y,
    {
        let t: u32 = y;
        y = x % y;
        x = t;
    }
    x
}

/// Least common multiple, cut off at `u32::MAX`. If one of the numbers is zero, the other.
pub fn least_common_multiple(a: u32, b: u32) -> (r: u32)
    ensures
        r == lcm(a, b),
{
    if a == 0 {
        return b;
    }
    if b == 0 {
        return a;
    }
    proof {
        gcd_divides(a as nat, b as nat);
    }
    let g: u32 = greatest_common_divisor(a, b);
    let q: u32 = a / g;
    proof {
        assert(q as nat * b as nat <= u64::MAX) by (nonlinear_arith)
            requires
                q <= u32::MAX,
                b <= u32::MAX,
        ;
    }
    let m: u64 = q as u64 * b as u64;
    if m > u32::MAX as u64 {
        u32::MAX
    } else {
        m as u32
    }
}

/// Whether `d` divides `n`.
pub open spec fn divides(d: nat, n: nat) -> bool {
    exists|q: nat| n == #[trigger] (d * q)
}

proof fn gcd_divides(a: nat, b: nat)
    requires
        a > 0 || b > 0,
    ensures
        gcd(a, b) > 0,
        divides(gcd(a, b), a),
        divides(gcd(a, b), b),
    decreases b,
{
    if b == 0 {
        assert(a == a * 1nat);
        assert(b == a * 0nat);
    } else {
        let g = gcd(b, a % b);
        gcd_divides(b, a % b);
        let p = choose|q: nat| b == #[trigger] (g * q);
        let r = choose|q: nat| a % b == #[trigger] (g * q);
        let t = a / b;
        assert(a == g * (p * t + r)) by (nonlinear_arith)
            requires
                b == g * p,
                a % b == g * r,
                t == a / b,
                b > 0,
        {
            assert(a == b * (a / b) + a % b);
        }
        assert(divides(g, a));
    }
}

/// Coefficients that write the greatest common divisor as a combination of the two numbers.
spec fn bezout(a: nat, b: nat) -> (int, int)
    decreases b,
{
    if b == 0 {
        (1, 0)
    } else {
        let (x, y) = bezout(b, a % b);
        (y, x - (a / b) * y)
    }
}

proof fn bezout_identity(a: nat, b: nat)
    ensures
        a * bezout(a, b).0 + b * bezout(a, b).1 == gcd(a, b),
    decreases b,
{
    if b > 0 {
        bezout_identity(b, a % b);
        let (x, y) = bezout(b, a % b);
        let q = (a / b) as int;
        let r = (a % b) as int;
        let ia = a as int;
        let ib = b as int;
        assert(ia == ib * q + r) by (nonlinear_arith)
            requires
                q == ia / ib,
                r == ia % ib,
                ib > 0,
        ;
        assert(ia * y + ib * (x - q * y) == ib * x + r * y) by (nonlinear_arith)
            requires
                ia == ib * q + r,
        ;
        assert(bezout(a, b) == (y, x - q * y));
        assert(ib * x + r * y == gcd(b, a % b));
    } else {
        assert(bezout(a, b) == (1int, 0int));
        assert(a * 1int + b * 0int == a);
    }
}

/// The uncut least common multiple of two positive numbers.
pub open spec fn exact_lcm(a: nat, b: nat) -> nat {
    a / gcd(a, b) * b
}

/// Both numbers divide their least common multiple, and it divides every common multiple.
pub proof fn lcm_is_least(a: nat, b: nat, n: nat)
    requires
        a > 0,
        b > 0,
    ensures
        exact_lcm(a, b) > 0,
        divides(a, exact_lcm(a, b)),
        divides(b, exact_lcm(a, b)),
        divides(a, n) && divides(b, n) ==> divides(exact_lcm(a, b), n),
{
    gcd_divides(a, b);
    bezout_identity(a, b);
    let g = gcd(a, b) as int;
    let p = choose|q: nat| a == #[trigger] (gcd(a, b) * q);
    let r = choose|q: nat| b == #[trigger] (gcd(a, b) * q);
    let ia = a as int;
    let ib = b as int;
    let ip = p as int;
    let ir = r as int;
    assert(ia / g == ip) by (nonlinear_arith)
        requires
            ia == g * ip,
            g > 0,
    ;
    let m = exact_lcm(a, b);
    assert(m == ip * ib);
    assert(ip > 0 && ir > 0) by (nonlinear_arith)
        requires
            ia == g * ip,
            ib == g * ir,
            ia > 0,
            ib > 0,
            g > 0,
    ;
    assert(ip * ib > 0) by (nonlinear_arith)
        requires
            ip > 0,
            ib > 0,
    ;
    assert(ip * ib == ia * ir && ip * ib == ib * ip) by (nonlinear_arith)
        requires
            ia == g * ip,
            ib == g * ir,
    ;
    assert(m == a * r);
    assert(m == b * p);
    if divides(a, n) && divides(b, n) {
        let s = choose|q: nat| n == #[trigger] (a * q);
        let t = choose|q: nat| n == #[trigger] (b * q);
        let (x, y) = bezout(a, b);
        let is = s as int;
        let it = t as int;
        let k = x * it + y * is;
        let im = m as int;
        let inn = n as int;
        let ab = ia * ib;
        assert(ab == g * im) by (nonlinear_arith)
            requires
                ab == ia * ib,
                ia == g * ip,
                im == ip * ib,
        ;
        assert(inn * (ia * x) == ab * (x * it)) by (nonlinear_arith)
            requires
                inn == ib * it,
                ab == ia * ib,
        ;
        assert(inn * (ib * y) == ab * (y * is)) by (nonlinear_arith)
            requires
                inn == ia * is,
                ab == ia * ib,
        ;
        let ax = ia * x;
        let by_ = ib * y;
        assert(inn * g == inn * ax + inn * by_) by (nonlinear_arith)
            requires
                ax + by_ == g,
        ;
        assert(ab * (x * it) + ab * (y * is) == ab * k) by (nonlinear_arith)
            requires
                k == x * it + y * is,
        ;
        assert(inn * g == im * g * k) by (nonlinear_arith)
            requires
                inn * g == ab * k,
                ab == g * im,
        ;
        assert(inn == im * k) by (nonlinear_arith)
            requires
                inn * g == im * g * k,
                g > 0,
        ;
        assert(k >= 0) by (nonlinear_arith)
            requires
                inn == im * k,
                inn >= 0,
                im > 0,
        ;
        assert(n == m * (k as nat));
    }
}

/// If every number of `ks` is positive and divides the positive number `n`, then so does their
/// fold, each of them divides it, and nothing was cut off.
pub proof fn fold_divides_common_multiple(ks: Seq<u32>, n: u32)
    requires
        n > 0,
        forall|i: int| 0 <= i < ks.len() ==> #[trigger] ks[i] > 0 && divides(ks[i] as nat, n as nat),
    ensures
        fold_lcm(ks) > 0,
        divides(fold_lcm(ks) as nat, n as nat),
        forall|i: int|
            0 <= i < ks.len() ==> divides(#[trigger] ks[i] as nat, fold_lcm(ks) as nat),
    decreases ks.len(),
{
    if ks.len() == 0 {
        assert(n == 1nat * n as nat);
    } else {
        let rest = ks.drop_last();
        let last = ks.last();
        assert(ks[ks.len() - 1] == last);
        assert forall|i: int| 0 <= i < rest.len() implies #[trigger] rest[i] > 0 && divides(
            rest[i] as nat,
            n as nat,
        ) by {
            assert(rest[i] == ks[i]);
        }
        fold_divides_common_multiple(rest, n);
        let acc = fold_lcm(rest);
        lcm_is_least(acc as nat, last as nat, n as nat);
        let m = exact_lcm(acc as nat, last as nat);
        divisor_is_smaller(m, n as nat);
        assert(lcm(acc, last) == m);
        assert forall|i: int| 0 <= i < ks.len() implies divides(
            #[trigger] ks[i] as nat,
            fold_lcm(ks) as nat,
        ) by {
            if i < rest.len() {
                assert(rest[i] == ks[i]);
                divides_transitively(ks[i] as nat, acc as nat, m);
            }
        }
    }
}

proof fn divisor_is_smaller(d: nat, n: nat)
    requires
        divides(d, n),
        n > 0,
    ensures
        d <= n,
{
    let q = choose|q: nat| n == #[trigger] (d * q);
    assert(d <= n) by (nonlinear_arith)
        requires
            n == d * q,
            n > 0,
    ;
}

proof fn divides_transitively(a: nat, b: nat, c: nat)
    requires
        divides(a, b),
        divides(b, c),
    ensures
        divides(a, c),
{
    let p = choose|q: nat| b == #[trigger] (a * q);
    let q = choose|q: nat| c == #[trigger] (b * q);
    assert(c == a * (p * q)) by (nonlinear_arith)
        requires
            b == a * p,
            c == b * q,
    ;
}

/// A number divides another if and only if the remainder is zero.
pub proof fn divides_iff_no_remainder(d: nat, n: nat)
    requires
        d > 0,
    ensures
        divides(d, n) <==> n % d == 0,
{
    if divides(d, n) {
        let q = choose|q: nat| n == #[trigger] (d * q);
        assert(n % d == 0) by (nonlinear_arith)
            requires
                n == d * q,
                d > 0,
        ;
    }
    if n % d == 0 {
        let q = n / d;
        assert(n == d * q) by (nonlinear_arith)
            requires
                n % d == 0,
                q == n / d,
                d > 0,
        ;
    }
}

/// The common multiple that is computed: both numbers divide it and no smaller positive number is a
/// multiple of both, unless the least one does not fit, which is cut off. Zero has no multiples of
/// its own: the other number is taken.
pub proof fn computed_multiple_is_least(a: u32, b: u32, n: nat)
    ensures
        a == 0 ==> lcm(a, b) == b,
        b == 0 ==> lcm(a, b) == a,
        a > 0 && b > 0 && lcm(a, b) < u32::MAX ==> {
            &&& lcm(a, b) > 0
            &&& lcm(a, b) as nat % a as nat == 0
            &&& lcm(a, b) as nat % b as nat == 0
        },
        a > 0 && b > 0 && n > 0 && n % a as nat == 0 && n % b as nat == 0 ==> lcm(a, b) <= n,
        a > 0 && b > 0 && n <= u32::MAX && n > 0 && n % a as nat == 0 && n % b as nat == 0 ==> {
            &&& lcm(a, b) as nat % a as nat == 0
            &&& lcm(a, b) as nat % b as nat == 0
        },
{
    if a > 0 && b > 0 {
        let m = exact_lcm(a as nat, b as nat);
        lcm_is_least(a as nat, b as nat, n);
        divides_iff_no_remainder(a as nat, m);
        divides_iff_no_remainder(b as nat, m);
        divides_iff_no_remainder(a as nat, n);
        divides_iff_no_remainder(b as nat, n);
        if n > 0 && n % a as nat == 0 && n % b as nat == 0 {
            divisor_is_smaller(m, n);
        }
    }
}

/// The greatest common divisor divides both numbers, and every common divisor divides it.
pub proof fn common_divisor_is_greatest(a: nat, b: nat, d: nat)
    requires
        a > 0 || b > 0,
        d > 0,
    ensures
        gcd(a, b) > 0,
        a % gcd(a, b) == 0,
        b % gcd(a, b) == 0,
        a % d == 0 && b % d == 0 ==> gcd(a, b) % d == 0,
{
    gcd_divides(a, b);
    divides_iff_no_remainder(gcd(a, b), a);
    divides_iff_no_remainder(gcd(a, b), b);
    divides_iff_no_remainder(d, a);
    divides_iff_no_remainder(d, b);
    if a % d == 0 && b % d == 0 {
        bezout_identity(a, b);
        let p = choose|q: nat| a == #[trigger] (d * q);
        let q = choose|q: nat| b == #[trigger] (d * q);
        let (x, y) = bezout(a, b);
        let k = p * x + q * y;
        let g = gcd(a, b) as int;
        assert(g == d * k) by (nonlinear_arith)
            requires
                g == a * x + b * y,
                a == d * p,
                b == d * q,
                k == p * x + q * y,
        ;
        assert(g % (d as int) == 0) by (nonlinear_arith)
            requires
                g == d * k,
                d > 0,
        ;
    }
}

/// Folding positive numbers gives a multiple of each of them, unless it is cut off, and then it
/// stays cut off.
pub proof fn fold_is_a_multiple_or_cut_off(ks: Seq<u32>, i: int)
    requires
        forall|j: int| 0 <= j < ks.len() ==> #[trigger] ks[j] > 0,
    ensures
        fold_lcm(ks) > 0,
        0 <= i < ks.len() ==> fold_lcm(ks) as nat % ks[i] as nat == 0 || fold_lcm(ks) == u32::MAX,
        ks.len() > 0 && fold_lcm(ks.drop_last()) == u32::MAX ==> fold_lcm(ks) == u32::MAX,
    decreases ks.len(),
{
    if ks.len() > 0 {
        let rest = ks.drop_last();
        let k = ks[ks.len() - 1];
        let m = fold_lcm(rest);
        assert forall|j: int| 0 <= j < rest.len() implies #[trigger] rest[j] > 0 by {
            assert(rest[j] == ks[j]);
        }
        fold_is_a_multiple_or_cut_off(rest, i);
        let g = gcd(m as nat, k as nat);
        gcd_divides(m as nat, k as nat);
        divides_iff_no_remainder(g, m as nat);
        divides_iff_no_remainder(g, k as nat);
        let q = m as nat / g;
        assert(q * k as nat >= m) by {
            let r = choose|r: nat| k == #[trigger] (g * r);
            let n = k as nat;
            assert(r > 0) by (nonlinear_arith)
                requires
                    n == g * r,
                    n > 0,
            ;
            assert(q * g == m) by {
                let t = choose|t: nat| m == #[trigger] (g * t);
                assert(q == t) by (nonlinear_arith)
                    requires
                        m == g * t,
                        q == m as nat / g,
                        g > 0,
                ;
                assert(q * g == g * t) by (nonlinear_arith)
                    requires
                        q == t,
                ;
            }
            assert(q * n >= q * g) by (nonlinear_arith)
                requires
                    n == g * r,
                    r > 0,
            ;
        }
        computed_multiple_is_least(m, k, 0);
        if 0 <= i < rest.len() && fold_lcm(ks) != u32::MAX {
            let a = ks[i] as nat;
            let all = fold_lcm(ks) as nat;
            assert(rest[i] == ks[i]);
            divides_iff_no_remainder(a, m as nat);
            divides_iff_no_remainder(m as nat, all);
            divides_transitively(a, m as nat, all);
            divides_iff_no_remainder(a, all);
        }
    }
}

} // verus!
