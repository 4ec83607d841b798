//! The full-period additive walk: why stepping through the residues of `n`
//! by a step coprime to `n` meets each of them once.
use vstd::arithmetic::div_mod::{
    lemma_fundamental_div_mod, lemma_mod_equivalence, lemma_mod_multiples_basic,
    lemma_mod_bound, lemma_mod_multiples_vanish, lemma_mod_pos_bound, lemma_mod_self_0,
    lemma_small_mod,
};
use vstd::prelude::*;

verus! {

/// `d` is positive and divides `n`.
pub open spec fn divides(d: int, n: int) -> bool {
    d > 0 && n % d == 0
}

/// `a` and `b` have no common divisor but 1.
pub open spec fn coprime(a: int, b: int) -> bool {
    forall|d: int| #![trigger divides(d, a), divides(d, b)] divides(d, a) && divides(d, b) ==> d == 1
}

/// `g` is the greatest common divisor of `a` and `b`: the largest number
/// that divides both, and 0 where both are 0.
pub open spec fn is_gcd(a: int, b: int, g: int) -> bool {
    if a == 0 && b == 0 {
        g == 0
    } else {
        &&& divides(g, a)
        &&& divides(g, b)
        &&& forall|d: int|
            #![trigger divides(d, a), divides(d, b)]
            divides(d, a) && divides(d, b) ==> d <= g
    }
}

/// The residue that the walk stands on after `i` steps: it starts on
/// `first` and moves on by `step`, around `total`.
pub open spec fn walk(first: int, step: int, total: int, i: int) -> int {
    (first + i * step) % total
}

/// What the walk over `ports` yields from its step `from` on: at each step
/// the port whose place in `ports` the walk stands on.
pub open spec fn walk_order(ports: Seq<u16>, first: int, step: int, from: int) -> Seq<u16> {
    Seq::new(
        (ports.len() - from) as nat,
        |i: int| ports[walk(first, step, ports.len() as int, from + i)],
    )
}

/// Two numbers whose greatest common divisor is 1 are coprime.
pub proof fn lemma_gcd_one_is_coprime(a: int, b: int)
    requires
        is_gcd(a, b, 1),
    ensures
        coprime(a, b),
{
}

/// A number and the one before it are coprime.
pub proof fn lemma_neighbours_are_coprime(n: int)
    requires
        n >= 1,
    ensures
        coprime(n, n - 1),
{
    assert forall|d: int| divides(d, n) && divides(d, n - 1) implies d == 1 by {
        lemma_mod_equivalence(n, n - 1, d);
        assert((n - (n - 1)) % d == 0);
        if d > 1 {
            lemma_small_mod(1, d as nat);
        }
    }
}

/// What divides `x` and `y` divides `q * x + y`.
pub proof fn lemma_divides_combination(d: int, x: int, y: int, q: int)
    requires
        divides(d, x),
        divides(d, y),
    ensures
        divides(d, q * x + y),
{
    lemma_fundamental_div_mod(x, d);
    lemma_fundamental_div_mod(y, d);
    let k = q * (x / d) + y / d;
    assert(q * x + y == k * d) by (nonlinear_arith)
        requires
            x == d * (x / d),
            y == d * (y / d),
            k == q * (x / d) + y / d,
    ;
    lemma_mod_multiples_basic(k, d);
}

/// Coprime numbers combine to 1: there are `x` and `y` with
/// `a * x + b * y == 1`.
pub proof fn lemma_bezout(a: int, b: int) -> (r: (int, int))
    requires
        a >= 0,
        b >= 0,
        a + b > 0,
        coprime(a, b),
    ensures
        a * r.0 + b * r.1 == 1,
    decreases b,
{
    if b == 0 {
        lemma_mod_self_0(a);
        assert(divides(a, a) && divides(a, b));
        (1, 0)
    } else {
        let q = a / b;
        let m = a % b;
        lemma_fundamental_div_mod(a, b);
        lemma_mod_pos_bound(a, b);
        assert forall|d: int| divides(d, b) && divides(d, m) implies d == 1 by {
            lemma_divides_combination(d, b, m, q);
            assert(q * b + m == a) by (nonlinear_arith)
                requires
                    a == b * q + m,
            ;
            assert(divides(d, a) && divides(d, b));
        }
        let (x, y) = lemma_bezout(b, m);
        assert(a * y + b * (x - q * y) == 1) by (nonlinear_arith)
            requires
                a == b * q + m,
                b * x + m * y == 1,
        ;
        (y, x - q * y)
    }
}

/// Where `n` divides `k * s` and `s` is coprime to `n`, `n` divides `k`.
pub proof fn lemma_coprime_factor_vanishes(n: int, s: int, k: int)
    requires
        n > 0,
        s >= 0,
        coprime(s, n),
        (k * s) % n == 0,
    ensures
        k % n == 0,
{
    let (x, y) = lemma_bezout(s, n);
    lemma_fundamental_div_mod(k * s, n);
    let c = (k * s) / n;
    let w = c * x + k * y;
    assert(k == w * n) by (nonlinear_arith)
        requires
            s * x + n * y == 1,
            k * s == n * c,
            w == c * x + k * y,
    ;
    lemma_mod_multiples_basic(w, n);
}

/// The walk by a coprime step does not stand twice on one residue within
/// `total` steps.
pub proof fn lemma_walk_is_injective(first: int, step: int, total: int, i: int, j: int)
    requires
        total > 0,
        step >= 0,
        coprime(step, total),
        i < j < i + total,
    ensures
        walk(first, step, total, i) != walk(first, step, total, j),
{
    if walk(first, step, total, i) == walk(first, step, total, j) {
        lemma_mod_equivalence(first + j * step, first + i * step, total);
        assert((first + j * step) - (first + i * step) == (j - i) * step) by (nonlinear_arith);
        lemma_coprime_factor_vanishes(total, step, j - i);
        lemma_small_mod((j - i) as nat, total as nat);
    }
}

/// After `total` steps the walk stands where it started, and by a coprime
/// step not before.
pub proof fn lemma_walk_returns(first: int, step: int, total: int, i: int)
    requires
        total > 0,
        step >= 0,
        coprime(step, total),
        0 < i <= total,
    ensures
        walk(first, step, total, i) == walk(first, step, total, 0) <==> i == total,
{
    if i == total {
        lemma_mod_multiples_vanish(step, first, total);
        assert(first + total * step == total * step + first);
        assert(first + 0 * step == first);
    } else {
        lemma_walk_is_injective(first, step, total, 0, i);
    }
}

/// One more step of the walk: from the residue it stands on, `step` further
/// around `total`.
pub proof fn lemma_walk_step(first: int, step: int, total: int, i: int)
    requires
        total > 0,
    ensures
        walk(first, step, total, i + 1) == (walk(first, step, total, i) + step) % total,
        0 <= walk(first, step, total, i) < total,
{
    let x = first + i * step;
    lemma_fundamental_div_mod(x, total);
    lemma_mod_bound(x, total);
    lemma_mod_multiples_vanish(x / total, x % total + step, total);
    assert(first + (i + 1) * step == total * (x / total) + (x % total + step)) by (nonlinear_arith)
        requires
            x == first + i * step,
            x == total * (x / total) + x % total,
    ;
}

/// The walk by a coprime step reaches every residue: for each `target`
/// there is a step within the first `total` on which it stands there.
pub proof fn lemma_walk_reaches(first: int, step: int, total: int, target: int) -> (i: int)
    requires
        total > 0,
        step >= 0,
        coprime(step, total),
        0 <= target < total,
    ensures
        0 <= i < total,
        walk(first, step, total, i) == target,
{
    let (x, y) = lemma_bezout(step, total);
    let k = (target - first) * x;
    let i = k % total;
    lemma_mod_bound(k, total);
    lemma_fundamental_div_mod(k, total);
    // first + i * step differs from target by a multiple of total
    let d = target - first;
    let q = k / total;
    let m = d * y + q * step;
    assert(k * step == d * (x * step)) by (nonlinear_arith)
        requires
            k == d * x,
    ;
    assert(d * (x * step) == d - total * (d * y)) by (nonlinear_arith)
        requires
            step * x + total * y == 1,
    ;
    assert(i * step == k * step - total * (q * step)) by (nonlinear_arith)
        requires
            k == total * q + i,
    ;
    assert(total * (d * y) + total * (q * step) == total * m) by (nonlinear_arith)
        requires
            m == d * y + q * step,
    ;
    assert(total * (-m) == -(total * m)) by (nonlinear_arith);
    assert(first + i * step == total * (-m) + target);
    lemma_mod_multiples_vanish(-m, target, total);
    lemma_small_mod(target as nat, total as nat);
    i
}

/// The walk by a coprime step over a list without repetition yields each
/// port of the list once: what it yields is the list in another order.
pub proof fn lemma_walk_order_permutes(ports: Seq<u16>, first: int, step: int)
    requires
        ports.no_duplicates(),
        ports.len() > 0,
        step >= 0,
        coprime(step, ports.len() as int),
    ensures
        walk_order(ports, first, step, 0).len() == ports.len(),
        walk_order(ports, first, step, 0).no_duplicates(),
        forall|p: u16| walk_order(ports, first, step, 0).contains(p) <==> ports.contains(p),
        walk_order(ports, first, step, 0).to_multiset() == ports.to_multiset(),
{
    let total = ports.len() as int;
    let order = walk_order(ports, first, step, 0);
    assert forall|i: int, j: int| 0 <= i < order.len() && 0 <= j < order.len() && i != j implies order[i]
        != order[j] by {
        lemma_walk_step(first, step, total, i - 1);
        lemma_walk_step(first, step, total, j - 1);
        if i < j {
            lemma_walk_is_injective(first, step, total, i, j);
        } else {
            lemma_walk_is_injective(first, step, total, j, i);
        }
    }
    assert forall|p: u16| order.contains(p) <==> ports.contains(p) by {
        if order.contains(p) {
            let i = choose|i: int| 0 <= i < order.len() && order[i] == p;
            lemma_walk_step(first, step, total, i - 1);
            assert(ports[walk(first, step, total, i)] == p);
        }
        if ports.contains(p) {
            let t = choose|t: int| 0 <= t < ports.len() && ports[t] == p;
            let i = lemma_walk_reaches(first, step, total, t);
            assert(order[i] == p);
        }
    }
    lemma_same_ports_once_each(order, ports);
}

/// Two lists without repetition that hold the same ports hold them equally
/// often: as multisets they are equal.
pub proof fn lemma_same_ports_once_each(a: Seq<u16>, b: Seq<u16>)
    requires
        a.no_duplicates(),
        b.no_duplicates(),
        forall|p: u16| a.contains(p) <==> b.contains(p),
    ensures
        a.to_multiset() == b.to_multiset(),
{
    a.to_multiset_ensures();
    b.to_multiset_ensures();
    a.lemma_multiset_has_no_duplicates();
    b.lemma_multiset_has_no_duplicates();
    assert forall|p: u16| a.to_multiset().count(p) == b.to_multiset().count(p) by {
        assert(a.contains(p) <==> a.to_multiset().count(p) > 0);
        assert(b.contains(p) <==> b.to_multiset().count(p) > 0);
        if a.contains(p) {
            assert(a.to_multiset().contains(p));
            assert(b.to_multiset().contains(p));
        }
    }
    assert(a.to_multiset() =~= b.to_multiset());
}

} // verus!
