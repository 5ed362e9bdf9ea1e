use vstd::prelude::*;

verus! {

/// `d` divides `k`.
pub open spec fn divides(d: int, k: int) -> bool {
    k % d == 0
}

/// Divisibility is transitive.
pub proof fn lemma_divides_trans(p: int, i: int, k: int)
    requires
        0 < p,
        0 < i,
        divides(p, i),
        divides(i, k),
    ensures
        divides(p, k),
{
    vstd::arithmetic::div_mod::lemma_fundamental_div_mod(i, p);
    vstd::arithmetic::div_mod::lemma_fundamental_div_mod(k, i);
    let qi = i / p;
    let qk = k / i;
    assert(k == p * (qi * qk)) by (nonlinear_arith)
        requires
            i == p * qi,
            k == i * qk,
    ;
    vstd::arithmetic::div_mod::lemma_mod_multiples_vanish(qi * qk, 0, p);
}

/// Two multiples of `i` with `a < b` lie at least `i` apart.
pub proof fn lemma_next_multiple(a: int, b: int, i: int)
    requires
        0 < i,
        divides(i, a),
        divides(i, b),
        a < b,
    ensures
        a + i <= b,
{
    vstd::arithmetic::div_mod::lemma_fundamental_div_mod(a, i);
    vstd::arithmetic::div_mod::lemma_fundamental_div_mod(b, i);
    let qa = a / i;
    let qb = b / i;
    assert(a + i <= b) by (nonlinear_arith)
        requires
            a == i * qa,
            b == i * qb,
            a < b,
            0 < i,
    ;
}

/// `i` divides every multiple of itself.
pub proof fn lemma_divides_product(i: int, q: int)
    requires
        0 < i,
    ensures
        divides(i, i * q),
{
    vstd::arithmetic::div_mod::lemma_mod_multiples_vanish(q, 0, i);
}

/// `i <= n / i` exactly when `i * i <= n`.
pub proof fn lemma_square_le_iff(i: int, n: int)
    requires
        0 < i,
        0 <= n,
    ensures
        (i <= n / i) <==> (i * i <= n),
{
    vstd::arithmetic::div_mod::lemma_fundamental_div_mod(n, i);
    let q = n / i;
    let r = n % i;
    assert((i <= q) <==> (i * i <= n)) by (nonlinear_arith)
        requires
            n == i * q + r,
            0 <= r < i,
            0 < i,
    ;
}

} // verus!
