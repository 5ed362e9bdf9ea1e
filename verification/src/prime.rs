//! Two sieves over `0..=n`: Eratosthenes' and the variant of Atkin's that this
//! library has always shipped.
use vstd::prelude::*;

use crate::arith::{divides, lemma_divides_product, lemma_divides_trans, lemma_next_multiple, lemma_square_le_iff};

verus! {

/// `k` is a prime number.
pub open spec fn is_prime(k: int) -> bool {
    k >= 2 && forall|d: int| 2 <= d < k ==> !#[trigger] divides(d, k)
}

/// The positions `0..len` whose mark is set, in increasing order, as `i64`.
pub open spec fn marked_upto(marks: Seq<bool>, len: int) -> Seq<i64>
    decreases len,
{
    if len <= 0 {
        Seq::empty()
    } else if marks[len - 1] {
        marked_upto(marks, len - 1).push((len - 1) as i64)
    } else {
        marked_upto(marks, len - 1)
    }
}

/// The positions whose mark is set, in increasing order, as `i64`.
pub open spec fn marked(marks: Seq<bool>) -> Seq<i64> {
    marked_upto(marks, marks.len() as int)
}

/// The marks that Eratosthenes' sieve leaves over `0..=n`: set on 0, 1 and every prime.
pub open spec fn eratosthenes_marks(n: nat) -> Seq<bool> {
    Seq::new(n + 1, |k: int| k < 2 || is_prime(k))
}

/// `k` has a divisor `d` with `2 <= d < bound` and `d * d <= k`.
pub open spec fn crossed_below(k: int, bound: int) -> bool {
    exists|d: int| 2 <= d < bound && d * d <= k && #[trigger] divides(d, k)
}

/// Lists the positions of `marks` that are set, in increasing order.
pub fn collect_marked(marks: &Vec<bool>) -> (res: Vec<i64>)
    ensures
        res@ == marked(marks@),
{
    let mut res: Vec<i64> = Vec::new();
    let mut i: usize = 0;
    while i < marks.len()
        invariant
            i <= marks.len(),
            res@ == marked_upto(marks@, i as int),
        decreases marks.len() - i,
    {
        if marks[i] {
            res.push(i as i64);
        }
        i = i + 1;
    }
    res
}

/// A number of at least 2 with no divisor `d`, `2 <= d`, `d * d <= k` is prime, and back.
pub proof fn lemma_prime_iff_no_small_divisor(k: int)
    requires
        k >= 2,
    ensures
        is_prime(k) <==> !(exists|d: int| 2 <= d && d * d <= k && #[trigger] divides(d, k)),
{
    if is_prime(k) {
        assert forall|d: int| 2 <= d && d * d <= k implies !#[trigger] divides(d, k) by {
            assert(d < k) by (nonlinear_arith)
                requires
                    2 <= d,
                    d * d <= k,
            ;
        }
    } else {
        let d = choose|d: int| 2 <= d < k && #[trigger] divides(d, k);
        vstd::arithmetic::div_mod::lemma_fundamental_div_mod(k, d);
        let e = k / d;
        if d * d <= k {
            assert(2 <= d && d * d <= k && divides(d, k));
        } else {
            assert(k == d * e);
            assert(2 <= e && e * e <= k) by (nonlinear_arith)
                requires
                    k == d * e,
                    2 <= d < k,
                    d * d > k,
            ;
            assert(k == e * d) by (nonlinear_arith)
                requires
                    k == d * e,
            ;
            vstd::arithmetic::div_mod::lemma_mod_multiples_vanish(d, 0, e);
            assert(divides(e, k));
        }
    }
}

/// The sieve of Eratosthenes over `0..=n`. Positions 0 and 1 are never struck
/// out, so they are listed together with the primes up to `n`.
pub fn eratosthenes(n: usize) -> (res: Vec<i64>)
    requires
        n < usize::MAX,
    ensures
        res@ == marked(eratosthenes_marks(n as nat)),
{
    let mut marks: Vec<bool> = vec![true; n + 1];
    let mut i: usize = 2;
    proof {
        lemma_square_le_iff(2, n as int);
    }
    while i <= n / i
        invariant
            2 <= i <= n + 2,
            n < usize::MAX,
            marks@.len() == n + 1,
            forall|k: int| #![trigger marks@[k]] 0 <= k <= n ==> marks@[k] == !crossed_below(k, i as int),
        decreases n + 2 - i,
    {
        proof {
            lemma_square_le_iff(i as int, n as int);
        }
        if marks[i] {
            let mut j: usize = i * i;
            proof {
                lemma_divides_product(i as int, i as int);
            }
            while j <= n
                invariant
                    2 <= i,
                    n < usize::MAX,
                    i * i <= j <= n + 1,
                    j <= n ==> divides(i as int, j as int),
                    marks@.len() == n + 1,
                    forall|k: int| #![trigger marks@[k]]
                        0 <= k <= n ==> marks@[k] == !(crossed_below(k, i as int) || (i * i <= k
                            < j && #[trigger] divides(i as int, k))),
                decreases n + 1 - j,
            {
                marks.set(j, false);
                if n - j < i {
                    proof {
                        assert forall|k: int| j < k <= n implies !#[trigger] divides(
                            i as int,
                            k,
                        ) by {
                            if divides(i as int, k) {
                                lemma_next_multiple(j as int, k, i as int);
                            }
                        }
                    }
                    j = n + 1;
                } else {
                    proof {
                        assert(divides(i as int, j + i)) by {
                            vstd::arithmetic::div_mod::lemma_fundamental_div_mod(j as int, i as int);
                            let q = j as int / i as int;
                            assert(j + i == i * (q + 1)) by (nonlinear_arith)
                                requires
                                    j == i * q,
                            ;
                            vstd::arithmetic::div_mod::lemma_mod_multiples_vanish(q + 1, 0, i as int);
                        }
                        assert forall|k: int| j < k < j + i implies !#[trigger] divides(
                            i as int,
                            k,
                        ) by {
                            if divides(i as int, k) {
                                lemma_next_multiple(j as int, k, i as int);
                            }
                        }
                    }
                    j = j + i;
                }
            }
            assert forall|k: int| 0 <= k <= n implies marks@[k] == !crossed_below(
                k,
                i + 1,
            ) by {
                if crossed_below(k, i + 1) && !crossed_below(k, i as int) {
                    assert(i * i <= k && divides(i as int, k));
                }
                if i * i <= k && divides(i as int, k) {
                    assert(crossed_below(k, i + 1));
                }
            }
        } else {
            assert forall|k: int| 0 <= k <= n implies marks@[k] == !crossed_below(
                k,
                i + 1,
            ) by {
                if crossed_below(k, i + 1) && !crossed_below(k, i as int) {
                    // the new divisor is `i` itself, and `i` has a smaller one
                    assert(divides(i as int, k) && i * i <= k);
                    assert(crossed_below(i as int, i as int));
                    let p = choose|p: int|
                        2 <= p < i && p * p <= i && #[trigger] divides(p, i as int);
                    lemma_divides_trans(p, i as int, k);
                    assert(p * p <= k) by (nonlinear_arith)
                        requires
                            p * p <= i,
                            2 <= i,
                            i * i <= k,
                    ;
                    assert(crossed_below(k, i as int));
                }
            }
        }
        i = i + 1;
    }
    proof {
        lemma_square_le_iff(i as int, n as int);
        assert forall|k: int| 0 <= k <= n implies marks@[k] == eratosthenes_marks(
            n as nat,
        )[k] by {
            if k >= 2 {
                lemma_prime_iff_no_small_divisor(k);
                if exists|d: int| 2 <= d && d * d <= k && #[trigger] divides(d, k) {
                    let d = choose|d: int| 2 <= d && d * d <= k && #[trigger] divides(d, k);
                    assert(d < i) by (nonlinear_arith)
                        requires
                            d * d <= k,
                            k <= n,
                            n < i * i,
                            2 <= d,
                            2 <= i,
                    ;
                    assert(crossed_below(k, i as int));
                }
            } else {
                if crossed_below(k, i as int) {
                    let d = choose|d: int| 2 <= d < i && d * d <= k && #[trigger] divides(d, k);
                    assert(d * d >= 4) by (nonlinear_arith)
                        requires
                            2 <= d,
                    ;
                }
            }
        }
        assert(marks@ =~= eratosthenes_marks(n as nat));
    }
    collect_marked(&marks)
}


/// `r` is the integer square root of `n`.
pub open spec fn is_isqrt(n: nat, r: nat) -> bool {
    r * r <= n < (r + 1) * (r + 1)
}

/// The integer square root: the `r` with `r * r <= n < (r + 1) * (r + 1)`.
pub open spec fn isqrt(n: nat) -> nat {
    choose|r: nat| #[trigger] is_isqrt(n, r)
}

/// Only one number has the defining property of `isqrt(n)`.
pub proof fn lemma_isqrt_unique(n: nat, r: nat)
    requires
        r * r <= n < (r + 1) * (r + 1),
    ensures
        isqrt(n) == r,
{
    assert(is_isqrt(n, r));
    let q = isqrt(n);
    assert(is_isqrt(n, q));
    if q < r {
        assert((q + 1) * (q + 1) <= r * r) by (nonlinear_arith)
            requires
                q < r,
        ;
    } else if r < q {
        assert((r + 1) * (r + 1) <= q * q) by (nonlinear_arith)
            requires
                r < q,
        ;
    }
}

/// Computes the integer square root of `n`.
pub fn integer_sqrt(n: usize) -> (r: usize)
    ensures
        r * r <= n < (r + 1) * (r + 1),
        r == isqrt(n as nat),
{
    let mut r: usize = 0;
    loop
        invariant
            r * r <= n,
        ensures
            r * r <= n < (r + 1) * (r + 1),
        decreases n - r,
    {
        assert(r <= n && (r >= 2 ==> r < n)) by (nonlinear_arith)
            requires
                r * r <= n,
        ;
        let next = r + 1;
        proof {
            lemma_square_le_iff(next as int, n as int);
        }
        if next <= n / next {
            r = next;
        } else {
            break;
        }
    }
    proof {
        lemma_isqrt_unique(n as nat, r as nat);
    }
    r
}

/// The number that the pair `(x, y)` flips in the first phase of the Atkin sieve
/// over `0..=n`, if any: the first of `4x² + y²` (when it is 1 or 5 modulo 12),
/// `3x² + y²` (when it is 7 modulo 12) and, for `x > y`, `4x² - y²` (when it is
/// 11 modulo 12) that is at most `n`.
pub open spec fn atkin_candidate(n: int, x: int, y: int) -> Option<int> {
    let a = 4 * x * x + y * y;
    let b = 3 * x * x + y * y;
    let c = 4 * x * x - y * y;
    if a <= n && (a % 12 == 1 || a % 12 == 5) {
        Some(a)
    } else if b <= n && b % 12 == 7 {
        Some(b)
    } else if x > y && c <= n && c % 12 == 11 {
        Some(c)
    } else {
        None
    }
}

/// `marks` with the position `m` negated, when there is one.
pub open spec fn flip(marks: Seq<bool>, m: Option<int>) -> Seq<bool> {
    match m {
        Some(k) => marks.update(k, !marks[k]),
        None => marks,
    }
}

/// The flips of the pairs `(x, y)`, `(x, y + 2)`, ... with second member at most `r`.
pub open spec fn flip_row(marks: Seq<bool>, n: int, r: int, x: int, y: int) -> Seq<bool>
    decreases r + 2 - y,
{
    if y > r {
        marks
    } else {
        flip_row(flip(marks, atkin_candidate(n, x, y)), n, r, x, y + 2)
    }
}

/// The flips of the rows `x`, `x + 1`, ..., `r`, each over the odd `y` up to `r`.
pub open spec fn flip_rows(marks: Seq<bool>, n: int, r: int, x: int) -> Seq<bool>
    decreases r + 1 - x,
{
    if x > r {
        marks
    } else {
        flip_rows(flip_row(marks, n, r, x, 1), n, r, x + 1)
    }
}

/// `marks` with every multiple of `i * i` from `i * i` on cleared.
pub open spec fn strike_square(marks: Seq<bool>, i: int) -> Seq<bool> {
    Seq::new(
        marks.len(),
        |k: int| if i * i <= k && divides(i * i, k) { false } else { marks[k] },
    )
}

/// For `i`, `i + 1`, ..., `n` in turn: when the mark of `i` is still set, clear
/// the multiples of `i * i`.
pub open spec fn strike_from(marks: Seq<bool>, n: int, i: int) -> Seq<bool>
    decreases n + 1 - i,
{
    if i > n {
        marks
    } else if marks[i] {
        strike_from(strike_square(marks, i), n, i + 1)
    } else {
        strike_from(marks, n, i + 1)
    }
}

/// The marks over `0..=n` before the first phase: 2 and 3 only.
pub open spec fn atkin_start(n: nat) -> Seq<bool> {
    Seq::new(n + 1, |k: int| k == 2 || k == 3)
}

/// The marks that the Atkin sieve of this library leaves over `0..=n`: the
/// start marks, flipped by every pair `1 <= x <= isqrt(n)`, odd `1 <= y <= isqrt(n)`,
/// then thinned by the squares of the numbers from 5 on that are still marked.
pub open spec fn atkin_marks(n: nat) -> Seq<bool> {
    strike_from(flip_rows(atkin_start(n), n as int, isqrt(n) as int, 1), n as int, 5)
}

/// The number that the pair `(x, y)` flips, if any.
fn atkin_conditions(n: usize, x: usize, y: usize) -> (res: Option<usize>)
    requires
        x <= u32::MAX,
        y <= u32::MAX,
    ensures
        match res {
            Some(m) => atkin_candidate(n as int, x as int, y as int) == Some(m as int),
            None => atkin_candidate(n as int, x as int, y as int) is None,
        },
{
    assert((x as u128) * (x as u128) <= 0xffff_fffe_0000_0001 && (y as u128) * (y as u128)
        <= 0xffff_fffe_0000_0001) by (nonlinear_arith)
        requires
            x <= 0xffff_ffff,
            y <= 0xffff_ffff,
    ;
    let xx: u128 = (x as u128) * (x as u128);
    let yy: u128 = (y as u128) * (y as u128);
    let nn: u128 = n as u128;
    let a: u128 = 4 * xx + yy;
    assert(a == 4 * x * x + y * y) by (nonlinear_arith)
        requires
            a == 4 * xx + yy,
            xx == x * x,
            yy == y * y,
    ;
    if a <= nn && (a % 12 == 1 || a % 12 == 5) {
        return Some(a as usize);
    }
    let b: u128 = 3 * xx + yy;
    assert(b == 3 * x * x + y * y) by (nonlinear_arith)
        requires
            b == 3 * xx + yy,
            xx == x * x,
            yy == y * y,
    ;
    if b <= nn && b % 12 == 7 {
        return Some(b as usize);
    }
    if x > y {
        assert(yy <= 4 * xx) by (nonlinear_arith)
            requires
                x > y,
                xx == x * x,
                yy == y * y,
        ;
        let c: u128 = 4 * xx - yy;
        assert(c == 4 * x * x - y * y) by (nonlinear_arith)
            requires
                c == 4 * xx - yy,
                xx == x * x,
                yy == y * y,
        ;
        if c <= nn && c % 12 == 11 {
            return Some(c as usize);
        }
    }
    None
}

/// The Atkin sieve as this library has it: starting from 2 and 3, every pair
/// `1 <= x <= isqrt(n)`, odd `1 <= y <= isqrt(n)` flips the number that
/// `atkin_candidate` names; then, for each `i` from 5 to `n` still marked, the
/// multiples of `i * i` are cleared. The marked numbers are listed in increasing
/// order.
pub fn atkin(n: usize) -> (res: Vec<i64>)
    requires
        n < usize::MAX,
    ensures
        res@ == marked(atkin_marks(n as nat)),
{
    let mut sieve: Vec<bool> = vec![false; n + 1];
    if n >= 2 {
        sieve.set(2, true);
    }
    if n >= 3 {
        sieve.set(3, true);
    }
    assert(sieve@ =~= atkin_start(n as nat));
    let r = integer_sqrt(n);
    let ghost flipped = flip_rows(atkin_start(n as nat), n as int, r as int, 1);
    let mut x: usize = 1;
    while x <= r
        invariant
            1 <= x <= r + 1,
            r * r <= n,
            n < usize::MAX,
            sieve@.len() == n + 1,
            flip_rows(sieve@, n as int, r as int, x as int) == flipped,
        decreases r + 1 - x,
    {
        let mut y: usize = 1;
        assert(x * x <= n) by (nonlinear_arith)
            requires
                1 <= x <= r,
                r * r <= n,
        ;
        while y <= r
            invariant
                1 <= x <= r,
                x * x <= n,
                1 <= y <= r + 2,
                r * r <= n,
                n < usize::MAX,
                sieve@.len() == n + 1,
                flip_rows(flip_row(sieve@, n as int, r as int, x as int, y as int), n as int, r as int, x + 1) == flipped,
            decreases r + 2 - y,
        {
            assert(y * y <= n && r < usize::MAX - 2) by (nonlinear_arith)
                requires
                    1 <= y <= r,
                    r * r <= n,
                    n < usize::MAX,
            ;
            assert(x <= u32::MAX && y <= u32::MAX) by (nonlinear_arith)
                requires
                    x * x <= n,
                    y * y <= n,
                    n <= usize::MAX,
                    usize::MAX <= u64::MAX,
            ;
            let ghost before = sieve@;
            match atkin_conditions(n, x, y) {
                Some(m) => {
                    let v = sieve[m];
                    sieve.set(m, !v);
                }
                None => {}
            }
            assert(sieve@ =~= flip(before, atkin_candidate(n as int, x as int, y as int)));
            y = y + 2;
        }
        x = x + 1;
    }
    let ghost target = strike_from(flipped, n as int, 5);
    let mut i: usize = 5;
    while i <= n
        invariant
            5 <= i,
            i <= n + 1 || i == 5,
            n < usize::MAX,
            sieve@.len() == n + 1,
            strike_from(sieve@, n as int, i as int) == target,
        decreases n + 2 - i,
    {
        let ghost before = sieve@;
        proof {
            lemma_square_le_iff(i as int, n as int);
        }
        if sieve[i] && i <= n / i {
            let sq: usize = i * i;
            assert(sq > 0) by (nonlinear_arith)
                requires
                    sq == i * i,
                    i >= 5,
            ;
            let mut j: usize = sq;
            proof {
                lemma_divides_product(sq as int, 1);
            }
            while j <= n
                invariant
                    0 < sq,
                    sq == i * i,
                    sq <= j <= n + 1,
                    j <= n ==> divides(sq as int, j as int),
                    n < usize::MAX,
                    sieve@.len() == n + 1,
                    forall|k: int| #![trigger sieve@[k]]
                        0 <= k <= n ==> sieve@[k] == if sq <= k < j && divides(sq as int, k) {
                            false
                        } else {
                            before[k]
                        },
                decreases n + 1 - j,
            {
                sieve.set(j, false);
                if n - j < sq {
                    proof {
                        assert forall|k: int| j < k <= n implies !#[trigger] divides(
                            sq as int,
                            k,
                        ) by {
                            if divides(sq as int, k) {
                                lemma_next_multiple(j as int, k, sq as int);
                            }
                        }
                    }
                    j = n + 1;
                } else {
                    proof {
                        assert(divides(sq as int, j + sq)) by {
                            vstd::arithmetic::div_mod::lemma_fundamental_div_mod(j as int, sq as int);
                            let q = j as int / sq as int;
                            assert(j + sq == sq * (q + 1)) by (nonlinear_arith)
                                requires
                                    j == sq * q,
                            ;
                            lemma_divides_product(sq as int, q + 1);
                        }
                        assert forall|k: int| j < k < j + sq implies !#[trigger] divides(
                            sq as int,
                            k,
                        ) by {
                            if divides(sq as int, k) {
                                lemma_next_multiple(j as int, k, sq as int);
                            }
                        }
                    }
                    j = j + sq;
                }
            }
            assert(sieve@ =~= strike_square(before, i as int));
        } else if sieve[i] {
            assert(before =~= strike_square(before, i as int));
        }
        i = i + 1;
    }
    proof {
        lemma_isqrt_unique(n as nat, r as nat);
        assert(sieve@ == strike_from(sieve@, n as int, i as int));
    }
    collect_marked(&sieve)
}

} // verus!
