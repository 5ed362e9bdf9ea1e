//! What the two sieves promise of their listings, proved over their marks.
use vstd::prelude::*;

use crate::arith::divides;
use crate::prime::{
    atkin_candidate, atkin_marks, atkin_start, eratosthenes_marks, flip, flip_row, flip_rows,
    is_prime, isqrt, marked, marked_upto, strike_from, strike_square,
};

verus! {

/// Every element of `s` is smaller than the next one.
pub open spec fn strictly_increasing(s: Seq<i64>) -> bool {
    forall|a: int, b: int| 0 <= a < b < s.len() ==> s[a] < s[b]
}

/// The residue classes modulo 12 that the Atkin sieve can mark, besides 2 and 3.
pub open spec fn atkin_residue(k: int) -> bool {
    k % 12 == 1 || k % 12 == 5 || k % 12 == 11
}

/// Every set mark lies at 2, 3 or on an Atkin residue.
pub open spec fn marks_on_atkin_residues(s: Seq<bool>) -> bool {
    forall|k: int| 0 <= k < s.len() && #[trigger] s[k] ==> k == 2 || k == 3 || atkin_residue(k)
}

/// The listing of the marks in `0..len` is increasing, holds only marked
/// positions and holds each of them.
pub proof fn lemma_marked_upto(marks: Seq<bool>, len: int)
    requires
        0 <= len <= marks.len(),
        marks.len() <= i64::MAX + 1,
    ensures
        strictly_increasing(marked_upto(marks, len)),
        forall|a: int|
            0 <= a < marked_upto(marks, len).len() ==> 0 <= #[trigger] marked_upto(marks, len)[a]
                < len && marks[marked_upto(marks, len)[a] as int],
        forall|k: int|
            0 <= k < len && marks[k] ==> #[trigger] marked_upto(marks, len).contains(k as i64),
    decreases len,
{
    if len > 0 {
        lemma_marked_upto(marks, len - 1);
        let prev = marked_upto(marks, len - 1);
        if marks[len - 1] {
            let cur = prev.push((len - 1) as i64);
            assert(cur[prev.len() as int] == (len - 1) as i64);
            assert forall|a: int| 0 <= a < prev.len() implies #[trigger] cur[a] == prev[a] by {}
            assert forall|k: int| 0 <= k < len && marks[k] implies #[trigger] cur.contains(
                k as i64,
            ) by {
                if k < len - 1 {
                    assert(prev.contains(k as i64));
                    let a = choose|a: int| 0 <= a < prev.len() && prev[a] == k as i64;
                    assert(cur[a] == k as i64);
                } else {
                    assert(cur[prev.len() as int] == k as i64);
                }
            }
        }
    }
}

/// The listing of all marks, as `lemma_marked_upto` states it for the whole sequence.
pub proof fn lemma_marked(marks: Seq<bool>)
    requires
        marks.len() <= i64::MAX + 1,
    ensures
        strictly_increasing(marked(marks)),
        forall|v: i64|
            #[trigger] marked(marks).contains(v) <==> (0 <= v < marks.len() && marks[v as int]),
{
    lemma_marked_upto(marks, marks.len() as int);
    assert forall|v: i64| #[trigger] marked(marks).contains(v) implies (0 <= v < marks.len()
        && marks[v as int]) by {
        let a = choose|a: int| 0 <= a < marked(marks).len() && marked(marks)[a] == v;
        assert(marked(marks)[a] == v);
    }
    assert forall|v: i64| 0 <= v < marks.len() && marks[v as int] implies #[trigger] marked(
        marks,
    ).contains(v) by {
        assert(marked_upto(marks, marks.len() as int).contains((v as int) as i64));
    }
}

/// Eratosthenes' sieve lists, in increasing order, exactly 0, 1 and the primes up to `n`.
pub proof fn eratosthenes_lists_zero_one_and_primes(n: nat)
    requires
        n <= i64::MAX,
    ensures
        strictly_increasing(marked(eratosthenes_marks(n))),
        forall|v: i64|
            #[trigger] marked(eratosthenes_marks(n)).contains(v) <==> (0 <= v <= n && (v < 2
                || is_prime(v as int))),
{
    lemma_marked(eratosthenes_marks(n));
}

/// A number that the Atkin phase flips lies in `0..=n` and on an Atkin residue:
/// with `y` odd, `3x² + y²` is never 7 modulo 12.
pub proof fn lemma_candidate_residue(n: int, x: int, y: int)
    requires
        1 <= x,
        1 <= y,
        y % 2 == 1,
    ensures
        atkin_candidate(n, x, y) matches Some(m) ==> 0 <= m <= n && atkin_residue(m),
{
    let t = y / 2;
    let u = x / 2;
    let e = x % 2;
    assert(y == 2 * t + 1);
    assert(x == 2 * u + e && 0 <= e <= 1);
    let w = u * u + u * e;
    let z = t * t + t;
    let b = 3 * x * x + y * y;
    assert(b == 4 * (3 * w + z) + 3 * e * e + 1) by (nonlinear_arith)
        requires
            y == 2 * t + 1,
            x == 2 * u + e,
            w == u * u + u * e,
            z == t * t + t,
            b == 3 * x * x + y * y,
    ;
    assert(e * e == e) by (nonlinear_arith)
        requires
            0 <= e <= 1,
    ;
    assert(b % 12 != 7);
    let a = 4 * x * x + y * y;
    let c = 4 * x * x - y * y;
    assert(a >= 0 && (x > y ==> c >= 0)) by (nonlinear_arith)
        requires
            a == 4 * x * x + y * y,
            c == 4 * x * x - y * y,
            1 <= y,
    ;
}

/// Flipping a candidate keeps the marks on 2, 3 and the Atkin residues, and
/// leaves the marks of 2 and 3 alone.
pub proof fn lemma_flip_keeps(s: Seq<bool>, n: int, x: int, y: int)
    requires
        1 <= x,
        1 <= y,
        y % 2 == 1,
        s.len() == n + 1,
        marks_on_atkin_residues(s),
    ensures
        marks_on_atkin_residues(flip(s, atkin_candidate(n, x, y))),
        flip(s, atkin_candidate(n, x, y)).len() == s.len(),
        forall|k: int| 0 <= k < s.len() && !atkin_residue(k) ==> #[trigger] flip(
            s,
            atkin_candidate(n, x, y),
        )[k] == s[k],
{
    lemma_candidate_residue(n, x, y);
}

/// A row of flips keeps the marks on the Atkin residues and leaves 2 and 3 alone.
pub proof fn lemma_flip_row_keeps(s: Seq<bool>, n: int, r: int, x: int, y: int)
    requires
        1 <= x,
        1 <= y,
        y % 2 == 1,
        s.len() == n + 1,
        marks_on_atkin_residues(s),
    ensures
        marks_on_atkin_residues(flip_row(s, n, r, x, y)),
        flip_row(s, n, r, x, y).len() == s.len(),
        forall|k: int| 0 <= k < s.len() && !atkin_residue(k) ==> #[trigger] flip_row(
            s,
            n,
            r,
            x,
            y,
        )[k] == s[k],
    decreases r + 2 - y,
{
    if y <= r {
        let t = flip(s, atkin_candidate(n, x, y));
        lemma_flip_keeps(s, n, x, y);
        lemma_flip_row_keeps(t, n, r, x, y + 2);
    }
}

/// All rows of flips keep the marks on the Atkin residues and leave 2 and 3 alone.
pub proof fn lemma_flip_rows_keeps(s: Seq<bool>, n: int, r: int, x: int)
    requires
        1 <= x,
        s.len() == n + 1,
        marks_on_atkin_residues(s),
    ensures
        marks_on_atkin_residues(flip_rows(s, n, r, x)),
        flip_rows(s, n, r, x).len() == s.len(),
        forall|k: int| 0 <= k < s.len() && !atkin_residue(k) ==> #[trigger] flip_rows(
            s,
            n,
            r,
            x,
        )[k] == s[k],
    decreases r + 1 - x,
{
    if x <= r {
        lemma_flip_row_keeps(s, n, r, x, 1);
        lemma_flip_rows_keeps(flip_row(s, n, r, x, 1), n, r, x + 1);
    }
}

/// Clearing the multiples of squares from 25 on only clears marks, and never those below 25.
pub proof fn lemma_strike_from_keeps(s: Seq<bool>, n: int, i: int)
    requires
        5 <= i,
        s.len() == n + 1,
    ensures
        strike_from(s, n, i).len() == s.len(),
        forall|k: int| 0 <= k < s.len() && #[trigger] strike_from(s, n, i)[k] ==> s[k],
        forall|k: int| 0 <= k < 25 && k < s.len() ==> #[trigger] strike_from(s, n, i)[k] == s[k],
    decreases n + 1 - i,
{
    if i <= n {
        if s[i] {
            let t = strike_square(s, i);
            assert(i * i >= 25) by (nonlinear_arith)
                requires
                    5 <= i,
            ;
            lemma_strike_from_keeps(t, n, i + 1);
        } else {
            lemma_strike_from_keeps(s, n, i + 1);
        }
    }
}

/// The Atkin sieve of this library lists, in increasing order, numbers in `0..=n`
/// that are 2, 3, or 1, 5 or 11 modulo 12; 2 and 3 are listed once `n >= 3`.
/// (Its first phase counts only odd `y`, so no number that is 7 modulo 12 is
/// ever listed: 7 itself is not.)
pub proof fn atkin_lists_on_residues(n: nat)
    requires
        n <= i64::MAX,
    ensures
        strictly_increasing(marked(atkin_marks(n))),
        forall|v: i64|
            #[trigger] marked(atkin_marks(n)).contains(v) ==> 0 <= v <= n && (v == 2 || v == 3
                || atkin_residue(v as int)),
        n >= 3 ==> marked(atkin_marks(n)).contains(2) && marked(atkin_marks(n)).contains(3),
{
    let start = atkin_start(n);
    let flipped = flip_rows(start, n as int, isqrt(n) as int, 1);
    lemma_flip_rows_keeps(start, n as int, isqrt(n) as int, 1);
    lemma_strike_from_keeps(flipped, n as int, 5);
    let fin = atkin_marks(n);
    assert(marks_on_atkin_residues(fin)) by {
        assert forall|k: int| 0 <= k < fin.len() && #[trigger] fin[k] implies k == 2 || k == 3
            || atkin_residue(k) by {
            assert(flipped[k]);
        }
    }
    lemma_marked(fin);
    if n >= 3 {
        assert(!atkin_residue(2) && !atkin_residue(3));
        assert(fin[2] == flipped[2] && flipped[2] == start[2]);
        assert(fin[3] == flipped[3] && flipped[3] == start[3]);
        assert(marked(fin).contains(2));
        assert(marked(fin).contains(3));
    }
}

/// How many pairs `(x, y)`, `(x, y + 2)`, ... with second member at most `r` flip `k`.
pub open spec fn row_hits(n: int, r: int, x: int, y: int, k: int) -> nat
    decreases r + 2 - y,
{
    if y > r {
        0
    } else {
        (if atkin_candidate(n, x, y) == Some(k) {
            1nat
        } else {
            0nat
        }) + row_hits(n, r, x, y + 2, k)
    }
}

/// How many pairs with first member from `x` to `r` and odd second member up to
/// `r` flip `k`.
pub open spec fn pair_hits(n: int, r: int, x: int, k: int) -> nat
    decreases r + 1 - x,
{
    if x > r {
        0
    } else {
        row_hits(n, r, x, 1, k) + pair_hits(n, r, x + 1, k)
    }
}

/// A row of flips negates a mark once per pair of the row that names it.
proof fn lemma_flip_row_parity(s: Seq<bool>, n: int, r: int, x: int, y: int, k: int)
    requires
        0 <= k < s.len(),
        s.len() == n + 1,
        1 <= y,
    ensures
        flip_row(s, n, r, x, y).len() == s.len(),
        flip_row(s, n, r, x, y)[k] == (s[k] != (row_hits(n, r, x, y, k) % 2 == 1)),
    decreases r + 2 - y,
{
    if y <= r {
        let c = atkin_candidate(n, x, y);
        let t = flip(s, c);
        assert(c matches Some(m) ==> 0 <= m <= n) by {
            let a = 4 * x * x + y * y;
            assert(a >= 0) by (nonlinear_arith)
                requires
                    a == 4 * x * x + y * y,
            ;
            let b = 3 * x * x + y * y;
            assert(b >= 0) by (nonlinear_arith)
                requires
                    b == 3 * x * x + y * y,
            ;
            let d = 4 * x * x - y * y;
            assert(x > y ==> d >= 0) by (nonlinear_arith)
                requires
                    d == 4 * x * x - y * y,
                    1 <= y,
            ;
        }
        lemma_flip_row_parity(t, n, r, x, y + 2, k);
    }
}

/// All rows of flips negate a mark once per pair that names it.
proof fn lemma_flip_rows_parity(s: Seq<bool>, n: int, r: int, x: int, k: int)
    requires
        0 <= k < s.len(),
        s.len() == n + 1,
    ensures
        flip_rows(s, n, r, x).len() == s.len(),
        flip_rows(s, n, r, x)[k] == (s[k] != (pair_hits(n, r, x, k) % 2 == 1)),
    decreases r + 1 - x,
{
    if x <= r {
        lemma_flip_row_parity(s, n, r, x, 1, k);
        lemma_flip_rows_parity(flip_row(s, n, r, x, 1), n, r, x + 1, k);
    }
}

/// After the first phase of the Atkin sieve, a number is marked exactly when it
/// is 2 or 3 or an odd number of pairs `(x, y)`, `1 <= x <= isqrt(n)`, odd
/// `1 <= y <= isqrt(n)`, name it, but not both.
pub proof fn atkin_first_phase_counts_pairs(n: nat, k: int)
    requires
        0 <= k <= n,
    ensures
        flip_rows(atkin_start(n), n as int, isqrt(n) as int, 1)[k] == ((k == 2 || k == 3) != (
        pair_hits(n as int, isqrt(n) as int, 1, k) % 2 == 1)),
{
    lemma_flip_rows_parity(atkin_start(n), n as int, isqrt(n) as int, 1, k);
}

/// Keeps the values up to `m`.
pub open spec fn at_most(m: int) -> spec_fn(i64) -> bool {
    |v: i64| v <= m
}

/// Listings of marks that agree below `len` agree.
proof fn lemma_marked_upto_agree(a: Seq<bool>, b: Seq<bool>, len: int)
    requires
        0 <= len <= a.len(),
        len <= b.len(),
        forall|k: int| 0 <= k < len ==> a[k] == b[k],
    ensures
        marked_upto(a, len) == marked_upto(b, len),
    decreases len,
{
    if len > 0 {
        lemma_marked_upto_agree(a, b, len - 1);
    }
}

/// Keeping the values up to `m` of a listing is listing the marks up to `m`.
proof fn lemma_marked_upto_filter(marks: Seq<bool>, len: int, m: int)
    requires
        0 <= len <= marks.len(),
        0 <= m,
        marks.len() <= i64::MAX + 1,
    ensures
        marked_upto(marks, len).filter(at_most(m)) == marked_upto(
            marks,
            if len <= m + 1 {
                len
            } else {
                m + 1
            },
        ),
    decreases len,
{
    reveal(Seq::filter);
    if len > 0 {
        lemma_marked_upto_filter(marks, len - 1, m);
        let prev = marked_upto(marks, len - 1);
        if marks[len - 1] {
            let cur = prev.push((len - 1) as i64);
            assert(cur.drop_last() =~= prev);
            assert(cur.last() == (len - 1) as i64);
            assert(((len - 1) as i64) as int == len - 1);
            assert(at_most(m)(cur.last()) == (len - 1 <= m));
            assert(cur.filter(at_most(m)) == if len - 1 <= m {
                prev.filter(at_most(m)).push(cur.last())
            } else {
                prev.filter(at_most(m))
            });
        }
    } else {
        assert(marked_upto(marks, 0).filter(at_most(m)) =~= Seq::<i64>::empty());
    }
}

/// The Eratosthenes listing up to `m` is the listing up to any larger `n`, cut at `m`.
pub proof fn eratosthenes_listing_is_a_prefix(m: nat, n: nat)
    requires
        m <= n <= i64::MAX,
    ensures
        marked(eratosthenes_marks(m)) == marked(eratosthenes_marks(n)).filter(at_most(m as int)),
{
    lemma_marked_upto_filter(eratosthenes_marks(n), (n + 1) as int, m as int);
    lemma_marked_upto_agree(eratosthenes_marks(n), eratosthenes_marks(m), (m + 1) as int);
}

/// The square of `m` divides `k` and is at most `k`.
pub open spec fn square_divides(m: int, k: int) -> bool {
    m * m <= k && divides(m * m, k)
}

/// Some number `m` in `lo..hi` marked in `marks` has a square that divides `k`.
pub open spec fn struck_by(marks: Seq<bool>, k: int, lo: int, hi: int) -> bool {
    exists|m: int| lo <= m < hi && m < marks.len() && marks[m] && #[trigger] square_divides(m, k)
}

/// Widening the range of strikers past `k`'s square root changes nothing.
proof fn lemma_struck_by_range(marks: Seq<bool>, k: int, hi1: int, hi2: int)
    requires
        0 <= k < hi1,
        k < hi2,
    ensures
        struck_by(marks, k, 5, hi1) == struck_by(marks, k, 5, hi2),
{
    if struck_by(marks, k, 5, hi1) {
        let m = choose|m: int|
            5 <= m < hi1 && m < marks.len() && marks[m] && #[trigger] square_divides(m, k);
        assert(m < m * m) by (nonlinear_arith)
            requires
                5 <= m,
        ;
        assert(struck_by(marks, k, 5, hi2));
    }
    if struck_by(marks, k, 5, hi2) {
        let m = choose|m: int|
            5 <= m < hi2 && m < marks.len() && marks[m] && #[trigger] square_divides(m, k);
        assert(m < m * m) by (nonlinear_arith)
            requires
                5 <= m,
        ;
        assert(struck_by(marks, k, 5, hi1));
    }
}

/// Striking from `i` on keeps the rule that a number is marked exactly when it
/// was marked after the first phase and no marked striker's square divides it.
proof fn lemma_strike_from_rule(p: Seq<bool>, s: Seq<bool>, n: int, i: int)
    requires
        5 <= i,
        i <= n + 1 || i == 5,
        p.len() == n + 1,
        s.len() == n + 1,
        forall|k: int| 0 <= k <= n ==> #[trigger] s[k] == (p[k] && !struck_by(s, k, 5, i)),
    ensures
        strike_from(s, n, i).len() == n + 1,
        forall|k: int|
            0 <= k <= n ==> #[trigger] strike_from(s, n, i)[k] == (p[k] && !struck_by(
                strike_from(s, n, i),
                k,
                5,
                n + 1,
            )),
    decreases n + 1 - i,
{
    if i > n {
        assert forall|k: int| 0 <= k <= n implies #[trigger] strike_from(s, n, i)[k] == (p[k]
            && !struck_by(strike_from(s, n, i), k, 5, n + 1)) by {
            lemma_struck_by_range(s, k, i, n + 1);
        }
    } else {
        let t = if s[i] {
            strike_square(s, i)
        } else {
            s
        };
        assert(i < i * i) by (nonlinear_arith)
            requires
                5 <= i,
        ;
        assert forall|m: int| 0 <= m <= i implies #[trigger] t[m] == s[m] by {}
        assert forall|k: int| 0 <= k <= n implies #[trigger] t[k] == (p[k] && !struck_by(
            t,
            k,
            5,
            i + 1,
        )) by {
            if struck_by(t, k, 5, i + 1) {
                let m = choose|m: int|
                    5 <= m < i + 1 && m < t.len() && t[m] && #[trigger] square_divides(m, k);
                if m < i {
                    assert(s[m]);
                    assert(struck_by(s, k, 5, i));
                } else {
                    assert(s[i] && square_divides(i, k));
                }
            }
            if struck_by(s, k, 5, i) {
                let m = choose|m: int|
                    5 <= m < i && m < s.len() && s[m] && #[trigger] square_divides(m, k);
                assert(t[m]);
                assert(struck_by(t, k, 5, i + 1));
            }
            if s[i] && square_divides(i, k) {
                assert(t[i]);
                assert(struck_by(t, k, 5, i + 1));
            }
        }
        lemma_strike_from_rule(p, t, n, i + 1);
    }
}

/// After the Atkin sieve, a number up to `n` is listed exactly when the first
/// phase marked it and no listed number `m >= 5` has a square dividing it: every
/// number still marked when the sieve reaches it clears the multiples of its
/// square.
pub proof fn atkin_strikes_squares_of_listed_numbers(n: nat)
    ensures
        forall|k: int|
            0 <= k <= n ==> (#[trigger] atkin_marks(n)[k] <==> (flip_rows(
                atkin_start(n),
                n as int,
                isqrt(n) as int,
                1,
            )[k] && !(exists|m: int|
                5 <= m <= n && atkin_marks(n)[m] && #[trigger] square_divides(m, k)))),
{
    let p = flip_rows(atkin_start(n), n as int, isqrt(n) as int, 1);
    lemma_flip_rows_keeps(atkin_start(n), n as int, isqrt(n) as int, 1);
    lemma_strike_from_rule(p, p, n as int, 5);
    let f = atkin_marks(n);
    assert forall|k: int| 0 <= k <= n implies (#[trigger] f[k] <==> (p[k] && !(exists|m: int|
        5 <= m <= n && f[m] && #[trigger] square_divides(m, k)))) by {
        assert(f[k] == (p[k] && !struck_by(f, k, 5, n + 1 as int)));
        if struck_by(f, k, 5, n + 1 as int) {
            let m = choose|m: int|
                5 <= m < n + 1 as int && m < f.len() && f[m] && #[trigger] square_divides(m, k);
            assert(5 <= m <= n && f[m] && square_divides(m, k));
        }
        if exists|m: int| 5 <= m <= n && f[m] && #[trigger] square_divides(m, k) {
            let m = choose|m: int| 5 <= m <= n && f[m] && #[trigger] square_divides(m, k);
            assert(struck_by(f, k, 5, n + 1 as int));
        }
    }
}

/// The number a pair flips is `4x² + y²` when that is at most `n` and 1 or 5
/// modulo 12; otherwise `3x² + y²` when that is at most `n` and 7 modulo 12;
/// otherwise, for `x > y`, `4x² - y²` when that is at most `n` and 11 modulo 12;
/// and no number else.
pub proof fn atkin_pairs_flip_quadratic_forms(n: int, x: int, y: int)
    ensures
        ({
            let a = 4 * x * x + y * y;
            a <= n && (a % 12 == 1 || a % 12 == 5) ==> atkin_candidate(n, x, y) == Some(a)
        }),
        ({
            let a = 4 * x * x + y * y;
            let b = 3 * x * x + y * y;
            !(a <= n && (a % 12 == 1 || a % 12 == 5)) && b <= n && b % 12 == 7
                ==> atkin_candidate(n, x, y) == Some(b)
        }),
        ({
            let a = 4 * x * x + y * y;
            let b = 3 * x * x + y * y;
            let c = 4 * x * x - y * y;
            !(a <= n && (a % 12 == 1 || a % 12 == 5)) && !(b <= n && b % 12 == 7) && x > y && c
                <= n && c % 12 == 11 ==> atkin_candidate(n, x, y) == Some(c)
        }),
        atkin_candidate(n, x, y) matches Some(m) ==> m <= n && (m == 4 * x * x + y * y || m == 3
            * x * x + y * y || (x > y && m == 4 * x * x - y * y)),
{
}

} // verus!
