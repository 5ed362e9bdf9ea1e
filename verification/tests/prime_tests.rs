use batcher::prime::{atkin, eratosthenes, integer_sqrt};

fn is_prime(k: i64) -> bool {
    if k < 2 {
        return false;
    }
    let mut d = 2;
    while d * d <= k {
        if k % d == 0 {
            return false;
        }
        d += 1;
    }
    true
}

#[test]
fn eratosthenes_lists_zero_one_and_primes_up_to_ten() {
    assert_eq!(eratosthenes(10), vec![0, 1, 2, 3, 5, 7]);
}

#[test]
fn eratosthenes_small_bounds() {
    assert_eq!(eratosthenes(0), vec![0]);
    assert_eq!(eratosthenes(1), vec![0, 1]);
    assert_eq!(eratosthenes(2), vec![0, 1, 2]);
    assert_eq!(eratosthenes(4), vec![0, 1, 2, 3]);
}

#[test]
fn eratosthenes_agrees_with_trial_division() {
    let n = 2000;
    let expected: Vec<i64> = (0..=n as i64).filter(|&k| k < 2 || is_prime(k)).collect();
    assert_eq!(eratosthenes(n), expected);
}

#[test]
fn eratosthenes_on_a_square_bound() {
    let listed = eratosthenes(49);
    assert!(!listed.contains(&49));
    assert_eq!(*listed.last().unwrap(), 47);
}

#[test]
fn atkin_small_bounds() {
    assert_eq!(atkin(0), Vec::<i64>::new());
    assert_eq!(atkin(1), Vec::<i64>::new());
    assert_eq!(atkin(2), vec![2]);
    assert_eq!(atkin(3), vec![2, 3]);
    assert_eq!(atkin(6), vec![2, 3, 5]);
}

#[test]
fn atkin_up_to_ten_misses_seven() {
    assert_eq!(atkin(10), vec![2, 3, 5]);
}

#[test]
fn atkin_up_to_hundred() {
    assert_eq!(
        atkin(100),
        vec![2, 3, 5, 13, 17, 29, 37, 41, 53, 61, 73, 89, 97]
    );
}

#[test]
fn atkin_lists_only_two_three_and_its_residues() {
    let listed = atkin(2000);
    for w in listed.windows(2) {
        assert!(w[0] < w[1]);
    }
    for &v in &listed {
        assert!(v == 2 || v == 3 || v % 12 == 1 || v % 12 == 5 || v % 12 == 11);
        assert!(v <= 2000);
    }
    assert!(listed.contains(&245));
    assert!(!listed.contains(&7));
}

#[test]
fn integer_sqrt_values() {
    assert_eq!(integer_sqrt(0), 0);
    assert_eq!(integer_sqrt(1), 1);
    assert_eq!(integer_sqrt(15), 3);
    assert_eq!(integer_sqrt(16), 4);
    assert_eq!(integer_sqrt(1_000_000), 1000);
}

#[test]
fn eratosthenes_smaller_bound_is_a_prefix() {
    let large = eratosthenes(500);
    for m in [0usize, 1, 2, 10, 97, 100, 499] {
        let cut: Vec<i64> = large.iter().copied().filter(|&v| v <= m as i64).collect();
        assert_eq!(eratosthenes(m), cut);
    }
}
