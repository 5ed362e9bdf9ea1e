use batcher::console::pretty_print;
use batcher::text::{decimal_string, join, pad_right};

#[test]
fn pretty_print_bytes() {
    assert_eq!(pretty_print(0), "0 B");
    assert_eq!(pretty_print(1023), "1023 B");
}

#[test]
fn pretty_print_larger_units() {
    assert_eq!(pretty_print(1024), "1 KiB");
    assert_eq!(pretty_print(1536), "1 KiB");
    assert_eq!(pretty_print(1024 * 1024), "1 MiB");
    assert_eq!(pretty_print(3 * 1024 * 1024 * 1024 + 5), "3 GiB");
    assert_eq!(pretty_print(5 * 1024u64.pow(4)), "5 TiB");
    assert_eq!(pretty_print(1024u64.pow(5) - 1), "1023 TiB");
}

#[test]
fn pretty_print_beyond_tebibytes_is_empty() {
    assert_eq!(pretty_print(1024u64.pow(5)), "");
    assert_eq!(pretty_print(u64::MAX), "");
}

#[test]
fn decimal_strings() {
    assert_eq!(decimal_string(0), "0");
    assert_eq!(decimal_string(7), "7");
    assert_eq!(decimal_string(1024), "1024");
    assert_eq!(decimal_string(u64::MAX), u64::MAX.to_string());
}

#[test]
fn joining_and_padding() {
    let list = vec!["a".to_string(), "bc".to_string(), "d".to_string()];
    assert_eq!(join(&list, ", "), "a, bc, d");
    assert_eq!(join(&Vec::new(), ", "), "");
    assert_eq!(pad_right(&"ab".to_string(), 5), "ab   ");
    assert_eq!(pad_right(&"abcdef".to_string(), 3), "abcdef");
    assert_eq!(pad_right(&"é".to_string(), 2), "é ");
}

#[test]
fn decimal_text_reads_back() {
    for n in [0u64, 9, 10, 99, 1024, 123456789, usize::MAX as u64] {
        assert_eq!(batcher::number::parse_usize(&decimal_string(n)), Some(n as usize));
    }
}

#[test]
fn pretty_print_never_goes_down() {
    fn parts(size: u64) -> (usize, u64) {
        let text = pretty_print(size);
        let (number, unit) = text.split_once(' ').unwrap();
        let rank = ["B", "KiB", "MiB", "GiB", "TiB"].iter().position(|u| *u == unit).unwrap();
        (rank, number.parse().unwrap())
    }
    let sizes = [0u64, 1, 1023, 1024, 1500, 1048575, 1048576, 5 << 30, (1 << 50) - 1];
    for w in sizes.windows(2) {
        let (ra, va) = parts(w[0]);
        let (rb, vb) = parts(w[1]);
        assert!(ra <= rb);
        if ra == rb {
            assert!(va <= vb);
        }
    }
}
