//! Exact arithmetic against the floating point unit, and orders and texts.

use senda::clock::{current_unix_secs, whole_seconds};
use senda::double::with_headroom;
use senda::gigabytes::Gigabytes;
use senda::order::{sort_order, sort_unique, text_not_after};
use senda::text::{decimal_text, remove_text, text_contains, to_ascii_lower, trim_end_char};
use senda::text_map::TextMap;

/// Numbers of all sizes, without a pattern.
fn samples() -> Vec<u64> {
    let mut list = vec![
        0,
        1,
        2,
        999_999_999,
        1_000_000_000,
        24_000_000_000,
        24_050_000_000,
        24_150_000_000,
        u64::MAX,
        u64::MAX - 1,
        (1 << 53) - 1,
        1 << 53,
        (1 << 53) + 1,
    ];
    let mut x: u64 = 0x9e37_79b9_7f4a_7c15;
    for i in 0..400u32 {
        x ^= x << 13;
        x ^= x >> 7;
        x ^= x << 17;
        list.push(x >> (i % 60));
    }
    list
}

fn number(g: &Gigabytes) -> f64 {
    let (mant, shift) = g.parts();
    mant as f64 * 2f64.powi(shift as i32 - 90)
}

#[test]
fn large_figures_are_written_out() {
    let mut g = Gigabytes::from_bytes(7_300_000_001);
    let mut x = 7_300_000_001f64 / 1e9;
    for _ in 0..600 {
        g = g.plus(&g);
        x = x + x;
    }
    assert_eq!(g.text(), format!("{x:.1}"));
    assert_eq!(g.to_bytes(), u64::MAX);
}

#[test]
fn milliseconds_are_cut_to_whole_seconds() {
    assert_eq!(whole_seconds(0), 0);
    assert_eq!(whole_seconds(1_999), 1);
    assert_eq!(whole_seconds(1_700_000_000_000), 1_700_000_000);
    assert_eq!(whole_seconds(u64::MAX), 18_446_744_073_709_551);
}

#[test]
fn the_clock_counts_seconds_since_the_epoch() {
    let epoch = std::time::UNIX_EPOCH;
    let before = std::time::SystemTime::now().duration_since(epoch).unwrap().as_secs();
    let now = current_unix_secs();
    let after = std::time::SystemTime::now().duration_since(epoch).unwrap().as_secs();
    assert!(before <= now && now <= after);
}

#[test]
fn gigabytes_are_rounded_quotients() {
    for bytes in samples() {
        let g = Gigabytes::from_bytes(bytes);
        assert_eq!(number(&g), bytes as f64 / 1e9, "{bytes}");
        assert_eq!(g.text(), format!("{:.1}", bytes as f64 / 1e9), "{bytes}");
        assert_eq!(g.to_bytes(), (bytes as f64 / 1e9 * 1e9) as u64, "{bytes}");
        assert_eq!(g.is_positive(), bytes > 0);
    }
}

#[test]
fn sums_and_products_are_rounded() {
    let list = samples();
    for pair in list.windows(2) {
        let (a, b) = (Gigabytes::from_bytes(pair[0]), Gigabytes::from_bytes(pair[1]));
        let (x, y) = (pair[0] as f64 / 1e9, pair[1] as f64 / 1e9);
        assert_eq!(number(&a.plus(&b)), x + y);
        assert_eq!(number(&a.with_headroom()), x * 1.1);
        assert_eq!(a.at_least(&b), x >= y);
        assert_eq!(a.product_at_least(8_556_839_292_003_942, 53, &b), x * 0.95 >= y);
        assert_eq!(a.product_at_most(5_404_319_552_844_595, 52, &b), x * 1.2 <= y);
        assert_eq!(a.product_at_most(4_728_779_608_739_021, 52, &b), x * 1.05 <= y);
        assert_eq!(a.product_at_most(7_205_759_403_792_794, 53, &b), x * 0.8 <= y);
    }
}

#[test]
fn headroom_is_a_tenth() {
    for bytes in samples() {
        assert_eq!(with_headroom(bytes), (bytes as f64 * 1.1) as u64, "{bytes}");
    }
    assert_eq!(with_headroom(1_000), 1_100);
}

#[test]
fn texts_are_ordered_as_strings_are() {
    let list = ["", "a", "B", "b", "ab", "\u{e4}", "z", "aa"];
    for a in list {
        for b in list {
            assert_eq!(text_not_after(a, b), a <= b, "{a} {b}");
        }
    }
    let owned: Vec<String> = list.iter().map(|s| s.to_string()).collect();
    let mut sorted = owned.clone();
    sorted.sort();
    let by_order: Vec<String> = sort_order(&owned).into_iter().map(|i| owned[i].clone()).collect();
    assert_eq!(by_order, sorted);
    let twice: Vec<String> = owned.iter().chain(owned.iter()).cloned().collect();
    assert_eq!(sort_unique(&twice), sorted);
}

#[test]
fn ascii_letters_are_made_small() {
    assert_eq!(to_ascii_lower("\u{c4}bC"), "\u{c4}bc");
}

#[test]
fn pieces_of_a_text_are_found_and_removed() {
    assert!(text_contains("abcabc", "ca"));
    assert!(!text_contains("abcabc", "cb"));
    assert_eq!(remove_text("aXbXXc", "X"), "abc");
    assert_eq!(remove_text("aaa", "aa"), "a");
    assert_eq!(trim_end_char("a//", '/'), "a");
    assert_eq!(decimal_text(u128::MAX), format!("{}", u128::MAX));
    assert_eq!(decimal_text(0), "0");
}

#[test]
fn a_map_holds_each_key_once() {
    let mut map: TextMap<u32> = TextMap::new();
    map.insert("a".into(), 1);
    map.insert("b".into(), 2);
    map.insert("a".into(), 3);
    assert_eq!(map.len(), 2);
    assert_eq!(map.get("a"), Some(&3));
    assert_eq!(map.remove("b"), Some(2));
    assert_eq!(map.remove("b"), None);
    assert_eq!(map.keys(), vec!["a".to_string()]);
}
