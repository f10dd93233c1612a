use spiceware::math::{checked_pow, ilog10};
use spiceware::passphrase::Spiceware;
use spiceware::render::u32_dec;

fn full_list(len: usize) -> Vec<String> {
    (0..len).map(|i| format!("word{}", i)).collect()
}

fn config(num_words: u32, list_len: usize) -> Spiceware {
    Spiceware {
        num_words,
        num_passwords: 1,
        delimiter: " ".to_string(),
        quiet: false,
        short: false,
        words: full_list(list_len),
        short_words: full_list(3),
    }
}

#[test]
fn ten_words_to_the_third_is_a_thousand() {
    let c = config(3, 10);
    assert_eq!(c.possible_combinations(), Some(1000));
    assert_eq!(ilog10(1000), 3);
}

#[test]
fn checked_pow_exact_values() {
    assert_eq!(checked_pow(2, 10), Some(1024));
    assert_eq!(checked_pow(7776, 4), Some(3_656_158_440_062_976));
    assert_eq!(checked_pow(0, 0), Some(1));
    assert_eq!(checked_pow(0, 5), Some(0));
    assert_eq!(checked_pow(1, 1000), Some(1));
    assert_eq!(checked_pow(usize::MAX, 1), Some(usize::MAX));
}

#[test]
fn checked_pow_detects_overflow() {
    assert_eq!(checked_pow(2, 64), None);
    assert_eq!(checked_pow(usize::MAX, 2), None);
}

#[test]
fn full_list_with_many_words_overflows() {
    // 7776^32 far exceeds the machine word; the count must report overflow,
    // not wrap to a small number.
    let c = config(32, 7776);
    assert_eq!(c.possible_combinations(), None);
}

#[test]
fn ilog10_exact_values() {
    assert_eq!(ilog10(1), 0);
    assert_eq!(ilog10(9), 0);
    assert_eq!(ilog10(10), 1);
    assert_eq!(ilog10(99), 1);
    assert_eq!(ilog10(100), 2);
    assert_eq!(ilog10(7776), 3);
    assert_eq!(ilog10(usize::MAX), usize::MAX.ilog10());
}

#[test]
fn decimal_rendering_exact_values() {
    assert_eq!(u32_dec(0), "0");
    assert_eq!(u32_dec(7), "7");
    assert_eq!(u32_dec(10), "10");
    assert_eq!(u32_dec(1963), "1963");
    assert_eq!(u32_dec(u32::MAX), u32::MAX.to_string());
}
