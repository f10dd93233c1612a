use spiceware::passphrase::Spiceware;

fn list(words: &[&str]) -> Vec<String> {
    words.iter().map(|w| w.to_string()).collect()
}

fn config(num_words: u32, num_passwords: u32, delimiter: &str, quiet: bool, short: bool) -> Spiceware {
    Spiceware {
        num_words,
        num_passwords,
        delimiter: delimiter.to_string(),
        quiet,
        short,
        words: list(&["alpha", "bravo", "charlie", "delta", "echo"]),
        short_words: list(&["ab", "cd", "ef"]),
    }
}

#[test]
fn passphrase_has_exactly_n_words() {
    for n in 1..50u32 {
        let c = config(n, 1, "-", false, false);
        let p = c.gen_passphrase();
        assert_eq!(p.split('-').count(), n as usize);
    }
}

#[test]
fn passphrase_words_come_from_the_list() {
    let c = config(8, 1, " ", false, false);
    let p = c.gen_passphrase();
    for w in p.split(' ') {
        assert!(c.words.iter().any(|x| x == w), "unknown word: {}", w);
    }
}

#[test]
fn short_flag_draws_from_the_short_list() {
    let c = config(8, 1, " ", false, true);
    let p = c.gen_passphrase();
    for w in p.split(' ') {
        assert!(c.short_words.iter().any(|x| x == w), "unknown word: {}", w);
    }
}

#[test]
fn zero_words_give_the_empty_passphrase() {
    let c = config(0, 1, "-", false, false);
    assert_eq!(c.gen_passphrase(), "");
}

#[test]
fn single_word_list_pins_the_passphrase() {
    let mut c = config(3, 1, "_", false, false);
    c.words = list(&["only"]);
    assert_eq!(c.gen_passphrase(), "only_only_only");
}

#[test]
fn empty_delimiter_concatenates() {
    let mut c = config(4, 1, "", false, false);
    c.words = list(&["x"]);
    assert_eq!(c.gen_passphrase(), "xxxx");
}

#[test]
fn multi_character_delimiter_is_kept_whole() {
    let mut c = config(3, 1, ", ", false, false);
    c.words = list(&["w"]);
    assert_eq!(c.gen_passphrase(), "w, w, w");
}

#[test]
fn get_word_is_always_a_list_member() {
    let c = config(4, 1, " ", false, false);
    for _ in 0..1000 {
        let w = c.get_word();
        assert!(c.words.iter().any(|x| x == w));
    }
}

#[test]
fn draws_are_roughly_uniform() {
    let c = config(1, 1, " ", false, false);
    let n = c.words.len();
    let iterations = 1_000_000usize;
    let mut counts = vec![0usize; n];
    for _ in 0..iterations {
        let w = c.get_word();
        let i = c.words.iter().position(|x| x == w).unwrap();
        counts[i] += 1;
    }
    let expected = iterations / n;
    for (i, &count) in counts.iter().enumerate() {
        assert!(
            count >= expected / 2 && count <= expected + expected / 2,
            "word {} drawn {} times, expected about {}",
            i,
            count,
            expected
        );
    }
}

#[test]
fn worst_case_size_has_the_exact_value() {
    // 3 words of at most 7 characters, 2 delimiters of 2 characters.
    let c = config(3, 1, ", ", false, false);
    assert_eq!(c.worst_case_passphrase_size(), 3 * 7 + 2 * 2);
}

#[test]
fn worst_case_size_of_zero_words_is_zero() {
    let c = config(0, 1, ", ", false, false);
    assert_eq!(c.worst_case_passphrase_size(), 0);
}

#[test]
fn worst_case_size_with_large_counts() {
    let mut c = config(u32::MAX, 1, "-", false, false);
    c.delimiter = "d".repeat(1 << 20);
    let n = u32::MAX as usize;
    assert_eq!(c.worst_case_passphrase_size(), n * 7 + (n - 1) * (1 << 20));
}

#[test]
fn generated_passphrase_fits_the_worst_case_size() {
    let c = config(10, 1, "--", false, false);
    let p = c.gen_passphrase();
    assert!(p.chars().count() <= c.worst_case_passphrase_size());
}

#[test]
fn max_word_len_is_the_longest() {
    let words = list(&["a", "abcd", "ab"]);
    assert_eq!(spiceware::passphrase::max_word_len(&words), 4);
    let empty: Vec<String> = Vec::new();
    assert_eq!(spiceware::passphrase::max_word_len(&empty), 0);
}
