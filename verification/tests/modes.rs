use spiceware::passphrase::Spiceware;

fn list(words: &[&str]) -> Vec<String> {
    words.iter().map(|w| w.to_string()).collect()
}

fn config(num_words: u32, num_passwords: u32, quiet: bool) -> Spiceware {
    Spiceware {
        num_words,
        num_passwords,
        delimiter: " ".to_string(),
        quiet,
        short: false,
        words: list(&["alpha", "bravo", "charlie", "delta"]),
        short_words: list(&["ab", "cd"]),
    }
}

fn is_passphrase_of(c: &Spiceware, line: &str) -> bool {
    let words: Vec<&str> = line.split(' ').collect();
    words.len() == c.num_words as usize
        && words.iter().all(|w| c.words.iter().any(|x| x == w))
}

#[test]
fn batch_of_five_gives_exactly_five_passphrase_lines() {
    let c = config(4, 5, false);
    let lines = c.run();
    assert_eq!(lines.len(), 5);
    for line in &lines {
        assert!(is_passphrase_of(&c, line), "not a passphrase: {}", line);
    }
}

#[test]
fn quiet_mode_prints_only_the_passphrase() {
    let c = config(4, 1, true);
    let lines = c.run();
    assert_eq!(lines.len(), 1);
    assert!(is_passphrase_of(&c, &lines[0]), "not a passphrase: {}", lines[0]);
}

#[test]
fn more_than_one_passphrase_implies_batch() {
    let c = config(3, 2, false);
    let lines = c.run();
    assert_eq!(lines.len(), 2);
    for line in &lines {
        assert!(is_passphrase_of(&c, line));
    }
}

#[test]
fn quiet_mode_with_zero_passphrases_prints_nothing() {
    let c = config(4, 0, true);
    let lines = c.run();
    assert!(lines.is_empty());
}

#[test]
fn verbose_mode_block_shape() {
    let c = config(4, 1, false);
    let lines = c.run();
    assert_eq!(lines.len(), 5);
    assert_eq!(lines[0], "Your password is:");
    assert_eq!(lines[1], "");
    assert!(lines[2].starts_with('\t'));
    assert!(is_passphrase_of(&c, &lines[2][1..]));
    assert_eq!(lines[3], "");
    // 4 words from a 4-word list: 4^4 = 256 combinations, order of magnitude 2.
    assert_eq!(
        lines[4],
        "This password is one of about 10^2 possible combinations."
    );
}

#[test]
fn verbose_mode_reports_over_on_overflow() {
    let mut c = config(32, 1, false);
    c.words = (0..7776).map(|i| format!("word{}", i)).collect();
    let lines = c.verbose_mode();
    assert_eq!(lines.len(), 5);
    assert_eq!(
        lines[4],
        format!(
            "This password is one of over 10^{} possible combinations.",
            usize::MAX.ilog10()
        )
    );
}

#[test]
fn batch_mode_lines_match_the_requested_count() {
    let c = config(2, 7, false);
    let lines = c.batch_mode();
    assert_eq!(lines.len(), 7);
    for line in &lines {
        assert!(is_passphrase_of(&c, line));
    }
}
