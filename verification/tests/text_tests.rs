use encrypt_it::text::{decimal_string, rows_of_words, spaced_pairs_of, string_of, words_of};

#[test]
fn spaced_pairs_examples() {
    assert_eq!(spaced_pairs_of("abcdef"), "ab cd ef");
    assert_eq!(spaced_pairs_of("abc"), "ab c");
    assert_eq!(spaced_pairs_of("ab"), "ab");
    assert_eq!(spaced_pairs_of("a"), "a");
    assert_eq!(spaced_pairs_of(""), "");
    assert_eq!(spaced_pairs_of("Dekripsi ❌ gagal!"), "De kr ip si  ❌  g ag al !");
}

#[test]
fn words_split_at_unicode_white_space() {
    assert_eq!(words_of("  ab cd\tef\n"), vec!["ab", "cd", "ef"]);
    assert_eq!(words_of("x\u{3000}y\u{a0}z"), vec!["x", "y", "z"]);
    assert!(words_of("   ").is_empty());
    assert_eq!(words_of("tunggal"), vec!["tunggal"]);
}

#[test]
fn rows_hold_sixteen_cells() {
    let text: Vec<String> = (0..17).map(|i| format!("{:02x}", i)).collect();
    let rows = rows_of_words(&text.join(" "), 16);
    assert_eq!(rows.len(), 2);
    assert_eq!(rows[0].len(), 16);
    assert_eq!(rows[1], vec!["10".to_string()]);
    assert!(rows_of_words("", 16).is_empty());
}

#[test]
fn decimal_examples() {
    assert_eq!(decimal_string(0), "0");
    assert_eq!(decimal_string(7), "7");
    assert_eq!(decimal_string(1234), "1234");
    assert_eq!(decimal_string(u64::MAX), u64::MAX.to_string());
}

#[test]
fn string_of_collects_characters() {
    assert_eq!(string_of(&vec!['a', 'é', '✅']), "aé✅");
}
