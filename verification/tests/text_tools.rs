use small_tools::isbn::{
    char_to_digit, check_digit_10, check_digit_13, complete, digit_to_char, IsbnError,
    DIGIT_TO_CHAR,
};
use small_tools::ligature::{ligaturize, replace_all, LIGATURES};
use small_tools::listing::{choose_listing, line_count, shell_named, Listing, Shell};
use small_tools::normalize::{normalize, normalize_separated, Normalization};
use small_tools::path::reversed_path;
use small_tools::text::{append_chars, chars_of, holds_at, string_of};

fn chars(s: &str) -> Vec<char> {
    s.chars().collect()
}

// ---- ISBN ----

#[test]
fn digits_and_their_characters() {
    for d in 0..11u32 {
        let c = digit_to_char(d).expect("a digit");
        assert_eq!(c, DIGIT_TO_CHAR[d as usize]);
        assert_eq!(char_to_digit(c), Some(d));
    }
    assert_eq!(digit_to_char(0), Some('0'));
    assert_eq!(digit_to_char(9), Some('9'));
    assert_eq!(digit_to_char(10), Some('X'));
    assert_eq!(digit_to_char(11), None);
    assert_eq!(digit_to_char(u32::MAX), None);
    assert_eq!(char_to_digit('7'), Some(7));
    assert_eq!(char_to_digit('X'), Some(10));
    assert_eq!(char_to_digit('x'), None);
    assert_eq!(char_to_digit('-'), None);
    assert_eq!(char_to_digit('٣'), None);
}

#[test]
fn check_digit_10_exact_values() {
    assert_eq!(check_digit_10(&[0, 3, 0, 6, 4, 0, 6, 1, 5]), 2);
    assert_eq!(check_digit_10(&[1, 5, 5, 4, 0, 4, 2, 9, 5]), 10);
    assert_eq!(check_digit_10(&[]), 0);
    assert_eq!(check_digit_10(&[1]), 1);
    assert_eq!(check_digit_10(&[u32::MAX; 11]), ((11 - (55 * (u32::MAX as u64)) % 11) % 11) as u32);
}

#[test]
fn check_digit_13_exact_values() {
    assert_eq!(check_digit_13(&[9, 7, 8, 0, 3, 0, 6, 4, 0, 6, 1, 5]), 7);
    assert_eq!(check_digit_13(&[9, 7, 8, 3, 1, 6, 1, 4, 8, 4, 1, 0]), 0);
    assert_eq!(check_digit_13(&[]), 0);
    assert_eq!(check_digit_13(&[0, 1]), 7);
}

#[test]
fn check_digits_complete_the_weighted_sum() {
    let digits = [3u32, 1, 4, 1, 5, 9, 2, 6, 5, 3, 5, 8];
    let nine = &digits[..9];
    let sum10: u32 = nine.iter().enumerate().map(|(i, d)| (10 - i as u32) * d).sum();
    assert_eq!((sum10 + check_digit_10(nine)) % 11, 0);
    let sum13: u32 = digits.iter().enumerate().map(|(i, d)| ((i as u32 % 2) * 2 + 1) * d).sum();
    assert_eq!((sum13 + check_digit_13(&digits)) % 10, 0);
}

#[test]
fn complete_appends_the_check_digit() {
    assert_eq!(complete("030640615"), Ok("0306406152".to_string()));
    assert_eq!(complete("0-306-40615"), Ok("0306406152".to_string()));
    assert_eq!(complete("155404295"), Ok("155404295X".to_string()));
    assert_eq!(complete("978-0-306-40615"), Ok("9780306406157".to_string()));
    assert_eq!(complete("ISBN 978 3 16 148410"), Ok("9783161484100".to_string()));
}

#[test]
fn complete_wants_nine_or_twelve_digits() {
    assert_eq!(complete(""), Err(IsbnError::InvalidLength { digits: 0 }));
    assert_eq!(complete("12345"), Err(IsbnError::InvalidLength { digits: 5 }));
    assert_eq!(complete("0306406152"), Err(IsbnError::InvalidLength { digits: 10 }));
    assert_eq!(complete("9780306406157"), Err(IsbnError::InvalidLength { digits: 13 }));
    assert_eq!(complete("no digits at all"), Err(IsbnError::InvalidLength { digits: 0 }));
}

// ---- ligatures ----

#[test]
fn ligaturize_replaces_letter_sequences() {
    assert_eq!(ligaturize(""), "");
    assert_eq!(ligaturize("plain"), "plain");
    assert_eq!(ligaturize("office"), "oﬃce");
    assert_eq!(ligaturize("fluff"), "ﬂuﬀ");
    assert_eq!(ligaturize("waffle"), "waﬄe");
    assert_eq!(ligaturize("fish"), "ﬁsh");
    assert_eq!(ligaturize("IJssel"), "Ĳssel");
    assert_eq!(ligaturize("ijs"), "ĳs");
    assert_eq!(ligaturize("stet"), "ﬆet");
    assert_eq!(ligaturize("ſtet"), "ﬅet");
    assert_eq!(ligaturize("coeur"), "cœur");
    assert_eq!(ligaturize("OEUVRE"), "ŒUVRE");
}

#[test]
fn ligaturize_prefers_longer_sequences() {
    assert_eq!(ligaturize("ffi"), "ﬃ");
    assert_eq!(ligaturize("ffl"), "ﬄ");
    assert_eq!(ligaturize("fff"), "ﬀf");
    assert_eq!(ligaturize("ffffi"), "ﬀﬃ");
}

#[test]
fn ligaturize_normalizes_first() {
    assert_eq!(ligaturize("cafe\u{301} fin"), "caf\u{e9} ﬁn");
}

#[test]
fn ligature_table_has_longer_sequences_first() {
    let lengths: Vec<usize> = LIGATURES.iter().map(|(from, _)| from.chars().count()).collect();
    for pair in lengths.windows(2) {
        assert!(pair[0] >= pair[1]);
    }
    assert_eq!(LIGATURES.len(), 11);
}

#[test]
fn replace_all_is_leftmost_and_does_not_overlap() {
    assert_eq!(replace_all(&chars("aaaa"), &chars("aa"), &chars("b")), chars("bb"));
    assert_eq!(replace_all(&chars("aaa"), &chars("aa"), &chars("b")), chars("ba"));
    assert_eq!(replace_all(&chars("abcabc"), &chars("bc"), &chars("")), chars("aa"));
    assert_eq!(replace_all(&chars("abc"), &chars("x"), &chars("y")), chars("abc"));
    assert_eq!(replace_all(&chars("abc"), &chars("abcd"), &chars("y")), chars("abc"));
    assert_eq!(replace_all(&chars(""), &chars("a"), &chars("b")), chars(""));
    assert_eq!(replace_all(&chars("abc"), &chars(""), &chars("-")), chars("abc"));
    assert_eq!(replace_all(&chars("xab"), &chars("ab"), &chars("ab")), chars("xab"));
    assert_eq!(replace_all(&chars("a"), &chars("a"), &chars("aa")), chars("aa"));
}

// ---- characters ----

#[test]
fn strings_and_their_characters() {
    assert_eq!(chars_of("žлœ1"), vec!['ž', 'л', 'œ', '1']);
    assert_eq!(chars_of(""), Vec::<char>::new());
    assert_eq!(string_of(&vec!['ž', 'л', 'œ', '1']), "žлœ1");
    assert_eq!(string_of(&vec![]), "");
}

#[test]
fn holds_at_compares_a_window() {
    let text = chars("abcdef");
    assert!(holds_at(&chars("cd"), &text, 2, 2));
    assert!(!holds_at(&chars("cd"), &text, 1, 2));
    assert!(!holds_at(&chars("cd"), &text, 2, 3));
    assert!(holds_at(&chars(""), &text, 6, 0));
    assert!(holds_at(&chars("abcdef"), &text, 0, 6));
}

#[test]
fn append_chars_extends() {
    let mut out = chars("ab");
    append_chars(&mut out, &chars("cd"));
    assert_eq!(out, chars("abcd"));
    append_chars(&mut out, &chars(""));
    assert_eq!(out, chars("abcd"));
}

// ---- normalization ----

#[test]
fn normalize_in_each_form() {
    // e with acute, and the ligature fi
    assert_eq!(normalize(Normalization::Nfc, "e\u{301}\u{fb01}"), "\u{e9}\u{fb01}");
    assert_eq!(normalize(Normalization::Nfd, "\u{e9}\u{fb01}"), "e\u{301}\u{fb01}");
    assert_eq!(normalize(Normalization::Nfkc, "e\u{301}\u{fb01}"), "\u{e9}fi");
    assert_eq!(normalize(Normalization::Nfkd, "\u{e9}\u{fb01}"), "e\u{301}fi");
    for &form in
        &[Normalization::Nfc, Normalization::Nfd, Normalization::Nfkc, Normalization::Nfkd]
    {
        assert_eq!(normalize(form, ""), "");
        assert_eq!(normalize(form, "plain"), "plain");
    }
}

#[test]
fn normalize_separated_puts_the_separator_between_inputs() {
    assert_eq!(normalize_separated(Normalization::Nfc, ", ", 0, "e\u{301}"), "\u{e9}");
    assert_eq!(normalize_separated(Normalization::Nfc, ", ", 1, "e\u{301}"), ", \u{e9}");
    assert_eq!(normalize_separated(Normalization::Nfd, "\n", 7, "\u{e9}"), "\ne\u{301}");
    // the separator is written as it is
    assert_eq!(normalize_separated(Normalization::Nfc, "e\u{301}", 1, "a"), "e\u{301}a");
    assert_eq!(normalize_separated(Normalization::Nfkd, "", 3, "\u{fb01}"), "fi");
}

// ---- listings ----

#[test]
fn line_count_counts_lines() {
    assert_eq!(line_count(""), 0);
    assert_eq!(line_count("a"), 1);
    assert_eq!(line_count("a\n"), 1);
    assert_eq!(line_count("a\nb"), 2);
    assert_eq!(line_count("a\nb\n"), 2);
    assert_eq!(line_count("\n"), 1);
    assert_eq!(line_count("\n\n"), 2);
    assert_eq!(line_count("a\r\nb\r\n"), 2);
    assert_eq!(line_count("a\n\nb"), 3);
    for text in ["", "x", "x\n", "\n\nx", "a\r\nb", "a\rb\n", "é\nл\n\n"] {
        assert_eq!(line_count(text), text.lines().count());
    }
}

#[test]
fn choose_listing_by_the_room_left() {
    assert_eq!(choose_listing(10, 24, 1), Listing::Long);
    assert_eq!(choose_listing(23, 24, 1), Listing::Long);
    assert_eq!(choose_listing(24, 24, 1), Listing::Columns);
    assert_eq!(choose_listing(24, 24, 0), Listing::Long);
    assert_eq!(choose_listing(0, 5, 5), Listing::Long);
    assert_eq!(choose_listing(1, 5, 5), Listing::Columns);
}

#[test]
fn shell_named_knows_fish() {
    assert_eq!(shell_named("fish"), Shell::Fish);
    assert_eq!(shell_named("bash"), Shell::Bash);
    assert_eq!(shell_named("zsh"), Shell::Bash);
    assert_eq!(shell_named("fishy"), Shell::Bash);
    assert_eq!(shell_named("Fish"), Shell::Bash);
    assert_eq!(shell_named(""), Shell::Bash);
}

// ---- paths ----

fn strings(parts: &[&str]) -> Vec<String> {
    parts.iter().map(|s| s.to_string()).collect()
}

#[test]
fn reversed_path_of_an_absolute_path() {
    assert_eq!(reversed_path(&strings(&["home", "user", "x"]), "/", true), "x/user/home/");
    assert_eq!(reversed_path(&strings(&["home"]), "/", true), "home/");
    assert_eq!(reversed_path(&strings(&["a", "b"]), " < ", true), "b < a < ");
    assert_eq!(reversed_path(&strings(&["a", "b"]), "", true), "ba");
}

#[test]
fn reversed_path_of_the_root() {
    assert_eq!(reversed_path(&strings(&[]), "/", true), "/");
    assert_eq!(reversed_path(&strings(&[]), "::", true), "::");
}

#[test]
fn reversed_path_of_a_relative_path() {
    assert_eq!(reversed_path(&strings(&["a", "b", "c"]), "/", false), "c/b/a");
    assert_eq!(reversed_path(&strings(&["a"]), "/", false), "a");
}
