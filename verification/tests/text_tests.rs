use media_organizer::text::{
    chars_of, decimal, ends_with, extension_of, lex_lt, same_opt_text, same_text, zero_padded,
};

#[test]
fn chars_of_keeps_order() {
    assert_eq!(chars_of("añb"), vec!['a', 'ñ', 'b']);
    assert_eq!(chars_of(""), Vec::<char>::new());
}

#[test]
fn ends_with_matches_suffix_only() {
    assert!(ends_with("/music/a.flac", ".flac"));
    assert!(ends_with(".mp3", ".mp3"));
    assert!(ends_with("anything", ""));
    assert!(!ends_with("mp3", ".mp3"));
    assert!(!ends_with("/music/a.flac.bak", ".flac"));
    assert!(!ends_with("/music/a.FLAC", ".flac"));
}

#[test]
fn same_text_compares_characters() {
    assert!(same_text("abc", "abc"));
    assert!(same_text("", ""));
    assert!(!same_text("abc", "abd"));
    assert!(!same_text("abc", "ab"));
}

#[test]
fn same_opt_text_treats_absence_as_a_value() {
    let a = Some(String::from("x"));
    let b = Some(String::from("x"));
    let c = Some(String::from("y"));
    assert!(same_opt_text(&a, &b));
    assert!(!same_opt_text(&a, &c));
    assert!(!same_opt_text(&a, &None));
    assert!(same_opt_text(&None, &None));
}

#[test]
fn extension_is_what_follows_the_last_dot() {
    assert_eq!(extension_of("/music/in/01 song.flac"), "flac");
    assert_eq!(extension_of("a.b.mp3"), "mp3");
    assert_eq!(extension_of("trailing."), "");
    assert_eq!(extension_of(".hidden"), "hidden");
}

#[test]
fn extension_of_a_path_without_dot_is_the_path() {
    assert_eq!(extension_of("noext"), "noext");
    assert_eq!(extension_of(""), "");
}

#[test]
fn decimal_has_no_leading_zeros() {
    assert_eq!(decimal(0), "0");
    assert_eq!(decimal(7), "7");
    assert_eq!(decimal(10), "10");
    assert_eq!(decimal(1979), "1979");
    assert_eq!(decimal(u64::MAX), "18446744073709551615");
}

#[test]
fn zero_padded_fills_up_to_the_width() {
    assert_eq!(zero_padded(3, 2), "03");
    assert_eq!(zero_padded(0, 2), "00");
    assert_eq!(zero_padded(12, 2), "12");
    assert_eq!(zero_padded(1979, 4), "1979");
    assert_eq!(zero_padded(79, 4), "0079");
    assert_eq!(zero_padded(5, 0), "5");
}

#[test]
fn zero_padded_never_cuts() {
    assert_eq!(zero_padded(123, 2), "123");
    assert_eq!(zero_padded(12345, 4), "12345");
    assert_eq!(zero_padded(i32::MAX, 4), "2147483647");
}

#[test]
fn zero_padded_counts_the_sign() {
    assert_eq!(zero_padded(-5, 4), "-005");
    assert_eq!(zero_padded(-5, 2), "-5");
    assert_eq!(zero_padded(-5, 1), "-5");
    assert_eq!(zero_padded(-5, 0), "-5");
    assert_eq!(zero_padded(-1979, 4), "-1979");
    assert_eq!(zero_padded(i32::MIN, 4), "-2147483648");
}

#[test]
fn zero_padded_agrees_with_the_standard_format() {
    let samples: Vec<i32> = vec![0, 1, 9, 10, 99, 100, 999, 1000, 9999, 10000, -1, -9, -10, -99, -100, -999, -1000];
    for n in samples {
        assert_eq!(zero_padded(n, 2), format!("{:02}", n));
        assert_eq!(zero_padded(n, 4), format!("{:04}", n));
    }
}

#[test]
fn lex_lt_orders_iso_dates_chronologically() {
    assert!(lex_lt("1979-11-30", "1980-01-01"));
    assert!(lex_lt("1979-11-30", "1979-12-01"));
    assert!(lex_lt("1979-11-29", "1979-11-30"));
    assert!(!lex_lt("1980-01-01", "1979-11-30"));
}

#[test]
fn lex_lt_is_strict_and_puts_prefixes_first() {
    assert!(!lex_lt("1979", "1979"));
    assert!(lex_lt("1979", "1979-11"));
    assert!(!lex_lt("1979-11", "1979"));
    assert!(lex_lt("", "a"));
    assert!(!lex_lt("a", ""));
    assert!(!lex_lt("", ""));
}

#[test]
fn lex_lt_agrees_with_the_standard_order() {
    let samples = vec!["", "a", "ab", "b", "1979", "1979-01", "é", "z", "Z"];
    for x in samples.iter() {
        for y in samples.iter() {
            assert_eq!(lex_lt(x, y), x < y);
        }
    }
}
