use rfetch::numfmt::{fmt_fixed2, fmt_u64};
use rfetch::text::{
    contains_sub, first_token_of, lines_of, parse_u64, split_all, str_all_digits, str_eq, trim_str,
};

#[test]
fn split_all_on_colon() {
    let fields = split_all("model name\t: AMD Ryzen 7", ':');
    assert_eq!(fields, vec!["model name\t", " AMD Ryzen 7"]);
}

#[test]
fn split_all_keeps_empty_fields() {
    assert_eq!(split_all("a::b:", ':'), vec!["a", "", "b", ""]);
    assert_eq!(split_all("", ':'), vec![""]);
}

#[test]
fn lines_of_drops_only_the_final_newline() {
    assert_eq!(lines_of("a\nb\n"), vec!["a", "b"]);
    assert_eq!(lines_of("a\n\nb"), vec!["a", "", "b"]);
    let none: Vec<String> = Vec::new();
    assert_eq!(lines_of(""), none);
    assert_eq!(lines_of("\n"), vec![""]);
}

#[test]
fn parse_u64_reads_decimal_digits() {
    assert_eq!(parse_u64("8000000"), Some(8000000));
    assert_eq!(parse_u64("0"), Some(0));
    assert_eq!(parse_u64("18446744073709551615"), Some(u64::MAX));
}

#[test]
fn parse_u64_rejects_junk_and_overflow() {
    assert_eq!(parse_u64(""), None);
    assert_eq!(parse_u64("12a"), None);
    assert_eq!(parse_u64("-3"), None);
    assert_eq!(parse_u64("18446744073709551616"), None);
}

#[test]
fn contains_sub_finds_substrings() {
    assert!(contains_sub("model name\t: x", "model name"));
    assert!(contains_sub("abc", ""));
    assert!(!contains_sub("modal name", "model name"));
    assert!(!contains_sub("mo", "model"));
}

#[test]
fn trim_str_strips_both_ends() {
    assert_eq!(trim_str("  NVIDIA Card \n"), "NVIDIA Card");
    assert_eq!(trim_str("\t \n"), "");
    assert_eq!(trim_str("x"), "x");
}

#[test]
fn first_token_of_skips_leading_whitespace() {
    assert_eq!(first_token_of("  8000000 kB"), Some(String::from("8000000")));
    assert_eq!(first_token_of("word"), Some(String::from("word")));
    assert_eq!(first_token_of("   "), None);
}

#[test]
fn str_eq_compares_contents() {
    assert!(str_eq("--fast", "--fast"));
    assert!(!str_eq("--fast", "--fas"));
    assert!(!str_eq("", "x"));
}

#[test]
fn str_all_digits_accepts_only_digits() {
    assert!(str_all_digits("12345"));
    assert!(str_all_digits(""));
    assert!(!str_all_digits("12c"));
}

#[test]
fn fmt_u64_writes_decimal() {
    assert_eq!(fmt_u64(0), "0");
    assert_eq!(fmt_u64(7), "7");
    assert_eq!(fmt_u64(1234567890), "1234567890");
}

#[test]
fn fmt_fixed2_writes_two_decimal_places() {
    assert_eq!(fmt_fixed2(600000), "6000.00");
    assert_eq!(fmt_fixed2(123456), "1234.56");
    assert_eq!(fmt_fixed2(5), "0.05");
    assert_eq!(fmt_fixed2(50), "0.50");
}

#[test]
fn fast_mode_reads_first_argument() {
    let args = vec![String::from("prog"), String::from("--fast")];
    assert!(rfetch::fast_mode(&args));
    let bare = vec![String::from("prog")];
    assert!(!rfetch::fast_mode(&bare));
    let other = vec![String::from("prog"), String::from("--slow")];
    assert!(!rfetch::fast_mode(&other));
    let late = vec![String::from("prog"), String::from("x"), String::from("--fast")];
    assert!(!rfetch::fast_mode(&late));
}
