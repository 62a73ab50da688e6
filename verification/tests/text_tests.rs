use torsearch::text::{
    contains_str, i64_to_string, join_strings, parse_usize, replace_all_str, str_equal, truncate,
    usize_to_string,
};

#[test]
fn truncate_keeps_short_text() {
    assert_eq!(truncate("lockbit", 18), "lockbit");
    assert_eq!(truncate("abc", 3), "abc");
    assert_eq!(truncate("", 0), "");
}

#[test]
fn truncate_marks_cut_with_dots() {
    assert_eq!(truncate("Benchmark Industrial Holdings", 10), "Benchma...");
    assert_eq!(truncate("Benchmark Industrial Holdings", 10).chars().count(), 10);
    assert_eq!(truncate("abcdefgh", 4), "a...");
}

#[test]
fn truncate_narrow_column_takes_prefix() {
    assert_eq!(truncate("abcdef", 3), "abc");
    assert_eq!(truncate("abcdef", 2), "ab");
    assert_eq!(truncate("abcdef", 0), "");
}

#[test]
fn truncate_counts_characters_not_bytes() {
    assert_eq!(truncate("日本語テキスト", 5), "日本...");
    assert_eq!(truncate("日本語", 3), "日本語");
}

#[test]
fn decimal_text_of_numbers() {
    assert_eq!(usize_to_string(0), "0");
    assert_eq!(usize_to_string(1234), "1234");
    assert_eq!(usize_to_string(usize::MAX), usize::MAX.to_string());
    assert_eq!(i64_to_string(-42), "-42");
    assert_eq!(i64_to_string(i64::MIN), i64::MIN.to_string());
    assert_eq!(i64_to_string(i64::MAX), i64::MAX.to_string());
}

#[test]
fn parse_usize_like_std() {
    for s in ["0", "20", "+5", "007", "", "+", "-5", "12a", "١٢", "18446744073709551615", "18446744073709551616", "99999999999999999999999"] {
        assert_eq!(parse_usize(s), s.parse::<usize>().ok(), "input {:?}", s);
    }
}

#[test]
fn parse_reads_back_decimal_text() {
    for n in [0usize, 7, 10, 99, 100, 65535, usize::MAX] {
        assert_eq!(parse_usize(&usize_to_string(n)), Some(n));
    }
}

#[test]
fn replace_like_std() {
    let cases = [
        ("# {{name}}\n> ID: {{id}}", "{{name}}", "akira"),
        ("{{x}}{{x}}{{x}}", "{{x}}", "-"),
        ("aaaa", "aa", "b"),
        ("no placeholder", "{{id}}", "7"),
        ("", "a", "b"),
    ];
    for (s, p, r) in cases {
        assert_eq!(replace_all_str(s, p, r), s.replace(p, r));
    }
}

#[test]
fn join_with_separator() {
    let parts = vec!["a".to_string(), "b".to_string(), "c".to_string()];
    assert_eq!(join_strings(&parts, ", "), "a, b, c");
    assert_eq!(join_strings(&Vec::new(), ", "), "");
    assert_eq!(join_strings(&vec!["x".to_string()], "\n"), "x");
}

#[test]
fn contains_and_equal() {
    assert!(contains_str("1 request per minute", "per"));
    assert!(!contains_str("[]", "minute"));
    assert!(contains_str("abc", ""));
    assert!(str_equal("sync", "sync"));
    assert!(!str_equal("sync", "syn"));
}
