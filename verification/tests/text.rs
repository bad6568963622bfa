use mdbx::text::{
    decimal_string, join_with, signed_decimal_string, sort_dedup, split_at_char, str_eq, text_lt,
};

fn strings(v: &[&str]) -> Vec<String> {
    v.iter().map(|s| s.to_string()).collect()
}

#[test]
fn split_keeps_empty_pieces() {
    assert_eq!(split_at_char("a||b", '|'), strings(&["a", "", "b"]));
    assert_eq!(split_at_char("", '|'), strings(&[""]));
    assert_eq!(split_at_char("|", '|'), strings(&["", ""]));
    assert_eq!(split_at_char("DUPSORT", '|'), strings(&["DUPSORT"]));
}

#[test]
fn join_then_split_gives_back_the_text() {
    for text in ["a|b|c", "", "|x|", "海洋|蓝色"] {
        let parts = split_at_char(text, '|');
        assert_eq!(join_with(&parts, "|"), text);
    }
}

#[test]
fn join_puts_separator_between() {
    assert_eq!(join_with(&strings(&["a", "b", "c"]), ", "), "a, b, c");
    assert_eq!(join_with(&strings(&[]), ", "), "");
    assert_eq!(join_with(&strings(&["x"]), ", "), "x");
}

#[test]
fn order_is_lexicographic_by_code_point() {
    assert!(text_lt("DUPFIXED", "DUPSORT"));
    assert!(!text_lt("DUPSORT", "DUPFIXED"));
    assert!(text_lt("ab", "abc"));
    assert!(!text_lt("abc", "abc"));
    assert!(text_lt("", "a"));
    assert!(text_lt("Z", "a"));
    assert!(text_lt("a", "é"));
    assert_eq!(text_lt("月亮", "太阳"), "月亮" < "太阳");
}

#[test]
fn sort_dedup_matches_std() {
    let input = strings(&["REVERSEDUP", "DUPSORT", "INTEGERKEY", "DUPSORT", "DUPFIXED", "INTEGERKEY"]);
    let mut expected = input.clone();
    expected.sort_unstable();
    expected.dedup();
    assert_eq!(sort_dedup(&input), expected);
    assert!(sort_dedup(&strings(&[])).is_empty());
}

#[test]
fn str_eq_compares_text() {
    assert!(str_eq("u32", "u32"));
    assert!(!str_eq("u32", "u64"));
    assert!(!str_eq("u3", "u32"));
}

#[test]
fn decimal_texts() {
    assert_eq!(decimal_string(0), "0");
    assert_eq!(decimal_string(255), "255");
    assert_eq!(decimal_string(u64::MAX), u64::MAX.to_string());
    assert_eq!(signed_decimal_string(-30798), "-30798");
    assert_eq!(signed_decimal_string(i64::MIN), i64::MIN.to_string());
    assert_eq!(signed_decimal_string(7), "7");
}

