use martin::text::{
    chars_of, decimal_string, signed_decimal_string, split_on, text_lt,
};

#[test]
fn chars_are_listed_in_order() {
    assert_eq!(chars_of("añ/z"), vec!['a', 'ñ', '/', 'z']);
    assert!(chars_of("").is_empty());
}

#[test]
fn split_keeps_empty_pieces() {
    assert_eq!(split_on("a,b,c", ','), vec!["a", "b", "c"]);
    assert_eq!(split_on("", ','), vec![""]);
    assert_eq!(split_on("a,", ','), vec!["a", ""]);
    assert_eq!(split_on(",a", ','), vec!["", "a"]);
    assert_eq!(split_on(",,", ','), vec!["", "", ""]);
    assert_eq!(split_on("abc", ','), vec!["abc"]);
    for text in ["", "x", "a,b", ",", "a,,b,", "Noto Sans,Open Sans"] {
        let expected: Vec<String> = text.split(',').map(|s| s.to_string()).collect();
        assert_eq!(split_on(text, ','), expected);
    }
}

#[test]
fn decimal_numerals() {
    assert_eq!(decimal_string(0), "0");
    assert_eq!(decimal_string(7), "7");
    assert_eq!(decimal_string(10), "10");
    assert_eq!(decimal_string(4096), "4096");
    assert_eq!(decimal_string(u64::MAX), "18446744073709551615");
    assert_eq!(signed_decimal_string(0), "0");
    assert_eq!(signed_decimal_string(4326), "4326");
    assert_eq!(signed_decimal_string(-1), "-1");
    assert_eq!(signed_decimal_string(i32::MIN), "-2147483648");
    assert_eq!(signed_decimal_string(i32::MAX), "2147483647");
}

#[test]
fn text_order_is_that_of_strings() {
    let words = ["", "a", "ab", "b", "B", "aa", "é", "z", "a b", "a-b"];
    for a in words {
        for b in words {
            assert_eq!(text_lt(a, b), a < b, "{a:?} < {b:?}");
        }
    }
}
