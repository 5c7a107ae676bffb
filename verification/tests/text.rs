use rustack::text::{decimal_string, is_whitespace, parse_i32, split_words, str_eq};

#[test]
fn str_eq_compares_characters() {
    assert!(str_eq("", ""));
    assert!(str_eq("puts", "puts"));
    assert!(str_eq("é", "é"));
    assert!(!str_eq("puts", "put"));
    assert!(!str_eq("put", "puts"));
    assert!(!str_eq("a", "b"));
    assert!(!str_eq("", "a"));
    assert!(!str_eq("é", "e"));
}

#[test]
fn parse_i32_reads_sign_and_digits() {
    assert_eq!(parse_i32("0"), Some(0));
    assert_eq!(parse_i32("123"), Some(123));
    assert_eq!(parse_i32("-123"), Some(-123));
    assert_eq!(parse_i32("+123"), Some(123));
    assert_eq!(parse_i32("0042"), Some(42));
    assert_eq!(parse_i32("2147483647"), Some(i32::MAX));
    assert_eq!(parse_i32("-2147483648"), Some(i32::MIN));
}

#[test]
fn parse_i32_rejects_everything_else() {
    for word in ["", "+", "-", "2147483648", "-2147483649", "12a", "a12", "1 2", "--1", "1.5", "１"] {
        assert_eq!(parse_i32(word), None, "{:?}", word);
    }
}

#[test]
fn decimal_string_writes_base_ten() {
    assert_eq!(decimal_string(0), "0");
    assert_eq!(decimal_string(7), "7");
    assert_eq!(decimal_string(10), "10");
    assert_eq!(decimal_string(-1), "-1");
    assert_eq!(decimal_string(1234567890), "1234567890");
    assert_eq!(decimal_string(i32::MAX), "2147483647");
    assert_eq!(decimal_string(i32::MIN), "-2147483648");
}

#[test]
fn decimal_string_reads_back() {
    for n in [0, 1, -1, 9, 10, 99, 100, -100, 65535, i32::MAX, i32::MIN, i32::MIN + 1] {
        assert_eq!(decimal_string(n), n.to_string());
        assert_eq!(parse_i32(&decimal_string(n)), Some(n));
    }
}

#[test]
fn is_whitespace_agrees_with_the_standard_library() {
    for code in 0..=0x10FFFFu32 {
        if let Some(c) = char::from_u32(code) {
            assert_eq!(is_whitespace(c), c.is_whitespace(), "U+{:04X}", code);
        }
    }
}

#[test]
fn split_words_cuts_at_white_space() {
    assert_eq!(split_words("1 2 +"), vec!["1", "2", "+"]);
    assert_eq!(split_words("  /a\t1   def \n"), vec!["/a", "1", "def"]);
    assert_eq!(split_words(""), Vec::<&str>::new());
    assert_eq!(split_words(" \t\r\n"), Vec::<&str>::new());
    assert_eq!(split_words("word"), vec!["word"]);
    assert_eq!(split_words("{1}"), vec!["{1}"]);
}

#[test]
fn split_words_agrees_with_the_standard_library() {
    for line in [
        "",
        " ",
        "a",
        " a",
        "a ",
        "a b",
        "a  b",
        "\u{3000}données\u{a0}é\u{2003}x\u{85}",
        "{ 1 2 + } { 3 } { 4 } if",
        "tab\there\u{b}and\u{c}there",
        "\u{1680}\u{2028}\u{2029}\u{202f}\u{205f}",
        "zero\u{200b}width is no space",
        "日本語 テキスト",
    ] {
        let expected: Vec<&str> = line.split_whitespace().collect();
        assert_eq!(split_words(line), expected, "{:?}", line);
    }
}
