use bare_script::format_law::splice;
use bare_script::text::chars_of;
use bare_script::text::contains_dot;
use bare_script::text::decimal_text;
use bare_script::text::find_char;
use bare_script::text::parse_int;
use bare_script::text::split_name;
use bare_script::text::string_of;
use bare_script::text::string_of_range;
use bare_script::text::text_eq;
use bare_script::text::unsigned_text;

#[test]
fn characters_go_to_a_vector_and_back() {
    let chars = chars_of("héllo");
    assert_eq!(chars, vec!['h', 'é', 'l', 'l', 'o']);
    assert_eq!(string_of(&chars), "héllo");
    assert_eq!(string_of(&Vec::new()), "");
    assert_eq!(string_of_range(&chars, 1, 3), "él");
    assert_eq!(string_of_range(&chars, 2, 2), "");
}

#[test]
fn texts_compare_by_their_characters() {
    assert!(text_eq("abc", "abc"));
    assert!(text_eq("", ""));
    assert!(!text_eq("abc", "abd"));
    assert!(!text_eq("abc", "ab"));
    assert!(!text_eq("ab", "abc"));
}

#[test]
fn numbers_print_in_decimal() {
    assert_eq!(decimal_text(0), "0");
    assert_eq!(decimal_text(7), "7");
    assert_eq!(decimal_text(10), "10");
    assert_eq!(decimal_text(-1), "-1");
    assert_eq!(decimal_text(128), "128");
    assert_eq!(decimal_text(i64::MAX), "9223372036854775807");
    assert_eq!(decimal_text(i64::MIN), "-9223372036854775808");
    assert_eq!(unsigned_text(0), "0");
    assert_eq!(unsigned_text(u64::MAX), "18446744073709551615");
}

#[test]
fn decimal_integers_are_read_with_an_optional_sign() {
    assert_eq!(parse_int("0"), Some(0));
    assert_eq!(parse_int("42"), Some(42));
    assert_eq!(parse_int("+42"), Some(42));
    assert_eq!(parse_int("-42"), Some(-42));
    assert_eq!(parse_int("007"), Some(7));
    assert_eq!(parse_int("9223372036854775807"), Some(i64::MAX));
    assert_eq!(parse_int("-9223372036854775808"), Some(i64::MIN));
    assert_eq!(parse_int("00000000000000000000000000000000000012"), Some(12));
}

#[test]
fn what_is_no_decimal_integer_is_not_read() {
    assert_eq!(parse_int(""), None);
    assert_eq!(parse_int("+"), None);
    assert_eq!(parse_int("-"), None);
    assert_eq!(parse_int("1a"), None);
    assert_eq!(parse_int("a1"), None);
    assert_eq!(parse_int("1.5"), None);
    assert_eq!(parse_int(" 1"), None);
    assert_eq!(parse_int("--1"), None);
    assert_eq!(parse_int("9223372036854775808"), None);
    assert_eq!(parse_int("-9223372036854775809"), None);
    assert_eq!(parse_int("99999999999999999999999999999999999999999999"), None);
}

#[test]
fn names_split_at_their_first_period() {
    assert_eq!(split_name("a"), ("a".to_string(), "".to_string()));
    assert_eq!(split_name("a.b"), ("a".to_string(), "b".to_string()));
    assert_eq!(split_name("a.b.c"), ("a".to_string(), "b.c".to_string()));
    assert_eq!(split_name("a."), ("a".to_string(), "".to_string()));
    assert_eq!(split_name(".b"), ("".to_string(), "b".to_string()));
    assert_eq!(split_name(""), ("".to_string(), "".to_string()));
    assert!(contains_dot("a.b"));
    assert!(!contains_dot("ab"));
    assert_eq!(find_char(&chars_of("a.b.c"), '.'), 1);
    assert_eq!(find_char(&chars_of("abc"), '.'), 3);
}

fn spliced_text(template: &str, texts: &[&str]) -> String {
    let texts: Vec<Vec<char>> = texts.iter().map(|t| chars_of(t)).collect();
    string_of(&splice(&chars_of(template), &texts))
}

#[test]
fn placeholders_are_filled_in_one_pass_from_the_left() {
    assert_eq!(spliced_text("{} + {} = {}", &["1", "2", "3"]), "1 + 2 = 3");
    assert_eq!(spliced_text("{}{}", &["a"]), "a{}");
    assert_eq!(spliced_text("{}", &["a", "b"]), "a");
    assert_eq!(spliced_text("{}", &["{}", "x"]), "{}");
    assert_eq!(spliced_text("{{}}", &["", "x"]), "{}");
    assert_eq!(spliced_text("{ } {", &["x"]), "{ } {");
    assert_eq!(spliced_text("", &["x"]), "");
    assert_eq!(spliced_text("{}", &[]), "{}");
    assert_eq!(spliced_text("é{}é", &["ü"]), "éüé");
}
