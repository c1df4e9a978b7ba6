use birthday_bot::commands::parse_date;
use birthday_bot::lang::Langs;
use birthday_bot::lookup::is_username_valid;
use birthday_bot::lookup::parse_user_id;
use birthday_bot::text::i64_to_string;
use birthday_bot::text::parse_u16;
use birthday_bot::text::parse_u64;
use birthday_bot::text::str_eq;
use birthday_bot::text::u64_to_string;

#[test]
fn numbers_render_in_decimal() {
    assert_eq!(u64_to_string(0), "0");
    assert_eq!(u64_to_string(30), "30");
    assert_eq!(u64_to_string(18446744073709551615), "18446744073709551615");
    assert_eq!(i64_to_string(-42), "-42");
    assert_eq!(i64_to_string(7), "7");
    assert_eq!(i64_to_string(i64::MIN), "-9223372036854775808");
}

#[test]
fn decimal_parsing_accepts_digits_only() {
    assert_eq!(parse_u64("2000"), Some(2000));
    assert_eq!(parse_u64("0001"), Some(1));
    assert_eq!(parse_u64(""), None);
    assert_eq!(parse_u64("12a"), None);
    assert_eq!(parse_u64("-5"), None);
    assert_eq!(parse_u64("18446744073709551615"), Some(u64::MAX));
    assert_eq!(parse_u64("18446744073709551616"), None);
    assert_eq!(parse_u16("65535"), Some(65535));
    assert_eq!(parse_u16("65536"), None);
}

#[test]
fn string_equality_is_by_characters() {
    assert!(str_eq("abc", "abc"));
    assert!(!str_eq("abc", "abd"));
    assert!(!str_eq("abc", "ab"));
    assert!(str_eq("", ""));
    assert!(str_eq("na\u{1F600}ve", "na\u{1F600}ve"));
}

#[test]
fn date_arguments_are_read_loosely() {
    assert_eq!(parse_date("2000/01/01"), Some((2000, 1, 1)));
    // No per-month day count: February the 30th passes.
    assert_eq!(parse_date("2000/2/30"), Some((2000, 2, 30)));
    assert_eq!(parse_date("2000/13/01"), None);
    assert_eq!(parse_date("2000/00/01"), None);
    assert_eq!(parse_date("2000/12/32"), None);
    assert_eq!(parse_date("2000/12"), None);
    assert_eq!(parse_date("2000"), None);
    assert_eq!(parse_date(""), None);
    assert_eq!(parse_date("2000/x/1"), None);
    // Segments beyond the third are ignored.
    assert_eq!(parse_date("1999/6/15/junk"), Some((1999, 6, 15)));
}

#[test]
fn usernames_are_screened_before_lookup() {
    assert!(is_username_valid("some_user"));
    assert!(is_username_valid("@User99"));
    assert!(is_username_valid("ABCDE"));
    assert!(!is_username_valid("abcd"));
    assert!(!is_username_valid("abcdefghijklmnopqrstuvwxyz0123456789"));
    assert!(!is_username_valid("has space"));
    assert!(!is_username_valid("acc\u{00E9}nt"));
}

#[test]
fn lookup_answers_parse_with_newlines_removed() {
    assert_eq!(parse_user_id("123456789\n"), Some(123456789));
    assert_eq!(parse_user_id("\n42\n"), Some(42));
    assert_eq!(parse_user_id("none"), None);
    assert_eq!(parse_user_id("\n"), None);
    assert_eq!(parse_user_id("12.5"), None);
}

#[test]
fn labels_fall_back_to_the_default_locale() {
    let mut langs = Langs::new();
    langs.set("en", "HELP", "the help text");
    langs.set("it", "HELP", "il testo di aiuto");
    assert_eq!(langs.get("it", "HELP").unwrap(), "il testo di aiuto");
    assert_eq!(langs.get("de", "HELP").unwrap(), "the help text");
    assert_eq!(langs.get("de", "MISSING"), None);
    assert!(langs.has("en", "HELP"));
    assert!(!langs.has("de", "HELP"));
    // Replacement changes exactly the addressed pair.
    langs.set("en", "HELP", "newer help");
    assert_eq!(langs.get("de", "HELP").unwrap(), "newer help");
    assert_eq!(langs.get("it", "HELP").unwrap(), "il testo di aiuto");
}
