use tasklog::num::i32_to_dec_string;
use tasklog::num::id_list_string;
use tasklog::num::parse_i32;

#[test]
fn parse_plain_number() {
    assert_eq!(parse_i32("42"), Some(42));
}

#[test]
fn parse_signed_numbers() {
    assert_eq!(parse_i32("+42"), Some(42));
    assert_eq!(parse_i32("-7"), Some(-7));
}

#[test]
fn parse_leading_zeros() {
    assert_eq!(parse_i32("007"), Some(7));
}

#[test]
fn parse_extremes() {
    assert_eq!(parse_i32("2147483647"), Some(i32::MAX));
    assert_eq!(parse_i32("-2147483648"), Some(i32::MIN));
}

#[test]
fn parse_out_of_range() {
    assert_eq!(parse_i32("2147483648"), None);
    assert_eq!(parse_i32("-2147483649"), None);
    assert_eq!(parse_i32("99999999999999999999"), None);
}

#[test]
fn parse_rejects_empty_and_bare_signs() {
    assert_eq!(parse_i32(""), None);
    assert_eq!(parse_i32("+"), None);
    assert_eq!(parse_i32("-"), None);
}

#[test]
fn parse_rejects_stray_characters() {
    assert_eq!(parse_i32("12a"), None);
    assert_eq!(parse_i32("1 2"), None);
    assert_eq!(parse_i32(" 12"), None);
    assert_eq!(parse_i32("1_2"), None);
}

#[test]
fn format_basic_numbers() {
    assert_eq!(i32_to_dec_string(0), "0");
    assert_eq!(i32_to_dec_string(45), "45");
    assert_eq!(i32_to_dec_string(-60), "-60");
    assert_eq!(i32_to_dec_string(1439), "1439");
}

#[test]
fn format_extremes() {
    assert_eq!(i32_to_dec_string(i32::MAX), "2147483647");
    assert_eq!(i32_to_dec_string(i32::MIN), "-2147483648");
}

#[test]
fn id_list_of_several() {
    assert_eq!(id_list_string(&vec![1, 2, 3]), "(1, 2, 3)");
}

#[test]
fn id_list_of_one() {
    assert_eq!(id_list_string(&vec![5]), "(5)");
}

#[test]
fn id_list_with_negative() {
    assert_eq!(id_list_string(&vec![-1, 10]), "(-1, 10)");
}
