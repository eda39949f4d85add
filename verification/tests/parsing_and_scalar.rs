use matmul::parse::{cell_of_line, classify_line, LineValue};
use matmul::render::{render_int, render_product_line};
use matmul::scalar::{multiply, try_multiply};

fn line(s: &str) -> Vec<u8> {
    s.as_bytes().to_vec()
}

#[test]
fn plain_number_parses() {
    assert_eq!(classify_line(&line("3")), LineValue::Number(3));
    assert_eq!(cell_of_line(&line("3")), 3);
    assert_eq!(cell_of_line(&line("405")), 405);
}

#[test]
fn blank_lines_give_default() {
    assert_eq!(classify_line(&line("")), LineValue::Blank);
    assert_eq!(classify_line(&line("   \r\n")), LineValue::Blank);
    assert_eq!(cell_of_line(&line("")), 0);
    assert_eq!(cell_of_line(&line("\t\n")), 0);
}

#[test]
fn invalid_lines_give_default() {
    assert_eq!(classify_line(&line("abc")), LineValue::Invalid);
    assert_eq!(cell_of_line(&line("abc")), 0);
    assert_eq!(cell_of_line(&line("12x")), 0);
    assert_eq!(cell_of_line(&line("2.5")), 0);
    assert_eq!(cell_of_line(&line("-")), 0);
    assert_eq!(cell_of_line(&line("+")), 0);
}

#[test]
fn surrounding_whitespace_is_trimmed() {
    assert_eq!(cell_of_line(&line(" 42 \n")), 42);
    assert_eq!(cell_of_line(&line("\t-7\r\n")), -7);
}

#[test]
fn signed_numbers_parse() {
    assert_eq!(cell_of_line(&line("-12")), -12);
    assert_eq!(cell_of_line(&line("+7")), 7);
    assert_eq!(cell_of_line(&line("-0")), 0);
}

#[test]
fn extreme_values_parse_and_overflow_is_invalid() {
    assert_eq!(
        classify_line(&line("9223372036854775807")),
        LineValue::Number(i64::MAX)
    );
    assert_eq!(
        classify_line(&line("-9223372036854775808")),
        LineValue::Number(i64::MIN)
    );
    assert_eq!(classify_line(&line("9223372036854775808")), LineValue::Invalid);
    assert_eq!(classify_line(&line("-9223372036854775809")), LineValue::Invalid);
    assert_eq!(cell_of_line(&line("99999999999999999999")), 0);
}

#[test]
fn product_matches_mathematical_product() {
    assert_eq!(multiply(3, 4), 12);
    assert_eq!(multiply(-3, 4), -12);
    assert_eq!(multiply(0, 12345), 0);
}

#[test]
fn product_is_commutative_and_associative() {
    assert_eq!(multiply(3, 4), multiply(4, 3));
    assert_eq!(multiply(-5, 7), multiply(7, -5));
    assert_eq!(multiply(multiply(2, 3), 4), multiply(2, multiply(3, 4)));
}

#[test]
fn guarded_product_reports_overflow() {
    assert_eq!(try_multiply(3, 4), Some(12));
    assert_eq!(try_multiply(i64::MAX, 2), None);
    assert_eq!(try_multiply(i64::MIN, -1), None);
    assert_eq!(try_multiply(i64::MAX, 1), Some(i64::MAX));
}

#[test]
fn scalar_result_line_is_exact() {
    let a = cell_of_line(&line("3"));
    let b = cell_of_line(&line("4"));
    let p = multiply(a, b);
    assert_eq!(render_product_line(a, b, p), "3 \u{d7} 4 = 12");
}

#[test]
fn invalid_first_value_makes_product_zero() {
    let a = cell_of_line(&line("abc"));
    assert_eq!(a, 0);
    let b = cell_of_line(&line("417"));
    assert_eq!(multiply(a, b), 0);
    assert_eq!(render_product_line(a, b, multiply(a, b)), "0 \u{d7} 417 = 0");
}

#[test]
fn integers_render_in_decimal() {
    assert_eq!(render_int(0), "0");
    assert_eq!(render_int(12), "12");
    assert_eq!(render_int(-3), "-3");
    assert_eq!(render_int(i64::MIN), "-9223372036854775808");
    assert_eq!(render_int(i64::MAX), "9223372036854775807");
}
