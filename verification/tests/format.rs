use forever_perfmon::format::{color, color_bg, format_elapsed, grouped_decimal_text, grouped_digits};

#[test]
fn formats_elapsed_time_like_the_script() {
    assert_eq!(format_elapsed(0), "   0:  0:  0:  0");
    assert_eq!(format_elapsed(90_061), "   1:  1:  1:  1");
    assert_eq!(format_elapsed(60 * 86_400), "  60:  0:  0:  0");
}

#[test]
fn elapsed_fields_add_up() {
    assert_eq!(format_elapsed(86_399), "   0: 23: 59: 59");
    assert_eq!(format_elapsed(12_345 * 86_400 + 3_600 * 5 + 7), "12345:  5:  0:  7");
    assert_eq!(format_elapsed(u64::MAX), "213503982334601:  7:  0: 15");
}

#[test]
fn wraps_text_in_ansi_colours() {
    assert_eq!(color("hi", "33"), "\x1b[33mhi\x1b[0m");
    assert_eq!(color_bg("[User]", "30", "100"), "\x1b[30;100m[User]\x1b[0m");
    assert_eq!(color("", ""), "\x1b[m\x1b[0m");
}

#[test]
fn groups_thousands() {
    assert_eq!(grouped_digits("1"), "1");
    assert_eq!(grouped_digits("123"), "123");
    assert_eq!(grouped_digits("1234"), "1,234");
    assert_eq!(grouped_digits("123456"), "123,456");
    assert_eq!(grouped_digits("1234567"), "1,234,567");
    assert_eq!(grouped_digits("-1234"), "-1,234");
    assert_eq!(grouped_digits(""), "");
    assert_eq!(grouped_digits("-"), "-");
}

#[test]
fn groups_decimal_integer_part() {
    assert_eq!(grouped_decimal_text("1234567.125"), "1,234,567.125");
    assert_eq!(grouped_decimal_text("-1000.500"), "-1,000.500");
    assert_eq!(grouped_decimal_text("inf"), "inf.000");
    assert_eq!(grouped_decimal_text("12.5.6"), "12.5.6");
}
