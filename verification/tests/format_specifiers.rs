use lib::sema::parse_format_specifiers;

#[test]
fn specifiers_come_in_order_and_percent_percent_asks_for_nothing() {
    assert_eq!(parse_format_specifiers("x=%d y=%s %% z=%f ok=%b"), Ok(vec!['d', 's', 'f', 'b']));
    assert_eq!(parse_format_specifiers("no conversions"), Ok(vec![]));
    assert_eq!(parse_format_specifiers("é%d"), Ok(vec!['d']));
}

#[test]
fn trailing_percent_is_an_error() {
    assert_eq!(parse_format_specifiers("total: %"), Err("Format string ends with `%`".to_string()));
}

#[test]
fn unknown_specifier_is_named() {
    assert_eq!(parse_format_specifiers("%d and %q"), Err("Unsupported format specifier `%q`".to_string()));
    assert_eq!(parse_format_specifiers("%é"), Err("Unsupported format specifier `%é`".to_string()));
}
