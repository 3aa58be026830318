use rslox::text::decimal_width;
use rslox::text::push_decimal;
use rslox::text::push_filler;
use rslox::text::push_number;

fn decimal(n: usize) -> String {
    let mut out = String::new();
    push_decimal(&mut out, n);
    out
}

fn number(n: usize, width: usize, fill: char) -> String {
    let mut out = String::new();
    push_number(&mut out, n, width, fill);
    out
}

#[test]
fn decimal_digits() {
    assert_eq!(decimal(0), "0");
    assert_eq!(decimal(7), "7");
    assert_eq!(decimal(10), "10");
    assert_eq!(decimal(1234567890), "1234567890");
    assert_eq!(decimal(usize::MAX), usize::MAX.to_string());
}

#[test]
fn decimal_is_appended() {
    let mut out = String::from("n = ");
    push_decimal(&mut out, 42);
    assert_eq!(out, "n = 42");
}

#[test]
fn widths() {
    assert_eq!(decimal_width(0), 1);
    assert_eq!(decimal_width(9), 1);
    assert_eq!(decimal_width(10), 2);
    assert_eq!(decimal_width(99999), 5);
    assert_eq!(decimal_width(usize::MAX), usize::MAX.to_string().len());
}

#[test]
fn filler() {
    let mut out = String::from("a");
    push_filler(&mut out, 3, '.');
    push_filler(&mut out, 0, '!');
    assert_eq!(out, "a...");
}

#[test]
fn numbers_are_padded_on_the_left() {
    assert_eq!(number(7, 4, '0'), "0007");
    assert_eq!(number(7, 4, ' '), "   7");
    assert_eq!(number(1234, 4, '0'), "1234");
    assert_eq!(number(12345, 4, '0'), "12345");
    assert_eq!(number(0, 0, '0'), "0");
    assert_eq!(number(0, 1, ' '), "0");
}
