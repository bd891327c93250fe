use printlnc::text::{push_decimal, strip_quotes};

fn decimal_of(n: usize) -> String {
    let mut out = String::new();
    push_decimal(&mut out, n);
    out
}

#[test]
fn strip_quotes_removes_every_quote() {
    assert_eq!(strip_quotes("\"hello\""), "hello");
    assert_eq!(strip_quotes("a\"b\"c"), "abc");
    assert_eq!(strip_quotes("\"\"\""), "");
    assert_eq!(strip_quotes(""), "");
}

#[test]
fn strip_quotes_keeps_everything_else() {
    assert_eq!(strip_quotes("no quotes"), "no quotes");
    assert_eq!(strip_quotes("'single' \\n \\\\"), "'single' \\n \\\\");
    assert_eq!(strip_quotes("\"h\u{e9}llo \u{4e16}\u{754c}\""), "h\u{e9}llo \u{4e16}\u{754c}");
    assert_eq!(strip_quotes("\u{201c}curly\u{201d}"), "\u{201c}curly\u{201d}");
}

#[test]
fn strip_quotes_twice_is_the_same_as_once() {
    let once = strip_quotes("\"a\"\"b\"");
    assert_eq!(strip_quotes(&once), once);
}

#[test]
fn decimal_of_small_numbers() {
    assert_eq!(decimal_of(0), "0");
    assert_eq!(decimal_of(7), "7");
    assert_eq!(decimal_of(9), "9");
    assert_eq!(decimal_of(10), "10");
    assert_eq!(decimal_of(11), "11");
    assert_eq!(decimal_of(99), "99");
    assert_eq!(decimal_of(100), "100");
    assert_eq!(decimal_of(12345), "12345");
    assert_eq!(decimal_of(1_000_000), "1000000");
}

#[test]
fn decimal_of_largest_number() {
    assert_eq!(decimal_of(usize::MAX), format!("{}", usize::MAX));
}

#[test]
fn decimal_agrees_with_std_formatting() {
    for n in 0..2000usize {
        assert_eq!(decimal_of(n), format!("{}", n));
    }
}

#[test]
fn decimal_is_appended_to_what_is_there() {
    let mut out = String::from("str_");
    push_decimal(&mut out, 42);
    assert_eq!(out, "str_42");
    push_decimal(&mut out, 0);
    assert_eq!(out, "str_420");
}

#[test]
fn decimal_renderings_of_different_numbers_differ() {
    let all: Vec<String> = (0..500usize).map(decimal_of).collect();
    for i in 0..all.len() {
        for j in 0..i {
            assert_ne!(all[i], all[j]);
        }
    }
}
