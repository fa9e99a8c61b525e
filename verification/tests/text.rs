use orderbook_aggregator::decimal::{parse_usize, usize_to_string};
use orderbook_aggregator::text::{split_ascii_whitespace, str_eq};

#[test]
fn unsigned_integers() {
    assert_eq!(parse_usize("0"), Some(0));
    assert_eq!(parse_usize("42"), Some(42));
    assert_eq!(parse_usize("+7"), Some(7));
    assert_eq!(parse_usize("007"), Some(7));
    assert_eq!(parse_usize("+"), None);
    assert_eq!(parse_usize(""), None);
    assert_eq!(parse_usize("-1"), None);
    assert_eq!(parse_usize("1x"), None);
    assert_eq!(parse_usize(&usize::MAX.to_string()), Some(usize::MAX));
    assert_eq!(parse_usize("99999999999999999999999"), None);
}

#[test]
fn decimal_text_of_usize() {
    assert_eq!(usize_to_string(0), "0");
    assert_eq!(usize_to_string(9), "9");
    assert_eq!(usize_to_string(10), "10");
    assert_eq!(usize_to_string(1234), "1234");
    assert_eq!(usize_to_string(usize::MAX), usize::MAX.to_string());
    assert_eq!(parse_usize(&usize_to_string(98765)), Some(98765));
}

#[test]
fn splitting_at_ascii_whitespace() {
    assert_eq!(split_ascii_whitespace("  open  ETH/BTC\tbinance\n"), vec!["open", "ETH/BTC", "binance"]);
    assert_eq!(split_ascii_whitespace(""), Vec::<&str>::new());
    assert_eq!(split_ascii_whitespace("a"), vec!["a"]);
    assert_eq!(split_ascii_whitespace("é ü"), vec!["é", "ü"]);
}

#[test]
fn string_equality() {
    assert!(str_eq("abc", "abc"));
    assert!(!str_eq("abc", "abd"));
    assert!(!str_eq("abc", "ab"));
    assert!(str_eq("", ""));
}
