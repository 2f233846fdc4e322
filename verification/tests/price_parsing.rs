//! Tests of price-text parsing and of extraction from a fetched document.

use rl_pricer::price::{parse_price_range, parse_u64, price_from_document, FetchError, PriceRange};

#[test]
fn plain_range_parses() {
    assert_eq!(parse_price_range("100 - 150"), Ok(PriceRange { low: 100, high: 150 }));
}

#[test]
fn surrounding_whitespace_is_trimmed() {
    assert_eq!(parse_price_range("  300 - 500\n"), Ok(PriceRange { low: 300, high: 500 }));
    assert_eq!(parse_price_range("\t7 - 9 "), Ok(PriceRange { low: 7, high: 9 }));
}

#[test]
fn missing_separator_is_malformed() {
    assert_eq!(parse_price_range("100150"), Err(FetchError::MalformedPrice));
    assert_eq!(parse_price_range(""), Err(FetchError::MalformedPrice));
    assert_eq!(parse_price_range("100-150"), Err(FetchError::MalformedPrice));
}

#[test]
fn non_numeric_bound_is_reported() {
    assert_eq!(parse_price_range("abc - 5"), Err(FetchError::NonNumericBound));
    assert_eq!(parse_price_range("5 - abc"), Err(FetchError::NonNumericBound));
    // trimming eats the leading space, so no " - " separator remains
    assert_eq!(parse_price_range(" - 5"), Err(FetchError::MalformedPrice));
}

#[test]
fn out_of_order_bounds_are_malformed() {
    assert_eq!(parse_price_range("300 - 20"), Err(FetchError::MalformedPrice));
}

#[test]
fn equal_bounds_parse() {
    assert_eq!(parse_price_range("40 - 40"), Ok(PriceRange { low: 40, high: 40 }));
}

#[test]
fn leading_plus_is_accepted() {
    assert_eq!(parse_price_range("+5 - +7"), Ok(PriceRange { low: 5, high: 7 }));
}

#[test]
fn overflowing_bound_is_non_numeric() {
    assert_eq!(
        parse_price_range("99999999999999999999 - 5"),
        Err(FetchError::NonNumericBound)
    );
}

#[test]
fn splits_at_first_separator() {
    // "1 - 2 - 3": the first " - " splits, leaving "2 - 3" as the second
    // bound, which is not numeric.
    assert_eq!(parse_price_range("1 - 2 - 3"), Err(FetchError::NonNumericBound));
}

#[test]
fn u64_text_parses_exactly() {
    assert_eq!(parse_u64(&vec!['4', '2']), Some(42));
    assert_eq!(parse_u64(&vec!['0']), Some(0));
    assert_eq!(parse_u64(&vec!['+', '9']), Some(9));
    assert_eq!(parse_u64(&vec![]), None);
    assert_eq!(parse_u64(&vec!['+']), None);
    assert_eq!(parse_u64(&vec!['4', 'x']), None);
    assert_eq!(
        parse_u64(&"18446744073709551615".chars().collect::<Vec<char>>()),
        Some(u64::MAX)
    );
    assert_eq!(parse_u64(&"18446744073709551616".chars().collect::<Vec<char>>()), None);
}

#[test]
fn document_with_price_element_parses() {
    let html = "<html><body><div id=\"SteamPrice\"><span class=\"pfData\">100 - 150</span></div></body></html>";
    assert_eq!(price_from_document(html), Ok(PriceRange { low: 100, high: 150 }));
}

#[test]
fn document_without_price_element_is_not_found() {
    let html = "<html><body><p>no price here</p></body></html>";
    assert_eq!(price_from_document(html), Err(FetchError::PriceNotFound));
}

#[test]
fn first_matching_element_wins() {
    let html = "<html><body><div id=\"SteamPrice\"><span class=\"pfData\">1 - 2</span><span class=\"pfData\">3 - 4</span></div></body></html>";
    assert_eq!(price_from_document(html), Ok(PriceRange { low: 1, high: 2 }));
}

#[test]
fn malformed_element_text_is_reported() {
    let html = "<html><body><div id=\"SteamPrice\"><span class=\"pfData\">soon</span></div></body></html>";
    assert_eq!(price_from_document(html), Err(FetchError::MalformedPrice));
}
