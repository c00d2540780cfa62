use invoice_extract::errors::ExtractError;
use invoice_extract::price::Price;

fn chars(s: &str) -> Vec<char> {
    s.chars().collect()
}

#[test]
fn unit_price_plain() {
    let r = Price::normalised(&chars("anything"), &chars("$12.34"));
    assert_eq!(r.unwrap(), Price(12, 34));
}

#[test]
fn per_kg_fractional_factor() {
    let r = Price::normalised(&chars("Lamb Leg 1kg - 0.75kg"), &chars("$10.00/Kg"));
    assert_eq!(r.unwrap(), Price(7, 50));
}

#[test]
fn per_kg_gram_factor() {
    let r = Price::normalised(&chars("Lamb Leg 1kg - 500g"), &chars("$10.00/Kg"));
    assert_eq!(r.unwrap(), Price(5, 0));
}

#[test]
fn unit_price_embedded_in_text() {
    let r = Price::normalised(&chars("x"), &chars("was $7.20 each"));
    assert_eq!(r.unwrap(), Price(7, 20));
}

#[test]
fn per_kg_truncates_half_cent() {
    let r = Price::normalised(&chars("Chops 1kg - 0.5kg"), &chars("$0.99/Kg"));
    assert_eq!(r.unwrap(), Price(0, 49));
}

#[test]
fn per_kg_shape_wins_over_unit_shape() {
    let r = Price::normalised(&chars("Mince 1kg - 2kg"), &chars("$3.00/Kg"));
    assert_eq!(r.unwrap(), Price(6, 0));
}

#[test]
fn unmatched_price_is_format_error() {
    let r = Price::normalised(&chars("x"), &chars("free"));
    let e = r.unwrap_err();
    assert!(matches!(e, ExtractError::BadPrice(_)));
    assert!(e.is_format());
    assert!(!e.is_structural());
}

#[test]
fn price_missing_cents_digits_is_error() {
    let r = Price::normalised(&chars("x"), &chars("$12.3"));
    assert!(matches!(r.unwrap_err(), ExtractError::BadPrice(_)));
}

#[test]
fn per_kg_without_meat_name_is_format_error() {
    let r = Price::normalised(&chars("jacket"), &chars("$10.00/Kg"));
    let e = r.unwrap_err();
    assert!(matches!(e, ExtractError::PerKgNameMismatch(_)));
    assert!(e.is_format());
}

#[test]
fn per_kg_name_without_separator_is_error() {
    let r = Price::normalised(&chars("Lamb Leg 500g"), &chars("$10.00/Kg"));
    assert!(matches!(r.unwrap_err(), ExtractError::PerKgNameMismatch(_)));
}

#[test]
fn per_kg_non_numeric_factor_is_error() {
    let r = Price::normalised(&chars("Lamb Leg 1kg - bigkg"), &chars("$10.00/Kg"));
    assert!(matches!(r.unwrap_err(), ExtractError::PerKgNameMismatch(_)));
}

#[test]
fn per_kg_rightmost_split_is_used() {
    // Two separators: the factor is read after the rightmost valid one.
    let r = Price::normalised(&chars("Lamb 1kg - 2kg - 500g"), &chars("$10.00/Kg"));
    assert_eq!(r.unwrap(), Price(5, 0));
}

#[test]
fn per_kg_whole_kilogram_factor() {
    let r = Price::normalised(&chars("Beef 5kg - 2kg"), &chars("$4.50/Kg"));
    assert_eq!(r.unwrap(), Price(9, 0));
}

#[test]
fn amount_beyond_digit_bound_is_error() {
    // Seventeen whole digits exceed the recognized amount width.
    let r = Price::normalised(&chars("x"), &chars("$99999999999999999.00"));
    assert!(matches!(r.unwrap_err(), ExtractError::BadPrice(_)));
}

#[test]
fn amount_at_digit_bound_is_accepted() {
    let r = Price::normalised(&chars("x"), &chars("$9999999999999999.00"));
    assert_eq!(r.unwrap(), Price(9999999999999999, 0));
}

#[test]
fn factor_beyond_digit_bound_is_error() {
    let r = Price::normalised(&chars("X 1kg - 9999999999999999999kg"), &chars("$1.00/Kg"));
    assert!(matches!(r.unwrap_err(), ExtractError::PerKgNameMismatch(_)));
}

#[test]
fn unrepresentable_whole_units_is_error() {
    let r = Price::normalised(
        &chars("X 1kg - 999999999999999999kg"),
        &chars("$9999999999999999.99/Kg"),
    );
    assert!(matches!(r.unwrap_err(), ExtractError::BadPrice(_)));
}
