//! Tests for the Detailed Info field parsers.

use ransaq::detailed_info::{
    Decimal, DetailedInfo, ParseError, ProductOfQuebec, SugarContentEquality,
};
use ransaq::detailed_info::{
    parse_abv, parse_grape_varieties, parse_product_of_quebec, parse_size, parse_sugar_content,
};

fn to_f64(d: &Decimal) -> f64 {
    d.mantissa as f64 / 10f64.powi(d.scale as i32)
}

#[test]
fn test_parse_abv() {
    let valid = parse_abv("12.5 %").unwrap();
    assert_eq!(12.5, to_f64(&valid));

    let valid_no_decimal = parse_abv("12 %").unwrap();
    assert_eq!(12.0, to_f64(&valid_no_decimal));

    let wrong_format_err = parse_abv(" 12 ").unwrap_err();
    assert_eq!("failed to match \" 12 \"", wrong_format_err.message());
}

#[test]
fn text_parse_size() {
    let one_liter = parse_size("1 L").unwrap();
    assert_eq!(1, one_liter.container_count);
    assert_eq!(1000, one_liter.container_milliliters);

    let four_times_300_ml = parse_size("4 x 300 ml").unwrap();
    assert_eq!(4, four_times_300_ml.container_count);
    assert_eq!(300, four_times_300_ml.container_milliliters);

    let decimal_liter = parse_size("2.25 L").unwrap();
    assert_eq!(1, decimal_liter.container_count);
    assert_eq!(2250, decimal_liter.container_milliliters);

    let big_l = parse_size("750 mL").unwrap();
    assert_eq!(1, big_l.container_count);
    assert_eq!(750, big_l.container_milliliters);
}

#[test]
fn test_parse_grape_varieties() {
    let one = parse_grape_varieties("Nero d'Avola\u{a0}100\u{a0}%").unwrap();
    assert_eq!(1, one.len());
    assert_eq!("Nero d'Avola", one[0].name);
    assert_eq!(Some(100), one[0].percentage);

    let two = parse_grape_varieties("Zinfandel 95 %, Other grape variety (ies) 5 %").unwrap();
    assert_eq!(2, two.len());
    assert_eq!("Zinfandel", two[0].name);
    assert_eq!(Some(95), two[0].percentage);
    assert_eq!("Other grape variety (ies)", two[1].name);
    assert_eq!(Some(5), two[1].percentage);

    let three =
        parse_grape_varieties("Zinfandel 80 %, Petite sirah 16 %, Mourvèdre 4 %, Cabernet sauvignon")
            .unwrap();
    assert_eq!(4, three.len());
    assert_eq!("Zinfandel", three[0].name);
    assert_eq!(Some(80), three[0].percentage);
    assert_eq!("Petite sirah", three[1].name);
    assert_eq!(Some(16), three[1].percentage);
    assert_eq!("Mourvèdre", three[2].name);
    assert_eq!(Some(4), three[2].percentage);
    assert_eq!("Cabernet sauvignon", three[3].name);
    assert_eq!(None, three[3].percentage);

    let four = parse_grape_varieties("Chardonnay").unwrap();
    assert_eq!(1, four.len());
    assert_eq!("Chardonnay", four[0].name);
    assert_eq!(None, four[0].percentage);

    let five = parse_grape_varieties("Sainte-Croix\u{a0}5\u{a0}%").unwrap();
    assert_eq!(1, five.len());
    assert_eq!("Sainte-Croix", five[0].name);
    assert_eq!(Some(5), five[0].percentage);

    let six = parse_grape_varieties("Muscat de N.Y.\u{a0}25\u{a0}%").unwrap();
    assert_eq!(1, six.len());
    assert_eq!("Muscat de N.Y.", six[0].name);
    assert_eq!(Some(25), six[0].percentage);
}

#[test]
fn test_parse_sugar_content() {
    let one = parse_sugar_content("<1.2 g/L").unwrap();
    assert_eq!(1.2, to_f64(&one.grams_per_liter));
    assert_eq!(SugarContentEquality::LessThan, one.equality);

    let two = parse_sugar_content(">60 g/L").unwrap();
    assert_eq!(60.0, to_f64(&two.grams_per_liter));
    assert_eq!(SugarContentEquality::GreaterThan, two.equality);

    let three = parse_sugar_content("2.9 g/L").unwrap();
    assert_eq!(2.9, to_f64(&three.grams_per_liter));
    assert_eq!(SugarContentEquality::Equal, three.equality);
}

#[test]
fn size_without_space_before_unit() {
    let six_cans = parse_size("6 x 200ml").unwrap();
    assert_eq!(6, six_cans.container_count);
    assert_eq!(200, six_cans.container_milliliters);
}

#[test]
fn size_rounds_fractional_milliliters_up() {
    let s = parse_size("0.0015 L").unwrap();
    assert_eq!(1, s.container_count);
    assert_eq!(2, s.container_milliliters);

    let t = parse_size("12.5 ml").unwrap();
    assert_eq!(13, t.container_milliliters);
}

#[test]
fn size_rejects_malformed_text() {
    assert!(matches!(parse_size("x 300 ml"), Err(ParseError::NoMatch(_))));
    assert!(matches!(parse_size("300"), Err(ParseError::NoMatch(_))));
    assert!(matches!(parse_size("2. L"), Err(ParseError::NoMatch(_))));
    assert!(matches!(
        parse_size("999 x 300 ml"),
        Err(ParseError::NumberTooLarge(_))
    ));
}

#[test]
fn abv_rejects_huge_numbers() {
    assert!(matches!(
        parse_abv("123456789012345678901 %"),
        Err(ParseError::NumberTooLarge(_))
    ));
}

#[test]
fn grape_variety_empty_entry_is_refused() {
    let err = parse_grape_varieties("Zinfandel 95 %,").unwrap_err();
    assert!(matches!(err, ParseError::EmptyName(_)));
    assert_eq!("could not detect name in \"\"", err.message());
}

#[test]
fn grape_variety_percent_over_limit_is_refused() {
    assert!(matches!(
        parse_grape_varieties("Zinfandel 300 %"),
        Err(ParseError::NumberTooLarge(_))
    ));
}

#[test]
fn product_of_quebec_admits_three_labels() {
    assert_eq!(
        ProductOfQuebec::BottledIn,
        parse_product_of_quebec("Bottled in Québec").unwrap()
    );
    assert_eq!(
        ProductOfQuebec::MadeIn,
        parse_product_of_quebec("Made in Québec").unwrap()
    );
    assert_eq!(
        ProductOfQuebec::Origine,
        parse_product_of_quebec("Origine Québec").unwrap()
    );
    let err = parse_product_of_quebec("Elsewhere").unwrap_err();
    assert!(matches!(err, ParseError::InvalidValue(_)));
    assert_eq!("\"Elsewhere\" is not a valid value", err.message());
}

#[test]
fn from_hash_map_reads_every_field() {
    let map: Vec<(String, String)> = vec![
        ("Producer".to_string(), "The Absolut Company".to_string()),
        ("SAQ code".to_string(), "14564273".to_string()),
        ("Degree of alcohol".to_string(), "12.5 %".to_string()),
        ("Size".to_string(), "750 mL".to_string()),
        ("Color".to_string(), "Amber".to_string()),
        ("Country".to_string(), "Canada".to_string()),
        ("Product of Québec".to_string(), "Origine Québec".to_string()),
        ("Grape variety".to_string(), "Zinfandel 95 %, Petite sirah 5 %".to_string()),
        ("Sugar content".to_string(), ">60 g/L".to_string()),
        (
            "Special feature".to_string(),
            "Natural Wine, Orange Wine, Organic product".to_string(),
        ),
    ];
    let info = DetailedInfo::from_hash_map(map).unwrap();
    assert_eq!("14564273", info.saq_code);
    assert_eq!(Some("The Absolut Company".to_string()), info.producer);
    assert_eq!(None, info.region);
    assert_eq!(125, info.abv_percentage.as_ref().unwrap().mantissa);
    assert_eq!(1, info.abv_percentage.as_ref().unwrap().scale);
    assert_eq!(750, info.size.as_ref().unwrap().container_milliliters);
    assert_eq!(Some(ProductOfQuebec::Origine), info.product_of_quebec);
    let grapes = info.grape_varieties.as_ref().unwrap();
    assert_eq!(2, grapes.len());
    assert_eq!("Petite sirah", grapes[1].name);
    assert_eq!(
        SugarContentEquality::GreaterThan,
        info.sugar_content.as_ref().unwrap().equality
    );
    let features = info.special_features.as_ref().unwrap();
    assert_eq!(
        vec!["Natural Wine".to_string(), "Orange Wine".to_string(), "Organic product".to_string()],
        *features
    );
}

#[test]
fn from_hash_map_requires_the_product_code() {
    let map: Vec<(String, String)> = vec![("Producer".to_string(), "Someone".to_string())];
    let err = DetailedInfo::from_hash_map(map).unwrap_err();
    assert!(matches!(err, ParseError::MissingSaqCode));
    assert_eq!("SAQ code not found", err.message());
}

#[test]
fn from_hash_map_later_entries_shadow_earlier_ones() {
    let map: Vec<(String, String)> = vec![
        ("SAQ code".to_string(), "1".to_string()),
        ("SAQ code".to_string(), "2".to_string()),
    ];
    let info = DetailedInfo::from_hash_map(map).unwrap();
    assert_eq!("2", info.saq_code);
}
