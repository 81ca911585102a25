//! The selector parser used by the line tools, exercised on the
//! grammar's corners; identifiers come back wrapped in quotes.

use ndjson_spatial::json_selector_parser::{
    parse_comparator, parse_compare_f64, parse_compare_u64, parse_dot_plus_identifier,
    parse_json_selector, parse_many_identifiers, parse_self_signifier, parse_selector_f64,
    parse_selector_u64, parse_value_f64, parse_value_u64, Compare, Comparator, Selector,
};
use ndjson_spatial::number::Dec;

#[test]
fn json_selector_parser_test_parse_self_signifier_success() {
    assert_eq!(parse_self_signifier("d"), Ok(("".to_string(), None)));
    assert_eq!(
        parse_self_signifier("d[0]"),
        Ok(("".to_string(), Some(Selector::Index(0))))
    );
    assert_eq!(
        parse_self_signifier("d[24]"),
        Ok(("".to_string(), Some(Selector::Index(24))))
    );

    assert_eq!(
        parse_self_signifier("d.properties.AREA"),
        Ok((".properties.AREA".to_string(), None))
    );
}

#[test]
fn json_selector_parser_test_parse_self_signifier_failure() {
    assert!(parse_self_signifier("b").is_err());

    assert!(parse_self_signifier("e[]").is_err());
}

#[test]
fn json_selector_parser_test_dot_plus_identifier_success() {
    assert_eq!(
        parse_dot_plus_identifier(".properties.AREA"),
        Ok((
            ".AREA".to_string(),
            (Selector::Identifier("\"properties\"".to_string()), None)
        ))
    );

    assert_eq!(
        parse_dot_plus_identifier(".properties.contains[5]"),
        Ok((
            ".contains[5]".to_string(),
            (Selector::Identifier("\"properties\"".to_string()), None)
        ))
    );

    assert_eq!(
        parse_dot_plus_identifier(".contains[5]"),
        Ok((
            "".to_string(),
            (
                Selector::Identifier("\"contains\"".to_string()),
                Some(Selector::Index(5))
            )
        ))
    );
}

#[test]
fn json_selector_parser_test_dot_plus_identifier_failure() {
    assert!(parse_dot_plus_identifier("simply.considered").is_err())
}

#[test]
fn json_selector_parser_test_many_identifiers() {
    assert_eq!(
        parse_many_identifiers(".properties.AREA>"),
        Ok((
            ">".to_string(),
            vec![
                (Selector::Identifier("\"properties\"".to_string()), None),
                (Selector::Identifier("\"AREA\"".to_string()), None)
            ]
        ))
    );
}

#[test]
fn json_selector_parser_test_json_selector_success() {
    assert_eq!(
        parse_json_selector("d.properties.AREA"),
        Ok((
            "".to_string(),
            vec![
                Selector::Identifier("\"properties\"".to_string()),
                Selector::Identifier("\"AREA\"".to_string())
            ]
        ))
    )
}

#[test]
fn json_selector_parser_test_parse_comparator_success() {
    assert_eq!(
        parse_comparator(">=5.5"),
        Ok(("5.5".to_string(), Comparator::GE))
    );

    assert_eq!(
        parse_comparator("== 7.4"),
        Ok((" 7.4".to_string(), Comparator::EQ))
    );
}

#[test]
fn json_selector_parser_test_parse_value_success() {
    assert_eq!(
        parse_value_f64("5.5"),
        Ok((
            "".to_string(),
            Dec {
                neg: false,
                mant: 55,
                exp: -1
            }
        ))
    );

    assert_eq!(parse_value_u64("6555"), Ok(("".to_string(), 6555)));
}

#[test]
fn json_selector_parser_test_parse_compare_success() {
    assert_eq!(
        parse_compare_f64(">= 5.5"),
        Ok((
            "".to_string(),
            Compare {
                comparator: Comparator::GE,
                value: Dec {
                    neg: false,
                    mant: 55,
                    exp: -1
                }
            }
        ))
    );

    assert_eq!(
        parse_compare_u64("== 5"),
        Ok((
            "".to_string(),
            Compare {
                comparator: Comparator::EQ,
                value: 5
            }
        ))
    );

    assert_eq!(
        parse_compare_f64("<= 7.4"),
        Ok((
            "".to_string(),
            Compare {
                comparator: Comparator::LE,
                value: Dec {
                    neg: false,
                    mant: 74,
                    exp: -1
                }
            }
        ))
    );

    assert_eq!(
        parse_compare_u64("==568473"),
        Ok((
            "".to_string(),
            Compare {
                comparator: Comparator::EQ,
                value: 568473
            }
        ))
    );
}

#[test]
fn json_selector_parser_test_full_selector_success() {
    assert_eq!(
        parse_selector_f64("d.properties.AREA >= 5.5"),
        Ok((
            "".to_string(),
            (
                Compare {
                    comparator: Comparator::GE,
                    value: Dec {
                        neg: false,
                        mant: 55,
                        exp: -1
                    }
                },
                vec![
                    Selector::Identifier("\"properties\"".to_string()),
                    Selector::Identifier("\"AREA\"".to_string())
                ]
            )
        ))
    );

    assert_eq!(
        parse_selector_u64("d[5].manager.pay >= 40000"),
        Ok((
            "".to_string(),
            (
                Compare {
                    comparator: Comparator::GE,
                    value: 40000
                },
                vec![
                    Selector::Index(5),
                    Selector::Identifier("\"manager\"".to_string()),
                    Selector::Identifier("\"pay\"".to_string())
                ]
            )
        ))
    );
}

#[test]
fn json_selector_parser_test_parse_full_selector_failure() {
    assert!(parse_selector_u64("d[5].manager_pay >= 60.456").is_err());

    assert!(parse_selector_f64("d[55]. manager. pay").is_err());
}
