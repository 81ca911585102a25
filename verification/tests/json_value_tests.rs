//! The JSON value model: parsing, canonical serialization, evaluation,
//! typed comparisons, inference, and the outward path API.

use ndjson_spatial::aggregate::strip_quotes;
use ndjson_spatial::infer_json::csv_row_to_json;
use ndjson_spatial::filter::select_from_json_object;
use ndjson_spatial::infer_json::infer_json;
use ndjson_spatial::json::{parse_json_line, JsonValue};
use ndjson_spatial::json_selector_parser::{parse_u64, Selector};
use ndjson_spatial::number::{Dec, JsonNumber};
use ndjson_spatial::path::{evaluate, parse_path, parse_path_with_comparison, TypedCompare};
use ndjson_spatial::spatial::GeometryType;

#[test]
fn test_parse_and_serialize_round_trip() {
    let v = parse_json_line("{ \"b\": [1, -2.5, true, null], \"a\": \"x\\ny\" }").unwrap();
    assert_eq!(
        v.to_json_string(),
        "{\"a\":\"x\\ny\",\"b\":[1,-2.5,true,null]}"
    );

    let again = parse_json_line(&v.to_json_string()).unwrap();
    assert_eq!(again.to_json_string(), v.to_json_string());
}

#[test]
fn test_parse_rejects_malformed_lines() {
    assert!(parse_json_line("{\"a\":}").is_none());
    assert!(parse_json_line("").is_none());
    assert!(parse_json_line("{\"a\":1} trailing").is_none());
    assert!(parse_json_line("{\"a\":01}").is_none());
}

#[test]
fn test_duplicate_keys_last_wins() {
    let v = parse_json_line("{\"a\":1,\"a\":2}").unwrap();
    assert_eq!(v.to_json_string(), "{\"a\":2}");
}

#[test]
fn test_number_rendering() {
    assert_eq!(
        parse_json_line("5").unwrap().to_json_string(),
        "5"
    );
    assert_eq!(
        parse_json_line("5.0").unwrap().to_json_string(),
        "5.0"
    );
    assert_eq!(
        parse_json_line("-34.58").unwrap().to_json_string(),
        "-34.58"
    );
    assert_eq!(
        parse_json_line("0.005").unwrap().to_json_string(),
        "0.005"
    );
    assert_eq!(
        parse_json_line("1e3").unwrap().to_json_string(),
        "1000.0"
    );
}

#[test]
fn test_evaluate_selects_and_reports_errors() {
    let v = parse_json_line("{\"a\":{\"b\":[10,20]}}").unwrap();

    let path = parse_path("d.a.b[1]").unwrap();
    let out = evaluate(&v, &path).unwrap();
    assert_eq!(out, JsonValue::Num(JsonNumber::Unsigned(20)));

    let missing = parse_path("d.a.c").unwrap();
    assert!(evaluate(&v, &missing).is_err());

    let oob = parse_path("d.a.b[9]").unwrap();
    assert!(evaluate(&v, &oob).is_err());

    let non_object = parse_path("d.a.b.c").unwrap();
    assert!(evaluate(&v, &non_object).is_err());
}

#[test]
fn test_evaluate_twice_is_identical_and_leaves_value_alone() {
    let v = parse_json_line("{\"a\":{\"b\":[10,20]}}").unwrap();
    let before = v.to_json_string();
    let path = parse_path("d.a.b").unwrap();

    let first = evaluate(&v, &path).unwrap();
    let second = evaluate(&v, &path).unwrap();
    assert_eq!(first, second);
    assert_eq!(v.to_json_string(), before);
}

#[test]
fn test_quoted_and_bare_identifiers_evaluate_alike() {
    let v = parse_json_line("{\"properties\":7}").unwrap();

    let quoted = vec![Selector::Identifier("\"properties\"".to_string())];
    let bare = vec![Selector::Identifier("properties".to_string())];

    assert_eq!(
        select_from_json_object(&v, &quoted).unwrap(),
        select_from_json_object(&v, &bare).unwrap()
    );
}

#[test]
fn test_comparison_priority() {
    let (_, tc) = parse_path_with_comparison("d.a == 5").unwrap();
    assert!(matches!(tc, TypedCompare::Unsigned(_)));

    let (_, tc) = parse_path_with_comparison("d.a == -5").unwrap();
    assert!(matches!(tc, TypedCompare::Signed(_)));

    let (_, tc) = parse_path_with_comparison("d.a == 5.5").unwrap();
    match tc {
        TypedCompare::Decimal(c) => {
            assert_eq!(
                c.value,
                Dec {
                    neg: false,
                    mant: 55,
                    exp: -1
                }
            );
        }
        _ => panic!("the decimal reading was expected"),
    }

    let (_, tc) = parse_path_with_comparison("d.a == true").unwrap();
    assert!(matches!(tc, TypedCompare::Bool(_)));

    let (_, tc) = parse_path_with_comparison("d.a == null").unwrap();
    assert!(matches!(tc, TypedCompare::Null(_)));

    let (_, tc) = parse_path_with_comparison("d.a == apples").unwrap();
    assert!(matches!(tc, TypedCompare::Text(_)));

    assert!(parse_path_with_comparison("d.a").is_err());
}

#[test]
fn test_parse_path_requires_full_consumption() {
    assert!(parse_path("d.a").is_ok());
    assert!(parse_path("d.a == 5").is_err());
    assert!(parse_path("x.a").is_err());
}

#[test]
fn test_infer_json_cells() {
    assert_eq!(
        infer_json("42"),
        JsonValue::Num(JsonNumber::Unsigned(42))
    );
    assert_eq!(
        infer_json("-7"),
        JsonValue::Num(JsonNumber::Signed(-7))
    );
    assert_eq!(
        infer_json("2.5"),
        JsonValue::Num(JsonNumber::Decimal(Dec {
            neg: false,
            mant: 25,
            exp: -1
        }))
    );
    assert_eq!(infer_json(""), JsonValue::Null);
    assert_eq!(infer_json("true"), JsonValue::Bool(true));
    assert_eq!(
        infer_json("hello"),
        JsonValue::Str("hello".to_string())
    );
    assert_eq!(
        infer_json("007"),
        JsonValue::Num(JsonNumber::Decimal(Dec {
            neg: false,
            mant: 7,
            exp: 0
        }))
    );
}

#[test]
fn test_strip_quotes_behaviour() {
    assert_eq!(strip_quotes("\"name\""), "name");
    assert_eq!(strip_quotes("name"), "name");
    assert_eq!(strip_quotes("\""), "\"");
    assert_eq!(strip_quotes("\"\""), "");
}

#[test]
fn test_parse_u64_literal() {
    assert_eq!(parse_u64("17"), Some(17));
    assert_eq!(parse_u64("+17"), Some(17));
    assert_eq!(parse_u64("-17"), None);
    assert_eq!(parse_u64("17a"), None);
}

#[test]
fn test_geometry_type_names() {
    assert_eq!(GeometryType::from_str("point"), Some(GeometryType::Point));
    assert_eq!(GeometryType::from_str("line"), Some(GeometryType::Line));
    assert_eq!(
        GeometryType::from_str("polygon"),
        Some(GeometryType::Polygon)
    );
    assert_eq!(
        GeometryType::from_str("multipoint"),
        Some(GeometryType::MultiPoint)
    );
    assert_eq!(
        GeometryType::from_str("multiline"),
        Some(GeometryType::MultiLine)
    );
    assert_eq!(
        GeometryType::from_str("multipolygon"),
        Some(GeometryType::MultiPolygon)
    );
    assert_eq!(GeometryType::from_str("triangle"), None);
}

#[test]
fn test_string_escapes() {
    let v = parse_json_line("\"a\\u0041b\"").unwrap();
    assert_eq!(v, JsonValue::Str("aAb".to_string()));
    assert_eq!(v.to_json_string(), "\"aAb\"");

    let v = parse_json_line("\"\\u00e9\"").unwrap();
    assert_eq!(v.to_json_string(), "\"\u{e9}\"");

    let tabbed = parse_json_line("\"a\\tb\"").unwrap();
    assert_eq!(tabbed, JsonValue::Str("a\tb".to_string()));
    assert_eq!(tabbed.to_json_string(), "\"a\\tb\"");

    let pair = parse_json_line("\"\\ud834\\udd1e\"").unwrap();
    assert_eq!(pair, JsonValue::Str("\u{1D11E}".to_string()));

    assert!(parse_json_line("\"\\ud834\"").is_none());
    assert!(parse_json_line("\"\\udd1e\"").is_none());
    assert!(parse_json_line("\"\\q\"").is_none());
}

#[test]
fn test_evaluate_error_shapes() {
    let v = parse_json_line("{\"a\":[1,2]}").unwrap();

    let on_array = parse_path("d.a.b").unwrap();
    assert!(evaluate(&v, &on_array).is_err());

    let index_non_array = parse_path("d[0]").unwrap();
    assert!(evaluate(&v, &index_non_array).is_err());

    let on_scalar = parse_path("d.a[0].c").unwrap();
    assert!(evaluate(&v, &on_scalar).is_err());
}

#[test]
fn test_csv_row_to_record() {
    let headers = vec!["name".to_string(), "count".to_string()];
    let row = vec!["pine".to_string(), "12".to_string(), "spare".to_string()];
    let record = csv_row_to_json(&headers, &row);
    assert_eq!(record.to_json_string(), "{\"count\":12,\"name\":\"pine\"}");

    let dup = csv_row_to_json(
        &vec!["k".to_string(), "k".to_string()],
        &vec!["1".to_string(), "2".to_string()],
    );
    assert_eq!(dup.to_json_string(), "{\"k\":2}");
}
