//! The line tools end to end: filter, sort, aggregate, join, pick-field,
//! select-count, and the structural splitter.

use ndjson_spatial::aggregate::{aggregate, Aggregation};
use ndjson_spatial::filter::ndjson_filter;
use ndjson_spatial::from_geojson::split;
use ndjson_spatial::from_json::from_json;
use ndjson_spatial::join::join;
use ndjson_spatial::json_selector_parser::Selector;
use ndjson_spatial::pick_field::pick_field;
use ndjson_spatial::select_count::select_count;
use ndjson_spatial::sort::sort;

#[test]
fn test_filter_i64() {
    let output = ndjson_filter(
        "d.a < -40".to_string(),
        "{ \"a\": 1 }\n{ \"a\": -45 }\n",
    )
    .unwrap();
    assert_eq!("{\"a\":-45}\n", output);

    let output = ndjson_filter(
        "d.a > -40".to_string(),
        "{ \"a\": 1 }\n{ \"a\": -45 }\n",
    )
    .unwrap();
    assert_eq!("{\"a\":1}\n", output);

    let output = ndjson_filter(
        "d.a > 10000".to_string(),
        "{ \"a\": 40250 }\n{ \"a\": -45 }\n",
    )
    .unwrap();
    assert_eq!("{\"a\":40250}\n", output);

    let output = ndjson_filter(
        "d.a < 10000".to_string(),
        "{ \"a\": 40250 }\n{ \"a\": -45 }\n",
    )
    .unwrap();
    assert_eq!("{\"a\":-45}\n", output);
}

#[test]
fn test_filter_bool() {
    let input = "{ \"a\": true, \"b\": \"foo\" }\n{ \"a\": false, \"b\": \"bar\" }\n";

    let output = ndjson_filter("d.a == true".to_string(), input).unwrap();
    assert_eq!("{\"a\":true,\"b\":\"foo\"}\n", output);

    let output = ndjson_filter("d.a == false".to_string(), input).unwrap();
    assert_eq!("{\"a\":false,\"b\":\"bar\"}\n", output);
}

#[test]
fn test_filter_float() {
    let output = ndjson_filter(
        "d.a < 10.4".to_string(),
        "{ \"a\": 10.4 }\n{ \"a\": -34.58 }\n",
    )
    .unwrap();
    assert_eq!("{\"a\":-34.58}\n", output);

    let output = ndjson_filter(
        "d.a > 30.0".to_string(),
        "{\"a\": 24 }\n{ \"a\": 54 }\n",
    )
    .unwrap();
    assert_eq!("{\"a\":54}\n", output);
}

#[test]
fn test_filter_null() {
    let input = "{ \"a\": null }\n{ \"a\": false }\n";

    let output = ndjson_filter("d.a == null".to_string(), input).unwrap();
    assert_eq!("{\"a\":null}\n", output);

    let output = ndjson_filter("d.a != null".to_string(), input).unwrap();
    assert_eq!("{\"a\":false}\n", output);
}

#[test]
fn test_filter_skips_malformed_lines() {
    let output = ndjson_filter("d.a < 1".to_string(), "{ \"a\": 0 }\nnot json\n{ \"a\": 7 }\n")
        .unwrap();
    assert_eq!(output, "{\"a\":0}\n");
}

#[test]
fn test_filter_rejects_unparseable_expression() {
    assert!(ndjson_filter("nonsense".to_string(), "{ \"a\": 1 }\n").is_err());
    assert!(ndjson_filter("d.a".to_string(), "{ \"a\": 1 }\n").is_err());
}

#[test]
fn test_filter_never_parses_string_candidates_as_numbers() {
    let output = ndjson_filter(
        "d.a > 3".to_string(),
        "{ \"a\": \"5\" }\n{ \"a\": 5 }\n",
    )
    .unwrap();
    assert_eq!(output, "{\"a\":5}\n");
}

#[test]
fn test_pick_and_aggregate_skip_malformed_lines() {
    let output = pick_field(
        vec![Selector::Identifier("foo".to_owned())],
        "{\"foo\":1}\nbad line\n{\"foo\":2}\n",
    )
    .unwrap();
    assert_eq!(output, "1\n2\n");

    let output = aggregate(
        Aggregation::Sum(vec![Selector::Identifier("quz".to_owned())]),
        vec![Selector::Identifier("foo".to_owned())],
        "{\"foo\":\"bar\",\"quz\":2}\nbad line\n{\"foo\":\"bar\",\"quz\":5}\n",
    )
    .unwrap();
    assert_eq!(output, "{\"foo\":\"bar\",\"quz_sum\":7.0}\n");
}

#[test]
fn test_sort_already_sorted() {
    let input = "{\"bar\":3,\"foo\":4}\n{\"bar\":4,\"foo\":7}\n";

    let output = sort(
        input,
        vec![(vec![Selector::Identifier("bar".into())], true)],
    )
    .unwrap();
    assert_eq!(output, input);

    let output = sort(
        input,
        vec![
            (vec![Selector::Identifier("foo".into())], true),
            (vec![Selector::Identifier("bar".into())], true),
        ],
    )
    .unwrap();
    assert_eq!(output, input);
}

#[test]
fn test_sort_descending() {
    let input = "{\"bar\":3,\"foo\":4}\n{\"bar\":4,\"foo\":7}\n";

    let output = sort(
        input,
        vec![(vec![Selector::Identifier("bar".into())], false)],
    )
    .unwrap();
    assert_eq!(output, "{\"bar\":4,\"foo\":7}\n{\"bar\":3,\"foo\":4}\n");
}

#[test]
fn test_agg_sum() {
    let input =
        "{\"foo\": \"bar\",\"quz\": 2}\n{\"foo\":\"bar\",\"quz\": 5}\n{\"foo\":\"baz\", \"quz\": 3}\n";

    let output = aggregate(
        Aggregation::Sum(vec![Selector::Identifier("quz".to_owned())]),
        vec![Selector::Identifier("foo".to_owned())],
        input,
    )
    .unwrap();

    assert_eq!(
        output,
        "{\"foo\":\"bar\",\"quz_sum\":7.0}\n{\"foo\":\"baz\",\"quz_sum\":3.0}\n"
    );
}

#[test]
fn test_agg_min() {
    let input =
        "{\"foo\": \"bar\",\"quz\": 2}\n{\"foo\":\"bar\",\"quz\": 5}\n{\"foo\":\"baz\", \"quz\": 3}\n";

    let output = aggregate(
        Aggregation::Min(vec![Selector::Identifier("quz".to_owned())]),
        vec![Selector::Identifier("foo".to_owned())],
        input,
    )
    .unwrap();

    assert_eq!(
        output,
        "{\"foo\":\"bar\",\"quz_min\":2}\n{\"foo\":\"baz\",\"quz_min\":3}\n"
    );
}

#[test]
fn test_agg_max() {
    let input =
        "{\"foo\": \"bar\",\"quz\": 2}\n{\"foo\":\"bar\",\"quz\": 5}\n{\"foo\":\"baz\", \"quz\": 3}\n";

    let output = aggregate(
        Aggregation::Max(vec![Selector::Identifier("quz".to_owned())]),
        vec![Selector::Identifier("foo".to_owned())],
        input,
    )
    .unwrap();

    assert_eq!(
        output,
        "{\"foo\":\"bar\",\"quz_max\":5}\n{\"foo\":\"baz\",\"quz_max\":3}\n"
    );
}

#[test]
fn test_multiple_selectors() {
    let input = "{\"foo\": {\"bar\": \"quz\",\"baz\": 4}}\n";

    let output = aggregate(
        Aggregation::Sum(vec![
            Selector::Identifier("\"foo\"".to_owned()),
            Selector::Identifier("\"baz\"".to_owned()),
        ]),
        vec![
            Selector::Identifier("\"foo\"".to_owned()),
            Selector::Identifier("\"bar\"".to_owned()),
        ],
        input,
    )
    .unwrap();

    assert_eq!(output, "{\"foo_bar\":\"quz\",\"foo_baz_sum\":4.0}\n");
}

#[test]
fn test_agg_order_independent() {
    let one = aggregate(
        Aggregation::Sum(vec![Selector::Identifier("quz".to_owned())]),
        vec![Selector::Identifier("foo".to_owned())],
        "{\"foo\":\"bar\",\"quz\":2}\n{\"foo\":\"bar\",\"quz\":5}\n{\"foo\":\"baz\",\"quz\":3}\n",
    )
    .unwrap();
    let other = aggregate(
        Aggregation::Sum(vec![Selector::Identifier("quz".to_owned())]),
        vec![Selector::Identifier("foo".to_owned())],
        "{\"foo\":\"baz\",\"quz\":3}\n{\"foo\":\"bar\",\"quz\":5}\n{\"foo\":\"bar\",\"quz\":2}\n",
    )
    .unwrap();
    assert_eq!(one, other);
}

#[test]
fn test_join_simple() {
    let output = join(
        "{ \"baz\": 3, \"foo\": 1}\n",
        vec![vec![Selector::Identifier("foo".to_owned())]],
        vec![vec![Selector::Identifier("foo".to_owned())]],
        "{ \"foo\": 1, \"bar\": 2 }\n",
    )
    .unwrap();

    assert_eq!(output, "{\"bar\":2,\"baz\":3,\"foo\":1}\n");
}

#[test]
fn test_join_non_unique() {
    let output = join(
        "{ \"baz\": 3, \"foo\": 1}\n{\"foo\": 1, \"baz\": 2}\n",
        vec![vec![Selector::Identifier("foo".to_owned())]],
        vec![vec![Selector::Identifier("foo".to_owned())]],
        "{ \"foo\": 1, \"bar\": 2}\n",
    )
    .unwrap();

    assert_eq!(
        output,
        "{\"bar\":2,\"baz\":3,\"foo\":1}\n{\"bar\":2,\"baz\":2,\"foo\":1}\n"
    );
}

#[test]
fn test_join_multiple_fields() {
    let output = join(
        "{ \"baz\": 3, \"bub\": 2, \"foo\": 1}\n",
        vec![
            vec![Selector::Identifier("foo".to_owned())],
            vec![Selector::Identifier("bub".to_owned())],
        ],
        vec![
            vec![Selector::Identifier("foo".to_owned())],
            vec![Selector::Identifier("bub".to_owned())],
        ],
        "{ \"foo\": 1, \"bub\": 2, \"bar\": 2 }\n",
    )
    .unwrap();

    assert_eq!(output, "{\"bar\":2,\"baz\":3,\"bub\":2,\"foo\":1}\n");

    let output = join(
        "{\"county\": \"Alameda\", \"country\": \"USA\", \"state\": \"California\", \"brand\": [1,2,3,4]}\n",
        vec![
            vec![Selector::Identifier("country".to_owned())],
            vec![Selector::Identifier("state".to_owned())],
            vec![Selector::Identifier("county".to_owned())],
        ],
        vec![
            vec![Selector::Identifier("country".to_owned())],
            vec![Selector::Identifier("state".to_owned())],
            vec![Selector::Identifier("county".to_owned())],
        ],
        "{\"country\": \"USA\",\"state\":\"California\",\"county\": \"Alameda\", \"color\": null}\n",
    )
    .unwrap();

    assert_eq!(
        output,
        "{\"brand\":[1,2,3,4],\"color\":null,\"country\":\"USA\",\"county\":\"Alameda\",\"state\":\"California\"}\n"
    );
}

#[test]
fn test_pick_field() {
    let output = pick_field(
        vec![Selector::Identifier("foo".to_owned())],
        "{\"foo\":1}\n{\"foo\":2}\n{\"foo\":5}\n",
    )
    .unwrap();

    assert_eq!(output, "1\n2\n5\n");
}

#[test]
fn test_split_single_name_nesting_aware() {
    let output = from_json(
        "d.data",
        "{\"other\":[{\"junk\":\"junk\"}],\"data\":[{\"key\":\"value\"}]}",
    )
    .unwrap();
    assert_eq!(output, "{\"key\":\"value\"}\n");
}

#[test]
fn test_split_identifier_chain() {
    let output = from_json(
        "d.meta.view",
        "{\"meta\":{\"view\":[{\"key\":\"value\"}]},\"other\":{\"other\":\"junk\"}}",
    )
    .unwrap();
    assert_eq!(output, "{\"key\":\"value\"}\n");
}

#[test]
fn test_split_features() {
    let output = split(
        "{\"type\":\"FeatureCollection\",\"features\":[{\"a\":1},\n{\"b\":2}]}",
    )
    .unwrap();
    assert_eq!(output, "{\"a\":1}\n{\"b\":2}\n");
}

#[test]
fn test_split_with_index_step() {
    let output = from_json(
        "d.data[1]",
        "{\"data\":[[{\"a\":1}],[{\"b\":2}]]}",
    )
    .unwrap();
    assert_eq!(output, "{\"b\":2}\n");

    let output = from_json(
        "d.data[1].list",
        "{\"data\":[{\"list\":[{\"x\":1}]},{\"list\":[{\"y\":2}]}]}",
    )
    .unwrap();
    assert_eq!(output, "{\"y\":2}\n");
}

#[test]
fn test_split_ignores_braces_inside_strings() {
    let output = from_json(
        "d.data",
        "{\"note\":\"a } ] b\",\"data\":[{\"k\":\"}\"}]}",
    )
    .unwrap();
    assert_eq!(output, "{\"k\":\"}\"}\n");
}

#[test]
fn test_split_array_of_arrays() {
    let output = from_json("d.data", "{\"data\":[[1,2],[3,4]]}").unwrap();
    assert_eq!(output, "[1,2]\n[3,4]\n");
}

#[test]
fn test_select_count_inserts_count() {
    let input = "{\"type\":\"Feature\",\"properties\":{\"list\":[{\"v\":3},{\"v\":9}]}}\n{\"other\":1}\n";
    let output = select_count("d.list", "d.v > 5", "cnt", input).unwrap();
    assert_eq!(
        output,
        "{\"properties\":{\"cnt\":1,\"list\":[{\"v\":3},{\"v\":9}]},\"type\":\"Feature\"}\n{\"other\":1}\n"
    );

    assert!(select_count("nonsense", "d.v > 5", "cnt", input).is_err());
    assert!(select_count("d.list", "nonsense", "cnt", input).is_err());
}
