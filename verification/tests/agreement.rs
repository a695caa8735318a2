use aggregator::ws::binance;
use aggregator::ws::json::{skip_spaces, skip_value, MAX_DEPTH};
use aggregator::ws::models::Numeric;

fn whole_value(text: &str) -> bool {
    let s = text.as_bytes();
    match skip_value(s, skip_spaces(s, 0), MAX_DEPTH) {
        Some(end) => skip_spaces(s, end) == s.len(),
        None => false,
    }
}

#[test]
fn values_are_told_from_text_out_of_shape_as_a_json_reader_tells_them() {
    let cases = [
        "null",
        " true ",
        "false",
        "0",
        "-0",
        "12.5e-3",
        "1E+2",
        "\"\"",
        "\"a\\\"b\\\\c\\/d\\b\\f\\n\\r\\t\\u00e9\"",
        "\"é€\"",
        "[]",
        "[ ]",
        "{}",
        "{ }",
        "[1,2,3]",
        "[[[[]]]]",
        "{\"a\":1,\"b\":[true,false,null],\"c\":{\"d\":\"e\"}}",
        " { \"a\" : [ 1 , { \"b\" : \"c\" } ] } ",
        "{\"lastUpdateId\":5244166729,\"bids\":[[\"0.07500200\",\"17.24140000\"]],\"asks\":[]}",
        "",
        " ",
        "nul",
        "True",
        "01",
        "1.",
        ".5",
        "+1",
        "1e",
        "- 1",
        "0x10",
        "\"abc",
        "\"a\\qb\"",
        "\"a\nb\"",
        "\"\\u12\"",
        "'a'",
        "[1,]",
        "[,1]",
        "[1 2]",
        "[1",
        "1]",
        "{\"a\"}",
        "{\"a\":}",
        "{\"a\":1,}",
        "{a:1}",
        "{\"a\":1 \"b\":2}",
        "{\"a\":1}}",
        "[1] [2]",
        "1 2",
    ];
    for case in cases.iter() {
        let reader = serde_json::from_str::<serde_json::Value>(case).is_ok();
        assert_eq!(whole_value(case), reader, "{:?}", case);
    }
}

#[test]
fn the_fields_of_a_message_are_those_that_a_json_reader_finds() {
    let mut bids = Vec::new();
    let mut asks = Vec::new();
    for i in 0..15 {
        bids.push(format!("[\"{}.25\", \"0.{}\"]", 500 - i, i + 1));
        asks.push(format!("[\"{}.75\" ,\"1{}.5\"]", 500 + i, i));
    }
    let message = format!(
        "{{\"lastUpdateId\": 77, \"bids\": [{}],\n \"asks\": [{}]}}",
        bids.join(", "),
        asks.join(",")
    );
    let raw = binance::parse::scan_order_book(&message).unwrap();
    let tree: serde_json::Value = serde_json::from_str(&message).unwrap();
    let text = |field: Numeric| match field {
        Numeric::Decimal(span) => &message[span.start..span.end],
        Numeric::Infinity => "INF",
    };
    for i in 0..10 {
        assert_eq!(Some(text(raw.bid[i].price)), tree["bids"][i][0].as_str());
        assert_eq!(Some(text(raw.bid[i].amount)), tree["bids"][i][1].as_str());
        assert_eq!(Some(text(raw.ask[i].price)), tree["asks"][i][0].as_str());
        assert_eq!(Some(text(raw.ask[i].amount)), tree["asks"][i][1].as_str());
    }
}
