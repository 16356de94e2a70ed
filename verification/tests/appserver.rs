use codex_gauge::appserver::{map_result, map_window, FetchError};
use codex_gauge::json::{encode, parse, Json, Number, MAX_NESTING};
use codex_gauge::percent::Percent;
use codex_gauge::protocol::{
    encode_line, find_line, initialize_request, judge_bytes, judge_line, judge_reply, read_limits_request, Verdict,
};
use codex_gauge::quota::{Quota, Window};

fn json(text: &str) -> Json {
    match parse(text, "") {
        Ok((j, _)) => j,
        Err(e) => panic!("{e}"),
    }
}

fn percent(x: f64) -> Percent {
    Percent { bits: x.to_bits() }
}

fn object(entries: Vec<(&str, Json)>) -> Json {
    Json::Object(entries.into_iter().map(|(k, v)| (k.to_string(), v)).collect())
}

fn unsigned(n: u64) -> Json {
    Json::Number(Number::Unsigned(n))
}

#[test]
fn documents_are_parsed_into_plain_values() {
    let j = json(" {\"b\": [null, true, \"x\\n\", -3, 1.5, 18446744073709551615], \"a\": {}} ");
    let want = object(vec![
        ("a", object(vec![])),
        (
            "b",
            Json::Array(vec![
                Json::Null,
                Json::Bool(true),
                Json::Text("x\n".to_string()),
                Json::Number(Number::Negative(-3)),
                Json::Number(Number::Double(1.5f64.to_bits())),
                unsigned(u64::MAX),
            ]),
        ),
    ]);
    assert_eq!(j, want);
    assert_eq!(json("-0"), Json::Number(Number::Double((-0.0f64).to_bits())));
}

#[test]
fn a_member_is_printed_compactly() {
    let text = "{\"error\": { \"message\" : \"no\", \"code\": -32600, \"data\": [1.0, 2e3] }}";
    let (_, printed) = parse(text, "error").unwrap();
    assert_eq!(printed.as_deref(), Some("{\"code\":-32600,\"data\":[1.0,2000.0],\"message\":\"no\"}"));
    let (_, none) = parse(text, "result").unwrap();
    assert_eq!(none, None);
    let (_, none) = parse("[1]", "error").unwrap();
    assert_eq!(none, None);
}

#[test]
fn what_is_no_json_is_an_error() {
    assert_eq!(parse("{\"a\": ", "error").unwrap_err(), "EOF while parsing a value at line 1 column 6");
    assert!(parse("1 2", "error").is_err());
    assert!(parse("1e999", "error").is_err());
}

#[test]
fn what_is_nested_as_deep_as_can_be_read_can_be_written() {
    let deepest = format!("{}{}", "[".repeat(MAX_NESTING), "]".repeat(MAX_NESTING));
    assert_eq!(encode(&json(&deepest)).unwrap(), deepest.as_bytes());
    assert!(parse(&format!("[{deepest}]"), "error").is_err());
}

#[test]
fn numbers_are_read_as_integers_and_doubles() {
    let cases: Vec<(Json, Option<i64>, Option<f64>)> = vec![
        (unsigned(12), Some(12), Some(12.0)),
        (unsigned(i64::MAX as u64), Some(i64::MAX), Some(9223372036854775807.0)),
        (unsigned(i64::MAX as u64 + 1), None, Some(9223372036854775808.0)),
        (unsigned(u64::MAX), None, Some(18446744073709551615.0)),
        (unsigned((1 << 53) + 1), Some((1 << 53) + 1), Some(9007199254740992.0)),
        (Json::Number(Number::Negative(-7)), Some(-7), Some(-7.0)),
        (Json::Number(Number::Negative(i64::MIN)), Some(i64::MIN), Some(-9223372036854775808.0)),
        (Json::Number(Number::Double(2.5f64.to_bits())), None, Some(2.5)),
        (Json::Text("1".to_string()), None, None),
        (Json::Null, None, None),
    ];
    for (j, integer, double) in cases {
        assert_eq!(j.as_i64(), integer);
        assert_eq!(j.as_double(), double.map(|x| x.to_bits()));
    }
}

#[test]
fn members_are_found_by_key() {
    let j = object(vec![("a", unsigned(1)), ("b", Json::Null), ("a", unsigned(2))]);
    assert_eq!(j.get("a"), Some(&unsigned(2)));
    assert_eq!(j.get("b"), Some(&Json::Null));
    assert_eq!(j.get("c"), None);
    assert_eq!(unsigned(1).get("a"), None);
    assert_eq!(j.into_member("a"), Some(unsigned(2)));
    assert_eq!(Json::Array(vec![]).into_member("a"), None);
}

#[test]
fn a_bucket_becomes_a_window() {
    let bucket = json("{\"usedPercent\": 12, \"resetsAt\": 1700000000, \"windowDurationMins\": 300}");
    let want = Window { used_percent: percent(12.0), resets_at: 1_700_000_000, window_mins: 300 };
    assert_eq!(map_window(&bucket), Some(want));
    let bare = json("{\"usedPercent\": 42.5}");
    assert_eq!(map_window(&bare), Some(Window { used_percent: percent(42.5), resets_at: 0, window_mins: 0 }));
    let odd = json("{\"usedPercent\": 1, \"resetsAt\": 1.7e9, \"windowDurationMins\": null}");
    assert_eq!(map_window(&odd), Some(Window { used_percent: percent(1.0), resets_at: 0, window_mins: 0 }));
}

#[test]
fn percentages_are_clamped_on_the_way_in() {
    assert_eq!(map_window(&json("{\"usedPercent\": 250}")).unwrap().used_percent, percent(100.0));
    assert_eq!(map_window(&json("{\"usedPercent\": -3}")).unwrap().used_percent, percent(0.0));
    assert_eq!(map_window(&json("{\"usedPercent\": 100.5}")).unwrap().used_percent, percent(100.0));
}

#[test]
fn a_bucket_without_a_percentage_is_no_window() {
    assert_eq!(map_window(&json("{\"resetsAt\": 5}")), None);
    assert_eq!(map_window(&json("{\"usedPercent\": \"12\"}")), None);
    assert_eq!(map_window(&json("null")), None);
}

#[test]
fn the_metered_bucket_comes_first() {
    let result = json(
        "{\"rateLimits\": {\"primary\": {\"usedPercent\": 1}}, \
          \"rateLimitsByLimitId\": {\"codex\": {\"primary\": {\"usedPercent\": 2}, \"secondary\": {\"usedPercent\": 3}}}}",
    );
    let q = map_result(&result);
    assert!(q.connected);
    assert_eq!(q.primary.unwrap().used_percent, percent(2.0));
    assert_eq!(q.secondary.unwrap().used_percent, percent(3.0));
}

#[test]
fn the_plain_limits_are_the_fallback() {
    let result = json(
        "{\"rateLimits\": {\"primary\": null, \"secondary\": {\"usedPercent\": 45, \"resetsAt\": 9}}, \
          \"rateLimitsByLimitId\": {\"other\": {}}}",
    );
    let q = map_result(&result);
    assert_eq!(q.primary, None);
    assert_eq!(q.secondary.unwrap().resets_at, 9);
    assert!(q.connected);
}

#[test]
fn a_result_without_windows_is_not_connected() {
    let texts = [
        "{}",
        "[]",
        "{\"rateLimits\": {}}",
        "{\"rateLimitsByLimitId\": {\"codex\": null}, \"rateLimits\": {\"primary\": {\"usedPercent\": 1}}}",
    ];
    for text in texts {
        assert_eq!(map_result(&json(text)), Quota::disconnected(), "{text}");
    }
}

#[test]
fn failures_are_described() {
    assert_eq!(FetchError::Spawn("x".to_string()).to_string(), "failed to start codex: x");
    assert_eq!(FetchError::Io("x".to_string()).to_string(), "codex I/O error: x");
    assert_eq!(FetchError::Rpc("x".to_string()).to_string(), "codex RPC error: x");
}

#[test]
fn requests_are_single_lines() {
    let line = encode_line(&initialize_request(1)).unwrap();
    let want = "{\"id\":1,\"method\":\"initialize\",\"params\":{\"capabilities\":{},\
                \"clientInfo\":{\"name\":\"codex-gauge\",\"version\":\"0.1.0\"},\"protocolVersion\":1}}\n";
    assert_eq!(String::from_utf8(line).unwrap(), want);
    let line = encode_line(&read_limits_request(-2)).unwrap();
    assert_eq!(String::from_utf8(line).unwrap(), "{\"id\":-2,\"method\":\"account/rateLimits/read\",\"params\":{}}\n");
}

#[test]
fn line_feeds_in_texts_are_escaped() {
    let j = object(vec![("a\n", Json::Array(vec![Json::Text("\n\r\u{1}".to_string()), Json::Bool(false)]))]);
    let bytes = encode(&j).unwrap();
    assert_eq!(bytes, b"{\"a\\n\":[\"\\n\\r\\u0001\",false]}".to_vec());
}

#[test]
fn requests_read_back_as_they_were_made() {
    let line = encode_line(&read_limits_request(9)).unwrap();
    let back = json(&String::from_utf8(line).unwrap());
    assert_eq!(back.get("id"), Some(&unsigned(9)));
    assert_eq!(back.get("method"), Some(&Json::Text("account/rateLimits/read".to_string())));
    assert_eq!(back.get("params"), Some(&object(vec![])));
}

fn skipped(line: &str) -> bool {
    matches!(judge_line(line, 7), Verdict::Skip)
}

fn failure(line: &str) -> String {
    match judge_line(line, 7) {
        Verdict::Finished(Err(FetchError::Rpc(e))) => e,
        other => panic!("{other:?}"),
    }
}

#[test]
fn lines_that_are_no_answer_are_skipped() {
    assert!(skipped(""));
    assert!(skipped(" \r\n"));
    assert!(skipped("{\"method\": \"note\", \"params\": {}}\n"));
    assert!(skipped("{\"id\": 8, \"error\": 1}"));
    assert!(skipped("{\"id\": \"7\", \"result\": 1}"));
    assert!(skipped("{\"id\": 7.0, \"result\": 1}"));
    assert!(skipped("[7]"));
}

#[test]
fn an_answer_brings_its_result() {
    match judge_line("  {\"id\": 7, \"result\": {\"a\": 1}}\r\n", 7) {
        Verdict::Finished(Ok(j)) => assert_eq!(j, object(vec![("a", unsigned(1))])),
        other => panic!("{other:?}"),
    }
}

#[test]
fn bad_answers_are_failures() {
    assert_eq!(failure("{\"id\": 7, \"error\": {\"code\": -1}, \"result\": 1}"), "{\"code\":-1}");
    assert_eq!(failure("{\"id\": 7, \"error\": null}"), "null");
    assert_eq!(failure("{\"id\": 7}"), "response missing result");
    assert_eq!(failure("oops"), "expected value at line 1 column 1");
}

#[test]
fn a_reply_is_judged_by_its_parts() {
    let reply = object(vec![("id", unsigned(3)), ("result", Json::Null)]);
    assert!(matches!(judge_reply(reply, None, 3), Verdict::Finished(Ok(Json::Null))));
    let reply = object(vec![("id", unsigned(3)), ("result", Json::Null)]);
    assert!(matches!(judge_reply(reply, Some("e".to_string()), 3), Verdict::Finished(Err(FetchError::Rpc(e))) if e == "e"));
    let reply = object(vec![("id", unsigned(u64::MAX))]);
    assert!(matches!(judge_reply(reply, None, -1), Verdict::Skip));
}

#[test]
fn the_first_line_ends_at_its_line_feed() {
    assert_eq!(find_line(&b"".to_vec()), None);
    assert_eq!(find_line(&b"abc".to_vec()), None);
    assert_eq!(find_line(&b"\n".to_vec()), Some(1));
    assert_eq!(find_line(&b"abc\nde\n".to_vec()), Some(4));
}

#[test]
fn lines_are_decoded_before_they_are_judged() {
    let line = "{\"id\": 7, \"result\": \"\u{e9}\u{1F600}\"}\n";
    match judge_bytes(line.as_bytes().to_vec(), 7) {
        Verdict::Finished(Ok(j)) => assert_eq!(j, Json::Text("\u{e9}\u{1F600}".to_string())),
        other => panic!("{other:?}"),
    }
    for bad in [vec![0xFF], vec![0xC3, 0x0A], vec![0xED, 0xA0, 0x80], vec![0xC0, 0x80]] {
        match judge_bytes(bad, 7) {
            Verdict::Finished(Err(FetchError::Io(e))) => assert_eq!(e, "stream did not contain valid UTF-8"),
            other => panic!("{other:?}"),
        }
    }
}
