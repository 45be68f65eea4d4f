use annoying_journal::codec::{decode_journal_line, encode_journal_line};

#[test]
fn encodes_plain_record() {
    let line = encode_journal_line("Today was fine.", "2024-01-01T12:00:00Z");
    assert_eq!(
        line,
        "{\"text\":\"Today was fine.\",\"time_submitted\":\"2024-01-01T12:00:00Z\"}"
    );
}

#[test]
fn encodes_empty_text() {
    let line = encode_journal_line("", "2024-01-01T12:00:00Z");
    assert_eq!(line, "{\"text\":\"\",\"time_submitted\":\"2024-01-01T12:00:00Z\"}");
}

#[test]
fn escapes_quotes_and_backslashes() {
    let line = encode_journal_line("a \"quoted\" \\ path", "t");
    assert_eq!(
        line,
        "{\"text\":\"a \\\"quoted\\\" \\\\ path\",\"time_submitted\":\"t\"}"
    );
}

#[test]
fn escapes_newlines_and_controls() {
    let line = encode_journal_line("one\ntwo\tthree\r\u{8}\u{c}\u{1}\u{1f}", "t");
    assert_eq!(
        line,
        "{\"text\":\"one\\ntwo\\tthree\\r\\b\\f\\u0001\\u001f\",\"time_submitted\":\"t\"}"
    );
}

#[test]
fn line_never_holds_a_raw_newline() {
    let line = encode_journal_line("first\nsecond\nthird\n", "2024-01-01T12:00:00Z");
    assert!(!line.contains('\n'));
}

#[test]
fn matches_reference_json_encoder() {
    // The journal format is exactly what a JSON encoder writes for the two
    // fields; hold our lines against serde_json's own string encoding.
    let texts = [
        "Today was fine.",
        "",
        "a \"quoted\" \\ path",
        "one\ntwo\tthree\r\u{8}\u{c}\u{1}\u{1f}",
        "unicode: \u{e9}\u{4e16}\u{754c} \u{1f600}",
    ];
    let time = "2024-01-01T12:00:00Z";
    for text in texts {
        let line = encode_journal_line(text, time);
        let expected = format!(
            "{{\"text\":{},\"time_submitted\":{}}}",
            serde_json::to_string(text).unwrap(),
            serde_json::to_string(time).unwrap()
        );
        assert_eq!(line, expected);
    }
}

#[test]
fn round_trips_through_a_json_parser() {
    // Whatever the text holds, the line parses back to a JSON object whose
    // decoded `text` field is the text, verbatim.
    let texts = [
        "Today was fine.",
        "",
        "line one\nline two",
        "tabs\tand \"quotes\" and \\ slashes",
        "ctrl: \u{0}\u{1}\u{1f} end",
        "caf\u{e9} \u{4e16}\u{754c} \u{1f600}",
    ];
    for text in texts {
        let line = encode_journal_line(text, "2024-01-01T12:00:00Z");
        let value: serde_json::Value = serde_json::from_str(&line).unwrap();
        assert_eq!(value.get("text").unwrap().as_str().unwrap(), text);
        assert_eq!(
            value.get("time_submitted").unwrap().as_str().unwrap(),
            "2024-01-01T12:00:00Z"
        );
    }
}

#[test]
fn decodes_its_own_lines() {
    let texts = [
        "Today was fine.",
        "",
        "line one\nline two",
        "tabs\tand \"quotes\" and \\ slashes",
        "ctrl: \u{0}\u{1}\u{1f} end",
        "caf\u{e9} \u{4e16}\u{754c} \u{1f600}",
    ];
    let times = ["2024-01-01T12:00:00Z", "", "2018-01-26T10:30:09+08:00"];
    for text in texts {
        for time in times {
            let line = encode_journal_line(text, time);
            let decoded = decode_journal_line(&line).unwrap();
            assert_eq!(decoded.0, text);
            assert_eq!(decoded.1, time);
        }
    }
}

#[test]
fn rejects_lines_no_record_encodes_to() {
    assert_eq!(decode_journal_line(""), None);
    assert_eq!(decode_journal_line("{}"), None);
    assert_eq!(decode_journal_line("{\"text\":\"a\"}"), None);
    assert_eq!(
        decode_journal_line("{\"text\":\"a\",\"time_submitted\":\"t\""),
        None
    );
    assert_eq!(
        decode_journal_line("{\"text\":\"a\",\"time_submitted\":\"t"),
        None
    );
    assert_eq!(
        decode_journal_line("{\"text\":\"bad \\x escape\",\"time_submitted\":\"t\"}"),
        None
    );
    assert_eq!(
        decode_journal_line("{\"text\":\"a\",\"time_submitted\":\"t\"} trailing"),
        None
    );
}
