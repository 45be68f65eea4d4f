use annoying_journal::journal::{JournalRecord, Timestamp};

#[test]
fn record_keeps_submitted_text() {
    let r = JournalRecord::now("Today was fine.".to_string());
    assert_eq!(r.text, "Today was fine.");
}

#[test]
fn record_renders_its_line() {
    let r = JournalRecord {
        text: "Today was fine.".to_string(),
        time_submitted: Timestamp {
            secs: 1704110400,
            text: "2024-01-01T12:00:00Z".to_string(),
        },
    };
    assert_eq!(
        r.to_json_line(),
        "{\"text\":\"Today was fine.\",\"time_submitted\":\"2024-01-01T12:00:00Z\"}"
    );
}

#[test]
fn stamped_record_line_parses_back() {
    // The clock decides the timestamp, but whatever it said, the line is one
    // JSON object whose decoded text field is the submitted text.
    let r = JournalRecord::now("stamped\nwith \"now\"".to_string());
    let line = r.to_json_line();
    assert!(!line.contains('\n'));
    let value: serde_json::Value = serde_json::from_str(&line).unwrap();
    assert_eq!(
        value.get("text").unwrap().as_str().unwrap(),
        "stamped\nwith \"now\""
    );
    assert_eq!(
        value.get("time_submitted").unwrap().as_str().unwrap(),
        r.time_submitted.text
    );
}
