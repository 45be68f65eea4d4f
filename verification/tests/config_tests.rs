use annoying_journal::config::{parse_args, parse_u64, Config, ConfigError, DEFAULT_INTERVAL_SECS};

fn args(list: &[&str]) -> Vec<String> {
    list.iter().map(|s| s.to_string()).collect()
}

#[test]
fn defaults() {
    let c = Config::default();
    assert_eq!(c.interval_secs, 2225);
    assert_eq!(DEFAULT_INTERVAL_SECS, 2225);
    assert_eq!(
        c.prompt,
        "Write a journal entry, then hit Tab, Enter to submit it."
    );
}

#[test]
fn no_flags_gives_defaults() {
    let c = parse_args(&args(&["annoying-journal"])).unwrap();
    assert_eq!(c.interval_secs, 2225);
    assert_eq!(
        c.prompt,
        "Write a journal entry, then hit Tab, Enter to submit it."
    );
}

#[test]
fn interval_flag_overrides() {
    let c = parse_args(&args(&["prog", "--interval-secs", "10"])).unwrap();
    assert_eq!(c.interval_secs, 10);
}

#[test]
fn zero_interval_is_accepted() {
    let c = parse_args(&args(&["prog", "--interval-secs", "0"])).unwrap();
    assert_eq!(c.interval_secs, 0);
}

#[test]
fn prompt_flag_overrides() {
    let c = parse_args(&args(&["prog", "--prompt", "What happened?"])).unwrap();
    assert_eq!(c.prompt, "What happened?");
    assert_eq!(c.interval_secs, 2225);
}

#[test]
fn flags_in_any_order() {
    let c = parse_args(&args(&["prog", "--prompt", "p", "--interval-secs", "7"])).unwrap();
    assert_eq!(c.interval_secs, 7);
    assert_eq!(c.prompt, "p");
}

#[test]
fn later_occurrence_wins() {
    let c = parse_args(&args(&["prog", "--interval-secs", "1", "--interval-secs", "2"])).unwrap();
    assert_eq!(c.interval_secs, 2);
}

#[test]
fn unrecognized_flags_are_ignored() {
    let c = parse_args(&args(&["prog", "--verbose", "--interval-secs", "5", "extra"])).unwrap();
    assert_eq!(c.interval_secs, 5);
}

#[test]
fn missing_interval_value_is_an_error() {
    let e = parse_args(&args(&["prog", "--interval-secs"])).unwrap_err();
    assert_eq!(e, ConfigError::IntervalNeedsValue);
    assert_eq!(e.describe(), "Parameter --interval-secs needs an argument");
}

#[test]
fn unparsable_interval_is_an_error() {
    let e = parse_args(&args(&["prog", "--interval-secs", "soon"])).unwrap_err();
    assert_eq!(e, ConfigError::IntervalNotANumber);
    assert_eq!(e.describe(), "Cannot parse argument: --interval-secs <u64>");
}

#[test]
fn negative_interval_is_an_error() {
    let e = parse_args(&args(&["prog", "--interval-secs", "-5"])).unwrap_err();
    assert_eq!(e, ConfigError::IntervalNotANumber);
}

#[test]
fn missing_prompt_value_is_an_error() {
    let e = parse_args(&args(&["prog", "--prompt"])).unwrap_err();
    assert_eq!(e, ConfigError::PromptNeedsValue);
    assert_eq!(e.describe(), "Parameter --prompt needs an argument");
}

#[test]
fn flag_value_may_look_like_a_flag() {
    // The argument after a flag is always its value, as the original
    // argument scan consumes it.
    let c = parse_args(&args(&["prog", "--prompt", "--interval-secs"])).unwrap();
    assert_eq!(c.prompt, "--interval-secs");
    assert_eq!(c.interval_secs, 2225);
}

#[test]
fn parse_u64_accepts_digits_and_plus() {
    assert_eq!(parse_u64("0"), Some(0));
    assert_eq!(parse_u64("2225"), Some(2225));
    assert_eq!(parse_u64("+42"), Some(42));
    assert_eq!(parse_u64("18446744073709551615"), Some(u64::MAX));
}

#[test]
fn parse_u64_rejects_bad_input() {
    assert_eq!(parse_u64(""), None);
    assert_eq!(parse_u64("+"), None);
    assert_eq!(parse_u64("-1"), None);
    assert_eq!(parse_u64("12a"), None);
    assert_eq!(parse_u64("1 2"), None);
    assert_eq!(parse_u64("18446744073709551616"), None);
    assert_eq!(parse_u64("99999999999999999999999"), None);
}

#[test]
fn parse_u64_matches_std() {
    for s in ["0", "7", "+7", "2225", "18446744073709551615", "18446744073709551616", "", "+", "x", "1.5"] {
        assert_eq!(parse_u64(s), s.parse::<u64>().ok(), "input {:?}", s);
    }
}
