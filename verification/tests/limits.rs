use ast_find::fetch::parse_duration;
use ast_find::fetch::parse_size;
use ast_find::fetch::FetchOptions;
use ast_find::fetch::LimitError;
use std::time::Duration;

#[test]
fn test_parse_size() {
    assert_eq!(parse_size("1024").unwrap(), 1024);
    assert_eq!(parse_size("1KB").unwrap(), 1024);
    assert_eq!(parse_size("10MB").unwrap(), 10 * 1024 * 1024);
}

#[test]
fn test_parse_duration() {
    assert_eq!(parse_duration("15s").unwrap(), Duration::from_secs(15));
    assert_eq!(parse_duration("1m").unwrap(), Duration::from_secs(60));
}

#[test]
fn sizes_in_every_unit_and_case() {
    assert_eq!(parse_size("0").unwrap(), 0);
    assert_eq!(parse_size("7B").unwrap(), 7);
    assert_eq!(parse_size(" 3kb ").unwrap(), 3 * 1024);
    assert_eq!(parse_size("2Gb").unwrap(), 2 * 1024 * 1024 * 1024);
    assert_eq!(parse_size("+5mb").unwrap(), 5 * 1024 * 1024);
    assert_eq!(parse_size("007").unwrap(), 7);
}

#[test]
fn sizes_that_are_refused() {
    assert!(matches!(parse_size(""), Err(LimitError::InvalidNumber { text }) if text.is_empty()));
    assert!(matches!(parse_size("MB"), Err(LimitError::InvalidNumber { text }) if text.is_empty()));
    assert!(matches!(parse_size("10 MB"), Err(LimitError::InvalidNumber { text }) if text == "10 "));
    assert!(matches!(parse_size("-1"), Err(LimitError::InvalidNumber { .. })));
    assert!(matches!(parse_size("+"), Err(LimitError::InvalidNumber { .. })));
    assert!(matches!(parse_size("1.5MB"), Err(LimitError::InvalidNumber { .. })));
    assert!(matches!(parse_size("10TB"), Err(LimitError::UnknownUnit { unit }) if unit == "TB"));
    assert!(matches!(parse_size("10M1"), Err(LimitError::UnknownUnit { unit }) if unit == "M1"));
    assert!(matches!(
        parse_size("99999999999999999999999"),
        Err(LimitError::InvalidNumber { .. })
    ));
    assert!(matches!(parse_size("18446744073709551615GB"), Err(LimitError::Overflow)));
}

#[test]
fn durations_in_every_unit() {
    assert_eq!(parse_duration("15").unwrap(), Duration::from_secs(15));
    assert_eq!(parse_duration("15sec").unwrap(), Duration::from_secs(15));
    assert_eq!(parse_duration("2min").unwrap(), Duration::from_secs(120));
    assert_eq!(parse_duration("3h").unwrap(), Duration::from_secs(10800));
    assert_eq!(parse_duration(" 1HOUR ").unwrap(), Duration::from_secs(3600));
    assert!(matches!(parse_duration("5d"), Err(LimitError::UnknownUnit { unit }) if unit == "d"));
    assert!(matches!(parse_duration("s"), Err(LimitError::InvalidNumber { .. })));
    assert!(matches!(parse_duration("18446744073709551615h"), Err(LimitError::Overflow)));
}

#[test]
fn default_fetch_options() {
    let opts = FetchOptions::default();
    assert_eq!(opts.timeout, Duration::from_secs(15));
    assert_eq!(opts.max_bytes, 10 * 1024 * 1024);
    assert_eq!(opts.user_agent, "web-get/0.1");
}

/// Sizes read with the string functions of std.
fn size_by_std(s: &str) -> Option<usize> {
    let s = s.trim().to_uppercase();
    let (num_part, unit) = match s.find(|c: char| c.is_alphabetic()) {
        Some(pos) => (&s[..pos], &s[pos..]),
        None => (s.as_str(), ""),
    };
    let num: usize = num_part.parse().ok()?;
    let multiplier: usize = match unit {
        "B" | "" => 1,
        "KB" => 1024,
        "MB" => 1024 * 1024,
        "GB" => 1024 * 1024 * 1024,
        _ => return None,
    };
    num.checked_mul(multiplier)
}

/// Durations read with the string functions of std.
fn duration_by_std(s: &str) -> Option<Duration> {
    let s = s.trim().to_lowercase();
    let (num_part, unit) = match s.find(|c: char| c.is_alphabetic()) {
        Some(pos) => (&s[..pos], &s[pos..]),
        None => (s.as_str(), "s"),
    };
    let num: u64 = num_part.parse().ok()?;
    let secs = match unit {
        "s" | "sec" => Some(num),
        "m" | "min" => num.checked_mul(60),
        "h" | "hour" => num.checked_mul(3600),
        _ => None,
    };
    secs.map(Duration::from_secs)
}

#[test]
fn generated_limits_read_the_same() {
    let pieces = [
        "0", "1", "9", "10", "1024", "184467440737", "09551615", "+", "-", " ", "\t", "k", "K",
        "m", "M", "g", "G", "b", "B", "s", "S", "sec", "min", "MIN", "h", "hour", "Hour", "i", "n",
        "e", "c", "o", "u", "r", ".", "_", "\u{a0}", "\u{e9}", "\u{131}", "\u{17f}", "\u{212a}",
        "\u{df}", "\u{660}", "\u{ff11}",
    ];
    let mut state: u64 = 7;
    let mut next = |bound: usize| -> usize {
        state = state.wrapping_mul(6364136223846793005).wrapping_add(1442695040888963407);
        ((state >> 33) as usize) % bound
    };
    let mut sizes = 0;
    let mut durations = 0;
    for _ in 0..40000 {
        let len = next(6);
        let mut input = String::new();
        for _ in 0..len {
            input.push_str(pieces[next(pieces.len())]);
        }
        let size = parse_size(&input).ok();
        assert_eq!(size, size_by_std(&input), "size of {:?}", input);
        let duration = parse_duration(&input).ok();
        assert_eq!(duration, duration_by_std(&input), "duration of {:?}", input);
        sizes += size.is_some() as usize;
        durations += duration.is_some() as usize;
    }
    assert!(sizes > 100);
    assert!(durations > 100);
}
