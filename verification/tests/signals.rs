use oar_p2p::signal::{is_valid_signal_char, Signal, SignalSpec};

#[test]
fn test_signal_valid() {
    let max_length_signal = "a".repeat(64);
    let valid_signals = vec![
        "a",
        "test",
        "test-signal",
        "test_signal",
        "123",
        "abc123",
        &max_length_signal, // max length
    ];

    for signal_str in valid_signals {
        let signal: Result<Signal, _> = signal_str.parse();
        assert!(signal.is_ok(), "Signal '{}' should be valid", signal_str);
        assert_eq!(signal.unwrap().as_str(), signal_str);
    }
}

#[test]
fn test_signal_invalid_empty() {
    let signal: Result<Signal, _> = "".parse();
    assert!(signal.is_err());
}

#[test]
fn test_signal_invalid_too_long() {
    let long_signal = "a".repeat(65); // max + 1
    let signal: Result<Signal, _> = long_signal.parse();
    assert!(signal.is_err());
}

#[test]
fn test_signal_invalid_characters() {
    let invalid_signals = vec![
        "test signal",  // space
        "test@signal",  // @
        "test.signal",  // .
        "test/signal",  // /
        "test\\signal", // \
        "test!signal",  // !
        "test#signal",  // #
        "test$signal",  // $
    ];

    for signal_str in invalid_signals {
        let signal: Result<Signal, _> = signal_str.parse();
        assert!(signal.is_err(), "Signal '{}' should be invalid", signal_str);
    }
}

#[test]
fn test_signal_clone_and_equality() {
    let signal1: Signal = "test-signal".parse().unwrap();
    let signal2 = signal1.clone();
    assert_eq!(signal1, signal2);
}

#[test]
fn test_signal_debug() {
    let signal: Signal = "test".parse().unwrap();
    let debug_str = format!("{:?}", signal);
    assert!(debug_str.contains("Signal"));
    assert!(debug_str.contains("test"));
}

#[test]
fn test_signal_spec_valid() {
    let valid_specs = vec![
        ("test:5", "test", 5),
        ("signal-name:10", "signal-name", 10),
        ("a:0", "a", 0),
        ("long_signal_name:3600", "long_signal_name", 3600),
    ];

    for (spec_str, expected_signal, expected_seconds) in valid_specs {
        let spec: Result<SignalSpec, _> = spec_str.parse();
        assert!(spec.is_ok(), "SignalSpec '{}' should be valid", spec_str);

        let spec = spec.unwrap();
        assert_eq!(spec.signal.as_str(), expected_signal);
        assert_eq!(spec.delay_secs, expected_seconds);
    }
}

#[test]
fn test_signal_spec_invalid_no_colon() {
    let spec: Result<SignalSpec, _> = "test5".parse();
    assert!(spec.is_err());
}

#[test]
fn test_signal_spec_invalid_signal() {
    let spec: Result<SignalSpec, _> = "bad@signal:5".parse();
    assert!(spec.is_err());
}

#[test]
fn test_signal_spec_invalid_delay() {
    let invalid_delays = vec![
        "test:abc", // non-numeric
        "test:-5",  // negative
        "test:5.5", // float
        "test:",    // empty delay
    ];

    for spec_str in invalid_delays {
        let spec: Result<SignalSpec, _> = spec_str.parse();
        assert!(spec.is_err(), "SignalSpec '{}' should be invalid", spec_str);
    }
}

#[test]
fn test_signal_spec_clone_and_equality() {
    let spec1: SignalSpec = "test:5".parse().unwrap();
    let spec2 = spec1.clone();
    assert_eq!(spec1, spec2);
}

#[test]
fn test_signal_spec_debug() {
    let spec: SignalSpec = "test:5".parse().unwrap();
    let debug_str = format!("{:?}", spec);
    assert!(debug_str.contains("SignalSpec"));
}

#[test]
fn test_signal_boundary_lengths() {
    // Test minimum length (1 character)
    let min_signal: Signal = "a".parse().unwrap();
    assert_eq!(min_signal.as_str(), "a");

    // Test maximum length (64 characters)
    let max_signal_str = "a".repeat(64);
    let max_signal: Signal = max_signal_str.parse().unwrap();
    assert_eq!(max_signal.as_str(), max_signal_str);
}

#[test]
fn test_is_valid_signal_char() {
    // Valid characters
    assert!(is_valid_signal_char('a'));
    assert!(is_valid_signal_char('Z'));
    assert!(is_valid_signal_char('0'));
    assert!(is_valid_signal_char('9'));
    assert!(is_valid_signal_char('_'));
    assert!(is_valid_signal_char('-'));

    // Invalid characters
    assert!(!is_valid_signal_char(' '));
    assert!(!is_valid_signal_char('@'));
    assert!(!is_valid_signal_char('.'));
    assert!(!is_valid_signal_char('/'));
    assert!(!is_valid_signal_char('!'));
}

#[test]
fn test_signal_spec_zero_delay() {
    let spec: SignalSpec = "test:0".parse().unwrap();
    assert_eq!(spec.delay_secs, 0);
}

#[test]
fn test_signal_spec_large_delay() {
    let spec: SignalSpec = "test:86400".parse().unwrap(); // 24 hours
    assert_eq!(spec.delay_secs, 86400);
}

#[test]
fn test_signal_length_counts_bytes() {
    // a two-byte alphanumeric character: thirty-two of them fill the
    // sixty-four byte budget, a thirty-third overflows it
    let fits = "\u{00e9}".repeat(32);
    assert!(fits.parse::<Signal>().is_ok());
    let overflows = "\u{00e9}".repeat(33);
    assert!(overflows.parse::<Signal>().is_err());
}

#[test]
fn test_signal_spec_plus_delay() {
    let spec: SignalSpec = "test:+5".parse().unwrap();
    assert_eq!(spec.delay_secs, 5);
}
