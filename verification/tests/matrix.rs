use oar_p2p::latency_matrix::{InvalidLatencyMatrix, LatencyMatrix, TimeUnit};

#[test]
fn parses_whole_milliseconds() {
    let m = LatencyMatrix::parse("0 5\n5 0", TimeUnit::Milliseconds).unwrap();
    assert_eq!(m.dimension(), 2);
    assert_eq!(m.latency(0, 0), 0);
    assert_eq!(m.latency(0, 1), 5_000_000);
    assert_eq!(m.latency(1, 0), 5_000_000);
}

#[test]
fn parses_fractional_values_and_seconds_unit() {
    let m = LatencyMatrix::parse("0.5 1.25\n2 0.0005", TimeUnit::Milliseconds).unwrap();
    assert_eq!(m.latency(0, 0), 500_000);
    assert_eq!(m.latency(0, 1), 1_250_000);
    assert_eq!(m.latency(1, 0), 2_000_000);
    assert_eq!(m.latency(1, 1), 500);

    let s = LatencyMatrix::parse("0.5 1\n1 0.5", TimeUnit::Seconds).unwrap();
    assert_eq!(s.latency(0, 0), 500_000_000);
    assert_eq!(s.latency(0, 1), 1_000_000_000);
}

#[test]
fn skips_blank_lines_and_trims_whitespace() {
    let m = LatencyMatrix::parse("\n  1 2  \n\n 3 4 \n\n", TimeUnit::Milliseconds).unwrap();
    assert_eq!(m.dimension(), 2);
    assert_eq!(m.latency(1, 0), 3_000_000);
}

#[test]
fn empty_text_yields_zero_dimension() {
    let m = LatencyMatrix::parse("", TimeUnit::Milliseconds).unwrap();
    assert_eq!(m.dimension(), 0);
}

#[test]
fn rejects_ragged_rows_with_line_and_widths() {
    match LatencyMatrix::parse("1 2\n3 4 5\n6 7", TimeUnit::Milliseconds) {
        Err(InvalidLatencyMatrix::InvalidLineDimension { line, dimension, expected }) => {
            assert_eq!(line, 1);
            assert_eq!(dimension, 3);
            assert_eq!(expected, 2);
        },
        other => panic!("expected InvalidLineDimension, got {:?}", other.map(|_| ())),
    }
}

#[test]
fn rejects_non_numeric_tokens() {
    match LatencyMatrix::parse("1 x\n3 4", TimeUnit::Milliseconds) {
        Err(InvalidLatencyMatrix::InvalidLatencyValue { value, .. }) => {
            assert_eq!(value, "x");
        },
        other => panic!("expected InvalidLatencyValue, got {:?}", other.map(|_| ())),
    }
    assert!(LatencyMatrix::parse("-1", TimeUnit::Milliseconds).is_err());
    assert!(LatencyMatrix::parse("1.2.3", TimeUnit::Milliseconds).is_err());
    assert!(LatencyMatrix::parse(".", TimeUnit::Milliseconds).is_err());
}

#[test]
fn rejects_non_square_matrices() {
    match LatencyMatrix::parse("1 2", TimeUnit::Milliseconds) {
        Err(InvalidLatencyMatrix::NotSquare { rows, expected }) => {
            assert_eq!(rows, 1);
            assert_eq!(expected, 2);
        },
        other => panic!("expected NotSquare, got {:?}", other.map(|_| ())),
    }
}

#[test]
fn accepts_leading_and_trailing_dot_forms() {
    let m = LatencyMatrix::parse(".5 5.\n1 2", TimeUnit::Milliseconds).unwrap();
    assert_eq!(m.latency(0, 0), 500_000);
    assert_eq!(m.latency(0, 1), 5_000_000);
}

#[test]
fn format_millis_round_trips() {
    let m = LatencyMatrix::parse("0 5\n5 0", TimeUnit::Milliseconds).unwrap();
    let text = m.format_millis();
    assert_eq!(text, "0 5\n5 0\n");
    let back = LatencyMatrix::parse(&text, TimeUnit::Milliseconds).unwrap();
    assert_eq!(back.dimension(), m.dimension());
    for r in 0..2 {
        for c in 0..2 {
            assert_eq!(back.latency(r, c), m.latency(r, c));
        }
    }

    let empty = LatencyMatrix::parse("", TimeUnit::Milliseconds).unwrap();
    assert_eq!(empty.format_millis(), "");
}

#[test]
fn accepts_float_numeral_forms() {
    let m = LatencyMatrix::parse("1e3 +5\n2.5e-2 0.5E1", TimeUnit::Milliseconds).unwrap();
    assert_eq!(m.latency(0, 0), 1_000_000_000);
    assert_eq!(m.latency(0, 1), 5_000_000);
    assert_eq!(m.latency(1, 0), 25_000);
    assert_eq!(m.latency(1, 1), 5_000_000);

    let s = LatencyMatrix::parse("1e-9 0\n0 0", TimeUnit::Seconds).unwrap();
    assert_eq!(s.latency(0, 0), 1);

    // an enormous negative exponent truncates to zero nanoseconds
    let z = LatencyMatrix::parse("1e-99999999999999999999999999", TimeUnit::Milliseconds).unwrap();
    assert_eq!(z.latency(0, 0), 0);
}

#[test]
fn rejects_signs_and_broken_exponents() {
    assert!(LatencyMatrix::parse("-1", TimeUnit::Milliseconds).is_err());
    assert!(LatencyMatrix::parse("inf", TimeUnit::Milliseconds).is_err());
    assert!(LatencyMatrix::parse("NaN", TimeUnit::Milliseconds).is_err());
    assert!(LatencyMatrix::parse("1e", TimeUnit::Milliseconds).is_err());
    assert!(LatencyMatrix::parse("1e+", TimeUnit::Milliseconds).is_err());
    assert!(LatencyMatrix::parse("e3", TimeUnit::Milliseconds).is_err());
    assert!(LatencyMatrix::parse("+", TimeUnit::Milliseconds).is_err());
    assert!(LatencyMatrix::parse("1e9999999999", TimeUnit::Milliseconds).is_err());
    assert!(LatencyMatrix::parse("++1", TimeUnit::Milliseconds).is_err());
}
