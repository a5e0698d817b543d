use anti_collision::config::Config;
use anti_collision::mode::SelectionMode;
use anti_collision::rate::Rate;
use anti_collision::session::{parse_count, parse_streams, window_config, Fields};
use anti_collision::span::{Span, MAX_NANOS};
use anti_collision::text::{contains_char, decimal_text};

fn rate(x: f64) -> Rate {
    Rate { bits: x.to_bits() }
}

#[test]
fn default_settings() {
    let config = Config::default();
    assert_eq!(f64::from_bits(config.threshold_mbps.bits), 20.0);
    assert_eq!(config.sleep_duration, Span::from_secs(3600));
    assert_eq!(config.check_duration, Span::from_secs(5));
    assert_eq!(config.streams, 4);
    assert_eq!(config.rolling_window_secs, 5);
}

#[test]
fn window_settings_change_threshold_and_streams_only() {
    let config = window_config(rate(37.5), 9);
    assert_eq!(config.threshold_mbps, rate(37.5));
    assert_eq!(config.streams, 9);
    assert_eq!(config.sleep_duration, Span::from_secs(3600));
    assert_eq!(config.check_duration, Span::from_secs(5));
    assert_eq!(config.rolling_window_secs, 5);
}

#[test]
fn rates_compare_as_doubles_do() {
    let xs = [
        0.0,
        -0.0,
        1.0,
        -1.0,
        19.999999999999996,
        20.0,
        20.000000000000004,
        1e308,
        -1e308,
        5e-324,
        -5e-324,
        2.2250738585072014e-308,
        2.225073858507201e-308,
        f64::INFINITY,
        f64::NEG_INFINITY,
        f64::NAN,
        -f64::NAN,
        f64::MAX,
        f64::MIN,
    ];
    for a in xs {
        for b in xs {
            assert_eq!(rate(a).at_least(rate(b)), a >= b, "{a} >= {b}");
            assert_eq!(rate(a).more_than(rate(b)), a > b, "{a} > {b}");
            assert_eq!(
                rate(a).above(rate(b)),
                a.total_cmp(&b) == std::cmp::Ordering::Greater,
                "{a} above {b}"
            );
        }
    }
    assert_eq!(Rate::zero(), rate(0.0));
}

#[test]
fn spans() {
    assert_eq!(Span::from_secs(3).nanos, 3_000_000_000);
    assert_eq!(Span { nanos: 2_999_999_999 }.as_secs(), 2);
    assert_eq!(Span::from_secs(5).since(Span::from_secs(2)), Span::from_secs(3));
    assert_eq!(Span::from_secs(2).since(Span::from_secs(5)), Span { nanos: 0 });
    assert_eq!(MAX_NANOS, std::time::Duration::MAX.as_nanos());
}

#[test]
fn mode_names_are_read_back() {
    assert_eq!(SelectionMode::Latency.as_str(), "latency");
    assert_eq!(SelectionMode::Throughput.as_str(), "throughput");
    for mode in [SelectionMode::Latency, SelectionMode::Throughput] {
        assert_eq!(SelectionMode::from_str(mode.as_str()), mode);
    }
}

#[test]
fn throughput_has_three_names() {
    for word in ["throughput", "пропускная способность", "скорость", "  ThroughPUT\n", " скорость "] {
        assert_eq!(SelectionMode::from_str(word), SelectionMode::Throughput, "{word}");
    }
}

#[test]
fn everything_else_is_latency() {
    for word in ["", "latency", "Скорость", "СКОРОСТЬ", "through put", "throughputs"] {
        assert_eq!(SelectionMode::from_str(word), SelectionMode::Latency, "{word}");
    }
}

#[test]
fn numerals() {
    for n in [0_u128, 7, 10, 909, 18_446_744_073_709_551_615, u128::MAX] {
        assert_eq!(decimal_text(n), n.to_string());
    }
    assert!(contains_char("a?b", '?'));
    assert!(!contains_char("ab", '?'));
    assert!(!contains_char("", '?'));
}

#[test]
fn counts_are_read_as_machine_words_are() {
    let words = [
        "", "+", "-", "0", "-0", "+0", "007", "+42", "42", " 42", "42 ", "4_2", "4a", "++4", "４",
        "18446744073709551615", "18446744073709551616", "99999999999999999999999999x",
        "99999999999999999999999999",
    ];
    for word in words {
        assert_eq!(parse_count(word), word.parse::<usize>().ok(), "{word}");
    }
    for n in [0, 1, 64, usize::MAX] {
        assert_eq!(parse_count(&decimal_text(n as u128)), Some(n));
    }
}

#[test]
fn streams_are_brought_into_range() {
    assert_eq!(parse_streams("0"), Some(1));
    assert_eq!(parse_streams("1"), Some(1));
    assert_eq!(parse_streams("8"), Some(8));
    assert_eq!(parse_streams("64"), Some(64));
    assert_eq!(parse_streams("65"), Some(64));
    assert_eq!(parse_streams("many"), None);
    assert_eq!(parse_streams("-3"), None);
}

#[test]
fn fields_keep_what_was_last_entered() {
    let mut fields = Fields::new();
    assert_eq!(fields, Fields { threshold_mbps: rate(20.0), streams: 4 });
    fields.enter_streams("9");
    fields.enter_streams("x");
    fields.enter_threshold(None);
    assert_eq!(fields, Fields { threshold_mbps: rate(20.0), streams: 9 });
    fields.enter_streams("1000");
    fields.enter_threshold(Some(rate(2.5)));
    assert_eq!(fields, Fields { threshold_mbps: rate(2.5), streams: 64 });
    fields.enter_streams("0");
    assert_eq!(fields, Fields { threshold_mbps: rate(2.5), streams: 1 });
}
