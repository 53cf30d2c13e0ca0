use marketdata_service::feed::config::{parse_pacing, FeedVars, Pacing, SubscriberConfig};
use marketdata_service::feed::error::FeedSimError;
use marketdata_service::types::MAX_BOOK_DEPTH;

fn no_vars() -> FeedVars {
    FeedVars {
        instruments: None,
        rate_hz: None,
        depth: None,
        max_messages: None,
        seed: None,
        start_seq: None,
        buffer_size: None,
        pacing: None,
    }
}

fn set(text: &str) -> Option<String> {
    Some(text.to_string())
}

fn reason(result: Result<SubscriberConfig, FeedSimError>) -> String {
    match result {
        Err(FeedSimError::Config(reason)) => reason,
        other => panic!("expected a configuration error, got {other:?}"),
    }
}

fn validation(cfg: &SubscriberConfig) -> String {
    match cfg.validate() {
        Err(FeedSimError::Config(reason)) => reason,
        other => panic!("expected a configuration error, got {other:?}"),
    }
}

#[test]
fn config_default_validates() {
    SubscriberConfig::default().validate().unwrap();
}

#[test]
fn rejects_zero_rate() {
    let mut cfg = SubscriberConfig::default();
    cfg.rate_hz = 0;
    assert!(cfg.validate().is_err());
}

#[test]
fn rejects_zero_depth() {
    let mut cfg = SubscriberConfig::default();
    cfg.depth = 0;
    assert!(cfg.validate().is_err());
}

#[test]
fn rejects_excessive_depth() {
    let mut cfg = SubscriberConfig::default();
    cfg.depth = (MAX_BOOK_DEPTH + 1) as u8;
    assert!(cfg.validate().is_err());
}

#[test]
fn parses_pacing_steady() {
    assert_eq!(parse_pacing("steady").unwrap(), Pacing::Steady);
    assert_eq!(parse_pacing("STEADY").unwrap(), Pacing::Steady);
}

#[test]
fn parses_pacing_bursty() {
    assert_eq!(parse_pacing("bursty:32").unwrap(), Pacing::Bursty { burst_size: 32 });
}

#[test]
fn rejects_bad_pacing() {
    assert!(parse_pacing("garbage").is_err());
    assert!(parse_pacing("bursty:abc").is_err());
}

#[test]
fn validation_names_the_first_fault() {
    let mut cfg = SubscriberConfig::default();
    cfg.instruments = 0;
    cfg.rate_hz = 0;
    assert_eq!(validation(&cfg), "instruments must be > 0");
    cfg.instruments = 1;
    assert_eq!(validation(&cfg), "rate_hz must be > 0");
    cfg.rate_hz = 1;
    cfg.depth = 11;
    cfg.buffer_size = 0;
    assert_eq!(validation(&cfg), "depth must be in 1..=10 (got 11)");
    cfg.depth = 0;
    assert_eq!(validation(&cfg), "depth must be in 1..=10 (got 0)");
    cfg.depth = 10;
    cfg.pacing = Pacing::Bursty { burst_size: 0 };
    assert_eq!(validation(&cfg), "buffer_size must be > 0");
    cfg.buffer_size = 1;
    assert_eq!(validation(&cfg), "Pacing::Bursty.burst_size must be > 0");
    cfg.pacing = Pacing::Bursty { burst_size: 1 };
    assert!(cfg.validate().is_ok());
}

#[test]
fn pacing_is_trimmed_and_its_errors_quoted() {
    assert_eq!(parse_pacing("  \tSteady\u{3000}\n").unwrap(), Pacing::Steady);
    assert_eq!(parse_pacing(" bursty:+7 ").unwrap(), Pacing::Bursty { burst_size: 7 });
    match parse_pacing("bursty:x\"y") {
        Err(FeedSimError::Config(reason)) => assert_eq!(
            reason,
            "invalid SIM_PACING bursty:N — N must be a positive integer (got \"x\\\"y\"): invalid digit found in string"
        ),
        other => panic!("{other:?}"),
    }
    match parse_pacing(" fast ") {
        Err(FeedSimError::Config(reason)) => {
            assert_eq!(reason, "SIM_PACING must be 'steady' or 'bursty:N' (got \"fast\")")
        }
        other => panic!("{other:?}"),
    }
    assert!(parse_pacing("Bursty:3").is_err());
    assert!(parse_pacing("bursty:4294967296").is_err());
}

#[test]
fn no_variables_give_the_default() {
    let cfg = SubscriberConfig::from_vars(&no_vars()).unwrap();
    assert_eq!(cfg, SubscriberConfig::default());
    assert_eq!(cfg.instruments, 100);
    assert_eq!(cfg.rate_hz, 1_000);
    assert_eq!(cfg.pacing, Pacing::Steady);
    assert_eq!(cfg.depth, 5);
    assert_eq!(cfg.max_messages, None);
    assert_eq!(cfg.seed, 0xDEAD_BEEF_CAFE_F00D);
    assert_eq!(cfg.start_seq, 1);
    assert_eq!(cfg.buffer_size, 1024);
}

#[test]
fn variables_override_the_default() {
    let vars = FeedVars {
        instruments: set("10"),
        rate_hz: set("500"),
        depth: set("3"),
        max_messages: set("200"),
        seed: set("7"),
        start_seq: set("18446744073709551615"),
        buffer_size: set("16"),
        pacing: set("bursty:4"),
    };
    let cfg = SubscriberConfig::from_vars(&vars).unwrap();
    assert_eq!(cfg.instruments, 10);
    assert_eq!(cfg.rate_hz, 500);
    assert_eq!(cfg.depth, 3);
    assert_eq!(cfg.max_messages, Some(200));
    assert_eq!(cfg.seed, 7);
    assert_eq!(cfg.start_seq, u64::MAX);
    assert_eq!(cfg.buffer_size, 16);
    assert_eq!(cfg.pacing, Pacing::Bursty { burst_size: 4 });
}

#[test]
fn unreadable_variables_are_reported_in_order() {
    let mut vars = no_vars();
    vars.pacing = set("never");
    vars.depth = set("256");
    assert_eq!(
        reason(SubscriberConfig::from_vars(&vars)),
        "invalid SIM_DEPTH=\"256\": number too large to fit in target type"
    );
    vars.rate_hz = set("");
    assert_eq!(
        reason(SubscriberConfig::from_vars(&vars)),
        "invalid SIM_RATE_HZ=\"\": cannot parse integer from empty string"
    );
    vars.instruments = set("-1");
    assert_eq!(
        reason(SubscriberConfig::from_vars(&vars)),
        "invalid SIM_INSTRUMENTS=\"-1\": invalid digit found in string"
    );
}

#[test]
fn readable_variables_are_still_validated() {
    let mut vars = no_vars();
    vars.buffer_size = set("0");
    assert_eq!(reason(SubscriberConfig::from_vars(&vars)), "buffer_size must be > 0");
}

#[test]
fn error_messages() {
    assert_eq!(
        FeedSimError::Config("rate_hz must be > 0".to_string()).message(),
        "invalid feed-sim config: rate_hz must be > 0"
    );
    assert_eq!(
        FeedSimError::Spawn("no threads".to_string()).message(),
        "failed to spawn feed-sim generator: no threads"
    );
    assert_eq!(FeedSimError::Disconnected.message(), "feed-sim upstream disconnected");
}
