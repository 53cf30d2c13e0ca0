use marketdata_service::config::{invalid_burst_text, parse_pacing, ListenVar, ServiceConfig, ServiceVars, UpstreamConfig};
use marketdata_service::feed::config::{
    invalid_burst_text as feed_invalid_burst_text, parse_pacing as feed_parse_pacing, FeedVars, Pacing, SubscriberConfig,
};
use marketdata_service::vars::invalid_setting_text;

fn no_vars() -> ServiceVars {
    ServiceVars {
        sim: FeedVars {
            instruments: None,
            rate_hz: None,
            depth: None,
            max_messages: None,
            seed: None,
            start_seq: None,
            buffer_size: None,
            pacing: None,
        },
        poll_interval_ms: None,
        bus_capacity: None,
        subscriber_queue: None,
        progress_every: None,
        listen: None,
    }
}

fn set(text: &str) -> Option<String> {
    Some(text.to_string())
}

#[test]
fn default_validates() {
    ServiceConfig::default().validate().unwrap();
}

#[test]
fn rejects_zero_bus_capacity() {
    let cfg = ServiceConfig { bus_channel_capacity: 0, ..Default::default() };
    assert!(cfg.validate().is_err());
    assert_eq!(cfg.validate().unwrap_err().reason, "bus_channel_capacity must be > 0");
}

#[test]
fn rejects_zero_poll_interval() {
    let cfg = ServiceConfig { poll_interval_ns: 0, ..Default::default() };
    assert!(cfg.validate().is_err());
    assert_eq!(cfg.validate().unwrap_err().reason, "poll_interval must be > 0 (avoid busy-loop)");
}

#[test]
fn rejects_zero_subscriber_queue_size() {
    let cfg = ServiceConfig { subscriber_queue_size: 0, ..Default::default() };
    assert!(cfg.validate().is_err());
    assert_eq!(cfg.validate().unwrap_err().reason, "subscriber_queue_size must be > 0");
}

#[test]
fn upstream_config_maps_to_subscriber_config() {
    let u = UpstreamConfig { burst_size: Some(32), ..Default::default() };
    let sc: SubscriberConfig = u.into();
    assert!(matches!(sc.pacing, Pacing::Bursty { burst_size: 32 }));
    assert_eq!(SubscriberConfig::from(UpstreamConfig::default()), SubscriberConfig::default());
}

#[test]
fn parses_pacing() {
    assert_eq!(parse_pacing("steady").unwrap(), None);
    assert_eq!(parse_pacing("bursty:16").unwrap(), Some(16));
    assert!(parse_pacing("garbage").is_err());
}

#[test]
fn pacing_errors_in_words() {
    assert_eq!(
        parse_pacing("bursty:-").unwrap_err().reason,
        "invalid SIM_PACING bursty:N (got \"-\"): invalid digit found in string"
    );
    assert_eq!(
        parse_pacing("x").unwrap_err().reason,
        "SIM_PACING must be 'steady' or 'bursty:N' (got \"x\")"
    );
}

#[test]
fn no_variables_give_the_default_service() {
    let cfg = ServiceConfig::from_vars(&no_vars()).unwrap();
    assert_eq!(cfg, ServiceConfig::default());
    assert_eq!(cfg.poll_interval_ns, 50_000_000);
    assert_eq!(cfg.bus_channel_capacity, 1024);
    assert_eq!(cfg.subscriber_queue_size, 1024);
    assert_eq!(cfg.progress_log_every, 100);
    assert_eq!(cfg.listen_addr, "0.0.0.0:50051");
    assert_eq!(cfg.upstream, UpstreamConfig::default());
}

#[test]
fn variables_override_the_service_default() {
    let mut vars = no_vars();
    vars.sim.instruments = set("3");
    vars.sim.rate_hz = set("4");
    vars.sim.depth = set("2");
    vars.sim.max_messages = set("5");
    vars.sim.seed = set("6");
    vars.sim.start_seq = set("7");
    vars.sim.buffer_size = set("8");
    vars.sim.pacing = set("bursty:9");
    vars.poll_interval_ms = set("10");
    vars.bus_capacity = set("11");
    vars.subscriber_queue = set("12");
    vars.progress_every = set("0");
    vars.listen = Some(ListenVar { text: "127.0.0.1:0".to_string(), error: None });
    let cfg = ServiceConfig::from_vars(&vars).unwrap();
    assert_eq!(
        cfg,
        ServiceConfig {
            upstream: UpstreamConfig {
                instruments: 3,
                rate_hz: 4,
                depth: 2,
                max_messages: Some(5),
                seed: 6,
                start_seq: 7,
                buffer_size: 8,
                burst_size: Some(9),
            },
            poll_interval_ns: 10_000_000,
            bus_channel_capacity: 11,
            subscriber_queue_size: 12,
            progress_log_every: 0,
            listen_addr: "127.0.0.1:0".to_string(),
        }
    );
}

#[test]
fn service_faults_are_reported_in_order() {
    let mut vars = no_vars();
    vars.bus_capacity = set("0");
    assert_eq!(ServiceConfig::from_vars(&vars).unwrap_err().reason, "bus_channel_capacity must be > 0");
    vars.listen = Some(ListenVar {
        text: "here".to_string(),
        error: Some("invalid socket address syntax".to_string()),
    });
    assert_eq!(
        ServiceConfig::from_vars(&vars).unwrap_err().reason,
        "invalid MDS_LISTEN=\"here\": invalid socket address syntax"
    );
    vars.poll_interval_ms = set("1.5");
    assert_eq!(
        ServiceConfig::from_vars(&vars).unwrap_err().reason,
        "invalid MDS_POLL_INTERVAL_MS=\"1.5\": invalid digit found in string"
    );
    vars.sim.pacing = set("");
    assert_eq!(
        ServiceConfig::from_vars(&vars).unwrap_err().reason,
        "SIM_PACING must be 'steady' or 'bursty:N' (got \"\")"
    );
    vars.sim.seed = set("18446744073709551616");
    assert_eq!(
        ServiceConfig::from_vars(&vars).unwrap_err().reason,
        "invalid SIM_SEED=\"18446744073709551616\": number too large to fit in target type"
    );
}

#[test]
fn messages_around_quoted_texts() {
    assert_eq!(invalid_setting_text("A", "<q>", "why"), "invalid A=<q>: why");
    assert_eq!(invalid_burst_text("<q>", "why"), "invalid SIM_PACING bursty:N (got <q>): why");
    assert_eq!(
        feed_invalid_burst_text("<q>", "why"),
        "invalid SIM_PACING bursty:N — N must be a positive integer (got <q>): why"
    );
}

#[test]
fn the_service_and_the_feed_read_the_same_settings() {
    for text in ["steady", " STEADY ", "bursty:5", "bursty:", "bursty:x", "", "other"] {
        match (parse_pacing(text), feed_parse_pacing(text)) {
            (Ok(None), Ok(pacing)) => assert_eq!(pacing, Pacing::Steady),
            (Ok(Some(burst_size)), Ok(pacing)) => assert_eq!(pacing, Pacing::Bursty { burst_size }),
            (Err(_), Err(_)) => {}
            (ours, theirs) => panic!("{text:?}: {ours:?} {theirs:?}"),
        }
    }
    let mut vars = no_vars();
    vars.sim.instruments = set("12");
    vars.sim.seed = set("99");
    vars.sim.pacing = set("bursty:3");
    let service = ServiceConfig::from_vars(&vars).unwrap();
    assert_eq!(SubscriberConfig::from(service.upstream), SubscriberConfig::from_vars(&vars.sim).unwrap());
}
