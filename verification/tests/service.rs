use marketdata_service::config::{ServiceConfig, UpstreamConfig};
use marketdata_service::ingest::IngestStats;
use marketdata_service::service::{new_with_feed, new_with_upstream, on_exit, Exit};
use marketdata_service::upstream::Upstream;

#[test]
fn new_with_upstream_rejects_invalid_config_early() {
    let cfg = ServiceConfig { bus_channel_capacity: 0, ..Default::default() };
    let err = new_with_upstream(&cfg).err().expect("bus_channel_capacity = 0 must be rejected");
    assert!(err.reason.contains("bus_channel_capacity"));
}

#[test]
fn parts_are_unused() {
    let parts = new_with_upstream(&ServiceConfig::default()).ok().unwrap();
    assert!(parts.snapshot.is_empty());
    assert_eq!(parts.bus.topic_count(), 0);
    assert_eq!(parts.ingest.stats(), IngestStats::default());
}

#[test]
fn the_service_is_checked_before_the_feed() {
    let bad_feed = UpstreamConfig { rate_hz: 0, ..Default::default() };
    let both = ServiceConfig { upstream: bad_feed, poll_interval_ns: 0, ..Default::default() };
    assert_eq!(new_with_feed(&both).err().unwrap(), "poll_interval must be > 0 (avoid busy-loop)");
    let feed = ServiceConfig { upstream: bad_feed, ..Default::default() };
    assert_eq!(
        new_with_feed(&feed).err().unwrap(),
        "feed-sim subscriber init failed: Config(\"rate_hz must be > 0\")"
    );
    let (parts, upstream) = new_with_feed(&ServiceConfig::default()).ok().unwrap();
    assert!(parts.snapshot.is_empty());
    assert_eq!(upstream.total_generated(), 0);
    assert!(upstream.wait().is_ok());
}

#[test]
fn exits_have_their_meaning() {
    let done = on_exit(Exit::Ingest(Ok(IngestStats::default())));
    assert!(!done.stop_ingest);
    assert_eq!(done.result, Ok(()));
    let broken = on_exit(Exit::Ingest(Err("boom".to_string())));
    assert!(!broken.stop_ingest);
    assert_eq!(broken.result, Err("ingest join task panicked: boom".to_string()));
    let closed = on_exit(Exit::Server(Ok(())));
    assert!(closed.stop_ingest);
    assert_eq!(closed.result, Ok(()));
    let failed = on_exit(Exit::Server(Err("port in use".to_string())));
    assert!(failed.stop_ingest);
    assert_eq!(failed.result, Err("tonic serve failed: port in use".to_string()));
}
