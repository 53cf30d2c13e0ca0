use marketdata_service::config::UpstreamConfig;
use marketdata_service::feed::error::FeedSimError;
use marketdata_service::feed::generator::Ladder;
use marketdata_service::feed::subscriber::Emitted;
use marketdata_service::upstream::{error_text, make_book, FeedSimUpstream, MockUpstream, Readiness, Upstream};

#[test]
fn push_then_receive_in_fifo_order() {
    let mut up = MockUpstream::new();
    up.push(make_book("BBG000000001", 1));
    up.push(make_book("BBG000000001", 2));

    assert_eq!(up.receive().unwrap().unwrap().gateway_seq, 1);
    assert_eq!(up.receive().unwrap().unwrap().gateway_seq, 2);
    assert!(up.receive().unwrap().is_none());
}

#[test]
fn wait_returns_err_after_close_and_drain() {
    let mut up = MockUpstream::new();
    up.push(make_book("BBG000000001", 1));
    up.close();

    // Has data: Ok.
    assert!(up.wait().is_ok());
    let _ = up.receive().unwrap();
    // Drained and closed: Err.
    assert!(up.wait().is_err());
}

#[test]
fn total_generated_tracks_pushes() {
    let mut up = MockUpstream::new();
    for seq in 1..=5 {
        up.push(make_book("BBG000000001", seq));
    }
    assert_eq!(up.total_generated(), 5);
    let _ = up.receive();
    assert_eq!(up.total_generated(), 5);
}

#[test]
fn readiness_tells_when_to_block() {
    let mut up = MockUpstream::new();
    assert_eq!(up.readiness(), Readiness::Block);
    assert!(up.wait().is_ok());
    up.push(make_book("BBG000000001", 1));
    assert_eq!(up.readiness(), Readiness::Ready);
    up.close();
    assert_eq!(up.readiness(), Readiness::Ready);
    let _ = up.receive();
    assert_eq!(up.readiness(), Readiness::Ended);
}

#[test]
fn make_book_cuts_long_figis() {
    let book = make_book("BBG00ABCDEF1XTRA", 9);
    assert_eq!(book.figi.as_str(), "BBG00ABCDEF1");
    assert_eq!(book.gateway_seq, 9);
    assert_eq!(book.bid_count, 0);
}

#[test]
fn the_feed_is_a_source() {
    let mut up = FeedSimUpstream::new(UpstreamConfig { max_messages: Some(3), ..Default::default() }).unwrap();
    let ladder = Ladder { bids: [0; 10], asks: [0; 10] };
    while up.feed_mut().emit(0, &ladder) == Emitted::Buffered {}
    up.feed_mut().finish();
    assert_eq!(up.total_generated(), 3);
    let mut seqs = Vec::new();
    while up.wait().is_ok() {
        seqs.push(up.receive().unwrap().unwrap().gateway_seq);
    }
    assert_eq!(seqs, vec![1, 2, 3]);
    assert!(up.receive().unwrap().is_none());
}

#[test]
fn an_invalid_feed_is_refused() {
    let result = FeedSimUpstream::new(UpstreamConfig { burst_size: Some(0), ..Default::default() });
    assert_eq!(
        result.err().unwrap(),
        "feed-sim subscriber init failed: Config(\"Pacing::Bursty.burst_size must be > 0\")"
    );
}

#[test]
fn errors_for_logs() {
    assert_eq!(error_text(&FeedSimError::Config("a".to_string()), "<q>"), "Config(<q>)");
    assert_eq!(error_text(&FeedSimError::Spawn("a".to_string()), "<q>"), "Spawn(<q>)");
    assert_eq!(error_text(&FeedSimError::Disconnected, "<q>"), "Disconnected");
}
