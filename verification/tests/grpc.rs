use marketdata_service::bus::Bus;
use marketdata_service::grpc::{
    book_to_proto, get_snapshot, next_update, on_wire, requested_figis, subscribe, Level, Pump, SnapshotResponse, WireOutcome,
};
use marketdata_service::ingest::Ingest;
use marketdata_service::snapshot::Snapshot;
use marketdata_service::types::{BookLevel, BookMessage, Figi};
use marketdata_service::upstream::make_book;

fn figi(s: &str) -> Figi {
    s.parse().unwrap()
}

fn level(price: f64, qty: f32, orders: u16) -> BookLevel {
    BookLevel { price_bits: price.to_bits(), qty_bits: qty.to_bits(), orders }
}

fn list(figis: &[&str]) -> Vec<String> {
    figis.iter().map(|figi| figi.to_string()).collect()
}

fn sample_book() -> BookMessage {
    let mut m = BookMessage {
        figi: figi("BBG000000123"),
        gateway_seq: 42,
        gateway_ts: 1_700_000_000_000_000_000,
        bid_count: 2,
        ask_count: 1,
        ..Default::default()
    };
    m.bids[0] = level(100.5, 1.0, 3);
    m.bids[1] = level(100.0, 2.5, 7);
    m.asks[0] = level(101.0, 0.5, 1);
    m
}

#[test]
fn book_to_proto_maps_basic_fields() {
    let m = sample_book();
    let pb = book_to_proto(&m);

    assert_eq!(pb.figi, "BBG000000123");
    assert_eq!(pb.gateway_seq, 42);
    assert_eq!(pb.gateway_ts, 1_700_000_000_000_000_000);
    assert_eq!(pb.bids.len(), 2);
    assert_eq!(pb.asks.len(), 1);
    assert_eq!(f64::from_bits(pb.bids[0].price_bits), 100.5);
    assert_eq!(f32::from_bits(pb.bids[0].qty_bits), 1.0);
    assert_eq!(pb.bids[0].orders, 3);
    assert_eq!(f64::from_bits(pb.asks[0].price_bits), 101.0);
}

#[test]
fn book_to_proto_trims_to_active_levels_only() {
    let m = sample_book();
    let pb = book_to_proto(&m);
    assert_eq!(pb.bids.len(), 2);
    assert_eq!(
        pb.bids[1],
        Level { price_bits: 100.0f64.to_bits(), qty_bits: 2.5f32.to_bits(), orders: 7 }
    );
}

#[test]
fn book_to_proto_empty_book_is_valid() {
    let m = BookMessage::default();
    let pb = book_to_proto(&m);
    assert_eq!(pb.figi, "");
    assert!(pb.bids.is_empty());
    assert!(pb.asks.is_empty());
}

#[test]
fn not_yet_then_found() {
    let mut snapshot = Snapshot::new();
    let mut bus = Bus::new(16);
    let mut ingest = Ingest::new();

    assert_eq!(get_snapshot(&snapshot, "BBG000000001").unwrap(), SnapshotResponse::NotYet);

    ingest.on_message(&mut snapshot, &mut bus, make_book("BBG000000001", 42));

    match get_snapshot(&snapshot, "BBG000000001").unwrap() {
        SnapshotResponse::Found(book) => {
            assert_eq!(book.gateway_seq, 42);
            assert_eq!(book.figi, "BBG000000001");
        }
        other => panic!("expected Found after push, got {other:?}"),
    }
}

#[test]
fn snapshot_returns_latest_seq() {
    let mut snapshot = Snapshot::new();
    let mut bus = Bus::new(16);
    let mut ingest = Ingest::new();
    for seq in 1..=10u64 {
        ingest.on_message(&mut snapshot, &mut bus, make_book("BBG000000001", seq));
    }
    match get_snapshot(&snapshot, "BBG000000001").unwrap() {
        SnapshotResponse::Found(book) => assert_eq!(book.gateway_seq, 10),
        other => panic!("expected Found, got {other:?}"),
    }
}

#[test]
fn subscribe_streams_pushed_updates() {
    let mut snapshot = Snapshot::new();
    let mut bus = Bus::new(16);
    let mut ingest = Ingest::new();
    let mut sub = subscribe(&mut bus, &list(&["BBG000000001"]), 16).ok().unwrap();
    assert_eq!(next_update(&mut sub), Pump::Wait);

    ingest.on_message(&mut snapshot, &mut bus, make_book("BBG000000001", 7));
    sub.fan_in(&bus);

    match next_update(&mut sub) {
        Pump::Send(upd) => {
            assert_eq!(upd.book.gateway_seq, 7);
            assert_eq!(upd.book.figi, "BBG000000001");
            assert_eq!(upd.dropped_total, 0);
        }
        other => panic!("expected an update, got {other:?}"),
    }
}

#[test]
fn subscribe_empty_figis_rejected() {
    let mut bus = Bus::new(16);
    let err = subscribe(&mut bus, &list(&[]), 16).err().expect("an empty list must be refused");
    assert_eq!(err.message, "subscribe with empty figi list");
}

#[test]
fn get_snapshot_too_long_figi_rejected() {
    let snapshot = Snapshot::new();
    let err = get_snapshot(&snapshot, "BBG_TOO_LONG_FIGI_13PLUS").err().expect("a long figi must be refused");
    assert!(err.message.contains("too long"));
    assert_eq!(err.message, "figi too long (24 bytes, max 12)");
}

#[test]
fn subscribe_too_long_figi_rejected() {
    let mut bus = Bus::new(16);
    let figis = list(&["BBG000000001", "BBG_TOO_LONG_FIGI_13PLUS"]);
    let err = subscribe(&mut bus, &figis, 16).err().expect("a long figi must be refused");
    assert!(err.message.contains("too long"));
    assert_eq!(err.message, "figi too long (24 bytes, max 12): BBG_TOO_LONG_FIGI_13PLUS");
    // All or nothing: not even the first topic was opened.
    assert_eq!(bus.topic_count(), 0);
}

#[test]
fn figis_are_measured_in_bytes() {
    let mut snapshot = Snapshot::new();
    assert!(get_snapshot(&snapshot, "BBG000000001").is_ok());
    assert_eq!(get_snapshot(&snapshot, "BBG0000000é1").err().unwrap().message, "figi too long (13 bytes, max 12)");
    assert_eq!(get_snapshot(&snapshot, "").unwrap(), SnapshotResponse::NotYet);
    snapshot.put(BookMessage::default());
    assert!(matches!(get_snapshot(&snapshot, "").unwrap(), SnapshotResponse::Found(_)));
}

#[test]
fn the_first_long_figi_is_named() {
    let mut bus = Bus::new(16);
    let figis = list(&["BBG000000001", "AAAAAAAAAAAAA", "BBBBBBBBBBBBBB"]);
    let err = subscribe(&mut bus, &figis, 16).err().unwrap();
    assert_eq!(err.message, "figi too long (13 bytes, max 12): AAAAAAAAAAAAA");
    assert_eq!(requested_figis(&figis).err().unwrap(), err);
    let good = list(&["BBG000000002", "X"]);
    assert_eq!(requested_figis(&good).unwrap(), vec![figi("BBG000000002"), figi("X")]);
}

#[test]
fn wire_losses_count_with_the_others() {
    let mut bus = Bus::new(16);
    let mut sub = subscribe(&mut bus, &list(&["BBG000000001"]), 2).ok().unwrap();
    for seq in 1..=3u64 {
        bus.publish(make_book("BBG000000001", seq));
    }
    sub.fan_in(&bus);
    match next_update(&mut sub) {
        Pump::Send(upd) => {
            assert_eq!(upd.book.gateway_seq, 1);
            assert_eq!(upd.dropped_total, 1);
        }
        other => panic!("{other:?}"),
    }
    assert!(on_wire(&mut sub, WireOutcome::Full));
    match next_update(&mut sub) {
        Pump::Send(upd) => {
            assert_eq!(upd.book.gateway_seq, 2);
            assert_eq!(upd.dropped_total, 2);
        }
        other => panic!("{other:?}"),
    }
    assert!(on_wire(&mut sub, WireOutcome::Sent));
    assert_eq!(sub.dropped_total(), 2);
    assert!(!on_wire(&mut sub, WireOutcome::Closed));
    sub.close();
    assert_eq!(next_update(&mut sub), Pump::Finish);
}

#[test]
fn slow_consumer_isolation_e2e() {
    // A slow and a fast client of the same instrument: only the slow one loses.
    let mut bus = Bus::new(64);
    let figis = list(&["BBG000000001"]);
    let mut slow = subscribe(&mut bus, &figis, 4).ok().unwrap();
    let mut fast = subscribe(&mut bus, &figis, 4).ok().unwrap();
    let mut fast_got = 0u64;
    let mut fast_dropped = 0u64;
    for seq in 1..=50u64 {
        bus.publish(make_book("BBG000000001", seq));
        slow.fan_in(&bus);
        fast.fan_in(&bus);
        while let Pump::Send(upd) = next_update(&mut fast) {
            assert!(on_wire(&mut fast, WireOutcome::Sent));
            fast_got += 1;
            fast_dropped = upd.dropped_total;
        }
    }
    assert_eq!(fast_got, 50);
    assert_eq!(fast_dropped, 0);
    assert_eq!(slow.dropped_total(), 46);
}
