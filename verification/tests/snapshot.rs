use marketdata_service::snapshot::Snapshot;
use marketdata_service::types::{BookLevel, BookMessage, Figi};

fn figi(s: &str) -> Figi {
    s.parse().unwrap()
}

fn level(price: f64, qty: f32, orders: u16) -> BookLevel {
    BookLevel { price_bits: price.to_bits(), qty_bits: qty.to_bits(), orders }
}

#[test]
fn put_then_get_returns_latest() {
    let mut s = Snapshot::new();
    let mut m = BookMessage { figi: figi("BBG000000001"), gateway_seq: 1, ..Default::default() };
    s.put(m);
    m.gateway_seq = 42;
    s.put(m);

    let got = s.get(&figi("BBG000000001")).unwrap();
    assert_eq!(got.gateway_seq, 42);
}

#[test]
fn get_returns_none_for_unknown_figi() {
    let s = Snapshot::new();
    assert!(s.get(&figi("BBG000000999")).is_none());
}

#[test]
fn put_overwrites_entire_book_not_merge() {
    let mut s = Snapshot::new();
    let f = figi("BBG000000001");

    let mut old = BookMessage { figi: f, gateway_seq: 1, bid_count: 2, ask_count: 1, ..Default::default() };
    old.bids[0] = level(100.0, 1.0, 3);
    old.bids[1] = level(99.0, 2.0, 5);
    old.asks[0] = level(101.0, 1.5, 4);
    s.put(old);

    let mut new = BookMessage { figi: f, gateway_seq: 2, bid_count: 1, ask_count: 2, ..Default::default() };
    new.bids[0] = level(200.0, 7.0, 9);
    new.asks[0] = level(201.0, 8.0, 11);
    new.asks[1] = level(202.0, 6.0, 2);
    s.put(new);

    let got = s.get(&f).expect("FIGI present after second put");
    assert_eq!(got.gateway_seq, 2);
    assert_eq!(got.bid_count, 1);
    assert_eq!(got.ask_count, 2);
    assert_eq!(got.bids[0].price_bits, 200.0f64.to_bits());
    assert_eq!(got.asks[0].price_bits, 201.0f64.to_bits());
    assert_eq!(got.asks[1].price_bits, 202.0f64.to_bits());
    assert_eq!(got, new);
}

#[test]
fn is_empty_reflects_population() {
    let mut s = Snapshot::new();
    assert!(s.is_empty());
    assert_eq!(s.len(), 0);

    let m = BookMessage { figi: figi("BBG000000001"), ..Default::default() };
    s.put(m);

    assert!(!s.is_empty());
    assert_eq!(s.len(), 1);
}

#[test]
fn instruments_do_not_touch_each_other() {
    let mut s = Snapshot::new();
    for n in 0..50u64 {
        let name = format!("BBG{:09}", n % 7);
        s.put(BookMessage { figi: figi(&name), gateway_seq: n, ..Default::default() });
    }
    assert_eq!(s.len(), 7);
    for k in 0..7u64 {
        let got = s.get(&figi(&format!("BBG{k:09}"))).unwrap();
        assert_eq!(got.gateway_seq % 7, k);
        assert!(got.gateway_seq >= 43);
    }
    assert!(s.get(&figi("BBG000000007")).is_none());
}

#[test]
fn the_count_goes_up_with_new_instruments_only() {
    let mut s = Snapshot::new();
    for (name, count) in [("A", 1), ("B", 2), ("A", 2), ("C", 3), ("C", 3)] {
        s.put(BookMessage { figi: figi(name), ..Default::default() });
        assert_eq!(s.len(), count);
    }
}
