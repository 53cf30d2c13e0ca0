use marketdata_service::feed::config::{Pacing, SubscriberConfig};
use marketdata_service::feed::generator::{Generator, Ladder};
use marketdata_service::types::{BookFlags, BookLevel, BookMessage, ConditionFlags};

fn cfg(seed: u64) -> SubscriberConfig {
    SubscriberConfig {
        instruments: 4,
        rate_hz: 1_000,
        pacing: Pacing::Steady,
        depth: 3,
        max_messages: None,
        seed,
        start_seq: 1,
        buffer_size: 16,
    }
}

fn ladder(mid: f64) -> Ladder {
    let mut ladder = Ladder { bids: [0; 10], asks: [0; 10] };
    for k in 0..10 {
        ladder.bids[k] = (mid - 1.0 - k as f64).to_bits();
        ladder.asks[k] = (mid + 1.0 + k as f64).to_bits();
    }
    ladder
}

fn next(generator: &mut Generator) -> BookMessage {
    generator.next(1_700_000_000_000_000_000, &ladder(100.0))
}

#[test]
fn deterministic_payloads_for_same_seed() {
    let mut a = Generator::new(&cfg(42));
    let mut b = Generator::new(&cfg(42));
    for n in 0..16 {
        let ma = a.next(n, &ladder(100.0));
        let mb = b.next(n + 1_000, &ladder(200.0));
        // The time and the prices are supplied; everything else should match.
        assert_eq!(ma.gateway_seq, mb.gateway_seq);
        assert_eq!(ma.figi, mb.figi);
        assert_eq!(ma.contract_id, mb.contract_id);
        assert_eq!(ma.packet_seq, mb.packet_seq);
        assert_eq!(ma.bid_count, mb.bid_count);
        assert_eq!(ma.ask_count, mb.ask_count);
        for k in 0..ma.bid_count as usize {
            assert_eq!(ma.bids[k].qty_bits, mb.bids[k].qty_bits);
            assert_eq!(ma.bids[k].orders, mb.bids[k].orders);
        }
    }
}

#[test]
fn round_robins_through_instruments() {
    let mut g = Generator::new(&cfg(1));
    let figis: Vec<_> = (0..8).map(|_| next(&mut g).figi).collect();
    assert_eq!(figis[0], figis[4]);
    assert_eq!(figis[1], figis[5]);
    assert_ne!(figis[0], figis[1]);
}

#[test]
fn monotonic_gateway_seq() {
    let mut g = Generator::new(&cfg(1));
    let seqs: Vec<_> = (0..8).map(|_| next(&mut g).gateway_seq).collect();
    for w in seqs.windows(2) {
        assert_eq!(w[1], w[0] + 1);
    }
}

#[test]
fn first_book_in_full() {
    let mut g = Generator::new(&cfg(42));
    assert_eq!(g.next_instrument(), 0);
    let m = g.next(77, &ladder(100.0));
    assert_eq!(m.gateway_seq, 1);
    assert_eq!(m.gateway_ts, 77);
    assert_eq!(m.header.time_ns, 77);
    assert_eq!(m.header.seq, 1);
    assert_eq!(m.packet_seq, 1);
    assert_eq!(m.contract_id, 1_000_000);
    assert_eq!(m.figi.as_str(), "BBG000000001");
    assert_eq!(m.book_flags, BookFlags::empty());
    assert_eq!(m.condition_flags, ConditionFlags::from_bits_truncate(0x0f));
    assert_eq!((m.bid_count, m.ask_count), (3, 3));
    let side = |prices: [f64; 3], qtys: [f32; 3], orders: [u16; 3]| {
        let mut levels = [BookLevel::default(); 10];
        for k in 0..3 {
            levels[k] = BookLevel {
                price_bits: prices[k].to_bits(),
                qty_bits: qtys[k].to_bits(),
                orders: orders[k],
            };
        }
        levels
    };
    assert_eq!(m.bids, side([99.0, 98.0, 97.0], [168.0, 225.0, 116.0], [3, 10, 8]));
    assert_eq!(m.asks, side([101.0, 102.0, 103.0], [60.0, 119.0, 206.0], [10, 8, 1]));
    assert_eq!(g.next_instrument(), 1);
}

#[test]
fn packets_are_numbered_per_instrument() {
    let mut g = Generator::new(&cfg(5));
    for n in 0..12u32 {
        let m = next(&mut g);
        assert_eq!(m.packet_seq, n / 4 + 1);
        assert_eq!(m.header.seq, n / 4 + 1);
        assert_eq!(m.contract_id, 1_000_000 + n % 4);
        assert_eq!(m.figi.as_str(), format!("BBG{:09}", n % 4 + 1));
    }
}

#[test]
fn sequence_starts_over_behind_the_greatest() {
    let mut config = cfg(1);
    config.start_seq = u64::MAX;
    let mut g = Generator::new(&config);
    assert_eq!(next(&mut g).gateway_seq, u64::MAX);
    assert_eq!(next(&mut g).gateway_seq, 0);
}

#[test]
fn depth_is_at_most_ten() {
    let mut config = cfg(1);
    config.depth = 200;
    let m = next(&mut Generator::new(&config));
    assert_eq!((m.bid_count, m.ask_count), (10, 10));
    assert!(m.bids.iter().all(|level| level.orders >= 1 && level.orders <= 10));
    assert!(m.asks.iter().all(|level| {
        let qty = f32::from_bits(level.qty_bits);
        (50.0..250.0).contains(&qty)
    }));
}

#[test]
fn same_seed_same_books_but_for_the_times() {
    // Prices by instrument and place in the stream.
    let prices = |g: &Generator| ladder(100.0 + g.next_instrument() as f64 + g.produced() as f64);
    let mut a = Generator::new(&cfg(42));
    // Neither the rate nor the pacing nor the buffer has a say.
    let other = SubscriberConfig {
        rate_hz: 7,
        pacing: Pacing::Bursty { burst_size: 3 },
        max_messages: Some(5),
        buffer_size: 1,
        ..cfg(42)
    };
    let mut b = Generator::new(&other);
    for n in 0..16u64 {
        assert_eq!(a.produced(), n);
        let (la, lb) = (prices(&a), prices(&b));
        let ma = a.next(1, &la);
        let mut mb = b.next(2, &lb);
        assert_ne!(ma, mb);
        mb.gateway_ts = 1;
        mb.header.time_ns = 1;
        assert_eq!(ma, mb);
    }
}

#[test]
fn levels_go_from_best_to_worst() {
    let m = next(&mut Generator::new(&cfg(7)));
    assert_eq!(m.header.time_ns, m.gateway_ts);
    for side in [m.bids(), m.asks()] {
        assert_eq!(side.len(), 3);
        for level in side {
            let qty = f32::from_bits(level.qty_bits);
            assert!((50.0..=249.0).contains(&qty) && (1..=10).contains(&level.orders));
        }
    }
    let bids: Vec<f64> = m.bids().iter().map(|level| f64::from_bits(level.price_bits)).collect();
    let asks: Vec<f64> = m.asks().iter().map(|level| f64::from_bits(level.price_bits)).collect();
    assert!(bids.windows(2).all(|w| w[0] > w[1]));
    assert!(asks.windows(2).all(|w| w[0] < w[1]));
    assert!(bids[0] < asks[0]);
    // The bits are ordered as the prices are.
    assert!(m.bids[0].price_bits > m.bids[1].price_bits && m.bids[0].price_bits < m.asks[0].price_bits);
    assert!(m.bids[3..].iter().chain(&m.asks[3..]).all(|level| *level == BookLevel::default()));
}
