use marketdata_service::feed::config::{Pacing, SubscriberConfig};
use marketdata_service::feed::error::FeedSimError;
use marketdata_service::feed::generator::Ladder;
use marketdata_service::feed::subscriber::{Emitted, FeedSubscriber, GeneratorStep};
use marketdata_service::types::BookMessage;

const LADDER: Ladder = Ladder { bids: [1; 10], asks: [2; 10] };

fn cfg(rate_hz: u32, max: Option<u64>) -> SubscriberConfig {
    SubscriberConfig {
        instruments: 4,
        rate_hz,
        pacing: Pacing::Steady,
        depth: 3,
        max_messages: max,
        seed: 99,
        start_seq: 1,
        buffer_size: 64,
    }
}

fn capped(rate_hz: u32, max: u64) -> SubscriberConfig {
    SubscriberConfig {
        instruments: 8,
        rate_hz,
        pacing: Pacing::Steady,
        depth: 5,
        max_messages: Some(max),
        seed: 0xABCD_1234,
        start_seq: 1,
        buffer_size: 256,
    }
}

/// Lets the generator take up to `turns` turns, and ends it at its cap.
fn generate(sub: &mut FeedSubscriber, turns: usize) {
    for _ in 0..turns {
        if sub.emit(0, &LADDER) == Emitted::Capped {
            sub.finish();
            return;
        }
    }
}

#[test]
fn produces_messages() {
    let mut sub = FeedSubscriber::new(cfg(10_000, Some(50))).unwrap();
    let mut count = 0;
    loop {
        generate(&mut sub, 10);
        if sub.wait().is_err() {
            break;
        }
        while let Some(s) = sub.receive().unwrap() {
            let _ = s.gateway_seq;
            count += 1;
        }
    }
    // Final drain after wait signals done.
    while let Ok(Some(_)) = sub.receive() {
        count += 1;
    }
    assert_eq!(count, 50);
}

#[test]
fn wait_signals_done_after_max_messages() {
    let mut sub = FeedSubscriber::new(cfg(50_000, Some(20))).unwrap();
    let mut got_done = false;
    let mut count = 0;
    for _ in 0..100 {
        generate(&mut sub, 3);
        match sub.wait() {
            Ok(()) => {
                while let Some(_s) = sub.receive().unwrap() {
                    count += 1;
                }
            }
            Err(()) => {
                got_done = true;
                break;
            }
        }
    }
    assert!(got_done, "wait should have signalled done");
    assert_eq!(count, 20);
}

#[test]
fn end_to_end_drains_all_messages() {
    let cap = 200;
    let mut sub = FeedSubscriber::new(capped(20_000, cap)).unwrap();
    let mut count = 0u64;
    'outer: for _ in 0..1_000 {
        generate(&mut sub, 100);
        match sub.wait() {
            Ok(()) => {
                while let Some(_s) = sub.receive().unwrap() {
                    count += 1;
                }
            }
            Err(()) => {
                while let Ok(Some(_s)) = sub.receive() {
                    count += 1;
                }
                break 'outer;
            }
        }
    }
    assert_eq!(count, cap);
}

#[test]
fn deref_to_book_message() {
    let mut sub = FeedSubscriber::new(capped(50_000, 1)).unwrap();
    generate(&mut sub, 1);
    let sample = sub.receive().unwrap().expect("the single capped message");
    // Both deref and AsRef should work.
    assert_eq!(sample.gateway_seq, 1);
    let _ = sample.figi.as_str();
    assert!(sample.best_bid().is_some());
    assert!(sample.best_ask().is_some());
    let by_ref: &BookMessage = sample.as_ref();
    assert_eq!(by_ref.gateway_seq, 1);
    assert_eq!(sample.into_inner().gateway_seq, 1);
}

#[test]
fn slow_consumer_does_not_block_generator() {
    // Tiny buffer, no draining: the generator must drop and keep running.
    let mut c = cfg(100_000, Some(10_000));
    c.buffer_size = 4;
    let mut sub = FeedSubscriber::new(c).unwrap();
    generate(&mut sub, 100);
    let total = sub.total_generated();
    assert!(total > 0, "generator made no progress");
}

#[test]
fn a_full_buffer_costs_the_oldest_message() {
    let mut c = cfg(1_000, None);
    c.buffer_size = 2;
    let mut sub = FeedSubscriber::new(c).unwrap();
    assert_eq!(sub.emit(0, &LADDER), Emitted::Buffered);
    assert_eq!(sub.emit(0, &LADDER), Emitted::Buffered);
    assert_eq!(sub.emit(0, &LADDER), Emitted::Displaced);
    // Number 1 has made room for number 3.
    assert_eq!(sub.receive().unwrap().unwrap().gateway_seq, 2);
    assert_eq!(sub.emit(0, &LADDER), Emitted::Buffered);
    assert_eq!(sub.receive().unwrap().unwrap().gateway_seq, 3);
    assert_eq!(sub.receive().unwrap().unwrap().gateway_seq, 4);
    assert!(sub.receive().unwrap().is_none());
    assert_eq!((sub.total_generated(), sub.total_received(), sub.total_dropped()), (4, 3, 1));
}

#[test]
fn an_unread_buffer_holds_the_latest_messages() {
    let mut c = cfg(1_000, None);
    c.buffer_size = 3;
    let mut sub = FeedSubscriber::new(c).unwrap();
    generate(&mut sub, 100);
    let mut seqs = Vec::new();
    while let Some(sample) = sub.receive().unwrap() {
        seqs.push(sample.gateway_seq);
    }
    assert_eq!(seqs, vec![98, 99, 100]);
    assert_eq!((sub.total_generated(), sub.total_received(), sub.total_dropped()), (100, 3, 97));
}

#[test]
fn the_cap_counts_every_message() {
    let mut c = cfg(1_000, Some(2));
    c.buffer_size = 1;
    let mut sub = FeedSubscriber::new(c).unwrap();
    assert!(!sub.is_capped());
    assert_eq!(sub.emit(0, &LADDER), Emitted::Buffered);
    assert_eq!(sub.emit(0, &LADDER), Emitted::Displaced);
    // Nobody has received anything, and there are no more.
    assert!(sub.is_capped());
    assert_eq!(sub.next_step(false, false), GeneratorStep::Finish);
    assert_eq!(sub.emit(0, &LADDER), Emitted::Capped);
    assert_eq!(sub.total_generated(), 2);
    sub.finish();
    assert_eq!(sub.receive().unwrap().unwrap().gateway_seq, 2);
    assert!(sub.wait().is_err());
}

#[test]
fn a_cap_of_zero_ends_at_once() {
    let mut sub = FeedSubscriber::new(cfg(1_000, Some(0))).unwrap();
    assert_eq!(sub.next_step(false, false), GeneratorStep::Finish);
    assert_eq!(sub.emit(0, &LADDER), Emitted::Capped);
    sub.finish();
    assert!(sub.wait().is_err());
}

#[test]
fn the_end_waits_for_the_drain() {
    let mut sub = FeedSubscriber::new(cfg(1_000, None)).unwrap();
    assert!(sub.wait().is_ok());
    assert_eq!(sub.emit(0, &LADDER), Emitted::Buffered);
    sub.finish();
    assert!(sub.wait().is_ok());
    assert!(sub.receive().unwrap().is_some());
    assert!(sub.wait().is_err());
}

#[test]
fn an_invalid_configuration_gives_no_feed() {
    let mut c = cfg(1_000, None);
    c.rate_hz = 0;
    match FeedSubscriber::new(c) {
        Err(FeedSimError::Config(reason)) => assert_eq!(reason, "rate_hz must be > 0"),
        _ => panic!("expected a configuration error"),
    }
}

#[test]
fn the_generator_steps_in_order() {
    let mut sub = FeedSubscriber::new(cfg(1_000, Some(1))).unwrap();
    assert_eq!(sub.next_step(false, false), GeneratorStep::Wait);
    assert_eq!(sub.next_step(false, true), GeneratorStep::Finish);
    assert_eq!(sub.next_step(true, true), GeneratorStep::Finish);
    assert_eq!(sub.next_step(true, false), GeneratorStep::Emit);
    assert_eq!(sub.next_instrument(), 0);
    assert_eq!(sub.emit(0, &LADDER), Emitted::Buffered);
    assert_eq!(sub.next_instrument(), 1);
    assert_eq!(sub.next_step(false, false), GeneratorStep::Finish);
}

#[test]
fn the_end_is_final() {
    let mut sub = FeedSubscriber::new(cfg(1_000, None)).unwrap();
    assert_eq!(sub.produced(), 0);
    assert_eq!(sub.emit(0, &LADDER), Emitted::Buffered);
    assert_eq!(sub.produced(), 1);
    sub.finish();
    // A generator that has ended is given no more turns, so nothing follows.
    assert_eq!(sub.next_step(false, false), GeneratorStep::Finish);
    assert_eq!(sub.next_step(true, false), GeneratorStep::Finish);
    assert!(sub.receive().unwrap().is_some());
    assert!(sub.wait().is_err());
    assert!(sub.receive().unwrap().is_none());
    assert!(sub.wait().is_err());
}
