use marketdata_service::bus::{Bus, Next, Subscription, Turn};
use marketdata_service::types::{BookMessage, Figi};

fn figi(s: &str) -> Figi {
    s.parse().unwrap()
}

fn book(seq: u64, f: Figi) -> BookMessage {
    BookMessage { figi: f, gateway_seq: seq, ..Default::default() }
}

/// Takes everything that is queued.
fn take_all(sub: &mut Subscription) -> Vec<u64> {
    let mut got = Vec::new();
    while let Next::Update(b) = sub.next() {
        got.push(b.gateway_seq);
    }
    got
}

#[test]
fn publish_without_subscribers_is_noop() {
    let mut bus = Bus::new(16);
    bus.publish(book(1, figi("BBG000000001")));
    assert_eq!(bus.topic_count(), 0);
}

#[test]
fn subscribe_then_publish_delivers() {
    let mut bus = Bus::new(16);
    let f = figi("BBG000000001");
    let mut sub = bus.subscribe(&[f], 16);
    assert_eq!(sub.next(), Next::Pending);
    bus.publish(book(7, f));
    sub.fan_in(&bus);
    assert_eq!(sub.next(), Next::Update(book(7, f)));
    assert_eq!(sub.next(), Next::Pending);
}

#[test]
fn empty_figis_yields_closed_subscription() {
    let mut bus = Bus::new(16);
    let mut sub = bus.subscribe(&[], 16);
    assert_eq!(sub.next(), Next::Ended);
}

#[test]
fn multi_figi_fan_in_merges_streams() {
    let mut bus = Bus::new(16);
    let fa = figi("BBG000000001");
    let fb = figi("BBG000000002");
    let mut sub = bus.subscribe(&[fa, fb], 16);

    bus.publish(book(11, fa));
    bus.publish(book(22, fb));
    bus.publish(book(33, fa));
    sub.fan_in(&bus);

    let mut got: Vec<(u64, Figi)> = Vec::new();
    while let Next::Update(b) = sub.next() {
        got.push((b.gateway_seq, b.figi));
    }
    // Topic by topic, each in its order.
    assert_eq!(got, vec![(11, fa), (33, fa), (22, fb)]);
    got.sort_by_key(|t| t.0);
    assert_eq!(got, vec![(11, fa), (22, fb), (33, fa)]);
    assert_eq!(sub.dropped_total(), 0);
}

#[test]
fn slow_consumer_isolation() {
    let mut bus = Bus::new(8);
    let f = figi("BBG000000001");
    let mut fast = bus.subscribe(&[f], 256);
    let mut slow = bus.subscribe(&[f], 4);

    const TOTAL: u64 = 30;
    let mut slow_got = 0u64;
    for seq in 1..=TOTAL {
        bus.publish(book(seq, f));
        fast.fan_in(&bus);
        slow.fan_in(&bus);
        // One book for every five published.
        if seq % 5 == 0 {
            if let Next::Update(_) = slow.next() {
                slow_got += 1;
            }
        }
    }
    let fast_got = take_all(&mut fast);
    slow_got += take_all(&mut slow).len() as u64;

    assert_eq!(fast_got, (1..=TOTAL).collect::<Vec<u64>>());
    assert_eq!(fast.dropped_total(), 0);
    assert!(slow.dropped_total() > 0);
    assert!(slow_got < fast_got.len() as u64);
    // Whatever is lost is counted.
    assert_eq!(slow_got + slow.dropped_total(), TOTAL);
}

#[test]
fn disconnected_subscriber_does_not_stall_others() {
    let mut bus = Bus::new(16);
    let f = figi("BBG000000001");
    let mut survivor = bus.subscribe(&[f], 16);
    let to_drop = bus.subscribe(&[f], 16);
    drop(to_drop);

    bus.publish(book(1, f));
    bus.publish(book(2, f));
    bus.publish(book(3, f));
    survivor.fan_in(&bus);

    assert_eq!(take_all(&mut survivor), vec![1, 2, 3]);
    assert_eq!(survivor.dropped_total(), 0);
}

#[test]
fn dropped_total_is_cumulative_not_delta() {
    let mut bus = Bus::new(4);
    let f = figi("BBG000000001");
    let mut sub = bus.subscribe(&[f], 2);

    for seq in 1..=100u64 {
        bus.publish(book(seq, f));
    }
    sub.fan_in(&bus);
    let snap1 = *sub.dropped_counter();
    assert!(snap1 > 0);
    // 96 were overwritten, and two of the last four found the queue full.
    assert_eq!(snap1, 98);

    let _ = sub.next();
    let snap2 = *sub.dropped_counter();
    assert!(snap2 >= snap1);

    for seq in 101..=200u64 {
        bus.publish(book(seq, f));
    }
    sub.fan_in(&bus);
    let snap3 = *sub.dropped_counter();
    assert!(snap3 > snap2);
    assert_eq!(snap3, 98 + 96 + 3);
    assert_eq!(take_all(&mut sub), vec![98, 197]);
}

#[test]
fn messages_before_subscribe_are_not_replayed() {
    let mut bus = Bus::new(16);
    let f = figi("BBG000000001");
    bus.publish(book(1, f));
    bus.publish(book(2, f));

    let mut sub = bus.subscribe(&[f], 16);
    bus.publish(book(99, f));
    sub.fan_in(&bus);

    assert_eq!(sub.next(), Next::Update(book(99, f)));
    assert_eq!(sub.next(), Next::Pending);
}

#[test]
fn messages_before_a_later_subscribe_are_not_replayed_either() {
    let mut bus = Bus::new(16);
    let f = figi("BBG000000001");
    let mut first = bus.subscribe(&[f], 16);
    bus.publish(book(1, f));
    let mut second = bus.subscribe(&[f], 16);
    bus.publish(book(2, f));
    first.fan_in(&bus);
    second.fan_in(&bus);
    assert_eq!(take_all(&mut first), vec![1, 2]);
    assert_eq!(take_all(&mut second), vec![2]);
}

#[test]
fn senders_entry_persists_after_all_subscribers_dropped() {
    let mut bus = Bus::new(16);
    let f = figi("BBG000000001");
    assert_eq!(bus.topic_count(), 0);
    {
        let _sub = bus.subscribe(&[f], 16);
        assert_eq!(bus.topic_count(), 1);
    }
    bus.publish(book(1, f));
    assert_eq!(bus.topic_count(), 1);
    bus.publish(book(2, f));
    assert_eq!(bus.topic_count(), 1);

    // A topic without receivers serves the next subscription from now on.
    let mut sub = bus.subscribe(&[f], 16);
    assert_eq!(bus.topic_count(), 1);
    bus.publish(book(3, f));
    sub.fan_in(&bus);
    assert_eq!(take_all(&mut sub), vec![3]);
    assert_eq!(sub.dropped_total(), 0);
}

#[test]
fn turns_are_reported_one_by_one() {
    let mut bus = Bus::new(2);
    let f = figi("BBG000000001");
    let mut sub = bus.subscribe(&[f], 1);
    assert_eq!(sub.fan_in_one(&bus, 0), Turn::Idle);
    for seq in 1..=5u64 {
        bus.publish(book(seq, f));
    }
    assert_eq!(sub.fan_in_one(&bus, 0), Turn::Lagged(3));
    assert_eq!(sub.fan_in_one(&bus, 0), Turn::Queued);
    assert_eq!(sub.fan_in_one(&bus, 0), Turn::QueueFull);
    assert_eq!(sub.fan_in_one(&bus, 0), Turn::Idle);
    assert_eq!(sub.dropped_total(), 4);
    assert_eq!(take_all(&mut sub), vec![4]);
}

#[test]
fn a_topic_retains_a_power_of_two() {
    let f = figi("BBG000000001");
    for (capacity, retained) in [(1usize, 1u64), (2, 2), (3, 4), (4, 4), (5, 8), (8, 8), (9, 16), (1000, 1024)] {
        let mut bus = Bus::new(capacity);
        let mut sub = bus.subscribe(&[f], 4096);
        for seq in 1..=2000u64 {
            bus.publish(book(seq, f));
        }
        sub.fan_in(&bus);
        assert_eq!(sub.dropped_total(), 2000 - retained, "{capacity}");
        assert_eq!(take_all(&mut sub), (2001 - retained..=2000).collect::<Vec<u64>>());
    }
}

#[test]
fn an_instrument_named_twice_is_delivered_twice() {
    let mut bus = Bus::new(16);
    let f = figi("BBG000000001");
    let mut sub = bus.subscribe(&[f, f], 16);
    assert_eq!(bus.topic_count(), 1);
    bus.publish(book(5, f));
    sub.fan_in(&bus);
    assert_eq!(take_all(&mut sub), vec![5, 5]);
}

#[test]
fn a_closed_subscription_ends_behind_its_queue() {
    let mut bus = Bus::new(16);
    let f = figi("BBG000000001");
    let mut sub = bus.subscribe(&[f], 16);
    bus.publish(book(1, f));
    sub.fan_in(&bus);
    sub.close();
    bus.publish(book(2, f));
    sub.fan_in(&bus);
    assert_eq!(sub.next(), Next::Update(book(1, f)));
    assert_eq!(sub.next(), Next::Ended);
}

#[test]
fn later_stages_add_to_the_total() {
    let mut bus = Bus::new(16);
    let mut sub = bus.subscribe(&[figi("BBG000000001")], 16);
    *sub.dropped_counter() += 3;
    assert_eq!(sub.dropped_total(), 3);
}

#[test]
fn fan_in_is_a_course_of_turns() {
    let mut bus = Bus::new(4);
    let figis = [figi("BBG000000001"), figi("BBG000000002"), figi("BBG000000001")];
    let mut whole = bus.subscribe(&figis, 7);
    let mut single = bus.subscribe(&figis, 7);
    for seq in 1..=11u64 {
        bus.publish(book(seq, figis[(seq % 2) as usize]));
    }
    whole.fan_in(&bus);
    for feed in 0..figis.len() {
        while single.fan_in_one(&bus, feed) != Turn::Idle {}
    }
    assert_eq!(whole.dropped_total(), single.dropped_total());
    assert_eq!(take_all(&mut whole), take_all(&mut single));
}

#[test]
fn losses_add_up() {
    let mut bus = Bus::new(4);
    let f = figi("BBG000000001");
    let mut sub = bus.subscribe(&[f], 3);
    let mut taken = 0u64;
    let mut waiting = 0u64;
    for seq in 1..=40u64 {
        bus.publish(book(seq, f));
        if seq % 7 == 0 {
            sub.fan_in(&bus);
        }
        if seq % 9 == 0 {
            if let Next::Update(_) = sub.next() {
                taken += 1;
            }
        }
    }
    sub.fan_in(&bus);
    while let Next::Update(_) = sub.next() {
        waiting += 1;
    }
    assert_eq!(taken + waiting + sub.dropped_total(), 40);
}

#[test]
fn books_balance_for_every_instrument_named() {
    let mut bus = Bus::new(4);
    let (fa, fb, fc) = (figi("BBG000000001"), figi("BBG000000002"), figi("BBG000000003"));
    bus.publish(book(1, fa));
    let mut sub = bus.subscribe(&[fa, fb, fa], 5);
    assert_eq!(sub.feed_count(), 3);
    let mut got: Vec<BookMessage> = Vec::new();
    let mut since = 0u64;
    for seq in 2..=60u64 {
        let f = [fa, fb, fc][(seq % 3) as usize];
        bus.publish(book(seq, f));
        since += if f == fa { 2 } else if f == fb { 1 } else { 0 };
        if seq % 11 == 0 {
            sub.fan_in(&bus);
        }
        if seq % 4 == 0 {
            if let Next::Update(b) = sub.next() {
                got.push(b);
            }
        }
    }
    sub.fan_in(&bus);
    while let Next::Update(b) = sub.next() {
        got.push(b);
    }
    // Only instruments that were asked for, only books from afterwards, nothing uncounted.
    assert!(got.iter().all(|b| (b.figi == fa || b.figi == fb) && b.gateway_seq > 1));
    let of_b: Vec<u64> = got.iter().filter(|b| b.figi == fb).map(|b| b.gateway_seq).collect();
    assert!(of_b.windows(2).all(|w| w[0] < w[1]));
    assert_eq!(got.len() as u64 + sub.dropped_total(), since);
    assert!(sub.dropped_total() > 0);
}

#[test]
fn who_keeps_up_gets_everything() {
    let mut bus = Bus::new(4);
    let figis = [figi("BBG000000001"), figi("BBG000000002")];
    let mut keen = bus.subscribe(&figis, 4);
    let _idle = bus.subscribe(&figis, 1);
    let mut gone = Some(bus.subscribe(&figis, 1));
    let mut got: Vec<BookMessage> = Vec::new();
    let mut sent: Vec<BookMessage> = Vec::new();
    for seq in 1..=200u64 {
        let b = book(seq, figis[(seq % 5 % 2) as usize]);
        bus.publish(b);
        sent.push(b);
        if seq % 3 == 0 {
            keen.fan_in(&bus);
            while let Next::Update(b) = keen.next() {
                got.push(b);
            }
        }
        if seq == 50 {
            gone = None;
        }
    }
    assert!(gone.is_none());
    keen.fan_in(&bus);
    while let Next::Update(b) = keen.next() {
        got.push(b);
    }
    for f in figis {
        let of = |books: &[BookMessage]| -> Vec<u64> {
            books.iter().filter(|b| b.figi == f).map(|b| b.gateway_seq).collect()
        };
        assert_eq!(of(&got), of(&sent));
    }
    assert_eq!(got.len(), sent.len());
    assert_eq!(keen.dropped_total(), 0);
}
