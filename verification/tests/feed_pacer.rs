use marketdata_service::feed::config::{Pacing, SubscriberConfig};
use marketdata_service::feed::pacer::{next_sleep, Pacer, Tick, MAX_SLICE_NS, SECOND_NS};

fn cfg(rate_hz: u32, pacing: Pacing) -> SubscriberConfig {
    let mut cfg = SubscriberConfig::default();
    cfg.rate_hz = rate_hz;
    cfg.pacing = pacing;
    cfg
}

#[test]
fn steady_slots_are_one_interval_apart() {
    let mut pacer = Pacer::new(&cfg(1_000, Pacing::Steady), 5_000);
    for k in 0..10u128 {
        let due = 5_000 + k * 1_000_000;
        assert_eq!(pacer.next_tick(), Tick::At(due));
        pacer.reached(due + 17);
    }
}

#[test]
fn bursts_come_whole() {
    let mut pacer = Pacer::new(&cfg(1_000, Pacing::Bursty { burst_size: 4 }), 0);
    for k in 0..3u128 {
        let due = k * 4_000_000;
        assert_eq!(pacer.next_tick(), Tick::At(due));
        pacer.reached(due);
        assert_eq!(pacer.next_tick(), Tick::Now);
        assert_eq!(pacer.next_tick(), Tick::Now);
        assert_eq!(pacer.next_tick(), Tick::Now);
    }
    assert_eq!(pacer.next_tick(), Tick::At(12_000_000));
}

#[test]
fn a_late_pacer_starts_over() {
    let mut pacer = Pacer::new(&cfg(1_000, Pacing::Steady), 0);
    assert_eq!(pacer.next_tick(), Tick::At(0));
    // One second behind is still caught up with.
    pacer.reached(1_000_000 + SECOND_NS);
    assert_eq!(pacer.next_tick(), Tick::At(1_000_000));
    // More is not.
    pacer.reached(2_000_000 + SECOND_NS + 1);
    assert_eq!(pacer.next_tick(), Tick::At(3_000_000 + SECOND_NS + 1));
}

#[test]
fn the_interval_is_rounded_down() {
    let mut pacer = Pacer::new(&cfg(3, Pacing::Steady), 0);
    assert_eq!(pacer.next_tick(), Tick::At(0));
    pacer.reached(0);
    assert_eq!(pacer.next_tick(), Tick::At(333_333_333));
    let mut bursty = Pacer::new(&cfg(3, Pacing::Bursty { burst_size: 2 }), 0);
    assert_eq!(bursty.next_tick(), Tick::At(0));
    bursty.reached(0);
    assert_eq!(bursty.next_tick(), Tick::Now);
    assert_eq!(bursty.next_tick(), Tick::At(666_666_666));
}

#[test]
fn sleeps_are_sliced() {
    assert_eq!(next_sleep(0, 200_000_000, false), Some(MAX_SLICE_NS));
    assert_eq!(next_sleep(0, 50_000_000, false), Some(50_000_000));
    assert_eq!(next_sleep(199_999_999, 200_000_000, false), Some(1));
    assert_eq!(next_sleep(200_000_000, 200_000_000, false), None);
    assert_eq!(next_sleep(300_000_000, 200_000_000, false), None);
    assert_eq!(next_sleep(0, 200_000_000, true), None);
}
