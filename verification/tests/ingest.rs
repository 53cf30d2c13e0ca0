use marketdata_service::bus::{Bus, Next};
use marketdata_service::ingest::{next_command, Command, Event, Ingest, IngestStats, Outcome};
use marketdata_service::snapshot::Snapshot;
use marketdata_service::types::BookMessage;
use marketdata_service::upstream::{make_book, MockUpstream, Upstream};

/// Runs the ingest loop on `upstream` until it is over, and counts the reports.
fn run(upstream: &mut MockUpstream, snap: &mut Snapshot, bus: &mut Bus, every: u64) -> (IngestStats, Vec<u64>) {
    let mut ingest = Ingest::new();
    let mut reports = Vec::new();
    let mut event = Event::Started;
    loop {
        event = match next_command(&event) {
            Command::ReadStopFlag | Command::ReportFailure => Event::StopFlag(false),
            Command::Wait => Event::Waited(upstream.wait()),
            Command::Receive => Event::Received(ingest.drain(upstream, snap, bus, every)),
            Command::ReportAndReceive => {
                reports.push(ingest.stats().received);
                Event::Received(ingest.drain(upstream, snap, bus, every))
            }
            Command::Finish => return (ingest.stats(), reports),
            Command::BreakDown => panic!("the counters are exhausted"),
        };
    }
}

#[test]
fn ingest_drains_finite_mock_and_populates_snapshot() {
    let mut up = MockUpstream::new();
    let mut snap = Snapshot::new();
    let mut bus = Bus::new(16);

    for seq in 1..=30u64 {
        // Rotate across 3 FIGIs to verify snapshot.len() == 3.
        let figi = format!("F{:011}", seq % 3);
        up.push(make_book(&figi, seq));
    }
    up.close();

    let (stats, _) = run(&mut up, &mut snap, &mut bus, 0);

    assert_eq!(stats.received, 30);
    assert_eq!(snap.len(), 3, "3 distinct FIGIs (seq % 3)");
    assert_eq!(stats.gaps, 0, "1..=30 has no gaps");
}

#[test]
fn gap_counter_increments_on_skipped_seq() {
    let mut up = MockUpstream::new();
    let mut snap = Snapshot::new();
    let mut bus = Bus::new(16);

    up.push(make_book("BBG000000001", 1));
    up.push(make_book("BBG000000001", 2));
    // Seq jumps to 5: 3 and 4 are missing, corresponding to one gap event.
    up.push(make_book("BBG000000001", 5));
    up.close();

    let (stats, _) = run(&mut up, &mut snap, &mut bus, 0);

    assert_eq!(stats.received, 3);
    assert_eq!(stats.gaps, 1, "skipping 3,4 between 2 and 5 = 1 gap event");
}

#[test]
fn snapshot_populated_before_join_returns() {
    let mut up = MockUpstream::new();
    let mut snap = Snapshot::new();
    let mut bus = Bus::new(16);

    up.push(make_book("BBG000000042", 42));
    up.close();

    let _ = run(&mut up, &mut snap, &mut bus, 0);

    let got = snap.get(&"BBG000000042".parse().unwrap()).unwrap();
    assert_eq!(got.gateway_seq, 42);
}

#[test]
fn gaps_count_repeats_and_steps_back() {
    let mut ingest = Ingest::new();
    let mut snap = Snapshot::new();
    let mut bus = Bus::new(4);
    for seq in [10u64, 11, 11, 9, 10, 0] {
        assert!(ingest.can_take());
        ingest.on_message(&mut snap, &mut bus, make_book("BBG000000001", seq));
    }
    // The first book is never a gap; 11 again, 9 and 0 are.
    assert_eq!(ingest.stats(), IngestStats { received: 6, gaps: 3 });
}

#[test]
fn no_sequence_number_stops_ingest() {
    let mut up = MockUpstream::new();
    up.push(make_book("BBG000000001", u64::MAX));
    up.push(make_book("BBG000000002", 0));
    up.push(make_book("BBG000000002", u64::MAX));
    up.push(make_book("BBG000000001", u64::MAX));
    up.close();
    let mut snap = Snapshot::new();
    let mut bus = Bus::new(4);
    let figi = "BBG000000002".parse().unwrap();
    let mut sub = bus.subscribe(&[figi], 4);

    let (stats, _) = run(&mut up, &mut snap, &mut bus, 0);

    // Nothing follows on the greatest number, so each of the others is a gap.
    assert_eq!(stats, IngestStats { received: 4, gaps: 3 });
    assert_eq!(snap.len(), 2);
    assert_eq!(snap.get(&figi).unwrap().gateway_seq, u64::MAX);
    sub.fan_in(&bus);
    assert_eq!(sub.next(), Next::Update(make_book("BBG000000002", 0)));
    assert_eq!(sub.next(), Next::Update(make_book("BBG000000002", u64::MAX)));
    assert_eq!(sub.next(), Next::Pending);
}

#[test]
fn received_results_are_dealt_with_one_by_one() {
    let mut ingest = Ingest::new();
    let mut snap = Snapshot::new();
    let mut bus = Bus::new(4);
    assert!(ingest.can_take());
    assert_eq!(ingest.on_received(Ok(None), &mut snap, &mut bus, 1), Outcome::Empty);
    let failed = ingest.on_received(Err("down".to_string()), &mut snap, &mut bus, 1);
    assert_eq!(failed, Outcome::Failed("down".to_string()));
    assert_eq!(ingest.stats(), IngestStats::default());
    let book = make_book("BBG000000001", 1);
    assert_eq!(ingest.on_received(Ok(Some(book)), &mut snap, &mut bus, 2), Outcome::Taken);
    assert_eq!(ingest.on_received(Ok(Some(book)), &mut snap, &mut bus, 2), Outcome::Report);
    assert_eq!(ingest.stats(), IngestStats { received: 2, gaps: 1 });
    assert_eq!(snap.get(&book.figi), Some(book));
}

#[test]
fn the_table_agrees_with_the_stream() {
    let mut ingest = Ingest::new();
    let mut snap = Snapshot::new();
    let mut bus = Bus::new(64);
    let figi = "BBG000000001".parse().unwrap();
    let mut sub = bus.subscribe(&[figi], 64);
    for seq in 1..=20u64 {
        let name = if seq % 2 == 0 { "BBG000000001" } else { "BBG000000002" };
        ingest.on_message(&mut snap, &mut bus, make_book(name, seq));
        sub.fan_in(&bus);
        while let Next::Update(heard) = sub.next() {
            let stored: BookMessage = snap.get(&heard.figi).unwrap();
            assert!(stored.gateway_seq >= heard.gateway_seq);
            assert_eq!(stored, heard);
        }
    }
    assert_eq!(snap.get(&figi).unwrap().gateway_seq, 20);
}

#[test]
fn reports_come_after_every_so_many_books() {
    let mut up = MockUpstream::new();
    for seq in 1..=25u64 {
        up.push(make_book("BBG000000001", seq));
    }
    up.close();
    let (stats, reports) = run(&mut up, &mut Snapshot::new(), &mut Bus::new(4), 10);
    assert_eq!(stats.received, 25);
    assert_eq!(reports, vec![10, 20]);
    assert!(!Ingest::new().progress_due(0));
    assert!(Ingest::new().progress_due(5));
}

#[test]
fn a_drain_stops_at_a_report() {
    let mut up = MockUpstream::new();
    for seq in 1..=3u64 {
        up.push(make_book("BBG000000001", seq));
    }
    let mut ingest = Ingest::new();
    let mut snap = Snapshot::new();
    let mut bus = Bus::new(4);
    assert_eq!(ingest.drain(&mut up, &mut snap, &mut bus, 2), Outcome::Report);
    assert_eq!(ingest.stats().received, 2);
    assert_eq!(ingest.drain(&mut up, &mut snap, &mut bus, 2), Outcome::Empty);
    assert_eq!(ingest.stats().received, 3);
    assert_eq!(ingest.drain(&mut up, &mut snap, &mut bus, 3), Outcome::Empty);
}

#[test]
fn commands_follow_events() {
    assert_eq!(next_command(&Event::Started), Command::ReadStopFlag);
    assert_eq!(next_command(&Event::StopFlag(true)), Command::Finish);
    assert_eq!(next_command(&Event::StopFlag(false)), Command::Wait);
    assert_eq!(next_command(&Event::Waited(Ok(()))), Command::Receive);
    assert_eq!(next_command(&Event::Waited(Err(()))), Command::Finish);
    assert_eq!(next_command(&Event::Received(Outcome::Empty)), Command::ReadStopFlag);
    assert_eq!(next_command(&Event::Received(Outcome::Taken)), Command::Receive);
    let uncounted = Outcome::Uncounted(make_book("BBG000000001", 1));
    assert_eq!(next_command(&Event::Received(uncounted)), Command::BreakDown);
    assert_eq!(next_command(&Event::Received(Outcome::Report)), Command::ReportAndReceive);
    assert_eq!(next_command(&Event::Received(Outcome::Failed("down".to_string()))), Command::ReportFailure);
}

/// A source that fails once and goes on.
struct Flaky {
    inner: MockUpstream,
    fail: bool,
}

impl Upstream for Flaky {
    fn receive(&mut self) -> Result<Option<BookMessage>, String> {
        if self.fail {
            self.fail = false;
            return Err("down".to_string());
        }
        self.inner.receive()
    }

    fn wait(&self) -> Result<(), ()> {
        self.inner.wait()
    }

    fn total_generated(&self) -> u64 {
        self.inner.total_generated()
    }
}

#[test]
fn a_failing_upstream_does_not_end_ingest() {
    let mut up = Flaky { inner: MockUpstream::new(), fail: true };
    up.inner.push(make_book("BBG000000001", 1));
    let mut ingest = Ingest::new();
    let mut snap = Snapshot::new();
    let mut bus = Bus::new(4);
    assert_eq!(ingest.drain(&mut up, &mut snap, &mut bus, 0), Outcome::Failed("down".to_string()));
    assert_eq!(ingest.stats().received, 0);
    assert_eq!(ingest.drain(&mut up, &mut snap, &mut bus, 0), Outcome::Empty);
    assert_eq!(ingest.stats().received, 1);
}

#[test]
fn a_stream_in_parts_is_the_stream_at_once() {
    let books: Vec<BookMessage> =
        [1u64, 2, 5, 6, 6, 9].iter().map(|seq| make_book(if seq % 2 == 0 { "A" } else { "B" }, *seq)).collect();
    let mut whole = (Ingest::new(), Snapshot::new(), Bus::new(8));
    let mut parts = (Ingest::new(), Snapshot::new(), Bus::new(8));
    let mut up = MockUpstream::new();
    for book in &books {
        up.push(*book);
    }
    whole.0.drain(&mut up, &mut whole.1, &mut whole.2, 0);
    for book in &books {
        up.push(*book);
        parts.0.drain(&mut up, &mut parts.1, &mut parts.2, 0);
    }
    assert_eq!(whole.0, parts.0);
    assert_eq!(whole.0.stats(), IngestStats { received: 6, gaps: 3 });
    for name in ["A", "B"] {
        let figi = name.parse().unwrap();
        assert_eq!(whole.1.get(&figi), parts.1.get(&figi));
    }
}
