//! Assembly of the service, and what its end means.

use vstd::prelude::*;
use vstd::std_specs::convert::FromSpec;
use vstd::string::*;

use crate::bus::Bus;
use crate::channel::{lemma_ring_size, ring_size};
use crate::config::{ConfigError, ServiceConfig, UpstreamConfig};
use crate::fanout::BusState;
use crate::feed::config::SubscriberConfig;
use crate::feed::subscriber::FeedState;
use crate::ingest::{Ingest, IngestStats};
use crate::snapshot::Snapshot;
use crate::text::quoted_form;
use crate::types::BookMessage;
use crate::upstream::{FeedSimUpstream, Upstream};

verus! {

/// The parts of a service that ingest and the requests work on.
pub struct Parts {
    /// The latest books.
    pub snapshot: Snapshot,
    /// The bus.
    pub bus: Bus,
    /// The state of ingest.
    pub ingest: Ingest,
}

impl Parts {
    /// Nothing was taken in yet, and nobody has subscribed.
    pub open spec fn unused(self, config: ServiceConfig) -> bool {
        &&& self.snapshot.wf()
        &&& self.snapshot@ == Map::<Seq<u8>, BookMessage>::empty()
        &&& self.bus.wf()
        &&& self.bus.capacity() == config.bus_channel_capacity
        &&& self.bus@ == (BusState {
            topics: Map::<Seq<u8>, Seq<BookMessage>>::empty(),
            ring: ring_size(config.bus_channel_capacity as nat),
        })
        &&& self.ingest.wf()
        &&& self.ingest.totals() == (IngestStats { received: 0, gaps: 0 })
        &&& self.ingest.last() is None
    }
}

/// Assembles the parts for a configuration, if that is valid. The upstream is the
/// caller's.
pub fn new_with_upstream(config: &ServiceConfig) -> (result: Result<Parts, ConfigError>)
    ensures
        match result {
            Ok(parts) => config.fault() is None && parts.unused(*config),
            Err(error) => config.fault() == Some(error.reason@),
        },
{
    config.validate()?;
    Ok(Parts { snapshot: Snapshot::new(), bus: Bus::new(config.bus_channel_capacity), ingest: Ingest::new() })
}

/// Assembles the parts and the simulated feed. The configuration of the service is
/// checked before that of the feed.
pub fn new_with_feed(config: &ServiceConfig) -> (result: Result<(Parts, FeedSimUpstream), String>)
    ensures
        ({
            let sim = <SubscriberConfig as FromSpec<UpstreamConfig>>::from_spec(config.upstream);
            match result {
                Ok((parts, upstream)) => {
                    &&& config.fault() is None
                    &&& sim.fault() is None
                    &&& parts.unused(*config)
                    &&& upstream.valid()
                    &&& upstream.feed() == FeedState::initial(sim)
                },
                Err(reason) => if config.fault() is Some {
                    reason@ == config.fault()->Some_0
                } else {
                    &&& sim.fault() is Some
                    &&& reason@ == "feed-sim subscriber init failed: "@ + ("Config("@ + quoted_form(
                        sim.fault()->Some_0,
                    ) + ")"@)
                },
            }
        }),
{
    match config.validate() {
        Ok(_) => {},
        Err(error) => {
            return Err(error.reason);
        },
    }
    let upstream = match FeedSimUpstream::new(config.upstream) {
        Ok(upstream) => upstream,
        Err(reason) => {
            return Err(reason);
        },
    };
    match new_with_upstream(config) {
        Ok(parts) => Ok((parts, upstream)),
        Err(error) => Err(error.reason),
    }
}

/// What ended a running service.
pub enum Exit {
    /// Ingest is over, with its totals or the reason why it broke down.
    Ingest(Result<IngestStats, String>),
    /// The server is over, because it was asked to or for that reason.
    Server(Result<(), String>),
}

/// What to do at the end of a service.
pub struct Shutdown {
    /// Whether ingest is still to be stopped.
    pub stop_ingest: bool,
    /// The result of the service.
    pub result: Result<(), String>,
}

impl Exit {
    /// The reason to report, if the end was not a regular one.
    pub open spec fn reason(self) -> Option<Seq<char>> {
        match self {
            Exit::Ingest(Err(reason)) => Some("ingest join task panicked: "@ + reason@),
            Exit::Server(Err(reason)) => Some("tonic serve failed: "@ + reason@),
            _ => None,
        }
    }
}

/// What the end of a service means: when the server is over, ingest has to stop as
/// well; when ingest is over, nothing is left to stop. Either is a regular end unless it
/// comes with a reason.
pub fn on_exit(exit: Exit) -> (shutdown: Shutdown)
    ensures
        shutdown.stop_ingest <==> exit is Server,
        match shutdown.result {
            Ok(_) => exit.reason() is None,
            Err(reason) => exit.reason() == Some(reason@),
        },
{
    match exit {
        Exit::Ingest(Ok(_)) => Shutdown { stop_ingest: false, result: Ok(()) },
        Exit::Ingest(Err(reason)) => {
            let text = "ingest join task panicked: ".to_owned().concat(reason.as_str());
            Shutdown { stop_ingest: false, result: Err(text) }
        },
        Exit::Server(Ok(_)) => Shutdown { stop_ingest: true, result: Ok(()) },
        Exit::Server(Err(reason)) => {
            let text = "tonic serve failed: ".to_owned().concat(reason.as_str());
            Shutdown { stop_ingest: true, result: Err(text) }
        },
    }
}

/// A service is assembled exactly when nothing in its configuration is zero that must not be;
/// its table and its bus are then empty, and the bus retains what it was asked to.
pub proof fn law_service_starts_empty(
    config: ServiceConfig,
    result: Result<Parts, ConfigError>,
    checked: Result<(), ConfigError>,
)
    requires
        call_ensures(new_with_upstream, (&config,), result),
        call_ensures(ServiceConfig::validate, (&config,), checked),
    ensures
        result is Err ==> checked is Err && result->Err_0.reason@ == checked->Err_0.reason@,
        result is Ok <==> config.bus_channel_capacity > 0 && config.subscriber_queue_size > 0
            && config.poll_interval_ns > 0,
        result is Ok ==> {
            let parts = result->Ok_0;
            &&& parts.snapshot@.dom() == Set::<Seq<u8>>::empty()
            &&& parts.bus@.topics.dom() == Set::<Seq<u8>>::empty()
            &&& parts.bus.capacity() == config.bus_channel_capacity
            &&& config.bus_channel_capacity <= parts.bus@.ring < 2 * config.bus_channel_capacity
            &&& parts.ingest.totals().received == 0 && parts.ingest.totals().gaps == 0
            &&& parts.ingest.last() is None
        },
{
    lemma_ring_size(config.bus_channel_capacity as nat);
}

/// With the simulated feed, the configuration of the feed has to be valid as well; the
/// reason that is given is that of the service, if that has one.
pub proof fn law_service_is_checked_before_the_feed(
    config: ServiceConfig,
    result: Result<(Parts, FeedSimUpstream), String>,
    checked: Result<(), ConfigError>,
    source: Result<FeedSimUpstream, String>,
)
    requires
        call_ensures(new_with_feed, (&config,), result),
        call_ensures(FeedSimUpstream::new, (config.upstream,), source),
        call_ensures(ServiceConfig::validate, (&config,), checked),
    ensures
        checked is Err ==> result is Err && result->Err_0@ == checked->Err_0.reason@,
        checked is Ok ==> (result is Ok <==> {
            &&& config.upstream.instruments > 0
            &&& config.upstream.rate_hz > 0
            &&& 1 <= config.upstream.depth <= 10
            &&& config.upstream.buffer_size > 0
            &&& config.upstream.burst_size != Some(0u32)
        }),
        checked is Ok ==> (result is Ok <==> source is Ok),
        checked is Ok && source is Err ==> result->Err_0@ == source->Err_0@,
        result is Ok ==> {
            let parts = result->Ok_0.0;
            &&& parts.snapshot@.dom() == Set::<Seq<u8>>::empty()
            &&& parts.bus@.topics.dom() == Set::<Seq<u8>>::empty()
            &&& parts.bus.capacity() == config.bus_channel_capacity
            &&& parts.ingest.totals().received == 0 && parts.ingest.totals().gaps == 0
            &&& parts.ingest.last() is None
        },
        result is Ok ==> {
            let feed = result->Ok_0.1.feed();
            &&& feed == source->Ok_0.feed()
            &&& feed.capacity == config.upstream.buffer_size
            &&& feed.generator.depth == config.upstream.depth
            &&& feed.generator.instruments == config.upstream.instruments
            &&& feed.generator.seq == config.upstream.start_seq
            &&& feed.cap == config.upstream.max_messages
            &&& feed.running && feed.buffer.len() == 0
        },
{
}

/// Ingest has still to be stopped exactly when it was the server that ended. The service ends
/// well exactly when what ended it ended well, and else gives the reason.
pub proof fn law_exit_decides_the_shutdown(exit: Exit, shutdown: Shutdown)
    requires
        call_ensures(on_exit, (exit,), shutdown),
    ensures
        shutdown.stop_ingest <==> exit is Server,
        exit is Ingest ==> (shutdown.result is Ok <==> exit->Ingest_0 is Ok),
        exit is Server ==> (shutdown.result is Ok <==> exit->Server_0 is Ok),
        exit is Ingest && exit->Ingest_0 is Err ==> shutdown.result->Err_0@ == "ingest join task panicked: "@
            + exit->Ingest_0->Err_0@,
        exit is Server && exit->Server_0 is Err ==> shutdown.result->Err_0@ == "tonic serve failed: "@
            + exit->Server_0->Err_0@,
{
}

} // verus!
