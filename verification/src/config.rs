//! Configuration of the service.

use vstd::prelude::*;
use vstd::std_specs::convert::{FromSpec, FromSpecImpl};
use vstd::string::*;

use crate::feed::config::{is_read, is_unreadable, lemma_unsigned_fits, pacing_of, FeedVars, Pacing, SubscriberConfig};
use crate::text::{
    enclosed, eq_ignore_ascii_case, parse_unsigned, quoted, quoted_form, same_ignoring_case, strip_prefix, trim, trimmed, unsigned,
    NumberError,
};
use crate::vars::{complaint, fault_if, first_fault, invalid_setting, invalid_setting_text, number_fault, number_or, read_number, unknown_pacing};

verus! {

/// Why a configuration cannot be used.
#[derive(Debug, PartialEq, Eq)]
pub struct ConfigError {
    /// The reason in words.
    pub reason: String,
}

/// Configuration of the upstream feed.
#[derive(Clone, Copy, Debug, PartialEq, Eq)]
pub struct UpstreamConfig {
    /// Number of instruments.
    pub instruments: u32,
    /// Target message rate across all instruments, in messages per second.
    pub rate_hz: u32,
    /// Book levels per message (from 1 to 10).
    pub depth: u8,
    /// Cap on the total of messages that are generated. `None` means no end.
    pub max_messages: Option<u64>,
    /// Seed of the deterministic stream.
    pub seed: u64,
    /// Initial value of `gateway_seq`.
    pub start_seq: u64,
    /// Capacity of the buffer of the feed. When it is full, the oldest message in it is
    /// dropped for the next one.
    pub buffer_size: usize,
    /// `None` for a steady pace, the size of the bursts otherwise.
    pub burst_size: Option<u32>,
}

impl UpstreamConfig {
    /// The configuration that no variable changes.
    pub open spec fn standard() -> UpstreamConfig {
        UpstreamConfig {
            instruments: 100,
            rate_hz: 1_000,
            depth: 5,
            max_messages: None,
            seed: 0xDEAD_BEEF_CAFE_F00D,
            start_seq: 1,
            buffer_size: 1024,
            burst_size: None,
        }
    }
}

impl Default for UpstreamConfig {
    fn default() -> (config: UpstreamConfig)
        ensures
            config == UpstreamConfig::standard(),
    {
        UpstreamConfig {
            instruments: 100,
            rate_hz: 1_000,
            depth: 5,
            max_messages: None,
            seed: 0xDEAD_BEEF_CAFE_F00D,
            start_seq: 1,
            buffer_size: 1024,
            burst_size: None,
        }
    }
}

impl FromSpecImpl<UpstreamConfig> for SubscriberConfig {
    open spec fn obeys_from_spec() -> bool {
        true
    }

    open spec fn from_spec(c: UpstreamConfig) -> SubscriberConfig {
        SubscriberConfig {
            instruments: c.instruments,
            rate_hz: c.rate_hz,
            pacing: match c.burst_size {
                None => Pacing::Steady,
                Some(n) => Pacing::Bursty { burst_size: n },
            },
            depth: c.depth,
            max_messages: c.max_messages,
            seed: c.seed,
            start_seq: c.start_seq,
            buffer_size: c.buffer_size,
        }
    }
}

impl From<UpstreamConfig> for SubscriberConfig {
    fn from(c: UpstreamConfig) -> SubscriberConfig {
        SubscriberConfig {
            instruments: c.instruments,
            rate_hz: c.rate_hz,
            pacing: match c.burst_size {
                None => Pacing::Steady,
                Some(n) => Pacing::Bursty { burst_size: n },
            },
            depth: c.depth,
            max_messages: c.max_messages,
            seed: c.seed,
            start_seq: c.start_seq,
            buffer_size: c.buffer_size,
        }
    }
}

/// Configuration of the whole service.
#[derive(Debug, PartialEq, Eq)]
pub struct ServiceConfig {
    /// The upstream feed.
    pub upstream: UpstreamConfig,
    /// How long ingest waits for upstream at a time, in nanoseconds. Too long delays a
    /// stop, too short spins.
    pub poll_interval_ns: u128,
    /// How many books a topic of the bus is to retain.
    pub bus_channel_capacity: usize,
    /// How many books may wait for a subscriber.
    pub subscriber_queue_size: usize,
    /// Ingest reports its totals after every so many books; `0` for never.
    pub progress_log_every: u64,
    /// The address on which the server listens. The default accepts clients from other
    /// machines as well.
    pub listen_addr: String,
}

/// The text of an address, and why it is none, where it is none. Whether a text is an address
/// is for the caller to find out, who opens the socket.
pub struct ListenVar {
    /// The text.
    pub text: String,
    /// Why it is not an address.
    pub error: Option<String>,
}

/// The settings as texts, each under the name of its variable.
pub struct ServiceVars {
    /// The settings of the feed.
    pub sim: FeedVars,
    /// `MDS_POLL_INTERVAL_MS`.
    pub poll_interval_ms: Option<String>,
    /// `MDS_BUS_CAPACITY`.
    pub bus_capacity: Option<String>,
    /// `MDS_SUBSCRIBER_QUEUE`.
    pub subscriber_queue: Option<String>,
    /// `MDS_PROGRESS_EVERY`.
    pub progress_every: Option<String>,
    /// `MDS_LISTEN`.
    pub listen: Option<ListenVar>,
}

/// That the size of a burst is no number, for a reason; its text is given in quotes.
pub open spec fn invalid_burst(quoted: Seq<char>, reason: Seq<char>) -> Seq<char> {
    "invalid SIM_PACING bursty:N (got "@ + quoted + "): "@ + reason
}

/// Says that the size of a burst is no number, for a reason; its text is given in quotes.
pub fn invalid_burst_text(quoted: &str, reason: &str) -> (text: String)
    ensures
        text@ == invalid_burst(quoted@, reason@),
{
    enclosed("invalid SIM_PACING bursty:N (got ", quoted, "): ").concat(reason)
}

/// The bursts that a text stands for: none for a steady pace.
pub open spec fn bursts_of(text: Seq<char>) -> Result<Option<u32>, Seq<char>> {
    let text = trimmed(text);
    if same_ignoring_case(text, "steady"@) {
        Ok(None)
    } else if "bursty:"@.is_prefix_of(text) {
        let size = text.skip("bursty:"@.len() as int);
        match unsigned(size, u32::MAX as nat) {
            Ok(burst_size) => Ok(Some(burst_size as u32)),
            Err(error) => Err(invalid_burst(quoted_form(size), error.words())),
        }
    } else {
        Err(unknown_pacing(quoted_form(text)))
    }
}

impl ServiceVars {
    /// What is wrong with the pacing, if it is set.
    pub open spec fn pacing_fault(self) -> Option<Seq<char>> {
        match self.sim.pacing {
            None => None,
            Some(text) => match bursts_of(text@) {
                Ok(_) => None,
                Err(reason) => Some(reason),
            },
        }
    }

    /// What is wrong with the address, if it is set.
    pub open spec fn listen_fault(self) -> Option<Seq<char>> {
        match self.listen {
            None => None,
            Some(var) => match var.error {
                None => None,
                Some(error) => Some(invalid_setting("MDS_LISTEN"@, quoted_form(var.text@), error@)),
            },
        }
    }

    /// The upstream configuration that the variables give when all of them can be read.
    pub open spec fn upstream(self) -> UpstreamConfig {
        UpstreamConfig {
            instruments: number_or(self.sim.instruments, u32::MAX as nat, 100) as u32,
            rate_hz: number_or(self.sim.rate_hz, u32::MAX as nat, 1_000) as u32,
            depth: number_or(self.sim.depth, u8::MAX as nat, 5) as u8,
            max_messages: match self.sim.max_messages {
                None => None,
                Some(text) => Some(unsigned(text@, u64::MAX as nat)->Ok_0 as u64),
            },
            seed: number_or(self.sim.seed, u64::MAX as nat, 0xDEAD_BEEF_CAFE_F00D) as u64,
            start_seq: number_or(self.sim.start_seq, u64::MAX as nat, 1) as u64,
            buffer_size: number_or(self.sim.buffer_size, usize::MAX as nat, 1024) as usize,
            burst_size: match self.sim.pacing {
                None => None,
                Some(text) => bursts_of(text@)->Ok_0,
            },
        }
    }

    /// Whether `config` is the configuration that the variables give when all of them
    /// can be read.
    pub open spec fn give(self, config: ServiceConfig) -> bool {
        &&& config.upstream == self.upstream()
        &&& config.poll_interval_ns == number_or(self.poll_interval_ms, u64::MAX as nat, 50) * 1_000_000
        &&& config.bus_channel_capacity == number_or(self.bus_capacity, usize::MAX as nat, 1024)
        &&& config.subscriber_queue_size == number_or(self.subscriber_queue, usize::MAX as nat, 1024)
        &&& config.progress_log_every == number_or(self.progress_every, u64::MAX as nat, 100)
        &&& config.listen_addr@ == match self.listen {
            None => "0.0.0.0:50051"@,
            Some(var) => var.text@,
        }
    }

    /// What is wrong with the variables: the first that cannot be read, and else what
    /// is wrong with the configuration that they give.
    pub open spec fn fault(self) -> Option<Seq<char>> {
        first_fault(
            self.sim_fault(),
            first_fault(
                number_fault("MDS_POLL_INTERVAL_MS"@, self.poll_interval_ms, u64::MAX as nat),
                first_fault(
                    number_fault("MDS_BUS_CAPACITY"@, self.bus_capacity, usize::MAX as nat),
                    first_fault(
                        number_fault("MDS_SUBSCRIBER_QUEUE"@, self.subscriber_queue, usize::MAX as nat),
                        first_fault(
                            number_fault("MDS_PROGRESS_EVERY"@, self.progress_every, u64::MAX as nat),
                            first_fault(
                                self.listen_fault(),
                                settings_fault(
                                    number_or(self.bus_capacity, usize::MAX as nat, 1024),
                                    number_or(self.subscriber_queue, usize::MAX as nat, 1024),
                                    number_or(self.poll_interval_ms, u64::MAX as nat, 50),
                                ),
                            ),
                        ),
                    ),
                ),
            ),
        )
    }

    /// The first of the settings of the feed that cannot be read.
    pub open spec fn sim_fault(self) -> Option<Seq<char>> {
        first_fault(
            number_fault("SIM_INSTRUMENTS"@, self.sim.instruments, u32::MAX as nat),
            first_fault(
                number_fault("SIM_RATE_HZ"@, self.sim.rate_hz, u32::MAX as nat),
                first_fault(
                    number_fault("SIM_DEPTH"@, self.sim.depth, u8::MAX as nat),
                    first_fault(
                        number_fault("SIM_MAX_MESSAGES"@, self.sim.max_messages, u64::MAX as nat),
                        first_fault(
                            number_fault("SIM_SEED"@, self.sim.seed, u64::MAX as nat),
                            first_fault(
                                number_fault("SIM_START_SEQ"@, self.sim.start_seq, u64::MAX as nat),
                                first_fault(
                                    number_fault("SIM_BUFFER_SIZE"@, self.sim.buffer_size, usize::MAX as nat),
                                    self.pacing_fault(),
                                ),
                            ),
                        ),
                    ),
                ),
            ),
        )
    }
}

/// What is wrong with these settings: the first that is zero, if there is any.
pub open spec fn settings_fault(bus_capacity: nat, queue_size: nat, poll_interval: nat) -> Option<Seq<char>> {
    first_fault(
        fault_if(bus_capacity == 0, "bus_channel_capacity must be > 0"@),
        first_fault(
            fault_if(queue_size == 0, "subscriber_queue_size must be > 0"@),
            fault_if(poll_interval == 0, "poll_interval must be > 0 (avoid busy-loop)"@),
        ),
    )
}

/// Reads a numeric variable; `None` when it is not set.
fn parse_var(name: &str, var: &Option<String>, max: u64) -> (result: Result<Option<u64>, ConfigError>)
    ensures
        match result {
            Ok(value) => {
                &&& number_fault(name@, *var, max as nat) is None
                &&& value is Some <==> *var is Some
                &&& value is Some ==> value->Some_0 == number_or(*var, max as nat, 0) && value->Some_0 <= max
            },
            Err(error) => number_fault(name@, *var, max as nat) == Some(error.reason@),
        },
{
    match read_number(name, var, max) {
        Ok(value) => Ok(value),
        Err(reason) => Err(ConfigError { reason }),
    }
}

/// Reads a pacing: `None` for `steady`, and `N` for `bursty:N`.
pub fn parse_pacing(text: &str) -> (result: Result<Option<u32>, ConfigError>)
    ensures
        match result {
            Ok(bursts) => bursts_of(text@) == Ok::<Option<u32>, Seq<char>>(bursts),
            Err(error) => bursts_of(text@) == Err::<Option<u32>, Seq<char>>(error.reason@),
        },
{
    let text = trim(text);
    if eq_ignore_ascii_case(text, "steady") {
        return Ok(None);
    }
    match strip_prefix(text, "bursty:") {
        Some(size) => match parse_unsigned(size, u32::MAX as u64) {
            Ok(burst_size) => Ok(Some(burst_size as u32)),
            Err(error) => {
                let reason = invalid_burst_text(quoted(size).as_str(), error.message());
                Err(ConfigError { reason })
            },
        },
        None => {
            let reason = enclosed("SIM_PACING must be 'steady' or 'bursty:N' (got ", quoted(text).as_str(), ")");
            Err(ConfigError { reason })
        },
    }
}

/// Reads the settings of the feed.
fn upstream_from_vars(vars: &ServiceVars) -> (result: Result<UpstreamConfig, ConfigError>)
    ensures
        match result {
            Ok(config) => vars.sim_fault() is None && config == vars.upstream(),
            Err(error) => vars.sim_fault() == Some(error.reason@),
        },
{
    let mut config = UpstreamConfig::default();
    match parse_var("SIM_INSTRUMENTS", &vars.sim.instruments, u32::MAX as u64)? {
        Some(value) => {
            config.instruments = value as u32;
        },
        None => {},
    }
    match parse_var("SIM_RATE_HZ", &vars.sim.rate_hz, u32::MAX as u64)? {
        Some(value) => {
            config.rate_hz = value as u32;
        },
        None => {},
    }
    match parse_var("SIM_DEPTH", &vars.sim.depth, u8::MAX as u64)? {
        Some(value) => {
            config.depth = value as u8;
        },
        None => {},
    }
    match parse_var("SIM_MAX_MESSAGES", &vars.sim.max_messages, u64::MAX)? {
        Some(value) => {
            config.max_messages = Some(value);
        },
        None => {},
    }
    match parse_var("SIM_SEED", &vars.sim.seed, u64::MAX)? {
        Some(value) => {
            config.seed = value;
        },
        None => {},
    }
    match parse_var("SIM_START_SEQ", &vars.sim.start_seq, u64::MAX)? {
        Some(value) => {
            config.start_seq = value;
        },
        None => {},
    }
    match parse_var("SIM_BUFFER_SIZE", &vars.sim.buffer_size, usize::MAX as u64)? {
        Some(value) => {
            config.buffer_size = value as usize;
        },
        None => {},
    }
    match &vars.sim.pacing {
        Some(text) => {
            config.burst_size = parse_pacing(text.as_str())?;
        },
        None => {},
    }
    Ok(config)
}

impl ServiceConfig {
    /// What is wrong with it: the first fault, if there is any.
    pub open spec fn fault(self) -> Option<Seq<char>> {
        settings_fault(
            self.bus_channel_capacity as nat,
            self.subscriber_queue_size as nat,
            self.poll_interval_ns as nat,
        )
    }

    /// Reads the configuration out of `vars`; what is not set has its default.
    pub fn from_vars(vars: &ServiceVars) -> (result: Result<ServiceConfig, ConfigError>)
        ensures
            match result {
                Ok(config) => vars.fault() is None && vars.give(config),
                Err(error) => vars.fault() == Some(error.reason@),
            },
    {
        let mut config = ServiceConfig::default();
        config.upstream = upstream_from_vars(vars)?;
        match parse_var("MDS_POLL_INTERVAL_MS", &vars.poll_interval_ms, u64::MAX)? {
            Some(value) => {
                config.poll_interval_ns = value as u128 * 1_000_000;
            },
            None => {},
        }
        match parse_var("MDS_BUS_CAPACITY", &vars.bus_capacity, usize::MAX as u64)? {
            Some(value) => {
                config.bus_channel_capacity = value as usize;
            },
            None => {},
        }
        match parse_var("MDS_SUBSCRIBER_QUEUE", &vars.subscriber_queue, usize::MAX as u64)? {
            Some(value) => {
                config.subscriber_queue_size = value as usize;
            },
            None => {},
        }
        match parse_var("MDS_PROGRESS_EVERY", &vars.progress_every, u64::MAX)? {
            Some(value) => {
                config.progress_log_every = value;
            },
            None => {},
        }
        match &vars.listen {
            Some(var) => match &var.error {
                Some(error) => {
                    let shown = quoted(var.text.as_str());
                    let reason = invalid_setting_text("MDS_LISTEN", shown.as_str(), error.as_str());
                    return Err(ConfigError { reason });
                },
                None => {
                    config.listen_addr = var.text.clone();
                },
            },
            None => {},
        }
        config.validate()?;
        Ok(config)
    }

    /// Checks the settings of the service. The feed checks its own.
    pub fn validate(&self) -> (result: Result<(), ConfigError>)
        ensures
            match result {
                Ok(_) => self.fault() is None,
                Err(error) => self.fault() == Some(error.reason@),
            },
    {
        if self.bus_channel_capacity == 0 {
            return Err(ConfigError { reason: "bus_channel_capacity must be > 0".to_owned() });
        }
        if self.subscriber_queue_size == 0 {
            return Err(ConfigError { reason: "subscriber_queue_size must be > 0".to_owned() });
        }
        if self.poll_interval_ns == 0 {
            return Err(ConfigError { reason: "poll_interval must be > 0 (avoid busy-loop)".to_owned() });
        }
        Ok(())
    }
}

impl Default for ServiceConfig {
    fn default() -> (config: ServiceConfig)
        ensures
            config.upstream == UpstreamConfig::standard(),
            config.poll_interval_ns == 50_000_000,
            config.bus_channel_capacity == 1024,
            config.subscriber_queue_size == 1024,
            config.progress_log_every == 100,
            config.listen_addr@ == "0.0.0.0:50051"@,
            config.fault() is None,
    {
        ServiceConfig {
            upstream: UpstreamConfig::default(),
            poll_interval_ns: 50_000_000,
            bus_channel_capacity: 1024,
            subscriber_queue_size: 1024,
            progress_log_every: 100,
            listen_addr: "0.0.0.0:50051".to_owned(),
        }
    }
}

/// A pacing is read alike for the service and for the feed.
pub proof fn law_pacings_agree(text: Seq<char>)
    ensures
        bursts_of(text) is Ok <==> pacing_of(text) is Ok,
        bursts_of(text) is Ok ==> pacing_of(text)->Ok_0 == match bursts_of(text)->Ok_0 {
            None => Pacing::Steady,
            Some(burst_size) => Pacing::Bursty { burst_size },
        },
{
}

/// The feed of the service is the feed that its variables give by themselves.
pub proof fn law_same_variables_same_feed(vars: ServiceVars)
    requires
        vars.sim_fault() is None,
    ensures
        <SubscriberConfig as FromSpec<UpstreamConfig>>::from_spec(vars.upstream()) == vars.sim.config(),
        vars.sim.fault() == vars.sim.config().fault(),
{
    match vars.sim.pacing {
        Some(text) => law_pacings_agree(text@),
        None => {},
    }
}

/// A configuration of the service is valid exactly when nothing in it is zero that must not
/// be. Of several faults the first in this order is named.
pub proof fn law_valid_service_configurations(config: ServiceConfig, result: Result<(), ConfigError>)
    requires
        call_ensures(ServiceConfig::validate, (&config,), result),
    ensures
        result is Ok <==> config.bus_channel_capacity > 0 && config.subscriber_queue_size > 0
            && config.poll_interval_ns > 0,
        result is Err ==> result->Err_0.reason@ == if config.bus_channel_capacity == 0 {
            "bus_channel_capacity must be > 0"@
        } else if config.subscriber_queue_size == 0 {
            "subscriber_queue_size must be > 0"@
        } else {
            "poll_interval must be > 0 (avoid busy-loop)"@
        },
{
}

/// A pacing is `steady`, in any case, or `bursty:` and a number; white space around it does
/// not count.
pub proof fn law_service_pacing_is_steady_or_bursty(
    text: &str,
    part: &str,
    result: Result<Option<u32>, ConfigError>,
    steady: bool,
    word: &str,
    prefix: &str,
    size: Option<&str>,
    digits: &str,
    number: Result<u64, NumberError>,
)
    requires
        call_ensures(parse_pacing, (text,), result),
        call_ensures(trim, (text,), part),
        word@ == "steady"@,
        call_ensures(eq_ignore_ascii_case, (part, word), steady),
        prefix@ == "bursty:"@,
        call_ensures(strip_prefix, (part, prefix), size),
        size is Some ==> digits@ == size->Some_0@,
        call_ensures(parse_unsigned, (digits, u32::MAX as u64), number),
    ensures
        steady ==> result is Ok && result->Ok_0 is None,
        !steady && size is None ==> result is Err,
        !steady && size is Some && number is Err ==> result is Err,
        !steady && size is Some && number is Ok ==> result is Ok && result->Ok_0 is Some && result->Ok_0->Some_0
            == number->Ok_0,
        result is Err ==> result->Err_0.reason@ == if size is None {
            "SIM_PACING must be 'steady' or 'bursty:N' (got "@ + quoted_form(part@) + ")"@
        } else {
            "invalid SIM_PACING bursty:N (got "@ + quoted_form(digits@) + "): "@ + number->Err_0.words()
        },
{
}

/// Each setting of the service is read from its own variable, and from no other; what is not
/// set has its default. Reading succeeds exactly when every variable can be read and what
/// they give is valid.
pub proof fn law_each_variable_sets_its_setting(vars: ServiceVars, result: Result<ServiceConfig, ConfigError>)
    requires
        call_ensures(ServiceConfig::from_vars, (&vars,), result),
    ensures
        result is Ok ==> {
            let config = result->Ok_0;
            let feed = config.upstream;
            &&& is_read(feed.instruments as int, vars.sim.instruments, u32::MAX as nat, 100)
            &&& is_read(feed.rate_hz as int, vars.sim.rate_hz, u32::MAX as nat, 1000)
            &&& is_read(feed.depth as int, vars.sim.depth, u8::MAX as nat, 5)
            &&& is_read(feed.seed as int, vars.sim.seed, u64::MAX as nat, 0xDEAD_BEEF_CAFE_F00D)
            &&& is_read(feed.start_seq as int, vars.sim.start_seq, u64::MAX as nat, 1)
            &&& is_read(feed.buffer_size as int, vars.sim.buffer_size, usize::MAX as nat, 1024)
            &&& feed.max_messages is None <==> vars.sim.max_messages is None
            &&& feed.max_messages is Some ==> is_read(
                feed.max_messages->Some_0 as int,
                vars.sim.max_messages,
                u64::MAX as nat,
                0,
            )
            &&& vars.sim.pacing is None ==> feed.burst_size is None
            &&& vars.sim.pacing is Some ==> bursts_of(vars.sim.pacing->Some_0@) == Ok::<Option<u32>, Seq<char>>(
                feed.burst_size,
            )
            &&& config.poll_interval_ns % 1_000_000 == 0
            &&& is_read(config.poll_interval_ns as int / 1_000_000, vars.poll_interval_ms, u64::MAX as nat, 50)
            &&& is_read(config.bus_channel_capacity as int, vars.bus_capacity, usize::MAX as nat, 1024)
            &&& is_read(config.subscriber_queue_size as int, vars.subscriber_queue, usize::MAX as nat, 1024)
            &&& is_read(config.progress_log_every as int, vars.progress_every, u64::MAX as nat, 100)
            &&& vars.listen is None ==> config.listen_addr@ == "0.0.0.0:50051"@
            &&& vars.listen is Some ==> config.listen_addr@ == vars.listen->Some_0.text@ && vars.listen->Some_0.error is None
            &&& config.bus_channel_capacity > 0
            &&& config.subscriber_queue_size > 0
            &&& config.poll_interval_ns > 0
        },
        result is Err ==> {
            ||| is_unreadable(vars.sim.instruments, u32::MAX as nat)
            ||| is_unreadable(vars.sim.rate_hz, u32::MAX as nat)
            ||| is_unreadable(vars.sim.depth, u8::MAX as nat)
            ||| is_unreadable(vars.sim.max_messages, u64::MAX as nat)
            ||| is_unreadable(vars.sim.seed, u64::MAX as nat)
            ||| is_unreadable(vars.sim.start_seq, u64::MAX as nat)
            ||| is_unreadable(vars.sim.buffer_size, usize::MAX as nat)
            ||| vars.sim.pacing is Some && bursts_of(vars.sim.pacing->Some_0@) is Err
            ||| is_unreadable(vars.poll_interval_ms, u64::MAX as nat)
            ||| is_unreadable(vars.bus_capacity, usize::MAX as nat)
            ||| is_unreadable(vars.subscriber_queue, usize::MAX as nat)
            ||| is_unreadable(vars.progress_every, u64::MAX as nat)
            ||| vars.listen is Some && vars.listen->Some_0.error is Some
            ||| is_read(0, vars.bus_capacity, usize::MAX as nat, 1024)
            ||| is_read(0, vars.subscriber_queue, usize::MAX as nat, 1024)
            ||| is_read(0, vars.poll_interval_ms, u64::MAX as nat, 50)
        },
{
    lemma_unsigned_fits(vars.sim.instruments, u32::MAX as nat);
    lemma_unsigned_fits(vars.sim.rate_hz, u32::MAX as nat);
    lemma_unsigned_fits(vars.sim.depth, u8::MAX as nat);
    lemma_unsigned_fits(vars.sim.max_messages, u64::MAX as nat);
    lemma_unsigned_fits(vars.sim.seed, u64::MAX as nat);
    lemma_unsigned_fits(vars.sim.start_seq, u64::MAX as nat);
    lemma_unsigned_fits(vars.sim.buffer_size, usize::MAX as nat);
    lemma_unsigned_fits(vars.poll_interval_ms, u64::MAX as nat);
    lemma_unsigned_fits(vars.bus_capacity, usize::MAX as nat);
    lemma_unsigned_fits(vars.subscriber_queue, usize::MAX as nat);
    lemma_unsigned_fits(vars.progress_every, u64::MAX as nat);
}

/// The feed is configured field by field as the upstream is; bursts where a size for them is
/// given, a steady pace else.
pub proof fn law_feed_is_configured_as_upstream(config: UpstreamConfig, feed: SubscriberConfig)
    requires
        call_ensures(<SubscriberConfig as From<UpstreamConfig>>::from, (config,), feed),
    ensures
        feed.instruments == config.instruments,
        feed.rate_hz == config.rate_hz,
        feed.depth == config.depth,
        feed.max_messages == config.max_messages,
        feed.seed == config.seed,
        feed.start_seq == config.start_seq,
        feed.buffer_size == config.buffer_size,
        config.burst_size is None ==> feed.pacing == Pacing::Steady,
        config.burst_size is Some ==> feed.pacing == (Pacing::Bursty { burst_size: config.burst_size->Some_0 }),
{
}

/// The words for a size of a burst that is no number name the text and the reason.
pub proof fn law_invalid_burst_names_everything(quoted: &str, reason: &str, text: String)
    requires
        call_ensures(invalid_burst_text, (quoted, reason), text),
    ensures
        text@ == "invalid SIM_PACING bursty:N (got "@ + quoted@ + "): "@ + reason@,
{
}

/// The defaults are what is read when no variable is set.
pub proof fn law_defaults_are_what_nothing_sets(
    config: ServiceConfig,
    upstream: UpstreamConfig,
    vars: ServiceVars,
    result: Result<ServiceConfig, ConfigError>,
)
    requires
        call_ensures(<ServiceConfig as Default>::default, (), config),
        call_ensures(<UpstreamConfig as Default>::default, (), upstream),
        call_ensures(ServiceConfig::from_vars, (&vars,), result),
        vars.sim.instruments is None && vars.sim.rate_hz is None && vars.sim.depth is None,
        vars.sim.max_messages is None && vars.sim.seed is None && vars.sim.start_seq is None,
        vars.sim.buffer_size is None && vars.sim.pacing is None,
        vars.poll_interval_ms is None && vars.bus_capacity is None && vars.subscriber_queue is None,
        vars.progress_every is None && vars.listen is None,
    ensures
        result is Ok,
        result->Ok_0.upstream == config.upstream,
        result->Ok_0.upstream == upstream,
        result->Ok_0.poll_interval_ns == config.poll_interval_ns,
        result->Ok_0.bus_channel_capacity == config.bus_channel_capacity,
        result->Ok_0.subscriber_queue_size == config.subscriber_queue_size,
        result->Ok_0.progress_log_every == config.progress_log_every,
        result->Ok_0.listen_addr@ == config.listen_addr@,
{
}

/// Of the variables that cannot be read the first in this order is named; when all can be
/// read, the first setting that is zero and must not be.
pub proof fn law_first_fault_of_the_variables_is_told(vars: ServiceVars, result: Result<ServiceConfig, ConfigError>)
    requires
        call_ensures(ServiceConfig::from_vars, (&vars,), result),
    ensures
        result is Err ==> {
            let reason = result->Err_0.reason@;
            if is_unreadable(vars.sim.instruments, u32::MAX as nat) {
                reason == complaint("SIM_INSTRUMENTS"@, vars.sim.instruments, u32::MAX as nat)
            } else if is_unreadable(vars.sim.rate_hz, u32::MAX as nat) {
                reason == complaint("SIM_RATE_HZ"@, vars.sim.rate_hz, u32::MAX as nat)
            } else if is_unreadable(vars.sim.depth, u8::MAX as nat) {
                reason == complaint("SIM_DEPTH"@, vars.sim.depth, u8::MAX as nat)
            } else if is_unreadable(vars.sim.max_messages, u64::MAX as nat) {
                reason == complaint("SIM_MAX_MESSAGES"@, vars.sim.max_messages, u64::MAX as nat)
            } else if is_unreadable(vars.sim.seed, u64::MAX as nat) {
                reason == complaint("SIM_SEED"@, vars.sim.seed, u64::MAX as nat)
            } else if is_unreadable(vars.sim.start_seq, u64::MAX as nat) {
                reason == complaint("SIM_START_SEQ"@, vars.sim.start_seq, u64::MAX as nat)
            } else if is_unreadable(vars.sim.buffer_size, usize::MAX as nat) {
                reason == complaint("SIM_BUFFER_SIZE"@, vars.sim.buffer_size, usize::MAX as nat)
            } else if vars.sim.pacing is Some && bursts_of(vars.sim.pacing->Some_0@) is Err {
                reason == bursts_of(vars.sim.pacing->Some_0@)->Err_0
            } else if is_unreadable(vars.poll_interval_ms, u64::MAX as nat) {
                reason == complaint("MDS_POLL_INTERVAL_MS"@, vars.poll_interval_ms, u64::MAX as nat)
            } else if is_unreadable(vars.bus_capacity, usize::MAX as nat) {
                reason == complaint("MDS_BUS_CAPACITY"@, vars.bus_capacity, usize::MAX as nat)
            } else if is_unreadable(vars.subscriber_queue, usize::MAX as nat) {
                reason == complaint("MDS_SUBSCRIBER_QUEUE"@, vars.subscriber_queue, usize::MAX as nat)
            } else if is_unreadable(vars.progress_every, u64::MAX as nat) {
                reason == complaint("MDS_PROGRESS_EVERY"@, vars.progress_every, u64::MAX as nat)
            } else if vars.listen is Some && vars.listen->Some_0.error is Some {
                reason == "invalid MDS_LISTEN="@ + quoted_form(vars.listen->Some_0.text@) + ": "@ + vars.listen->Some_0.error->Some_0@
            } else if is_read(0, vars.bus_capacity, usize::MAX as nat, 1024) {
                reason == "bus_channel_capacity must be > 0"@
            } else if is_read(0, vars.subscriber_queue, usize::MAX as nat, 1024) {
                reason == "subscriber_queue_size must be > 0"@
            } else if is_read(0, vars.poll_interval_ms, u64::MAX as nat, 50) {
                reason == "poll_interval must be > 0 (avoid busy-loop)"@
            } else {
                false
            }
        },
{
    reveal_strlit("invalid ");
    reveal_strlit("MDS_LISTEN");
    reveal_strlit("=");
    reveal_strlit("invalid MDS_LISTEN=");
    assert("invalid "@ + "MDS_LISTEN"@ + "="@ =~= "invalid MDS_LISTEN="@);
}

} // verus!
