//! Configuration of the simulated feed.

use vstd::prelude::*;
use vstd::string::*;

use crate::feed::error::FeedSimError;
use crate::text::{
    decimal, decimal_text, enclosed, eq_ignore_ascii_case, parse_unsigned, quoted, quoted_form, same_ignoring_case, strip_prefix,
    lemma_number_fits, trim, trimmed, unsigned, NumberError,
};
use crate::types::MAX_BOOK_DEPTH;
use crate::vars::{complaint, fault_if, first_fault, number_fault, number_or, read_number, unknown_pacing};

verus! {

/// Pacing of the feed.
#[derive(Clone, Copy, Debug, PartialEq, Eq, Structural)]
pub enum Pacing {
    /// A message every `1/rate_hz` seconds.
    Steady,
    /// `burst_size` messages back to back, then a pause so that the long-run rate is
    /// `rate_hz`.
    Bursty {
        /// Number of messages in each burst.
        burst_size: u32,
    },
}

/// Configuration of a feed.
#[derive(Clone, Copy, Debug, PartialEq, Eq)]
pub struct SubscriberConfig {
    /// Number of distinct instruments (FIGIs).
    pub instruments: u32,
    /// Target message rate across all instruments, in messages per second.
    pub rate_hz: u32,
    /// Pacing of the messages.
    pub pacing: Pacing,
    /// Number of populated book levels per message (from 1 to [`MAX_BOOK_DEPTH`]).
    pub depth: u8,
    /// Cap on the total of messages that are generated. `None` means no end.
    pub max_messages: Option<u64>,
    /// Seed of the deterministic message stream.
    pub seed: u64,
    /// Initial value of `gateway_seq`.
    pub start_seq: u64,
    /// Capacity of the buffer between the generator and the receiver. When it is full, the
    /// oldest message in it is dropped for the next one.
    pub buffer_size: usize,
}

/// The settings as texts, each under the name of its variable.
pub struct FeedVars {
    /// `SIM_INSTRUMENTS`.
    pub instruments: Option<String>,
    /// `SIM_RATE_HZ`.
    pub rate_hz: Option<String>,
    /// `SIM_DEPTH`.
    pub depth: Option<String>,
    /// `SIM_MAX_MESSAGES`.
    pub max_messages: Option<String>,
    /// `SIM_SEED`.
    pub seed: Option<String>,
    /// `SIM_START_SEQ`.
    pub start_seq: Option<String>,
    /// `SIM_BUFFER_SIZE`.
    pub buffer_size: Option<String>,
    /// `SIM_PACING`.
    pub pacing: Option<String>,
}

/// That the size of a burst is no number, for a reason; its text is given in quotes.
pub open spec fn invalid_burst(quoted: Seq<char>, reason: Seq<char>) -> Seq<char> {
    "invalid SIM_PACING bursty:N — N must be a positive integer (got "@ + quoted + "): "@ + reason
}

/// Says that the size of a burst is no number, for a reason; its text is given in quotes.
pub fn invalid_burst_text(quoted: &str, reason: &str) -> (text: String)
    ensures
        text@ == invalid_burst(quoted@, reason@),
{
    enclosed("invalid SIM_PACING bursty:N — N must be a positive integer (got ", quoted, "): ").concat(reason)
}

/// The pacing that a text stands for.
pub open spec fn pacing_of(text: Seq<char>) -> Result<Pacing, Seq<char>> {
    let text = trimmed(text);
    if same_ignoring_case(text, "steady"@) {
        Ok(Pacing::Steady)
    } else if "bursty:"@.is_prefix_of(text) {
        let size = text.skip("bursty:"@.len() as int);
        match unsigned(size, u32::MAX as nat) {
            Ok(burst_size) => Ok(Pacing::Bursty { burst_size: burst_size as u32 }),
            Err(error) => Err(invalid_burst(quoted_form(size), error.words())),
        }
    } else {
        Err(unknown_pacing(quoted_form(text)))
    }
}

impl FeedVars {
    /// What is wrong with the pacing, if it is set.
    pub open spec fn pacing_fault(self) -> Option<Seq<char>> {
        match self.pacing {
            None => None,
            Some(text) => match pacing_of(text@) {
                Ok(_) => None,
                Err(reason) => Some(reason),
            },
        }
    }

    /// The configuration that the variables give when all of them can be read.
    pub open spec fn config(self) -> SubscriberConfig {
        SubscriberConfig {
            instruments: number_or(self.instruments, u32::MAX as nat, 100) as u32,
            rate_hz: number_or(self.rate_hz, u32::MAX as nat, 1_000) as u32,
            pacing: match self.pacing {
                None => Pacing::Steady,
                Some(text) => pacing_of(text@)->Ok_0,
            },
            depth: number_or(self.depth, u8::MAX as nat, 5) as u8,
            max_messages: match self.max_messages {
                None => None,
                Some(text) => Some(unsigned(text@, u64::MAX as nat)->Ok_0 as u64),
            },
            seed: number_or(self.seed, u64::MAX as nat, 0xDEAD_BEEF_CAFE_F00D) as u64,
            start_seq: number_or(self.start_seq, u64::MAX as nat, 1) as u64,
            buffer_size: number_or(self.buffer_size, usize::MAX as nat, 1024) as usize,
        }
    }

    /// What is wrong with the variables: the first that cannot be read, and else what
    /// is wrong with the configuration that they give.
    pub open spec fn fault(self) -> Option<Seq<char>> {
        first_fault(
            number_fault("SIM_INSTRUMENTS"@, self.instruments, u32::MAX as nat),
            first_fault(
                number_fault("SIM_RATE_HZ"@, self.rate_hz, u32::MAX as nat),
                first_fault(
                    number_fault("SIM_DEPTH"@, self.depth, u8::MAX as nat),
                    first_fault(
                        number_fault("SIM_MAX_MESSAGES"@, self.max_messages, u64::MAX as nat),
                        first_fault(
                            number_fault("SIM_SEED"@, self.seed, u64::MAX as nat),
                            first_fault(
                                number_fault("SIM_START_SEQ"@, self.start_seq, u64::MAX as nat),
                                first_fault(
                                    number_fault("SIM_BUFFER_SIZE"@, self.buffer_size, usize::MAX as nat),
                                    first_fault(self.pacing_fault(), self.config().fault()),
                                ),
                            ),
                        ),
                    ),
                ),
            ),
        )
    }
}

/// Reads a numeric variable; `None` when it is not set.
fn parse_var(name: &str, var: &Option<String>, max: u64) -> (result: Result<Option<u64>, FeedSimError>)
    ensures
        match result {
            Ok(value) => {
                &&& number_fault(name@, *var, max as nat) is None
                &&& value is Some <==> *var is Some
                &&& value is Some ==> value->Some_0 == number_or(*var, max as nat, 0) && value->Some_0 <= max
            },
            Err(FeedSimError::Config(reason)) => number_fault(name@, *var, max as nat) == Some(reason@),
            Err(_) => false,
        },
{
    match read_number(name, var, max) {
        Ok(value) => Ok(value),
        Err(reason) => Err(FeedSimError::Config(reason)),
    }
}

/// Reads a pacing: `steady`, or `bursty:N` for bursts of `N`.
pub fn parse_pacing(text: &str) -> (result: Result<Pacing, FeedSimError>)
    ensures
        match result {
            Ok(pacing) => pacing_of(text@) == Ok::<Pacing, Seq<char>>(pacing),
            Err(FeedSimError::Config(reason)) => pacing_of(text@) == Err::<Pacing, Seq<char>>(reason@),
            Err(_) => false,
        },
{
    let text = trim(text);
    if eq_ignore_ascii_case(text, "steady") {
        return Ok(Pacing::Steady);
    }
    match strip_prefix(text, "bursty:") {
        Some(size) => match parse_unsigned(size, u32::MAX as u64) {
            Ok(burst_size) => Ok(Pacing::Bursty { burst_size: burst_size as u32 }),
            Err(error) => {
                let reason = invalid_burst_text(quoted(size).as_str(), error.message());
                Err(FeedSimError::Config(reason))
            },
        },
        None => {
            let reason = enclosed("SIM_PACING must be 'steady' or 'bursty:N' (got ", quoted(text).as_str(), ")");
            Err(FeedSimError::Config(reason))
        },
    }
}

impl SubscriberConfig {
    /// The configuration that no variable changes.
    pub open spec fn standard() -> SubscriberConfig {
        SubscriberConfig {
            instruments: 100,
            rate_hz: 1_000,
            pacing: Pacing::Steady,
            depth: 5,
            max_messages: None,
            seed: 0xDEAD_BEEF_CAFE_F00D,
            start_seq: 1,
            buffer_size: 1024,
        }
    }

    /// What is wrong with it: the first fault, if there is any.
    pub open spec fn fault(self) -> Option<Seq<char>> {
        first_fault(
            fault_if(self.instruments == 0, "instruments must be > 0"@),
            first_fault(
                fault_if(self.rate_hz == 0, "rate_hz must be > 0"@),
                first_fault(
                    fault_if(
                        self.depth == 0 || self.depth > MAX_BOOK_DEPTH,
                        "depth must be in 1..=10 (got "@ + decimal(self.depth as nat) + ")"@,
                    ),
                    first_fault(
                        fault_if(self.buffer_size == 0, "buffer_size must be > 0"@),
                        fault_if(
                            self.pacing == (Pacing::Bursty { burst_size: 0 }),
                            "Pacing::Bursty.burst_size must be > 0"@,
                        ),
                    ),
                ),
            ),
        )
    }

    /// Reads the configuration out of `vars`; what is not set has its default.
    pub fn from_vars(vars: &FeedVars) -> (result: Result<SubscriberConfig, FeedSimError>)
        ensures
            match result {
                Ok(config) => vars.fault() is None && config == vars.config(),
                Err(FeedSimError::Config(reason)) => vars.fault() == Some(reason@),
                Err(_) => false,
            },
    {
        let mut config = SubscriberConfig::default();
        match parse_var("SIM_INSTRUMENTS", &vars.instruments, u32::MAX as u64)? {
            Some(value) => {
                config.instruments = value as u32;
            },
            None => {},
        }
        match parse_var("SIM_RATE_HZ", &vars.rate_hz, u32::MAX as u64)? {
            Some(value) => {
                config.rate_hz = value as u32;
            },
            None => {},
        }
        match parse_var("SIM_DEPTH", &vars.depth, u8::MAX as u64)? {
            Some(value) => {
                config.depth = value as u8;
            },
            None => {},
        }
        match parse_var("SIM_MAX_MESSAGES", &vars.max_messages, u64::MAX)? {
            Some(value) => {
                config.max_messages = Some(value);
            },
            None => {},
        }
        match parse_var("SIM_SEED", &vars.seed, u64::MAX)? {
            Some(value) => {
                config.seed = value;
            },
            None => {},
        }
        match parse_var("SIM_START_SEQ", &vars.start_seq, u64::MAX)? {
            Some(value) => {
                config.start_seq = value;
            },
            None => {},
        }
        match parse_var("SIM_BUFFER_SIZE", &vars.buffer_size, usize::MAX as u64)? {
            Some(value) => {
                config.buffer_size = value as usize;
            },
            None => {},
        }
        match &vars.pacing {
            Some(text) => {
                config.pacing = parse_pacing(text.as_str())?;
            },
            None => {},
        }
        config.validate()?;
        Ok(config)
    }

    /// Checks the configuration.
    pub fn validate(&self) -> (result: Result<(), FeedSimError>)
        ensures
            match result {
                Ok(_) => self.fault() is None,
                Err(FeedSimError::Config(reason)) => self.fault() == Some(reason@),
                Err(_) => false,
            },
    {
        if self.instruments == 0 {
            return Err(FeedSimError::Config("instruments must be > 0".to_owned()));
        }
        if self.rate_hz == 0 {
            return Err(FeedSimError::Config("rate_hz must be > 0".to_owned()));
        }
        if self.depth == 0 || self.depth as usize > MAX_BOOK_DEPTH {
            let reason = "depth must be in 1..=10 (got ".to_owned().concat(
                decimal_text(self.depth as u64).as_str(),
            ).concat(")");
            return Err(FeedSimError::Config(reason));
        }
        if self.buffer_size == 0 {
            return Err(FeedSimError::Config("buffer_size must be > 0".to_owned()));
        }
        match self.pacing {
            Pacing::Bursty { burst_size } => if burst_size == 0 {
                return Err(FeedSimError::Config("Pacing::Bursty.burst_size must be > 0".to_owned()));
            },
            Pacing::Steady => {},
        }
        Ok(())
    }
}

impl Default for SubscriberConfig {
    fn default() -> (config: SubscriberConfig)
        ensures
            config == SubscriberConfig::standard(),
    {
        SubscriberConfig {
            instruments: 100,
            rate_hz: 1_000,
            pacing: Pacing::Steady,
            depth: 5,
            max_messages: None,
            seed: 0xDEAD_BEEF_CAFE_F00D,
            start_seq: 1,
            buffer_size: 1024,
        }
    }
}

/// The default configuration is valid, and it is what no variable at all gives.
pub proof fn law_default_config_is_valid(vars: FeedVars)
    ensures
        SubscriberConfig::standard().fault() is None,
        vars.instruments is None && vars.rate_hz is None && vars.depth is None && vars.max_messages is None
            && vars.seed is None && vars.start_seq is None && vars.buffer_size is None && vars.pacing is None
            ==> vars.config() == SubscriberConfig::standard() && vars.fault() is None,
{
}

/// A configuration is valid exactly when it has instruments, a rate, from one to ten levels, a
/// buffer and, if it comes in bursts, something in them. Of several faults the first in this
/// order is named.
pub proof fn law_valid_configurations(config: SubscriberConfig, result: Result<(), FeedSimError>)
    requires
        call_ensures(SubscriberConfig::validate, (&config,), result),
    ensures
        result is Ok <==> {
            &&& config.instruments > 0
            &&& config.rate_hz > 0
            &&& 1 <= config.depth <= 10
            &&& config.buffer_size > 0
            &&& config.pacing != (Pacing::Bursty { burst_size: 0 })
        },
        result is Err ==> result->Err_0 is Config && result->Err_0->Config_0@ == if config.instruments == 0 {
            "instruments must be > 0"@
        } else if config.rate_hz == 0 {
            "rate_hz must be > 0"@
        } else if config.depth == 0 || config.depth > 10 {
            "depth must be in 1..=10 (got "@ + decimal(config.depth as nat) + ")"@
        } else if config.buffer_size == 0 {
            "buffer_size must be > 0"@
        } else {
            "Pacing::Bursty.burst_size must be > 0"@
        },
{
}

/// A pacing is `steady`, in any case, or `bursty:` and a number; white space around it does
/// not count.
pub proof fn law_pacing_is_steady_or_bursty(
    text: &str,
    part: &str,
    result: Result<Pacing, FeedSimError>,
    steady: bool,
    word: &str,
    prefix: &str,
    size: Option<&str>,
    digits: &str,
    number: Result<u64, NumberError>,
)
    requires
        call_ensures(parse_pacing, (text,), result),
        call_ensures(trim, (text,), part),
        word@ == "steady"@,
        call_ensures(eq_ignore_ascii_case, (part, word), steady),
        prefix@ == "bursty:"@,
        call_ensures(strip_prefix, (part, prefix), size),
        size is Some ==> digits@ == size->Some_0@,
        call_ensures(parse_unsigned, (digits, u32::MAX as u64), number),
    ensures
        steady ==> result == Ok::<Pacing, FeedSimError>(Pacing::Steady),
        !steady && size is None ==> result is Err,
        !steady && size is Some && number is Err ==> result is Err,
        !steady && size is Some && number is Ok ==> result is Ok && result->Ok_0 is Bursty
            && result->Ok_0->burst_size == number->Ok_0,
        result is Err ==> result->Err_0 is Config && result->Err_0->Config_0@ == if size is None {
            "SIM_PACING must be 'steady' or 'bursty:N' (got "@ + quoted_form(part@) + ")"@
        } else {
            "invalid SIM_PACING bursty:N — N must be a positive integer (got "@ + quoted_form(digits@) + "): "@
                + number->Err_0.words()
        },
{
}

/// Whether a field has the number of its variable, or its default when that is not set.
pub open spec fn is_read(field: int, var: Option<String>, max: nat, default: int) -> bool {
    match var {
        None => field == default,
        Some(text) => unsigned(text@, max) is Ok && unsigned(text@, max)->Ok_0 == field,
    }
}

/// Whether a text is set and is not read as a number.
pub open spec fn is_unreadable(var: Option<String>, max: nat) -> bool {
    var is Some && unsigned(var->Some_0@, max) is Err
}

/// Each setting is read from its own variable, and from no other; what is not set has its
/// default. Reading succeeds exactly when every variable can be read and what they give is
/// valid.
pub proof fn law_each_variable_sets_its_field(
    vars: FeedVars,
    result: Result<SubscriberConfig, FeedSimError>,
)
    requires
        call_ensures(SubscriberConfig::from_vars, (&vars,), result),
    ensures
        result is Ok ==> {
            let config = result->Ok_0;
            &&& is_read(config.instruments as int, vars.instruments, u32::MAX as nat, 100)
            &&& is_read(config.rate_hz as int, vars.rate_hz, u32::MAX as nat, 1000)
            &&& is_read(config.depth as int, vars.depth, u8::MAX as nat, 5)
            &&& is_read(config.seed as int, vars.seed, u64::MAX as nat, 0xDEAD_BEEF_CAFE_F00D)
            &&& is_read(config.start_seq as int, vars.start_seq, u64::MAX as nat, 1)
            &&& is_read(config.buffer_size as int, vars.buffer_size, usize::MAX as nat, 1024)
            &&& config.max_messages is None <==> vars.max_messages is None
            &&& config.max_messages is Some ==> is_read(
                config.max_messages->Some_0 as int,
                vars.max_messages,
                u64::MAX as nat,
                0,
            )
            &&& vars.pacing is None ==> config.pacing == Pacing::Steady
            &&& vars.pacing is Some ==> pacing_of(vars.pacing->Some_0@) == Ok::<Pacing, Seq<char>>(config.pacing)
            &&& config.fault() is None
        },
        is_unreadable(vars.instruments, u32::MAX as nat) || is_unreadable(vars.rate_hz, u32::MAX as nat)
            || is_unreadable(vars.depth, u8::MAX as nat) || is_unreadable(vars.max_messages, u64::MAX as nat)
            || is_unreadable(vars.seed, u64::MAX as nat) || is_unreadable(vars.start_seq, u64::MAX as nat)
            || is_unreadable(vars.buffer_size, usize::MAX as nat) || (vars.pacing is Some && pacing_of(
            vars.pacing->Some_0@,
        ) is Err) ==> result is Err,
        result is Err ==> {
            ||| is_unreadable(vars.instruments, u32::MAX as nat)
            ||| is_unreadable(vars.rate_hz, u32::MAX as nat)
            ||| is_unreadable(vars.depth, u8::MAX as nat)
            ||| is_unreadable(vars.max_messages, u64::MAX as nat)
            ||| is_unreadable(vars.seed, u64::MAX as nat)
            ||| is_unreadable(vars.start_seq, u64::MAX as nat)
            ||| is_unreadable(vars.buffer_size, usize::MAX as nat)
            ||| vars.pacing is Some && pacing_of(vars.pacing->Some_0@) is Err
            ||| is_read(0, vars.instruments, u32::MAX as nat, 100)
            ||| is_read(0, vars.rate_hz, u32::MAX as nat, 1000)
            ||| is_read(0, vars.depth, u8::MAX as nat, 5)
            ||| exists|depth: int| depth > 10 && #[trigger] is_read(depth, vars.depth, u8::MAX as nat, 5)
            ||| is_read(0, vars.buffer_size, usize::MAX as nat, 1024)
            ||| vars.pacing is Some && pacing_of(vars.pacing->Some_0@) == Ok::<Pacing, Seq<char>>(
                Pacing::Bursty { burst_size: 0 },
            )
        },
{
    lemma_unsigned_fits(vars.instruments, u32::MAX as nat);
    lemma_unsigned_fits(vars.rate_hz, u32::MAX as nat);
    lemma_unsigned_fits(vars.depth, u8::MAX as nat);
    lemma_unsigned_fits(vars.max_messages, u64::MAX as nat);
    lemma_unsigned_fits(vars.seed, u64::MAX as nat);
    lemma_unsigned_fits(vars.start_seq, u64::MAX as nat);
    lemma_unsigned_fits(vars.buffer_size, usize::MAX as nat);
    if result is Err && vars.depth is Some {
        let depth = unsigned(vars.depth->Some_0@, u8::MAX as nat)->Ok_0 as int;
        assert(unsigned(vars.depth->Some_0@, u8::MAX as nat) is Ok ==> is_read(depth, vars.depth, u8::MAX as nat, 5));
    }
}

/// A number that is read is not above the greatest one allowed.
pub proof fn lemma_unsigned_fits(var: Option<String>, max: nat)
    ensures
        var is Some && unsigned(var->Some_0@, max) is Ok ==> unsigned(var->Some_0@, max)->Ok_0 <= max,
{
    if var is Some {
        lemma_number_fits(var->Some_0@, max);
        lemma_number_fits(var->Some_0@.drop_first(), max);
    }
}

/// The words for a size of a burst that is no number name the text and the reason.
pub proof fn law_invalid_burst_names_everything(quoted: &str, reason: &str, text: String)
    requires
        call_ensures(invalid_burst_text, (quoted, reason), text),
    ensures
        text@ == "invalid SIM_PACING bursty:N — N must be a positive integer (got "@ + quoted@ + "): "@ + reason@,
{
}

/// The defaults are what is read when no variable is set.
pub proof fn law_defaults_are_what_nothing_sets(config: SubscriberConfig)
    requires
        call_ensures(<SubscriberConfig as Default>::default, (), config),
    ensures
        is_read(config.instruments as int, None, u32::MAX as nat, 100),
        is_read(config.rate_hz as int, None, u32::MAX as nat, 1000),
        is_read(config.depth as int, None, u8::MAX as nat, 5),
        is_read(config.seed as int, None, u64::MAX as nat, 0xDEAD_BEEF_CAFE_F00D),
        is_read(config.start_seq as int, None, u64::MAX as nat, 1),
        is_read(config.buffer_size as int, None, usize::MAX as nat, 1024),
        config.max_messages is None,
        config.pacing == Pacing::Steady,
{
}

/// Of the variables that cannot be read the first in this order is named.
pub proof fn law_first_unreadable_variable_is_named(vars: FeedVars, result: Result<SubscriberConfig, FeedSimError>)
    requires
        call_ensures(SubscriberConfig::from_vars, (&vars,), result),
    ensures
        result is Err ==> result->Err_0 is Config,
        result is Err ==> {
            let reason = result->Err_0->Config_0@;
            if is_unreadable(vars.instruments, u32::MAX as nat) {
                reason == complaint("SIM_INSTRUMENTS"@, vars.instruments, u32::MAX as nat)
            } else if is_unreadable(vars.rate_hz, u32::MAX as nat) {
                reason == complaint("SIM_RATE_HZ"@, vars.rate_hz, u32::MAX as nat)
            } else if is_unreadable(vars.depth, u8::MAX as nat) {
                reason == complaint("SIM_DEPTH"@, vars.depth, u8::MAX as nat)
            } else if is_unreadable(vars.max_messages, u64::MAX as nat) {
                reason == complaint("SIM_MAX_MESSAGES"@, vars.max_messages, u64::MAX as nat)
            } else if is_unreadable(vars.seed, u64::MAX as nat) {
                reason == complaint("SIM_SEED"@, vars.seed, u64::MAX as nat)
            } else if is_unreadable(vars.start_seq, u64::MAX as nat) {
                reason == complaint("SIM_START_SEQ"@, vars.start_seq, u64::MAX as nat)
            } else if is_unreadable(vars.buffer_size, usize::MAX as nat) {
                reason == complaint("SIM_BUFFER_SIZE"@, vars.buffer_size, usize::MAX as nat)
            } else if vars.pacing is Some && pacing_of(vars.pacing->Some_0@) is Err {
                reason == pacing_of(vars.pacing->Some_0@)->Err_0
            } else {
                true
            }
        },
{
}

/// Whether `config` is what the variables are read as.
pub open spec fn is_all_read(config: SubscriberConfig, vars: FeedVars) -> bool {
    &&& is_read(config.instruments as int, vars.instruments, u32::MAX as nat, 100)
    &&& is_read(config.rate_hz as int, vars.rate_hz, u32::MAX as nat, 1000)
    &&& is_read(config.depth as int, vars.depth, u8::MAX as nat, 5)
    &&& is_read(config.seed as int, vars.seed, u64::MAX as nat, 0xDEAD_BEEF_CAFE_F00D)
    &&& is_read(config.start_seq as int, vars.start_seq, u64::MAX as nat, 1)
    &&& is_read(config.buffer_size as int, vars.buffer_size, usize::MAX as nat, 1024)
    &&& config.max_messages is None <==> vars.max_messages is None
    &&& config.max_messages is Some ==> is_read(
        config.max_messages->Some_0 as int,
        vars.max_messages,
        u64::MAX as nat,
        0,
    )
    &&& vars.pacing is None ==> config.pacing == Pacing::Steady
    &&& vars.pacing is Some ==> pacing_of(vars.pacing->Some_0@) == Ok::<Pacing, Seq<char>>(config.pacing)
}

/// Variables that can all be read give the configuration that they are read as, when that
/// one is valid, and else the reason for which it is not.
pub proof fn law_readable_variables_are_validated(
    vars: FeedVars,
    result: Result<SubscriberConfig, FeedSimError>,
    config: SubscriberConfig,
    checked: Result<(), FeedSimError>,
)
    requires
        call_ensures(SubscriberConfig::from_vars, (&vars,), result),
        is_all_read(config, vars),
        call_ensures(SubscriberConfig::validate, (&config,), checked),
    ensures
        result is Ok <==> checked is Ok,
        result is Ok ==> result->Ok_0 == config,
        result is Err ==> checked->Err_0 is Config && result->Err_0->Config_0@ == checked->Err_0->Config_0@,
{
    lemma_unsigned_fits(vars.instruments, u32::MAX as nat);
    lemma_unsigned_fits(vars.rate_hz, u32::MAX as nat);
    lemma_unsigned_fits(vars.depth, u8::MAX as nat);
    lemma_unsigned_fits(vars.max_messages, u64::MAX as nat);
    lemma_unsigned_fits(vars.seed, u64::MAX as nat);
    lemma_unsigned_fits(vars.start_seq, u64::MAX as nat);
    lemma_unsigned_fits(vars.buffer_size, usize::MAX as nat);
}

} // verus!
