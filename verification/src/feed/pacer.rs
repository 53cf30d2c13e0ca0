//! Pacing: when the next message is due. Times are nanoseconds since a common origin.

use vstd::prelude::*;

use crate::feed::config::{Pacing, SubscriberConfig};

verus! {

/// One second.
pub const SECOND_NS: u128 = 1_000_000_000;

/// The longest sleep at a time, so that a stop is noticed soon.
pub const MAX_SLICE_NS: u128 = 50_000_000;

/// When the next message is due.
#[derive(Clone, Copy, Debug, PartialEq, Eq, Structural)]
pub enum Tick {
    /// At once: it belongs to the current burst.
    Now,
    /// At that time.
    At(u128),
}

/// The state of a pacer.
pub struct PacerState {
    /// How the messages are spaced.
    pub pacing: Pacing,
    /// Messages per second in the long run.
    pub rate_hz: nat,
    /// When the next steady slot, or the next burst, begins.
    pub next_slot: nat,
    /// How many messages of the current burst are still to come.
    pub burst_remaining: nat,
}

impl PacerState {
    /// The time from one slot to the next: that of one message, or of one burst.
    pub open spec fn period(self) -> nat {
        match self.pacing {
            Pacing::Steady => 1_000_000_000nat / self.rate_hz,
            Pacing::Bursty { burst_size } => (1_000_000_000 * burst_size as nat) / self.rate_hz,
        }
    }

    /// Messages of a burst that come behind the first one.
    pub open spec fn burst_rest(self) -> nat {
        match self.pacing {
            Pacing::Steady => self.burst_remaining,
            Pacing::Bursty { burst_size } => if burst_size > 0 {
                (burst_size - 1) as nat
            } else {
                0
            },
        }
    }

    /// Whether the next message belongs to the current burst.
    pub open spec fn in_burst(self) -> bool {
        self.pacing is Bursty && self.burst_remaining > 0
    }

    /// The state after the next message was asked for.
    pub open spec fn ticked(self) -> PacerState {
        if self.in_burst() {
            PacerState { burst_remaining: (self.burst_remaining - 1) as nat, ..self }
        } else {
            self
        }
    }

    /// The state after the slot was reached, at the time `now`: the next slot is one
    /// period later, counted from now when that is more than a second ago.
    pub open spec fn reached(self, now: nat) -> PacerState {
        let next = self.next_slot + self.period();
        PacerState {
            next_slot: if now > next + SECOND_NS {
                now + self.period()
            } else {
                next
            },
            burst_remaining: self.burst_rest(),
            ..self
        }
    }
}

/// Spaces the messages of a feed.
#[derive(Clone, Copy, Debug, PartialEq, Eq)]
pub struct Pacer {
    pacing: Pacing,
    rate_hz: u32,
    next_slot: u128,
    burst_remaining: u32,
}

impl Pacer {
    /// The state of the pacer.
    pub closed spec fn view(&self) -> PacerState {
        PacerState {
            pacing: self.pacing,
            rate_hz: self.rate_hz as nat,
            next_slot: self.next_slot as nat,
            burst_remaining: self.burst_remaining as nat,
        }
    }

    /// A pacer whose first message is due at the time `now`.
    pub fn new(config: &SubscriberConfig, now: u128) -> (pacer: Pacer)
        ensures
            pacer@ == (PacerState {
                pacing: config.pacing,
                rate_hz: config.rate_hz as nat,
                next_slot: now as nat,
                burst_remaining: 0,
            }),
    {
        Pacer { pacing: config.pacing, rate_hz: config.rate_hz, next_slot: now, burst_remaining: 0 }
    }

    /// When the next message is due. When that is at a certain time, [`Pacer::reached`]
    /// is to be called once it has come.
    pub fn next_tick(&mut self) -> (tick: Tick)
        ensures
            final(self)@ == old(self)@.ticked(),
            tick == if old(self)@.in_burst() {
                Tick::Now
            } else {
                Tick::At(old(self)@.next_slot as u128)
            },
    {
        match self.pacing {
            Pacing::Steady => Tick::At(self.next_slot),
            Pacing::Bursty { burst_size: _ } => {
                if self.burst_remaining > 0 {
                    self.burst_remaining = self.burst_remaining - 1;
                    return Tick::Now;
                }
                Tick::At(self.next_slot)
            },
        }
    }

    /// The time of a slot, in nanoseconds.
    fn period(&self) -> (period: u128)
        requires
            self@.rate_hz > 0,
        ensures
            period == self@.period(),
            period <= 1_000_000_000 * u32::MAX,
    {
        match self.pacing {
            Pacing::Steady => {
                assert(1_000_000_000nat / self@.rate_hz <= 1_000_000_000) by (nonlinear_arith)
                    requires
                        self@.rate_hz > 0,
                ;
                (1_000_000_000 / self.rate_hz as u64) as u128
            },
            Pacing::Bursty { burst_size } => {
                let total: u64 = 1_000_000_000 * burst_size as u64;
                assert(total as nat / self@.rate_hz <= total) by (nonlinear_arith)
                    requires
                        self@.rate_hz > 0,
                ;
                (total / self.rate_hz as u64) as u128
            },
        }
    }

    /// The slot that was waited for has come, at the time `now`.
    pub fn reached(&mut self, now: u128)
        requires
            old(self)@.rate_hz > 0,
            old(self)@.next_slot + old(self)@.period() + SECOND_NS <= u128::MAX,
            now + old(self)@.period() <= u128::MAX,
        ensures
            final(self)@ == old(self)@.reached(now as nat),
    {
        let period: u128 = self.period();
        self.next_slot = self.next_slot + period;
        match self.pacing {
            Pacing::Steady => {},
            Pacing::Bursty { burst_size } => {
                self.burst_remaining = burst_size.saturating_sub(1);
            },
        }
        // A pacer that fell badly behind does not catch up.
        if now > self.next_slot + SECOND_NS {
            self.next_slot = now + period;
        }
    }
}

/// How long to sleep next while waiting for `target`: `None` when it has come or a stop
/// was asked for.
pub fn next_sleep(now: u128, target: u128, stop: bool) -> (sleep: Option<u128>)
    ensures
        sleep == if now >= target || stop {
            None::<u128>
        } else if target - now < MAX_SLICE_NS {
            Some((target - now) as u128)
        } else {
            Some(MAX_SLICE_NS)
        },
{
    if now >= target || stop {
        return None;
    }
    let remaining: u128 = target - now;
    if remaining < MAX_SLICE_NS {
        Some(remaining)
    } else {
        Some(MAX_SLICE_NS)
    }
}

impl PacerState {
    /// The state after `n` slots, each reached in time.
    pub open spec fn after_slots(self, n: nat) -> PacerState
        decreases n,
    {
        if n == 0 {
            self
        } else {
            let before = self.after_slots((n - 1) as nat);
            before.reached(before.next_slot)
        }
    }

    /// The state after `n` more messages were asked for.
    pub open spec fn after_ticks(self, n: nat) -> PacerState
        decreases n,
    {
        if n == 0 {
            self
        } else {
            self.after_ticks((n - 1) as nat).ticked()
        }
    }
}

/// A pacer in time keeps its rate: slots lie exactly one period apart.
pub proof fn law_slots_are_evenly_spaced(state: PacerState, n: nat)
    ensures
        state.after_slots(n).next_slot == state.next_slot + n * state.period(),
        state.after_slots(n).period() == state.period(),
    decreases n,
{
    if n > 0 {
        law_slots_are_evenly_spaced(state, (n - 1) as nat);
        let p = state.period();
        assert(n * p == (n - 1) * p + p) by (nonlinear_arith)
            requires
                n > 0,
        ;
    } else {
        assert(0 * state.period() == 0) by (nonlinear_arith);
    }
}

/// A burst has as many messages as it is to have: behind the one at the slot, as many
/// are due at once as are missing to the size of the burst, and none after that. With
/// one burst in each period, the long-run rate is that of the configuration.
pub proof fn law_bursts_are_complete(state: PacerState, now: nat, n: nat)
    requires
        state.pacing is Bursty,
        state.pacing->burst_size > 0,
        n < state.pacing->burst_size,
    ensures
        ({
            let later = state.reached(now).after_ticks(n);
            &&& later.in_burst() <==> n + 1 < state.pacing->burst_size
            &&& later.burst_remaining == state.pacing->burst_size - 1 - n
            &&& later.next_slot == state.reached(now).next_slot
            &&& later.pacing == state.pacing
        }),
    decreases n,
{
    if n > 0 {
        law_bursts_are_complete(state, now, (n - 1) as nat);
    }
}

/// A slot never lies more than a second behind once it was reached: a pacer that is
/// late by more starts over from now.
pub proof fn law_lateness_is_bounded(state: PacerState, now: nat)
    ensures
        now <= state.reached(now).next_slot + SECOND_NS,
{
}

/// A new pacer has the pacing and the rate of its configuration, and its first message is due
/// at once.
pub proof fn law_first_message_is_due_at_once(
    config: SubscriberConfig,
    now: u128,
    pacer: &mut Pacer,
    tick: Tick,
)
    requires
        call_ensures(Pacer::new, (&config, now), *old(pacer)),
        call_ensures(Pacer::next_tick, (pacer,), tick),
    ensures
        old(pacer)@.pacing == config.pacing,
        old(pacer)@.rate_hz == config.rate_hz,
        tick == Tick::At(now),
        final(pacer)@ == old(pacer)@,
{
}

/// The time between two messages of a steady feed is a second divided by the rate, rounded
/// down to nanoseconds: with `p` nanoseconds between them, `rate` messages take no more than a
/// second, and with one nanosecond more they would take longer. A message that was reached
/// more than a second late is not made up for.
pub proof fn law_steady_messages_keep_the_rate(
    first: &mut Pacer,
    due: Tick,
    reaching: &mut Pacer,
    now: u128,
    second: &mut Pacer,
    next_due: Tick,
)
    requires
        old(first)@.pacing == Pacing::Steady,
        old(first)@.rate_hz > 0,
        call_ensures(Pacer::next_tick, (first,), due),
        *old(reaching) == *final(first),
        call_ensures(Pacer::reached, (reaching, now), ()),
        *old(second) == *final(reaching),
        call_ensures(Pacer::next_tick, (second,), next_due),
    ensures
        due is At && next_due is At,
        due->At_0 == old(first)@.next_slot,
        now <= due->At_0 + 1_000_000_000 ==> {
            let p = next_due->At_0 - due->At_0;
            0 <= p && p * old(first)@.rate_hz <= 1_000_000_000 < (p + 1) * old(first)@.rate_hz
        },
        now > due->At_0 + 2_000_000_000 ==> {
            let p = next_due->At_0 - now;
            0 <= p && p * old(first)@.rate_hz <= 1_000_000_000 < (p + 1) * old(first)@.rate_hz
        },
        ({
            let rate = old(first)@.rate_hz;
            exists|p: int| #[trigger]
                is_quotient(p, 1_000_000_000, rate as int) && next_due->At_0 == if now > due->At_0 + p + 1_000_000_000 {
                    now + p
                } else {
                    due->At_0 + p
                }
        }),
        final(second)@.pacing == old(first)@.pacing,
        final(second)@.rate_hz == old(first)@.rate_hz,
{
    let rate = old(first)@.rate_hz as int;
    lemma_is_quotient(1_000_000_000, rate);
    let p = 1_000_000_000int / rate;
    assert(old(first)@.period() == p);
    assert(p <= 1_000_000_000) by (nonlinear_arith)
        requires
            p * rate <= 1_000_000_000,
            p >= 0,
            rate > 0,
    ;
}

/// Whether `p` is `total` divided by `rate`, rounded down.
pub open spec fn is_quotient(p: int, total: int, rate: int) -> bool {
    0 <= p && p * rate <= total < (p + 1) * rate
}

proof fn lemma_is_quotient(total: int, rate: int)
    requires
        total >= 0,
        rate > 0,
    ensures
        is_quotient(total / rate, total, rate),
{
    vstd::arithmetic::div_mod::lemma_fundamental_div_mod(total, rate);
    vstd::arithmetic::div_mod::lemma_mod_bound(total, rate);
    vstd::arithmetic::div_mod::lemma_div_pos_is_pos(total, rate);
    let p = total / rate;
    assert(p * rate <= total < (p + 1) * rate) by (nonlinear_arith)
        requires
            total == rate * p + total % rate,
            0 <= total % rate < rate,
    ;
}

/// Between two bursts lies the time of as many messages as a burst has, at the rate, rounded
/// down to nanoseconds; and all messages of a burst but the first are then still to come.
pub proof fn law_bursts_keep_the_rate(
    first: &mut Pacer,
    due: Tick,
    reaching: &mut Pacer,
    now: u128,
    burst_size: u32,
)
    requires
        old(first)@.pacing == (Pacing::Bursty { burst_size }),
        burst_size > 0,
        old(first)@.rate_hz > 0,
        old(first)@.burst_remaining == 0,
        call_ensures(Pacer::next_tick, (first,), due),
        *old(reaching) == *final(first),
        call_ensures(Pacer::reached, (reaching, now), ()),
    ensures
        due is At,
        due->At_0 == old(first)@.next_slot,
        now <= due->At_0 + 1_000_000_000 ==> {
            let p = final(reaching)@.next_slot - due->At_0;
            0 <= p && p * old(first)@.rate_hz <= 1_000_000_000 * burst_size < (p + 1) * old(first)@.rate_hz
        },
        ({
            let rate = old(first)@.rate_hz;
            exists|p: int| #[trigger]
                is_quotient(p, 1_000_000_000 * burst_size, rate as int) && final(reaching)@.next_slot == if now
                    > due->At_0 + p + 1_000_000_000 {
                    now + p
                } else {
                    due->At_0 + p
                }
        }),
        final(reaching)@.burst_remaining == burst_size - 1,
        final(reaching)@.pacing == old(first)@.pacing,
        final(reaching)@.rate_hz == old(first)@.rate_hz,
{
    let rate = old(first)@.rate_hz as int;
    lemma_is_quotient(1_000_000_000 * burst_size, rate);
    assert(old(first)@.period() == (1_000_000_000 * burst_size) / rate);
}

/// A feed keeps the rate that it was configured with, from its start on: the first message is
/// due at the start, and when it is reached in time, the next one that is not part of the same
/// burst is due after the time of one message or, with bursts, of one burst.
pub proof fn law_configured_rate_is_kept(
    config: SubscriberConfig,
    start: u128,
    first: &mut Pacer,
    due: Tick,
    reaching: &mut Pacer,
    now: u128,
    second: &mut Pacer,
    next_due: Tick,
)
    requires
        config.rate_hz > 0,
        config.pacing != (Pacing::Bursty { burst_size: 0 }),
        call_ensures(Pacer::new, (&config, start), *old(first)),
        call_ensures(Pacer::next_tick, (first,), due),
        *old(reaching) == *final(first),
        call_ensures(Pacer::reached, (reaching, now), ()),
        now <= start + 1_000_000_000,
        // In a burst, the one asked next is the first behind the rest of the burst.
        old(second)@ == (PacerState { burst_remaining: 0, ..final(reaching)@ }),
        call_ensures(Pacer::next_tick, (second,), next_due),
    ensures
        due == Tick::At(start),
        next_due is At,
        ({
            let p = next_due->At_0 - start;
            let messages = match config.pacing {
                Pacing::Steady => 1int,
                Pacing::Bursty { burst_size } => burst_size as int,
            };
            &&& 0 <= p
            &&& p * config.rate_hz <= 1_000_000_000 * messages < (p + 1) * config.rate_hz
            &&& final(reaching)@.burst_remaining == messages - 1
        }),
{
    let rate = config.rate_hz as int;
    match config.pacing {
        Pacing::Steady => {
            lemma_is_quotient(1_000_000_000, rate);
            assert(old(first)@.period() == 1_000_000_000int / rate);
        },
        Pacing::Bursty { burst_size } => {
            lemma_is_quotient(1_000_000_000 * burst_size, rate);
            assert(old(first)@.period() == (1_000_000_000 * burst_size) / rate);
        },
    }
}

/// What is still to come of a burst is due at once, one after the other, and the next burst
/// at its slot.
pub proof fn law_rest_of_a_burst_is_due_at_once(pacer: &mut Pacer, tick: Tick)
    requires
        old(pacer)@.pacing is Bursty,
        call_ensures(Pacer::next_tick, (pacer,), tick),
    ensures
        old(pacer)@.burst_remaining > 0 ==> tick == Tick::Now && final(pacer)@.burst_remaining == old(pacer)@.burst_remaining - 1,
        old(pacer)@.burst_remaining == 0 ==> tick is At && tick->At_0 == old(pacer)@.next_slot && final(pacer)@.burst_remaining == 0,
        final(pacer)@.next_slot == old(pacer)@.next_slot,
        final(pacer)@.pacing == old(pacer)@.pacing,
        final(pacer)@.rate_hz == old(pacer)@.rate_hz,
{
}

/// Sleeping never goes beyond the time that is waited for, nor on for more than a twentieth
/// of a second at once; it goes on exactly as long as that time has not come and nobody
/// asked for a stop.
pub proof fn law_sleep_never_overshoots(now: u128, target: u128, stop: bool, sleep: Option<u128>)
    requires
        call_ensures(next_sleep, (now, target, stop), sleep),
    ensures
        sleep is Some <==> now < target && !stop,
        sleep is Some ==> {
            let pause = sleep->Some_0;
            &&& 0 < pause <= 50_000_000
            &&& now + pause <= target
            &&& pause == 50_000_000 || now + pause == target
        },
{
}

} // verus!
