//! A circuit breaker for calls to an outside service.
//!
//! * Closed: requests pass.
//! * Open: requests are refused, until the timeout has run out.
//! * HalfOpen: one probe request passes; its success closes the circuit, its
//!   failure opens it again.

use vstd::prelude::*;

use crate::clock::seconds_since_epoch;
use crate::text::{decimal_of, numbers_read_back, opt_str_view, parse_decimal, parsed_decimal};

verus! {

/// Failures that trip the circuit, where nothing else is configured.
pub const DEFAULT_THRESHOLD: u32 = 5;

/// Seconds before a probe, where nothing else is configured.
pub const DEFAULT_TIMEOUT: u64 = 30;

#[derive(Debug, Clone, Copy, PartialEq, Eq, Structural)]
pub enum CircuitState {
    Closed,
    Open,
    HalfOpen,
}

/// The breaker as its contracts speak of it.
pub struct Breaker {
    /// Failures since the last success, as a 32-bit counter.
    pub failures: u32,
    pub threshold: u32,
    pub timeout: u64,
    /// Epoch seconds at which the circuit was last opened.
    pub opened_at: u64,
    pub state: CircuitState,
    /// The one request that may pass while the circuit is half-open has passed,
    /// and nothing has been recorded since.
    pub probing: bool,
}

pub struct CircuitBreaker {
    failure_count: u32,
    threshold: u32,
    timeout: u64,
    opened_at: u64,
    state: CircuitState,
    probing: bool,
}

impl View for CircuitBreaker {
    type V = Breaker;

    closed spec fn view(&self) -> Breaker {
        Breaker {
            failures: self.failure_count,
            threshold: self.threshold,
            timeout: self.timeout,
            opened_at: self.opened_at,
            state: self.state,
            probing: self.probing,
        }
    }
}

impl Breaker {
    /// A circuit that nothing has been recorded in.
    pub open spec fn fresh(threshold: u32, timeout: u64) -> Breaker {
        Breaker {
            failures: 0,
            threshold,
            timeout,
            opened_at: 0,
            state: CircuitState::Closed,
            probing: false,
        }
    }

    /// At `now` the open circuit has waited long enough. A clock that went
    /// backwards counts as no time at all.
    pub open spec fn timed_out(self, now: u64) -> bool {
        (if now >= self.opened_at {
            now - self.opened_at
        } else {
            0
        }) >= self.timeout
    }

    /// The circuit as it stands at `now`: an open one that has waited long enough
    /// is half-open.
    pub open spec fn at(self, now: u64) -> Breaker {
        if self.state == CircuitState::Open && self.timed_out(now) {
            Breaker { state: CircuitState::HalfOpen, probing: false, ..self }
        } else {
            self
        }
    }

    /// A request may pass.
    pub open spec fn admits(self) -> bool {
        match self.state {
            CircuitState::Closed => true,
            CircuitState::HalfOpen => !self.probing,
            CircuitState::Open => false,
        }
    }

    /// The circuit after a request has asked to pass: the first one to ask a
    /// half-open circuit is its probe.
    pub open spec fn asked(self) -> Breaker {
        if self.state == CircuitState::HalfOpen {
            Breaker { probing: true, ..self }
        } else {
            self
        }
    }

    /// The circuit after a call that succeeded.
    pub open spec fn succeeded(self) -> Breaker {
        Breaker { failures: 0, state: CircuitState::Closed, probing: false, ..self }
    }

    /// The failure counter after one more failure; it wraps at 32 bits.
    pub open spec fn counted(self) -> u32 {
        if self.failures == u32::MAX {
            0
        } else {
            (self.failures + 1) as u32
        }
    }

    /// The circuit after a call that failed at `now`.
    pub open spec fn failed(self, now: u64) -> Breaker {
        let counted = Breaker { failures: self.counted(), probing: false, ..self };
        if self.state == CircuitState::HalfOpen || self.counted() >= self.threshold {
            Breaker { state: CircuitState::Open, opened_at: now, ..counted }
        } else {
            counted
        }
    }

    /// The circuit after calls that failed at `times`, one after another.
    pub open spec fn failed_at(self, times: Seq<u64>) -> Breaker
        decreases times.len(),
    {
        if times.len() == 0 {
            self
        } else {
            self.failed_at(times.drop_last()).failed(times.last())
        }
    }
}

/// What a configured number stands for: itself where it is one that fits, and
/// `default` where it is missing or is none.
pub open spec fn configured(text: Option<Seq<char>>, max: nat, default: nat) -> nat {
    match text {
        Some(s) => match parsed_decimal(s, max) {
            Some(n) => n,
            None => default,
        },
        None => default,
    }
}

/// Reads a configured number no greater than `max`.
pub fn number_or(text: Option<&str>, max: u64, default: u64) -> (r: u64)
    requires
        default <= max,
    ensures
        r == configured(opt_str_view(text), max as nat, default as nat),
        r <= max,
{
    match text {
        Some(s) => match parse_decimal(s, max) {
            Some(n) => n,
            None => default,
        },
        None => default,
    }
}

impl CircuitBreaker {
    /// A closed circuit. `threshold` and `timeout_s` are the configured number of
    /// failures that trips it and of seconds before a probe, as they were written.
    pub fn new(threshold: Option<&str>, timeout_s: Option<&str>) -> (r: CircuitBreaker)
        ensures
            r@ == Breaker::fresh(
                configured(opt_str_view(threshold), u32::MAX as nat, DEFAULT_THRESHOLD as nat) as u32,
                configured(opt_str_view(timeout_s), u64::MAX as nat, DEFAULT_TIMEOUT as nat) as u64,
            ),
    {
        let threshold: u32 = number_or(threshold, u32::MAX as u64, DEFAULT_THRESHOLD as u64) as u32;
        let timeout: u64 = number_or(timeout_s, u64::MAX, DEFAULT_TIMEOUT);
        CircuitBreaker::with_limits(threshold, timeout)
    }

    /// A closed circuit that `threshold` failures trip, and that lets a probe
    /// through `timeout` seconds later.
    pub fn with_limits(threshold: u32, timeout: u64) -> (r: CircuitBreaker)
        ensures
            r@ == Breaker::fresh(threshold, timeout),
    {
        CircuitBreaker {
            failure_count: 0,
            threshold,
            timeout,
            opened_at: 0,
            state: CircuitState::Closed,
            probing: false,
        }
    }

    /// The seconds since the Unix epoch; zero on a clock set before it.
    fn now_epoch() -> u64 {
        seconds_since_epoch()
    }

    /// The state at this moment. An open circuit whose timeout has run out becomes
    /// half-open.
    pub fn state(&mut self) -> (r: CircuitState)
        ensures
            exists|now: u64| final(self)@ == #[trigger] old(self)@.at(now),
            r == final(self)@.state,
    {
        let now: u64 = Self::now_epoch();
        self.state_at(now)
    }

    /// The state at `now`.
    pub fn state_at(&mut self, now: u64) -> (r: CircuitState)
        ensures
            final(self)@ == old(self)@.at(now),
            r == final(self)@.state,
    {
        match self.state {
            CircuitState::Open => {
                let waited: u64 = if now >= self.opened_at {
                    now - self.opened_at
                } else {
                    0
                };
                if waited >= self.timeout {
                    self.state = CircuitState::HalfOpen;
                    self.probing = false;
                }
            },
            _ => {},
        }
        self.state
    }

    /// Whether a request may pass at this moment.
    pub fn allow_request(&mut self) -> (r: bool)
        ensures
            exists|now: u64|
                #![trigger old(self)@.at(now)]
                r == old(self)@.at(now).admits() && final(self)@ == old(self)@.at(now).asked(),
    {
        let now: u64 = Self::now_epoch();
        self.allow_request_at(now)
    }

    /// Whether a request may pass at `now`.
    pub fn allow_request_at(&mut self, now: u64) -> (r: bool)
        ensures
            r == old(self)@.at(now).admits(),
            final(self)@ == old(self)@.at(now).asked(),
    {
        match self.state_at(now) {
            CircuitState::Closed => true,
            CircuitState::HalfOpen => {
                let free = !self.probing;
                self.probing = true;
                free
            },
            CircuitState::Open => false,
        }
    }

    /// Records a call that succeeded: the circuit is closed again.
    pub fn record_success(&mut self)
        ensures
            final(self)@ == old(self)@.succeeded(),
    {
        self.failure_count = 0;
        self.state = CircuitState::Closed;
        self.probing = false;
    }

    /// Records a call that failed at this moment; it may trip the circuit.
    pub fn record_failure(&mut self)
        ensures
            exists|now: u64| final(self)@ == #[trigger] old(self)@.failed(now),
    {
        let now: u64 = Self::now_epoch();
        self.record_failure_at(now)
    }

    /// Records a call that failed at `now`.
    pub fn record_failure_at(&mut self, now: u64)
        ensures
            final(self)@ == old(self)@.failed(now),
    {
        let count: u32 = self.failure_count.wrapping_add(1);
        self.failure_count = count;
        self.probing = false;
        match self.state {
            CircuitState::HalfOpen => {
                self.state = CircuitState::Open;
                self.opened_at = now;
            },
            _ => {
                if count >= self.threshold {
                    self.state = CircuitState::Open;
                    self.opened_at = now;
                }
            },
        }
    }
}

proof fn lemma_failures_count(b: Breaker, times: Seq<u64>)
    requires
        b.state == CircuitState::Closed,
        b.failures + times.len() <= u32::MAX,
    ensures
        b.failed_at(times).failures == b.failures + times.len(),
        b.failed_at(times).threshold == b.threshold,
        b.failed_at(times).timeout == b.timeout,
        times.len() == 0 ==> b.failed_at(times) == b,
        0 < times.len() && b.failures + times.len() < b.threshold ==> b.failed_at(times).state
            == CircuitState::Closed,
        0 < times.len() && b.failures + times.len() >= b.threshold ==> {
            &&& b.failed_at(times).state == CircuitState::Open
            &&& b.failed_at(times).opened_at == times.last()
        },
    decreases times.len(),
{
    if times.len() > 0 {
        lemma_failures_count(b, times.drop_last());
    }
}

/// A circuit that was just closed stays closed through fewer failures than its
/// threshold and is open after that many, or more, with no success between them.
/// (A threshold of zero trips at the first failure.)
pub proof fn trips_at_threshold(b: Breaker, times: Seq<u64>)
    requires
        b.state == CircuitState::Closed,
        b.failures == 0,
        times.len() <= u32::MAX,
    ensures
        b.failed_at(times).state == (if times.len() > 0 && times.len() >= b.threshold {
            CircuitState::Open
        } else {
            CircuitState::Closed
        }),
{
    lemma_failures_count(b, times);
}

/// An open circuit refuses every request until its timeout has run out since it
/// was opened, and stays as it is.
pub proof fn open_refuses_until_timeout(b: Breaker, now: u64)
    requires
        b.state == CircuitState::Open,
        now < b.opened_at + b.timeout,
        now < b.opened_at ==> b.timeout > 0,
    ensures
        !b.at(now).admits(),
        b.at(now).asked() == b,
{
}

/// Once its timeout has run out, an open circuit lets one request through and no
/// second one, whenever that one asks, until the outcome of a call is recorded.
pub proof fn half_open_admits_one_probe(b: Breaker, first: u64, later: u64)
    requires
        b.state == CircuitState::Open,
        first >= b.opened_at + b.timeout,
    ensures
        b.at(first).admits(),
        !b.at(first).asked().at(later).admits(),
        b.at(first).asked().at(later).asked() == b.at(first).asked(),
{
}

/// A probe that succeeds closes the circuit and forgets its failures; one that
/// fails opens it again, for a whole timeout from then.
pub proof fn probe_decides(b: Breaker, now: u64, later: u64)
    requires
        b.state == CircuitState::HalfOpen,
    ensures
        b.succeeded().state == CircuitState::Closed,
        b.succeeded().failures == 0,
        b.succeeded().at(later).admits(),
        b.failed(now).state == CircuitState::Open,
        b.failed(now).opened_at == now,
        now <= later < now + b.timeout ==> !b.failed(now).at(later).admits(),
{
}

/// Asking for the state counts nothing, and changes nothing for whoever asks later.
pub proof fn looking_changes_nothing(b: Breaker, now: u64, later: u64)
    requires
        now <= later,
    ensures
        b.at(now).at(later) == b.at(later),
        b.at(now).failures == b.failures,
        b.at(now).opened_at == b.opened_at,
{
}

/// A success wipes the slate, whatever the circuit looked like before it: requests pass,
/// no failure is remembered, and it takes a full threshold of failures in a row, neither
/// fewer nor more, to open the circuit again.
pub proof fn a_success_wipes_the_slate(b: Breaker, times: Seq<u64>, now: u64)
    requires
        times.len() <= u32::MAX,
    ensures
        b.succeeded().at(now).admits(),
        b.succeeded().at(now).state == CircuitState::Closed,
        times.len() < b.threshold ==> b.succeeded().failed_at(times).at(now).admits(),
        b.succeeded().failed_at(times).state == (if times.len() > 0 && times.len() >= b.threshold {
            CircuitState::Open
        } else {
            CircuitState::Closed
        }),
        b.succeeded().threshold == b.threshold,
        b.succeeded().timeout == b.timeout,
{
    lemma_failures_count(b.succeeded(), times);
}

/// Failures add up: a closed circuit that remembers some opens once these and the new
/// ones reach the threshold, and not before.
pub proof fn failures_add_up(b: Breaker, times: Seq<u64>)
    requires
        b.state == CircuitState::Closed,
        times.len() > 0,
        b.failures + times.len() <= u32::MAX,
    ensures
        b.failed_at(times).state == CircuitState::Open <==> b.failures + times.len() >= b.threshold,
        b.failed_at(times).state == CircuitState::Open || b.failed_at(times).state
            == CircuitState::Closed,
        b.failed_at(times).state == CircuitState::Open ==> b.failed_at(times).opened_at
            == times.last(),
        b.failed_at(times).threshold == b.threshold,
        b.failed_at(times).timeout == b.timeout,
{
    lemma_failures_count(b, times);
}

/// A closed circuit lets every request pass at every moment, and asking leaves it as it
/// is.
pub proof fn a_closed_circuit_lets_pass(b: Breaker, now: u64)
    requires
        b.state == CircuitState::Closed,
    ensures
        b.at(now).admits(),
        b.at(now).asked() == b,
{
}

/// An open circuit becomes half-open when its timeout has run out, to the second, and
/// the request that finds it so passes.
pub proof fn an_open_circuit_waits_out_its_timeout(b: Breaker, now: u64)
    requires
        b.state == CircuitState::Open,
        b.opened_at <= now,
    ensures
        b.at(now).admits() <==> now - b.opened_at >= b.timeout,
        b.at(now).state == (if now - b.opened_at >= b.timeout {
            CircuitState::HalfOpen
        } else {
            CircuitState::Open
        }),
{
}

/// A new circuit is closed, and a full threshold of failures opens it.
pub proof fn a_new_circuit_is_closed(threshold: u32, timeout: u64, times: Seq<u64>)
    requires
        0 < times.len() <= u32::MAX,
    ensures
        Breaker::fresh(threshold, timeout).state == CircuitState::Closed,
        Breaker::fresh(threshold, timeout).failed_at(times).state == (if times.len() >= threshold {
            CircuitState::Open
        } else {
            CircuitState::Closed
        }),
        Breaker::fresh(threshold, timeout).failed_at(times).timeout == timeout,
{
    lemma_failures_count(Breaker::fresh(threshold, timeout), times);
}

/// A configured number counts as written where it fits, and not at all where it is
/// missing, is too large or is no number.
pub proof fn configured_numbers_count(n: nat, max: nat, default: nat)
    ensures
        configured(Some(decimal_of(n)), max, default) == (if n <= max {
            n
        } else {
            default
        }),
        configured(None, max, default) == default,
        configured(Some(Seq::empty()), max, default) == default,
{
    numbers_read_back(n, max);
}

/// A failure that comes while a tripped circuit is open keeps it open, for a whole
/// timeout from then.
pub proof fn a_late_failure_starts_the_wait_anew(b: Breaker, now: u64, later: u64)
    requires
        b.state == CircuitState::Open,
        b.threshold <= b.failures < u32::MAX,
        now <= later,
    ensures
        b.failed(now).at(later).admits() <==> later - now >= b.timeout,
{
}

/// Asking to call changes nothing but whether a trial call is under way, and that only
/// where one can be. A failure ends it.
pub proof fn asking_counts_nothing(b: Breaker, now: u64)
    ensures
        b.asked().failures == b.failures,
        b.asked().state == b.state,
        b.asked().opened_at == b.opened_at,
        b.asked().threshold == b.threshold,
        b.asked().timeout == b.timeout,
        b.asked().probing == (b.probing || b.state == CircuitState::HalfOpen),
        !b.failed(now).probing,
        !b.succeeded().probing,
        b.failed(now).threshold == b.threshold,
        b.failed(now).timeout == b.timeout,
        b.succeeded().threshold == b.threshold,
        b.succeeded().timeout == b.timeout,
{
}

} // verus!
