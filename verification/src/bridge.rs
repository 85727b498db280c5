//! The bridge: an agent extended over a network connection.
//!
//! A bridge forwards the raw payloads that reach its agent to a socket,
//! one frame each, and hands everything else to its caller. When the
//! connection is lost it connects again, waiting between attempts as the
//! reconnect policy says and giving up when the retry budget is spent.
//! Sockets and timers are not touched here: the program around the
//! library makes the attempts, sleeps and waits, and tells the bridge
//! what happened; the bridge decides what follows.

use vstd::prelude::*;
use vstd::arithmetic::power2::{lemma2_to64, lemma_pow2_unfold, pow2};
use std::time::Duration;
use crate::agent::{decodes, Agent};
use crate::buffer::bytes_as_slice;
use crate::errors::Error;
use crate::frame::{framed, Frame, MAX_PAYLOAD_LEN};
use crate::message::{Message, Notice};
use crate::router::{Envelope, Router};

verus! {

/// The span of `secs` whole seconds.
pub uninterp spec fn duration_of_secs(secs: u64) -> Duration;

/// `Duration::from_secs` of std. Trusted: the result is the span of
/// `secs` whole seconds, the same for the same number every time.
pub assume_specification[ Duration::from_secs ](secs: u64) -> (span: Duration)
    ensures
        span == duration_of_secs(secs),
;

/// How long to wait between connection attempts.
#[derive(Debug, Clone, Copy)]
pub enum Reconnect {
    /// Always the same wait.
    Constant(Duration),
    /// A wait of `seconds`, at most `max` where a maximum is given; the
    /// next wait is twice as long.
    Exponential { seconds: u64, max: Option<u64> },
}

/// How many connection attempts to make before giving up.
#[derive(Debug, Copy, Clone)]
pub enum Retry {
    /// One attempt, no second one.
    Never,
    /// As many as it takes.
    Forever,
    /// This many attempts, the first one counted; at least one is made.
    Count(usize),
}

/// `seconds`, held down to `max` where a maximum is given.
pub open spec fn capped(seconds: u64, max: Option<u64>) -> u64 {
    match max {
        Some(m) => if seconds <= m {
            seconds
        } else {
            m
        },
        None => seconds,
    }
}

/// Twice `seconds`, or the largest number of seconds there is if twice
/// would be more.
pub open spec fn doubled(seconds: u64) -> u64 {
    if seconds * 2 <= u64::MAX {
        (seconds * 2) as u64
    } else {
        u64::MAX
    }
}

impl Reconnect {
    /// The wait before the next attempt.
    pub open spec fn wait(self) -> Duration {
        match self {
            Reconnect::Constant(span) => span,
            Reconnect::Exponential { seconds, max } => duration_of_secs(capped(seconds, max)),
        }
    }

    /// The policy once that wait has been used.
    pub open spec fn advanced(self) -> Reconnect {
        match self {
            Reconnect::Constant(span) => self,
            Reconnect::Exponential { seconds, max } => Reconnect::Exponential {
                seconds: doubled(seconds),
                max,
            },
        }
    }

    /// The policy once `n` waits have been used.
    pub open spec fn advanced_by(self, n: nat) -> Reconnect
        decreases n,
    {
        if n == 0 {
            self
        } else {
            self.advanced_by((n - 1) as nat).advanced()
        }
    }

    /// Hands out the wait before the next attempt and moves the policy
    /// on.
    pub fn next_wait(&mut self) -> (span: Duration)
        ensures
            span == old(self).wait(),
            *final(self) == old(self).advanced(),
    {
        match self {
            Reconnect::Constant(span) => *span,
            Reconnect::Exponential { seconds, max } => {
                let secs: u64 = match max {
                    Some(m) => if *seconds <= *m {
                        *seconds
                    } else {
                        *m
                    },
                    None => *seconds,
                };
                let next: u64 = match seconds.checked_mul(2) {
                    Some(twice) => twice,
                    None => u64::MAX,
                };
                let span = Duration::from_secs(secs);
                *seconds = next;
                span
            },
        }
    }
}

impl Retry {
    /// The budget that is left after one more failed attempt, or `None`
    /// if that attempt was the last one allowed.
    pub open spec fn after_failure(self) -> Option<Retry> {
        match self {
            Retry::Never => None,
            Retry::Forever => Some(Retry::Forever),
            Retry::Count(n) => if n <= 1 {
                None
            } else {
                Some(Retry::Count((n - 1) as usize))
            },
        }
    }

    /// Whether a run of failed attempts that starts with this budget
    /// ends, given up, with exactly the `failures`-th failure.
    pub open spec fn gives_up_at(self, failures: nat) -> bool
        decreases failures,
    {
        if failures == 0 {
            false
        } else {
            match self.after_failure() {
                None => failures == 1,
                Some(left) => left.gives_up_at((failures - 1) as nat),
            }
        }
    }

    /// Takes one failed attempt off the budget.
    pub fn consume(self) -> (left: Option<Retry>)
        ensures
            left == self.after_failure(),
    {
        match self {
            Retry::Never => None,
            Retry::Forever => Some(Retry::Forever),
            Retry::Count(n) => if n <= 1 {
                None
            } else {
                Some(Retry::Count(n - 1))
            },
        }
    }
}

/// Decides what follows a failed connection attempt. One unit of the
/// retry budget is used up. If that was the last one the attempt is not
/// repeated: the call fails with `ReconnectExhausted` and changes
/// nothing. Otherwise it hands out the time to sleep before the next
/// attempt and moves the reconnect policy on.
pub fn connect_to(reconnect: &mut Reconnect, retry: &mut Retry) -> (out: Result<Duration, Error>)
    ensures
        (match old(retry).after_failure() {
            None => out == Err::<Duration, Error>(Error::ReconnectExhausted) && *final(reconnect)
                == *old(reconnect) && *final(retry) == *old(retry),
            Some(left) => out == Ok::<Duration, Error>(old(reconnect).wait()) && *final(reconnect)
                == old(reconnect).advanced() && *final(retry) == left,
        }),
{
    match retry.consume() {
        None => Err(Error::ReconnectExhausted),
        Some(left) => {
            *retry = left;
            Ok(reconnect.next_wait())
        },
    }
}

/// The number of seconds of the wait before the `n`-th retry, for a policy
/// that starts at `seconds`: the start doubled `n - 1` times, held down
/// to `max`, or to the largest number of seconds there is where no
/// maximum is given.
pub open spec fn nth_wait_secs(seconds: u64, max: Option<u64>, n: nat) -> nat
    recommends
        n >= 1,
{
    let grown = (seconds * pow2((n - 1) as nat)) as nat;
    let limit = match max {
        Some(m) => m as nat,
        None => u64::MAX as nat,
    };
    if grown <= limit {
        grown
    } else {
        limit
    }
}

/// After `k` waits an exponential policy stands at its start doubled `k`
/// times, or at the largest number of seconds there is if that would be
/// more.
proof fn lemma_exponential_advance(seconds: u64, max: Option<u64>, k: nat)
    ensures
        (Reconnect::Exponential { seconds, max }).advanced_by(k) == (Reconnect::Exponential {
            seconds: if seconds * pow2(k) <= u64::MAX {
                (seconds * pow2(k)) as u64
            } else {
                u64::MAX
            },
            max,
        }),
    decreases k,
{
    if k == 0 {
        lemma2_to64();
    } else {
        lemma_exponential_advance(seconds, max, (k - 1) as nat);
        lemma_pow2_unfold(k);
        let before = pow2((k - 1) as nat);
        assert(seconds * (2 * before) == 2 * (seconds * before)) by (nonlinear_arith);
    }
}

/// Exponential backoff: starting at `seconds` with the cap `max`, the
/// wait before the `n`-th retry is `min(seconds * 2^(n-1), max)` seconds.
/// Where no cap is given the wait doubles with every retry for as long
/// as the number of seconds can be held, and stays at the largest such
/// number from then on.
pub proof fn lemma_exponential_backoff(seconds: u64, max: Option<u64>, n: nat)
    requires
        n >= 1,
    ensures
        nth_wait_secs(seconds, max, n) <= u64::MAX,
        (Reconnect::Exponential { seconds, max }).advanced_by((n - 1) as nat).wait()
            == duration_of_secs(nth_wait_secs(seconds, max, n) as u64),
        max is None && seconds * pow2((n - 1) as nat) <= u64::MAX ==> nth_wait_secs(
            seconds,
            max,
            n,
        ) == seconds * pow2((n - 1) as nat),
        (max matches Some(m) ==> nth_wait_secs(seconds, max, n) == if seconds * pow2(
            (n - 1) as nat,
        ) <= m {
            seconds * pow2((n - 1) as nat)
        } else {
            m as int
        }),
{
    lemma_exponential_advance(seconds, max, (n - 1) as nat);
}

/// A constant policy never changes and always hands out the same wait.
pub proof fn lemma_constant_backoff(span: Duration, n: nat)
    ensures
        Reconnect::Constant(span).advanced_by(n) == Reconnect::Constant(span),
        Reconnect::Constant(span).advanced_by(n).wait() == span,
    decreases n,
{
    if n > 0 {
        lemma_constant_backoff(span, (n - 1) as nat);
    }
}

/// The retry budget: `Count(n)` allows exactly `n` attempts, the first
/// one counted, and at least one; `Never` allows exactly one; `Forever`
/// never gives up.
pub proof fn lemma_retry_budget(retry: Retry, failures: nat)
    ensures
        (match retry {
            Retry::Never => retry.gives_up_at(failures) <==> failures == 1,
            Retry::Forever => !retry.gives_up_at(failures),
            Retry::Count(n) => retry.gives_up_at(failures) <==> failures == if n <= 1 {
                1
            } else {
                n as nat
            },
        }),
    decreases failures,
{
    if failures > 0 {
        match retry.after_failure() {
            None => {},
            Some(left) => {
                lemma_retry_budget(left, (failures - 1) as nat);
            },
        }
    }
}

/// What the program around the bridge observed since the last step.
#[derive(Debug, Clone, Copy, PartialEq, Eq, Structural)]
pub enum Signal {
    /// The connection step gave up: no connection could be made.
    Unreachable,
    /// The receive side of the connection has closed.
    Closed,
    /// The receive side of the connection yielded something: it is alive.
    Alive,
    /// The agent's mailbox is ready to be read.
    Mailbox,
}

/// What an observation amounts to.
pub enum Action<T> {
    /// The agent produced this message.
    Message(T),
    /// The connection is gone and has to be made again.
    Reconnect,
    /// Nothing to act on.
    Continue,
}

impl<T> Action<T> {
    /// The name of the action, for logs.
    pub fn name(&self) -> (name: &'static str)
        ensures
            (name@ == match *self {
                Action::Message(_) => "Message"@,
                Action::Reconnect => "Reconnect"@,
                Action::Continue => "Continue"@,
            }),
    {
        match self {
            Action::Message(_) => "Message",
            Action::Reconnect => "Reconnect",
            Action::Continue => "Continue",
        }
    }
}

/// What one step of the bridge asks of the program around it.
pub enum Step<T> {
    /// Hand this message to the caller of the bridge.
    Deliver(Message<T>),
    /// Write this frame to the send side of the connection; the caller of
    /// the bridge hears nothing.
    Write(Vec<u8>),
    /// Nothing to do; the caller of the bridge hears nothing.
    Nothing,
}

/// The state of a bridge.
pub struct BridgeView {
    /// Whether a connection is held.
    pub connected: bool,
    /// The reconnect policy as it stands.
    pub reconnect: Reconnect,
    /// The retry budget that every connection step starts with.
    pub retry: Retry,
    /// What is left of the budget in the connection step under way.
    pub budget: Retry,
    /// The address of the bridge's agent.
    pub agent: Seq<u8>,
}

impl BridgeView {
    /// What taking in the outcome of a connection attempt comes to.
    /// After a success there is nothing to wait for. After a failure the
    /// budget decides: the wait before the next attempt, or
    /// `ReconnectExhausted` when that attempt was the last one allowed.
    pub open spec fn attempt_outcome(self, established: bool) -> Result<Option<Duration>, Error> {
        if established {
            Ok(None)
        } else {
            match self.budget.after_failure() {
                Some(_) => Ok(Some(self.reconnect.wait())),
                None => Err(Error::ReconnectExhausted),
            }
        }
    }

    /// The bridge after the outcome of a connection attempt has been
    /// taken in. A success or a spent budget ends the connection step, so
    /// that the next one starts with the whole budget again; a failure
    /// within the budget uses one unit of it and moves the reconnect
    /// policy on.
    pub open spec fn after_attempt(self, established: bool) -> BridgeView {
        if established {
            BridgeView { connected: true, budget: self.retry, ..self }
        } else {
            match self.budget.after_failure() {
                Some(left) => BridgeView {
                    connected: false,
                    budget: left,
                    reconnect: self.reconnect.advanced(),
                    ..self
                },
                None => BridgeView { connected: false, budget: self.retry, ..self },
            }
        }
    }

    /// The bridge after a step on `signal`: it lets go of its connection
    /// when the connection has closed or cannot be made.
    pub open spec fn after_signal(self, signal: Signal) -> BridgeView {
        BridgeView {
            connected: self.connected && signal != Signal::Closed && signal
                != Signal::Unreachable,
            ..self
        }
    }

    /// Whether a step on `signal` reads the agent's mailbox.
    pub open spec fn reads_mailbox(self, signal: Signal) -> bool {
        self.connected && signal == Signal::Mailbox
    }
}

/// Whether `out` is what a connected bridge makes of the mailbox message
/// `notice`. Raw bytes are framed for the wire, or refused if the frame
/// header cannot declare their length. A typed value, a removal notice
/// and the shutdown request go to the caller; a value of a type that the
/// agent does not expect goes nowhere.
pub open spec fn relays<T: 'static>(notice: Notice, out: Result<Step<T>, Error>) -> bool {
    match notice {
        Notice::RemoteMessage(bytes, _) => match out {
            Ok(Step::Write(frame)) => bytes.len() <= MAX_PAYLOAD_LEN && frame@ == framed(bytes),
            Err(e) => bytes.len() > MAX_PAYLOAD_LEN && e == Error::Framing,
            _ => false,
        },
        Notice::Message(_, _) => match out {
            Ok(Step::Deliver(msg)) => decodes(notice, Ok::<Message<T>, Error>(msg)),
            Ok(Step::Nothing) => decodes(
                notice,
                Err::<Message<T>, Error>(Error::InvalidMessageType),
            ),
            _ => false,
        },
        _ => match out {
            Ok(Step::Deliver(msg)) => decodes(notice, Ok::<Message<T>, Error>(msg)),
            _ => false,
        },
    }
}

/// An agent joined to a network connection.
pub struct Bridge<'addr, T> {
    agent: Agent<T>,
    addr: &'addr str,
    reconnect: Reconnect,
    heartbeat: Option<Duration>,
    retry: Retry,
    budget: Retry,
    connected: bool,
}

impl<'addr, T> View for Bridge<'addr, T> {
    type V = BridgeView;

    closed spec fn view(&self) -> BridgeView {
        BridgeView {
            connected: self.connected,
            reconnect: self.reconnect,
            retry: self.retry,
            budget: self.budget,
            agent: self.agent@,
        }
    }
}

impl<'addr, T: Send + 'static> Bridge<'addr, T> {
    /// A bridge for `agent` to the peer at `addr`. It holds no connection
    /// yet.
    pub fn new(
        agent: Agent<T>,
        addr: &'addr str,
        reconnect: Reconnect,
        retry: Retry,
        heartbeat: Option<Duration>,
    ) -> (bridge: Self)
        ensures
            bridge@ == (BridgeView {
                connected: false,
                reconnect,
                retry,
                budget: retry,
                agent: agent@,
            }),
            bridge.peer() == addr@,
            bridge.pulse() == heartbeat,
    {
        Bridge { agent, addr, reconnect, heartbeat, retry, budget: retry, connected: false }
    }

    /// The address of the peer, as text.
    pub closed spec fn peer(&self) -> Seq<char> {
        self.addr@
    }

    /// The heartbeat interval that the connection is to keep.
    pub closed spec fn pulse(&self) -> Option<Duration> {
        self.heartbeat
    }

    /// The address of the peer.
    pub fn addr(&self) -> (addr: &'addr str)
        ensures
            addr@ == self.peer(),
    {
        self.addr
    }

    /// The heartbeat interval that the connection is to keep.
    pub fn heartbeat(&self) -> (heartbeat: Option<Duration>)
        ensures
            heartbeat == self.pulse(),
    {
        self.heartbeat
    }

    /// Whether a connection is held.
    pub fn is_connected(&self) -> (connected: bool)
        ensures
            connected == self@.connected,
    {
        self.connected
    }

    /// Takes in the outcome of one connection attempt. After a success
    /// the bridge holds a connection. After a failure it says how long
    /// to sleep before the next attempt, or fails with
    /// `ReconnectExhausted` when the retry budget is spent. Every
    /// connection step starts with the whole budget; the reconnect policy
    /// carries over from one step to the next.
    pub fn reconnect(&mut self, established: bool) -> (out: Result<Option<Duration>, Error>)
        ensures
            out == old(self)@.attempt_outcome(established),
            final(self)@ == old(self)@.after_attempt(established),
            final(self).peer() == old(self).peer(),
            final(self).pulse() == old(self).pulse(),
    {
        if established {
            self.connected = true;
            self.budget = self.retry;
            return Ok(None);
        }
        self.connected = false;
        match connect_to(&mut self.reconnect, &mut self.budget) {
            Ok(span) => Ok(Some(span)),
            Err(e) => {
                self.budget = self.retry;
                Err(e)
            },
        }
    }

    /// Takes one step of the bridge's event loop on what was observed.
    ///
    /// `Unreachable` ends the bridge: the caller is handed the shutdown
    /// message. `Closed` drops the connection, so that the next step
    /// begins by connecting again. `Alive` changes nothing. On `Mailbox`
    /// a connected bridge reads its agent's mailbox: raw bytes are framed
    /// to be written to the connection, every other message goes to the
    /// caller as it is. A bridge without a connection leaves the mailbox
    /// alone.
    pub fn run(&mut self, router: &mut Router, signal: Signal) -> (out: Result<Step<T>, Error>)
        ensures
            final(self)@ == old(self)@.after_signal(signal),
            final(self).peer() == old(self).peer(),
            final(self).pulse() == old(self).pulse(),
            (final(router)@ == if old(self)@.reads_mailbox(signal) {
                old(router)@.take(old(self)@.agent)
            } else {
                old(router)@
            }),
            (match signal {
                Signal::Unreachable => out == Ok::<Step<T>, Error>(
                    Step::Deliver(Message::Shutdown),
                ),
                Signal::Closed => out == Ok::<Step<T>, Error>(Step::Nothing),
                Signal::Alive => out == Ok::<Step<T>, Error>(Step::Nothing),
                Signal::Mailbox => match old(router)@.next_for(old(self)@.agent) {
                    Some(notice) if old(self)@.connected => relays(notice, out),
                    _ => out == Ok::<Step<T>, Error>(Step::Nothing),
                },
            }),
    {
        let action: Action<Message<T>> = match signal {
            Signal::Unreachable => {
                self.connected = false;
                return Ok(Step::Deliver(Message::Shutdown));
            },
            Signal::Closed => Action::Reconnect,
            Signal::Alive => Action::Continue,
            Signal::Mailbox => {
                if !self.connected {
                    Action::Continue
                } else {
                    match self.agent.recv(router) {
                        Ok(Some(msg)) => Action::Message(msg),
                        Ok(None) => Action::Continue,
                        Err(_) => Action::Continue,
                    }
                }
            },
        };
        match action {
            Action::Message(Message::RemoteMessage(bytes, _sender)) => {
                match Frame::frame_message(bytes_as_slice(&bytes)) {
                    Ok(frame) => Ok(Step::Write(frame)),
                    Err(e) => Err(e),
                }
            },
            Action::Message(msg) => Ok(Step::Deliver(msg)),
            Action::Reconnect => {
                self.connected = false;
                Ok(Step::Nothing)
            },
            Action::Continue => Ok(Step::Nothing),
        }
    }
    /// Gives the bridge up: lets go of the connection and submits the
    /// removal of the agent's mailbox. Nothing is submitted if the
    /// router's queue is gone.
    pub fn release(self, router: &mut Router)
        ensures
            final(router)@ == old(router)@.submitted(Envelope::Unregister(self@.agent)),
    {
        self.agent.release(router);
    }
}

} // verus!
