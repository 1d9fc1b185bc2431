//! Dispatch: how the outcome of an attempt is judged, when and how long a
//! request waits before it is tried again, and how many requests may be
//! in flight at once.

use crate::request::{RequestModel, WireRequest};
use vstd::prelude::*;

verus! {

/// Why an attempt failed.
#[derive(Clone, Copy, Debug, PartialEq, Eq)]
pub enum Reason {
    /// The transport failed: no connection, or no answer in time.
    Transport,
    /// The destination answered with this status.
    Status(u16),
}

/// What came back from one attempt to send a request.
#[derive(Clone, Copy, Debug, PartialEq, Eq)]
pub enum Outcome {
    /// The destination answered with this status.
    Response(u16),
    /// The transport failed.
    TransportError,
}

/// The judgement on an attempt.
#[derive(Clone, Copy, Debug, PartialEq, Eq)]
pub enum RetryDecision {
    /// The batch was delivered.
    Success,
    /// The attempt failed and may be repeated.
    RetryableFailure(Reason),
    /// The batch is dropped.
    FatalFailure(Reason),
}

/// When retrying stops.
#[derive(Clone, Copy, Debug, PartialEq, Eq)]
pub enum RetryLimit {
    /// After this many attempts, the first one counted.
    Attempts(u32),
    /// Once this many milliseconds have passed since the first attempt.
    Elapsed(u64),
}

/// The retry policy: its limit and the bounds of the backoff, in
/// milliseconds.
#[derive(Clone, Copy, Debug, PartialEq, Eq)]
pub struct RetryPolicy {
    pub limit: RetryLimit,
    pub initial_backoff: u64,
    pub max_backoff: u64,
}

/// The judgement on an outcome: 2xx is a success; a transport failure, 429
/// and 5xx may be retried; every other status drops the batch.
pub open spec fn classified(outcome: Outcome) -> RetryDecision {
    match outcome {
        Outcome::TransportError => RetryDecision::RetryableFailure(Reason::Transport),
        Outcome::Response(status) => if 200 <= status < 300 {
            RetryDecision::Success
        } else if status == 429 || 500 <= status < 600 {
            RetryDecision::RetryableFailure(Reason::Status(status))
        } else {
            RetryDecision::FatalFailure(Reason::Status(status))
        },
    }
}

/// Judges the outcome of one attempt.
pub fn classify(outcome: Outcome) -> (d: RetryDecision)
    ensures
        d == classified(outcome),
{
    match outcome {
        Outcome::TransportError => RetryDecision::RetryableFailure(Reason::Transport),
        Outcome::Response(status) => if 200 <= status && status < 300 {
            RetryDecision::Success
        } else if status == 429 || (500 <= status && status < 600) {
            RetryDecision::RetryableFailure(Reason::Status(status))
        } else {
            RetryDecision::FatalFailure(Reason::Status(status))
        },
    }
}

/// `initial`, doubled `times` times.
pub open spec fn doubled(initial: nat, times: nat) -> nat
    decreases times,
{
    if times == 0 {
        initial
    } else {
        2 * doubled(initial, (times - 1) as nat)
    }
}

/// The backoff before the retry that follows `retries` earlier ones: the
/// initial backoff doubled once for each, and never above the maximum.
pub open spec fn backoff_base(policy: RetryPolicy, retries: nat) -> nat {
    if doubled(policy.initial_backoff as nat, retries) < policy.max_backoff {
        doubled(policy.initial_backoff as nat, retries)
    } else {
        policy.max_backoff as nat
    }
}

/// A backoff with jitter: half of `base`, and of the other half as much
/// as `entropy` picks. It lies between `base / 2` and `base`.
pub open spec fn jittered(base: nat, entropy: nat) -> nat {
    base / 2 + entropy % (base / 2 + 1)
}

/// Whether the limit of the policy is reached after `attempts` attempts,
/// the first of them made at `started_at`.
pub open spec fn exhausted(policy: RetryPolicy, attempts: u32, started_at: u64, now: u64) -> bool {
    match policy.limit {
        RetryLimit::Attempts(max) => attempts >= max,
        RetryLimit::Elapsed(cap) => now - started_at >= cap,
    }
}

/// Doubling never makes a number smaller.
pub proof fn lemma_doubled_grows(initial: nat, a: nat, b: nat)
    requires
        a <= b,
    ensures
        doubled(initial, a) <= doubled(initial, b),
        initial == 0 ==> doubled(initial, b) == 0,
    decreases b,
{
    if b > 0 {
        if a < b {
            lemma_doubled_grows(initial, a, (b - 1) as nat);
        } else {
            lemma_doubled_grows(initial, (a - 1) as nat, (b - 1) as nat);
        }
    }
}

/// The backoff before the retry that follows `retries` earlier ones.
pub fn backoff(policy: &RetryPolicy, retries: u32) -> (b: u64)
    ensures
        b == backoff_base(*policy, retries as nat),
{
    let cap = policy.max_backoff;
    let mut b: u64 = if policy.initial_backoff < cap {
        policy.initial_backoff
    } else {
        cap
    };
    let mut i: u32 = 0;
    while i < retries && b < cap && b > 0
        invariant
            i <= retries,
            cap == policy.max_backoff,
            b == backoff_base(*policy, i as nat),
        decreases retries - i,
    {
        if b > cap / 2 {
            b = cap;
        } else {
            b = 2 * b;
        }
        i += 1;
    }
    proof {
        lemma_doubled_grows(policy.initial_backoff as nat, 0, i as nat);
        lemma_doubled_grows(policy.initial_backoff as nat, i as nat, retries as nat);
    }
    b
}

/// The wait with jitter for a backoff of `base`.
pub fn jitter(base: u64, entropy: u64) -> (w: u64)
    ensures
        w == jittered(base as nat, entropy as nat),
        base / 2 <= w <= base,
{
    let half = base / 2;
    half + entropy % (half + 1)
}

/// Whether the policy's limit is reached.
pub fn is_exhausted(policy: &RetryPolicy, attempts: u32, started_at: u64, now: u64) -> (r: bool)
    ensures
        r == exhausted(*policy, attempts, started_at, now),
{
    match policy.limit {
        RetryLimit::Attempts(max) => attempts >= max,
        RetryLimit::Elapsed(cap) => now >= started_at && now - started_at >= cap,
    }
}

/// Where the delivery of one request stands.
#[derive(Clone, Copy, Debug, PartialEq, Eq)]
pub enum DeliveryState {
    /// An attempt is under way; it is the `attempts`-th, and the first was
    /// made at `started_at`.
    Sending { attempts: u32, started_at: u64 },
    /// The last attempt failed with `reason`; the next is due at
    /// `resume_at`. The request is kept.
    Retrying { attempts: u32, started_at: u64, resume_at: u64, reason: Reason },
    /// The delivery has ended, in success or in a fatal failure.
    Done(RetryDecision),
}

/// What happens to a delivery.
#[derive(Clone, Copy, Debug, PartialEq, Eq)]
pub enum DeliveryEvent {
    /// The attempt under way ended at `now`; `entropy` is a number picked
    /// at random for the jitter.
    Attempted { outcome: Outcome, now: u64, entropy: u64 },
    /// The clock shows `now`.
    Timer { now: u64 },
}

/// What the caller is to do next.
#[derive(Clone, Copy, Debug, PartialEq, Eq)]
pub enum Action {
    /// Send the request.
    Send,
    /// Keep the request and come back with the timer at this time.
    WaitUntil(u64),
    /// The delivery has ended: record the decision and acknowledge.
    Finish(RetryDecision),
    /// Nothing.
    Idle,
}

/// `a + b`, or the largest `u64` where that is too large.
pub open spec fn capped_sum(a: u64, b: u64) -> u64 {
    if a + b > u64::MAX {
        u64::MAX
    } else {
        (a + b) as u64
    }
}

/// The state and the action that follow from a state and an event.
///
/// An attempt that succeeds, or fails for good, ends the delivery. One
/// that may be retried ends it as a fatal failure where the policy's limit
/// is reached; else the delivery waits for the backoff with jitter. When
/// the wait is over the next attempt starts. Events that do not fit the
/// state change nothing.
pub open spec fn transition(policy: RetryPolicy, state: DeliveryState, event: DeliveryEvent) -> (
    DeliveryState,
    Action,
) {
    match (state, event) {
        (
            DeliveryState::Sending { attempts, started_at },
            DeliveryEvent::Attempted { outcome, now, entropy },
        ) => match classified(outcome) {
            RetryDecision::Success => (
                DeliveryState::Done(RetryDecision::Success),
                Action::Finish(RetryDecision::Success),
            ),
            RetryDecision::FatalFailure(r) => (
                DeliveryState::Done(RetryDecision::FatalFailure(r)),
                Action::Finish(RetryDecision::FatalFailure(r)),
            ),
            RetryDecision::RetryableFailure(r) => if exhausted(policy, attempts, started_at, now) {
                (
                    DeliveryState::Done(RetryDecision::FatalFailure(r)),
                    Action::Finish(RetryDecision::FatalFailure(r)),
                )
            } else {
                let wait = jittered(
                    backoff_base(policy, if attempts == 0 {
                        0
                    } else {
                        (attempts - 1) as nat
                    }),
                    entropy as nat,
                );
                let resume_at = capped_sum(now, wait as u64);
                (
                    DeliveryState::Retrying { attempts, started_at, resume_at, reason: r },
                    Action::WaitUntil(resume_at),
                )
            },
        },
        (
            DeliveryState::Retrying { attempts, started_at, resume_at, reason },
            DeliveryEvent::Timer { now },
        ) => if now >= resume_at {
            (
                DeliveryState::Sending {
                    attempts: if attempts == u32::MAX {
                        attempts
                    } else {
                        (attempts + 1) as u32
                    },
                    started_at,
                },
                Action::Send,
            )
        } else {
            (state, Action::WaitUntil(resume_at))
        },
        _ => (state, Action::Idle),
    }
}

/// The state in which a delivery starts at `now`, its first attempt under
/// way.
pub fn start(now: u64) -> (s: DeliveryState)
    ensures
        s == (DeliveryState::Sending { attempts: 1, started_at: now }),
{
    DeliveryState::Sending { attempts: 1, started_at: now }
}

/// Moves a delivery on by one event.
pub fn advance(policy: &RetryPolicy, state: DeliveryState, event: DeliveryEvent) -> (r: (
    DeliveryState,
    Action,
))
    ensures
        r == transition(*policy, state, event),
{
    match state {
        DeliveryState::Sending { attempts, started_at } => match event {
            DeliveryEvent::Attempted { outcome, now, entropy } => match classify(outcome) {
                RetryDecision::Success => (
                    DeliveryState::Done(RetryDecision::Success),
                    Action::Finish(RetryDecision::Success),
                ),
                RetryDecision::FatalFailure(r) => (
                    DeliveryState::Done(RetryDecision::FatalFailure(r)),
                    Action::Finish(RetryDecision::FatalFailure(r)),
                ),
                RetryDecision::RetryableFailure(r) => {
                    if is_exhausted(policy, attempts, started_at, now) {
                        (
                            DeliveryState::Done(RetryDecision::FatalFailure(r)),
                            Action::Finish(RetryDecision::FatalFailure(r)),
                        )
                    } else {
                        let retries: u32 = if attempts == 0 {
                            0
                        } else {
                            attempts - 1
                        };
                        let wait = jitter(backoff(policy, retries), entropy);
                        let resume_at: u64 = if wait > u64::MAX - now {
                            u64::MAX
                        } else {
                            now + wait
                        };
                        (
                            DeliveryState::Retrying { attempts, started_at, resume_at, reason: r },
                            Action::WaitUntil(resume_at),
                        )
                    }
                },
            },
            DeliveryEvent::Timer { now } => (state, Action::Idle),
        },
        DeliveryState::Retrying { attempts, started_at, resume_at, reason } => match event {
            DeliveryEvent::Timer { now } => {
                if now >= resume_at {
                    let next: u32 = if attempts == u32::MAX {
                        attempts
                    } else {
                        attempts + 1
                    };
                    (DeliveryState::Sending { attempts: next, started_at }, Action::Send)
                } else {
                    (state, Action::WaitUntil(resume_at))
                }
            },
            DeliveryEvent::Attempted { outcome, now, entropy } => (state, Action::Idle),
        },
        DeliveryState::Done(d) => (state, Action::Idle),
    }
}

/// A request on its way, with the acknowledgement tokens of the events
/// that it carries.
#[derive(Clone, Debug, PartialEq, Eq)]
pub struct Job {
    pub request: WireRequest,
    pub tokens: Vec<u64>,
}

/// Mathematical model of a [`Job`].
pub struct JobModel {
    pub request: RequestModel,
    pub tokens: Seq<u64>,
}

impl View for Job {
    type V = JobModel;

    open spec fn view(&self) -> JobModel {
        JobModel { request: self.request@, tokens: self.tokens@ }
    }
}

/// Mathematical model of a [`Dispatcher`].
pub struct DispatcherModel {
    pub ceiling: nat,
    pub in_flight: nat,
    pub waiting: Seq<JobModel>,
}

/// The limiter in front of the transport: at most `ceiling` requests are in
/// flight, the others wait in submission order.
pub struct Dispatcher {
    ceiling: usize,
    in_flight: usize,
    waiting: Vec<Job>,
}

impl View for Dispatcher {
    type V = DispatcherModel;

    closed spec fn view(&self) -> DispatcherModel {
        DispatcherModel {
            ceiling: self.ceiling as nat,
            in_flight: self.in_flight as nat,
            waiting: Seq::new(self.waiting.len() as nat, |i: int| self.waiting[i]@),
        }
    }
}

/// What a dispatcher always is: never more in flight than the ceiling
/// allows, and nothing waiting while there is room.
pub open spec fn limit_ok(m: DispatcherModel) -> bool {
    &&& m.ceiling > 0
    &&& m.in_flight <= m.ceiling
    &&& m.waiting.len() > 0 ==> m.in_flight == m.ceiling
}

/// Whether the producer is to be held back: requests wait because the
/// ceiling is reached.
pub open spec fn backlogged(m: DispatcherModel) -> bool {
    m.waiting.len() > 0
}

impl Dispatcher {
    /// Whether the producer is to be held back until a request in flight
    /// has reached its end.
    pub fn is_backlogged(&self) -> (held: bool)
        ensures
            held == backlogged(self@),
    {
        self.waiting.len() > 0
    }

    /// A dispatcher with nothing in flight. A ceiling of zero counts as
    /// one.
    pub fn new(ceiling: usize) -> (d: Dispatcher)
        ensures
            limit_ok(d@),
            d@ == (DispatcherModel {
                ceiling: if ceiling == 0 {
                    1
                } else {
                    ceiling as nat
                },
                in_flight: 0,
                waiting: Seq::empty(),
            }),
    {
        let d = Dispatcher {
            ceiling: if ceiling == 0 {
                1
            } else {
                ceiling
            },
            in_flight: 0,
            waiting: Vec::new(),
        };
        assert(d@.waiting =~= Seq::empty());
        d
    }

    /// The number of requests in flight.
    pub fn in_flight(&self) -> (n: usize)
        ensures
            n == self@.in_flight,
    {
        self.in_flight
    }

    /// The number of requests waiting.
    pub fn queued(&self) -> (n: usize)
        ensures
            n == self@.waiting.len(),
    {
        self.waiting.len()
    }

    /// Submits a request. While there is room under the ceiling it is
    /// handed back to be sent now; else it waits behind those submitted
    /// before it.
    pub fn submit(&mut self, request: Job) -> (r: Option<Job>)
        requires
            limit_ok(old(self)@),
        ensures
            limit_ok(final(self)@),
            final(self)@.ceiling == old(self)@.ceiling,
            old(self)@.in_flight < old(self)@.ceiling ==> r == Some(request) && final(self)@
                == (DispatcherModel { in_flight: old(self)@.in_flight + 1, ..old(self)@ }),
            old(self)@.in_flight >= old(self)@.ceiling ==> r is None && final(self)@ == (
            DispatcherModel { waiting: old(self)@.waiting.push(request@), ..old(self)@ }),
    {
        if self.in_flight < self.ceiling {
            self.in_flight = self.in_flight + 1;
            assert(self@.waiting =~= old(self)@.waiting);
            Some(request)
        } else {
            self.waiting.push(request);
            assert(self@.waiting =~= old(self)@.waiting.push(request@));
            None
        }
    }

    /// Reports that a request in flight has reached its end. The request
    /// that has waited longest, if any, takes its place and is handed out
    /// to be sent.
    pub fn complete(&mut self) -> (r: Option<Job>)
        requires
            limit_ok(old(self)@),
        ensures
            limit_ok(final(self)@),
            final(self)@.ceiling == old(self)@.ceiling,
            old(self)@.in_flight == 0 ==> r is None && final(self)@ == old(self)@,
            old(self)@.in_flight > 0 && old(self)@.waiting.len() == 0 ==> r is None
                && final(self)@ == (DispatcherModel {
                in_flight: (old(self)@.in_flight - 1) as nat,
                ..old(self)@
            }),
            old(self)@.in_flight > 0 && old(self)@.waiting.len() > 0 ==> (r matches Some(next)
                && next@ == old(self)@.waiting[0] && final(self)@ == (DispatcherModel {
                waiting: old(self)@.waiting.drop_first(),
                ..old(self)@
            })),
    {
        if self.in_flight == 0 {
            None
        } else if self.waiting.len() == 0 {
            self.in_flight = self.in_flight - 1;
            assert(self@.waiting =~= old(self)@.waiting);
            None
        } else {
            let next = self.waiting.remove(0);
            assert(self@.waiting =~= old(self)@.waiting.drop_first());
            Some(next)
        }
    }
}

} // verus!
