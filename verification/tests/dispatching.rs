use datadog_logs::dispatch::{
    advance, backoff, classify, is_exhausted, jitter, start, Action, DeliveryEvent, DeliveryState,
    Dispatcher, Job, Outcome, Reason, RetryDecision, RetryLimit, RetryPolicy,
};
use datadog_logs::request::WireRequest;

fn policy(limit: RetryLimit) -> RetryPolicy {
    RetryPolicy { limit, initial_backoff: 1000, max_backoff: 10_000 }
}

fn job(n: u64) -> Job {
    Job {
        request: WireRequest { uri: format!("http://h/{}", n), headers: vec![], body: vec![] },
        tokens: vec![n],
    }
}

fn attempted(status: u16, now: u64, entropy: u64) -> DeliveryEvent {
    DeliveryEvent::Attempted { outcome: Outcome::Response(status), now, entropy }
}

#[test]
fn outcomes_are_classified() {
    for status in [200u16, 201, 202, 204, 299] {
        assert_eq!(classify(Outcome::Response(status)), RetryDecision::Success);
    }
    for status in [429u16, 500, 501, 502, 503, 599] {
        assert_eq!(
            classify(Outcome::Response(status)),
            RetryDecision::RetryableFailure(Reason::Status(status))
        );
    }
    for status in [400u16, 401, 403, 404, 428, 430, 499, 100, 199, 300, 304, 399, 600, 0, 999] {
        assert_eq!(
            classify(Outcome::Response(status)),
            RetryDecision::FatalFailure(Reason::Status(status))
        );
    }
    assert_eq!(
        classify(Outcome::TransportError),
        RetryDecision::RetryableFailure(Reason::Transport)
    );
}

#[test]
fn backoff_doubles_up_to_the_maximum() {
    let p = policy(RetryLimit::Attempts(10));
    assert_eq!(backoff(&p, 0), 1000);
    assert_eq!(backoff(&p, 1), 2000);
    assert_eq!(backoff(&p, 2), 4000);
    assert_eq!(backoff(&p, 3), 8000);
    assert_eq!(backoff(&p, 4), 10_000);
    assert_eq!(backoff(&p, 5), 10_000);
    assert_eq!(backoff(&p, u32::MAX), 10_000);
}

#[test]
fn backoff_at_the_edges() {
    let zero = RetryPolicy { limit: RetryLimit::Attempts(3), initial_backoff: 0, max_backoff: 50 };
    assert_eq!(backoff(&zero, 0), 0);
    assert_eq!(backoff(&zero, 1_000_000), 0);
    let small_cap =
        RetryPolicy { limit: RetryLimit::Attempts(3), initial_backoff: 70, max_backoff: 50 };
    assert_eq!(backoff(&small_cap, 0), 50);
    assert_eq!(backoff(&small_cap, 3), 50);
    let huge = RetryPolicy {
        limit: RetryLimit::Attempts(3),
        initial_backoff: 3,
        max_backoff: u64::MAX,
    };
    assert_eq!(backoff(&huge, 2), 12);
    assert_eq!(backoff(&huge, 62), 3 << 62);
    assert_eq!(backoff(&huge, 63), u64::MAX);
    assert_eq!(backoff(&huge, 64), u64::MAX);
    let odd = RetryPolicy { limit: RetryLimit::Attempts(3), initial_backoff: 3, max_backoff: 7 };
    assert_eq!(backoff(&odd, 1), 6);
    assert_eq!(backoff(&odd, 2), 7);
}

#[test]
fn jitter_lies_between_half_and_all_of_the_backoff() {
    assert_eq!(jitter(1000, 0), 500);
    assert_eq!(jitter(1000, 500), 1000);
    assert_eq!(jitter(1000, 501), 500);
    assert_eq!(jitter(1000, 700), 699);
    assert_eq!(jitter(0, 12345), 0);
    assert_eq!(jitter(1, 12345), 0);
    assert_eq!(jitter(7, 2), 5);
    assert_eq!(jitter(u64::MAX, u64::MAX), u64::MAX / 2 + u64::MAX % (u64::MAX / 2 + 1));
    for entropy in 0..2000u64 {
        let w = jitter(1001, entropy * 7919);
        assert!(500 <= w && w <= 1001);
    }
}

#[test]
fn retry_limits() {
    let by_count = policy(RetryLimit::Attempts(3));
    assert!(!is_exhausted(&by_count, 1, 0, 1_000_000));
    assert!(!is_exhausted(&by_count, 2, 0, 1_000_000));
    assert!(is_exhausted(&by_count, 3, 0, 0));
    assert!(is_exhausted(&by_count, 4, 0, 0));
    let by_time = policy(RetryLimit::Elapsed(5000));
    assert!(!is_exhausted(&by_time, 1000, 1000, 5999));
    assert!(is_exhausted(&by_time, 1, 1000, 6000));
    assert!(!is_exhausted(&by_time, 1, 1000, 0));
}

#[test]
fn a_failed_attempt_is_retried_after_the_backoff_and_then_succeeds() {
    let p = policy(RetryLimit::Attempts(3));
    let s0 = start(0);
    assert_eq!(s0, DeliveryState::Sending { attempts: 1, started_at: 0 });

    let (s1, a1) = advance(&p, s0, attempted(500, 10, 0));
    assert_eq!(
        s1,
        DeliveryState::Retrying {
            attempts: 1,
            started_at: 0,
            resume_at: 510,
            reason: Reason::Status(500)
        }
    );
    assert_eq!(a1, Action::WaitUntil(510));

    let (s2, a2) = advance(&p, s1, DeliveryEvent::Timer { now: 509 });
    assert_eq!(s2, s1);
    assert_eq!(a2, Action::WaitUntil(510));

    let (s3, a3) = advance(&p, s2, DeliveryEvent::Timer { now: 510 });
    assert_eq!(s3, DeliveryState::Sending { attempts: 2, started_at: 0 });
    assert_eq!(a3, Action::Send);

    let (s4, a4) = advance(&p, s3, attempted(200, 600, 0));
    assert_eq!(s4, DeliveryState::Done(RetryDecision::Success));
    assert_eq!(a4, Action::Finish(RetryDecision::Success));

    let (s5, a5) = advance(&p, s4, attempted(500, 700, 0));
    assert_eq!(s5, s4);
    assert_eq!(a5, Action::Idle);
}

#[test]
fn the_second_retry_waits_twice_as_long() {
    let p = policy(RetryLimit::Attempts(5));
    let sending = DeliveryState::Sending { attempts: 2, started_at: 0 };
    let (state, action) = advance(
        &p,
        sending,
        DeliveryEvent::Attempted { outcome: Outcome::TransportError, now: 100, entropy: 1000 },
    );
    assert_eq!(action, Action::WaitUntil(2100));
    assert_eq!(
        state,
        DeliveryState::Retrying {
            attempts: 2,
            started_at: 0,
            resume_at: 2100,
            reason: Reason::Transport
        }
    );
}

#[test]
fn a_client_error_drops_the_batch_at_once() {
    let p = policy(RetryLimit::Attempts(3));
    let (state, action) = advance(&p, start(0), attempted(404, 10, 0));
    assert_eq!(state, DeliveryState::Done(RetryDecision::FatalFailure(Reason::Status(404))));
    assert_eq!(action, Action::Finish(RetryDecision::FatalFailure(Reason::Status(404))));
    let (_, throttled) = advance(&p, start(0), attempted(429, 10, 0));
    assert_eq!(throttled, Action::WaitUntil(510));
}

#[test]
fn exhausted_retries_become_a_fatal_failure() {
    let p = policy(RetryLimit::Attempts(2));
    let (s1, _) = advance(&p, start(0), attempted(503, 10, 0));
    let (s2, a2) = advance(&p, s1, DeliveryEvent::Timer { now: 10_000 });
    assert_eq!(a2, Action::Send);
    let (s3, a3) = advance(&p, s2, attempted(503, 10_010, 0));
    assert_eq!(s3, DeliveryState::Done(RetryDecision::FatalFailure(Reason::Status(503))));
    assert_eq!(a3, Action::Finish(RetryDecision::FatalFailure(Reason::Status(503))));

    let once = policy(RetryLimit::Attempts(1));
    let (_, a) = advance(
        &once,
        start(0),
        DeliveryEvent::Attempted { outcome: Outcome::TransportError, now: 1, entropy: 0 },
    );
    assert_eq!(a, Action::Finish(RetryDecision::FatalFailure(Reason::Transport)));

    let by_time = policy(RetryLimit::Elapsed(5000));
    let late = DeliveryState::Sending { attempts: 4, started_at: 1000 };
    let (_, a) = advance(&by_time, late, attempted(500, 6000, 0));
    assert_eq!(a, Action::Finish(RetryDecision::FatalFailure(Reason::Status(500))));
    let (_, a) = advance(&by_time, late, attempted(500, 5999, 0));
    assert_eq!(a, Action::WaitUntil(5999 + 4000));
}

#[test]
fn events_that_do_not_fit_the_state_change_nothing() {
    let p = policy(RetryLimit::Attempts(3));
    let sending = start(7);
    assert_eq!(advance(&p, sending, DeliveryEvent::Timer { now: 99 }), (sending, Action::Idle));
    let retrying = DeliveryState::Retrying {
        attempts: 1,
        started_at: 0,
        resume_at: 50,
        reason: Reason::Transport,
    };
    assert_eq!(advance(&p, retrying, attempted(200, 10, 0)), (retrying, Action::Idle));
    let done = DeliveryState::Done(RetryDecision::FatalFailure(Reason::Transport));
    assert_eq!(advance(&p, done, DeliveryEvent::Timer { now: 99 }), (done, Action::Idle));
}

#[test]
fn waiting_and_counting_saturate() {
    let p = RetryPolicy {
        limit: RetryLimit::Elapsed(u64::MAX),
        initial_backoff: 1000,
        max_backoff: 1000,
    };
    let (state, action) = advance(&p, start(0), attempted(500, u64::MAX - 10, 0));
    assert_eq!(action, Action::WaitUntil(u64::MAX));
    let (next, _) = advance(&p, state, DeliveryEvent::Timer { now: u64::MAX });
    assert_eq!(next, DeliveryState::Sending { attempts: 2, started_at: 0 });
    let last = DeliveryState::Retrying {
        attempts: u32::MAX,
        started_at: 0,
        resume_at: 5,
        reason: Reason::Transport,
    };
    let (next, _) = advance(&p, last, DeliveryEvent::Timer { now: 5 });
    assert_eq!(next, DeliveryState::Sending { attempts: u32::MAX, started_at: 0 });
}

#[test]
fn no_more_than_the_ceiling_are_in_flight() {
    let mut d = Dispatcher::new(2);
    assert_eq!(d.in_flight(), 0);
    assert_eq!(d.submit(job(1)), Some(job(1)));
    assert_eq!(d.submit(job(2)), Some(job(2)));
    assert_eq!(d.in_flight(), 2);
    assert!(!d.is_backlogged());
    assert_eq!(d.submit(job(3)), None);
    assert!(d.is_backlogged());
    assert_eq!(d.submit(job(4)), None);
    assert_eq!(d.in_flight(), 2);
    assert_eq!(d.queued(), 2);
    assert_eq!(d.complete(), Some(job(3)));
    assert_eq!(d.in_flight(), 2);
    assert_eq!(d.queued(), 1);
    assert!(d.is_backlogged());
    assert_eq!(d.complete(), Some(job(4)));
    assert!(!d.is_backlogged());
    assert_eq!(d.queued(), 0);
    assert_eq!(d.complete(), None);
    assert_eq!(d.in_flight(), 1);
    assert_eq!(d.complete(), None);
    assert_eq!(d.in_flight(), 0);
    assert_eq!(d.complete(), None);
    assert_eq!(d.in_flight(), 0);
    assert_eq!(d.submit(job(5)), Some(job(5)));
}

#[test]
fn a_ceiling_of_zero_counts_as_one() {
    let mut d = Dispatcher::new(0);
    assert_eq!(d.submit(job(1)), Some(job(1)));
    assert_eq!(d.submit(job(2)), None);
    assert_eq!(d.complete(), Some(job(2)));
}
