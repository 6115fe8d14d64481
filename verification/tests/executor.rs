use std::cell::Cell;

use httpress::config::{HookAction, StopCondition};
use httpress::executor::{execute_hooks, Event, ExecutorState, Outcome, Phase, RequestFlow, Step};
use httpress::metrics::{Metrics, RequestResult};
use httpress::time::Duration;

#[test]
fn request_target_caps_claims() {
    let mut s = ExecutorState::new(&StopCondition::Requests(3));
    let granted: Vec<bool> = (0..6).map(|_| s.increment_and_check()).collect();
    assert_eq!(granted, vec![true, true, true, false, false, false]);
    assert_eq!(s.request_count, 3);
    assert!(s.stop);
}

#[test]
fn zero_request_target_claims_nothing() {
    let mut s = ExecutorState::new(&StopCondition::Requests(0));
    assert!(!s.increment_and_check());
    assert_eq!(s.request_count, 0);
}

#[test]
fn stop_signal_ends_unlimited_runs() {
    let mut s = ExecutorState::new(&StopCondition::Infinite);
    assert_eq!(s.target_requests, None);
    for _ in 0..10 {
        assert!(s.increment_and_check());
    }
    s.signal_stop();
    assert!(!s.increment_and_check());
    assert_eq!(s.get_counts(), (0, 0, 0));
    assert_eq!(s.request_count, 10);
    let d = ExecutorState::new(&StopCondition::Duration(Duration::from_secs(1)));
    assert_eq!(d.target_requests, None);
}

#[test]
fn counts_by_status() {
    let mut s = ExecutorState::new(&StopCondition::Infinite);
    s.record_status(Some(200));
    s.record_status(Some(299));
    s.record_status(Some(300));
    s.record_status(Some(199));
    s.record_status(None);
    s.record_failure();
    s.record_outcome(Outcome::Status(Some(204)));
    s.record_outcome(Outcome::Failure);
    assert_eq!(s.get_counts(), (8, 3, 5));
}

#[test]
fn hook_contexts_carry_counters() {
    let mut s = ExecutorState::new(&StopCondition::Infinite);
    s.increment_and_check();
    s.increment_and_check();
    s.record_status(Some(500));
    let b = s.before_context(2, 7, Duration::from_millis(40));
    assert_eq!((b.worker_id, b.request_number, b.elapsed), (2, 7, Duration::from_millis(40)));
    assert_eq!((b.total_requests, b.successful_requests, b.failed_requests), (1, 0, 1));
    let a = s.after_context(1, 3, Duration::from_millis(50), Duration::from_millis(9), Some(500));
    assert_eq!((a.latency, a.status), (Duration::from_millis(9), Some(500)));
    assert_eq!((a.total_requests, a.failed_requests), (1, 1));
}

#[test]
fn hooks_stop_at_first_non_continue() {
    let calls = Cell::new(0u32);
    let cont = |_: u32| {
        calls.set(calls.get() + 1);
        HookAction::Continue
    };
    let abort = |_: u32| {
        calls.set(calls.get() + 1);
        HookAction::Abort
    };
    let retry = |_: u32| {
        calls.set(calls.get() + 1);
        HookAction::Retry
    };
    let hooks: Vec<&dyn Fn(u32) -> HookAction> = vec![&cont, &abort, &retry];
    assert_eq!(execute_hooks(&hooks, 0), HookAction::Abort);
    assert_eq!(calls.get(), 2);
    let none: Vec<&dyn Fn(u32) -> HookAction> = vec![];
    assert_eq!(execute_hooks(&none, 0), HookAction::Continue);
    let all: Vec<&dyn Fn(u32) -> HookAction> = vec![&cont, &cont];
    assert_eq!(execute_hooks(&all, 0), HookAction::Continue);
    assert_eq!(calls.get(), 4);
}

fn response(ms: u64, status: Option<u16>, bytes: usize) -> RequestResult {
    RequestResult { latency: Duration::from_millis(ms), status, bytes }
}

fn zero() -> RequestResult {
    RequestResult { latency: Duration::zero(), status: None, bytes: 0 }
}

#[test]
fn flow_without_hooks_sends_once() {
    let mut f = RequestFlow::new(3, false, false);
    assert_eq!(f.step(Event::Begin), Step::Send);
    let r = response(5, Some(200), 2);
    assert_eq!(f.step(Event::Responded(r)), Step::Finish(r, Outcome::Status(Some(200))));
    assert_eq!(f.phase, Phase::Finished);
}

#[test]
fn flow_before_abort_fails_unsent() {
    let mut f = RequestFlow::new(3, true, true);
    assert_eq!(f.step(Event::Begin), Step::RunBeforeHooks);
    assert_eq!(
        f.step(Event::BeforeHooksDone(HookAction::Abort)),
        Step::Finish(zero(), Outcome::Failure)
    );
}

#[test]
fn flow_before_retries_until_limit() {
    let mut f = RequestFlow::new(2, true, false);
    assert_eq!(f.step(Event::Begin), Step::RunBeforeHooks);
    assert_eq!(f.step(Event::BeforeHooksDone(HookAction::Retry)), Step::RunBeforeHooks);
    assert_eq!(f.step(Event::BeforeHooksDone(HookAction::Retry)), Step::RunBeforeHooks);
    assert_eq!(f.retry_count, 2);
    assert_eq!(
        f.step(Event::BeforeHooksDone(HookAction::Retry)),
        Step::Finish(zero(), Outcome::Failure)
    );
}

#[test]
fn flow_after_hooks_abort_keeps_latency_only() {
    let mut f = RequestFlow::new(3, false, true);
    assert_eq!(f.step(Event::Begin), Step::Send);
    let r = response(8, Some(200), 100);
    assert_eq!(f.step(Event::Responded(r)), Step::RunAfterHooks);
    assert_eq!(
        f.step(Event::AfterHooksDone(HookAction::Abort)),
        Step::Finish(response(8, None, 0), Outcome::Failure)
    );
}

#[test]
fn flow_after_hooks_retry_past_limit_fails() {
    let mut f = RequestFlow::new(1, true, true);
    assert_eq!(f.step(Event::Begin), Step::RunBeforeHooks);
    assert_eq!(f.step(Event::BeforeHooksDone(HookAction::Continue)), Step::Send);
    let first = response(3, Some(503), 10);
    assert_eq!(f.step(Event::Responded(first)), Step::RunAfterHooks);
    assert_eq!(f.step(Event::AfterHooksDone(HookAction::Retry)), Step::RunBeforeHooks);
    assert_eq!(f.step(Event::BeforeHooksDone(HookAction::Continue)), Step::Send);
    let second = response(4, Some(502), 11);
    assert_eq!(f.step(Event::Responded(second)), Step::RunAfterHooks);
    assert_eq!(
        f.step(Event::AfterHooksDone(HookAction::Retry)),
        Step::Finish(response(4, Some(502), 11), Outcome::Failure)
    );
}

#[test]
fn flow_after_hooks_retry_past_limit_drops_a_success_status() {
    let mut f = RequestFlow::new(0, false, true);
    assert_eq!(f.step(Event::Begin), Step::Send);
    assert_eq!(f.step(Event::Responded(response(5, Some(200), 7))), Step::RunAfterHooks);
    assert_eq!(
        f.step(Event::AfterHooksDone(HookAction::Retry)),
        Step::Finish(response(5, None, 7), Outcome::Failure)
    );
}

#[test]
fn flow_failed_connection_counts_as_failure_by_status() {
    let mut f = RequestFlow::new(0, false, true);
    f.step(Event::Begin);
    let failed = response(1, None, 0);
    f.step(Event::Responded(failed));
    assert_eq!(
        f.step(Event::AfterHooksDone(HookAction::Continue)),
        Step::Finish(failed, Outcome::Status(None))
    );
}

/// Drives one request whose hooks answer from the given lists and whose
/// responses come from `responses`; returns the finished step and the sends.
fn drive(
    max_retries: usize,
    before: &[HookAction],
    after: &[HookAction],
    responses: &[RequestResult],
) -> (RequestResult, Outcome, usize) {
    let mut f = RequestFlow::new(max_retries, !before.is_empty(), !after.is_empty());
    let (mut b, mut a, mut sends) = (0, 0, 0);
    let mut step = f.step(Event::Begin);
    loop {
        step = match step {
            Step::RunBeforeHooks => {
                let act = before[b.min(before.len() - 1)];
                b += 1;
                f.step(Event::BeforeHooksDone(act))
            }
            Step::Send => {
                let r = responses[sends.min(responses.len() - 1)];
                sends += 1;
                f.step(Event::Responded(r))
            }
            Step::RunAfterHooks => {
                let act = after[a.min(after.len() - 1)];
                a += 1;
                f.step(Event::AfterHooksDone(act))
            }
            Step::Finish(r, o) => return (r, o, sends),
        };
    }
}

#[test]
fn retries_never_exceed_the_limit() {
    let ok = response(2, Some(200), 5);
    for max in 0..5usize {
        let (_, _, sends) = drive(max, &[], &[HookAction::Retry], &[ok]);
        assert_eq!(sends, max + 1);
        let (r, o, sends) = drive(max, &[HookAction::Retry], &[], &[ok]);
        assert_eq!((r, o, sends), (zero(), Outcome::Failure, 0));
    }
}

#[test]
fn shared_counters_agree_with_metrics() {
    let ok = response(2, Some(200), 5);
    let err = response(3, Some(500), 1);
    let lost = response(4, None, 0);
    let cases: Vec<(Vec<HookAction>, Vec<HookAction>, Vec<RequestResult>)> = vec![
        (vec![], vec![], vec![ok]),
        (vec![], vec![], vec![err]),
        (vec![], vec![], vec![lost]),
        (vec![HookAction::Abort], vec![], vec![ok]),
        (vec![], vec![HookAction::Abort], vec![ok]),
        (vec![], vec![HookAction::Retry, HookAction::Continue], vec![err, ok]),
        (vec![HookAction::Continue], vec![HookAction::Retry], vec![ok, ok, ok, ok, ok]),
    ];
    let mut state = ExecutorState::new(&StopCondition::Infinite);
    let mut metrics = Metrics::new();
    for (before, after, responses) in &cases {
        assert!(state.increment_and_check());
        let (r, o, _) = drive(3, before, after, responses);
        state.record_outcome(o);
        metrics.record(r);
    }
    let (total, success, failed) = state.get_counts();
    let results = metrics.into_results(Duration::from_secs(1));
    assert_eq!(total, results.total_requests);
    assert_eq!(success, results.successful_requests);
    assert_eq!(failed, results.failed_requests);
    assert_eq!((success, failed), (2, 5));
    assert_eq!(results.total_bytes, 5 + 1 + 5 + 5);
}
