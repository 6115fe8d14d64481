//! The decisions of the benchmark executor: shared request counters, hook
//! chains, and the per-request flow of hooks, sending and retries.
//!
//! The executor that drives these (timers, workers, the HTTP client) performs
//! what [`RequestFlow::step`] asks for and feeds back what happened.
use vstd::prelude::*;

use crate::config::{
    AfterRequestContext, BeforeRequestContext, HookAction, StopCondition,
};
use crate::metrics::{is_success, success_count, success_status, RequestResult};
use crate::time::Duration;

verus! {

/// `n + 1`, wrapping to zero past `usize::MAX`, as an atomic counter adds.
pub open spec fn bump(n: usize) -> usize {
    if n == usize::MAX {
        0
    } else {
        (n + 1) as usize
    }
}

fn bump_exec(n: usize) -> (r: usize)
    ensures
        r == bump(n),
{
    if n == usize::MAX {
        0
    } else {
        n + 1
    }
}

/// The counters that all workers of one benchmark share.
#[derive(Debug, Clone, Copy, PartialEq, Eq)]
pub struct ExecutorState {
    /// Set once the workers are to stop.
    pub stop: bool,
    /// Requests claimed so far.
    pub request_count: usize,
    /// The request limit, when the benchmark stops after a number of requests.
    pub target_requests: Option<usize>,
    /// Requests that ended with a 2xx status.
    pub successful_count: usize,
    /// Requests that ended otherwise.
    pub failed_count: usize,
}

/// How a finished request is counted.
#[derive(Debug, Clone, Copy, PartialEq, Eq)]
pub enum Outcome {
    /// By its status: a 2xx status is a success, anything else a failure.
    Status(Option<u16>),
    /// As a failure, whatever happened.
    Failure,
}

/// An outcome that counts as a success.
pub open spec fn outcome_success(o: Outcome) -> bool {
    o matches Outcome::Status(s) && is_success(s)
}

impl ExecutorState {
    /// Never more requests claimed than the limit allows.
    pub open spec fn wf(&self) -> bool {
        self.target_requests matches Some(t) ==> self.request_count <= t
    }

    /// Fresh counters for a benchmark with the given stop condition.
    pub fn new(stop_condition: &StopCondition) -> (s: ExecutorState)
        ensures
            s.wf(),
            !s.stop,
            s.request_count == 0,
            s.successful_count == 0,
            s.failed_count == 0,
            s.target_requests == match *stop_condition {
                StopCondition::Requests(n) => Some(n),
                _ => None,
            },
    {
        let target_requests = match stop_condition {
            StopCondition::Requests(n) => Some(*n),
            _ => None,
        };
        ExecutorState {
            stop: false,
            request_count: 0,
            target_requests,
            successful_count: 0,
            failed_count: 0,
        }
    }

    /// One claim: granted unless the workers were told to stop or the
    /// request limit is reached; a refused claim tells all workers to stop.
    pub open spec fn claim(self) -> (ExecutorState, bool) {
        let go = !self.stop && (self.target_requests matches Some(t) ==> self.request_count < t);
        (
            ExecutorState {
                stop: self.stop || !go,
                request_count: if go {
                    bump(self.request_count)
                } else {
                    self.request_count
                },
                ..self
            },
            go,
        )
    }

    /// Claims a slot for one more request. Returns whether the worker may go
    /// on; reaching the request limit stops all workers.
    pub fn increment_and_check(&mut self) -> (go: bool)
        requires
            old(self).wf(),
        ensures
            final(self).wf(),
            (*final(self), go) == old(self).claim(),
            old(self).stop ==> !go && final(self).stop && final(self).request_count == old(
                self,
            ).request_count,
            go ==> final(self).request_count == bump(old(self).request_count),
            go && old(self).target_requests is Some ==> final(self).request_count == old(
                self,
            ).request_count + 1,
    {
        if self.stop {
            return false;
        }
        if let Some(target) = self.target_requests {
            if self.request_count >= target {
                self.stop = true;
                return false;
            }
        }
        self.request_count = bump_exec(self.request_count);
        true
    }

    /// Tells all workers to stop.
    pub fn signal_stop(&mut self)
        ensures
            *final(self) == (ExecutorState { stop: true, ..*old(self) }),
    {
        self.stop = true;
    }

    /// Requests completed so far: successes and failures together (wrapping
    /// like the counters themselves).
    pub open spec fn completed(&self) -> usize {
        self.successful_count.wrapping_add(self.failed_count)
    }

    /// Requests completed, succeeded and failed so far.
    pub fn get_counts(&self) -> (c: (usize, usize, usize))
        ensures
            c == (self.completed(), self.successful_count, self.failed_count),
    {
        (self.successful_count.wrapping_add(self.failed_count), self.successful_count, self.failed_count)
    }

    /// Counts a finished request by its status.
    pub fn record_status(&mut self, status: Option<u16>)
        ensures
            *final(self) == if is_success(status) {
                ExecutorState { successful_count: bump(old(self).successful_count), ..*old(self) }
            } else {
                ExecutorState { failed_count: bump(old(self).failed_count), ..*old(self) }
            },
    {
        if success_status(status) {
            self.successful_count = bump_exec(self.successful_count);
        } else {
            self.failed_count = bump_exec(self.failed_count);
        }
    }

    /// Counts a failed request.
    pub fn record_failure(&mut self)
        ensures
            *final(self) == (ExecutorState {
                failed_count: bump(old(self).failed_count),
                ..*old(self)
            }),
    {
        self.failed_count = bump_exec(self.failed_count);
    }

    /// Counts a finished request as its outcome says.
    pub fn record_outcome(&mut self, outcome: Outcome)
        ensures
            *final(self) == if outcome_success(outcome) {
                ExecutorState { successful_count: bump(old(self).successful_count), ..*old(self) }
            } else {
                ExecutorState { failed_count: bump(old(self).failed_count), ..*old(self) }
            },
    {
        match outcome {
            Outcome::Status(s) => self.record_status(s),
            Outcome::Failure => self.record_failure(),
        }
    }

    /// What a before-request hook sees.
    pub fn before_context(&self, worker_id: usize, request_number: usize, elapsed: Duration) -> (c:
        BeforeRequestContext)
        ensures
            c == (BeforeRequestContext {
                worker_id,
                request_number,
                elapsed,
                total_requests: self.completed(),
                successful_requests: self.successful_count,
                failed_requests: self.failed_count,
            }),
    {
        BeforeRequestContext {
            worker_id,
            request_number,
            elapsed,
            total_requests: self.successful_count.wrapping_add(self.failed_count),
            successful_requests: self.successful_count,
            failed_requests: self.failed_count,
        }
    }

    /// What an after-request hook sees.
    pub fn after_context(
        &self,
        worker_id: usize,
        request_number: usize,
        elapsed: Duration,
        latency: Duration,
        status: Option<u16>,
    ) -> (c: AfterRequestContext)
        ensures
            c == (AfterRequestContext {
                worker_id,
                request_number,
                elapsed,
                total_requests: self.completed(),
                successful_requests: self.successful_count,
                failed_requests: self.failed_count,
                latency,
                status,
            }),
    {
        AfterRequestContext {
            worker_id,
            request_number,
            elapsed,
            total_requests: self.successful_count.wrapping_add(self.failed_count),
            successful_requests: self.successful_count,
            failed_requests: self.failed_count,
            latency,
            status,
        }
    }
}

/// Hooks `0..k` each returned `Continue` and `action` is what the chain
/// yields: the answer of hook `k` (which did not continue), or `Continue`
/// when `k` is past the last hook.
pub open spec fn hook_chain<T, F: Fn(T) -> HookAction>(
    hooks: Seq<F>,
    ctx: T,
    k: int,
    action: HookAction,
) -> bool {
    &&& 0 <= k <= hooks.len()
    &&& forall|i: int| 0 <= i < k ==> call_ensures(#[trigger] hooks[i], (ctx,), HookAction::Continue)
    &&& if k == hooks.len() {
        action == HookAction::Continue
    } else {
        action != HookAction::Continue && call_ensures(hooks[k], (ctx,), action)
    }
}

/// Runs hooks in order on the same context and returns the first action
/// that is not `Continue`; `Continue` when every hook continues.
///
/// Hooks after the first that does not continue are not called.
pub fn execute_hooks<T: Copy, F: Fn(T) -> HookAction>(hooks: &[F], ctx: T) -> (action: HookAction)
    requires
        forall|i: int| 0 <= i < hooks@.len() ==> call_requires(#[trigger] hooks@[i], (ctx,)),
    ensures
        exists|k: int| hook_chain(hooks@, ctx, k, action),
{
    let n = hooks.len();
    let mut i: usize = 0;
    while i < n
        invariant
            n == hooks@.len(),
            i <= n,
            forall|j: int| 0 <= j < hooks@.len() ==> call_requires(#[trigger] hooks@[j], (ctx,)),
            forall|j: int| 0 <= j < i ==> call_ensures(#[trigger] hooks@[j], (ctx,), HookAction::Continue),
        decreases n - i,
    {
        let action = (hooks[i])(ctx);
        match action {
            HookAction::Continue => {},
            _ => {
                assert(hook_chain(hooks@, ctx, i as int, action));
                return action;
            },
        }
        i = i + 1;
    }
    assert(hook_chain(hooks@, ctx, n as int, HookAction::Continue));
    HookAction::Continue
}


/// Where a request stands in its flow of hooks, sending and retries.
#[derive(Debug, Clone, Copy, PartialEq, Eq)]
pub enum Phase {
    /// Not begun.
    Start,
    /// Waiting for the before-request hooks' verdict.
    BeforeHooks,
    /// Waiting for the response (or the failure) of the request.
    Sending,
    /// Waiting for the after-request hooks' verdict on this response.
    AfterHooks(RequestResult),
    /// Done; the result has been handed out.
    Finished,
}

/// What happened since the last step.
#[derive(Debug, Clone, Copy, PartialEq, Eq)]
pub enum Event {
    /// The request is to begin.
    Begin,
    /// The before-request hooks answered.
    BeforeHooksDone(HookAction),
    /// The request came back, or failed (then with no status and no bytes).
    Responded(RequestResult),
    /// The after-request hooks answered.
    AfterHooksDone(HookAction),
}

/// What the executor is to do next.
#[derive(Debug, Clone, Copy, PartialEq, Eq)]
pub enum Step {
    /// Run the before-request hooks and report their verdict.
    RunBeforeHooks,
    /// Send the request and report its result.
    Send,
    /// Run the after-request hooks on the last result and report their verdict.
    RunAfterHooks,
    /// The request is over: record this result and count it by this outcome.
    Finish(RequestResult, Outcome),
}

/// The flow of one request through hooks, sending and retries.
#[derive(Debug, Clone, Copy, PartialEq, Eq)]
pub struct RequestFlow {
    pub phase: Phase,
    pub retry_count: usize,
    pub max_retries: usize,
    pub has_before_hooks: bool,
    pub has_after_hooks: bool,
}

/// A finished request's result agrees with how it is counted: a failure has
/// no 2xx status, and a request counted by status has that status.
pub open spec fn finish_consistent(r: RequestResult, o: Outcome) -> bool {
    match o {
        Outcome::Failure => !is_success(r.status),
        Outcome::Status(st) => st == r.status,
    }
}

/// What the flow does on a retry: count it, then start over with the hooks.
pub open spec fn restart(f: RequestFlow) -> (RequestFlow, Step) {
    let g = RequestFlow { retry_count: (f.retry_count + 1) as usize, ..f };
    if f.has_before_hooks {
        (RequestFlow { phase: Phase::BeforeHooks, ..g }, Step::RunBeforeHooks)
    } else {
        (RequestFlow { phase: Phase::Sending, ..g }, Step::Send)
    }
}

/// The flow ends with this result and outcome.
pub open spec fn finish(f: RequestFlow, r: RequestResult, o: Outcome) -> (RequestFlow, Step) {
    (RequestFlow { phase: Phase::Finished, ..f }, Step::Finish(r, o))
}

impl RequestFlow {
    /// The retry count never passes the limit.
    pub open spec fn wf(&self) -> bool {
        self.retry_count <= self.max_retries
    }

    /// The event that the flow waits for fits its phase.
    pub open spec fn expects(&self, e: Event) -> bool {
        match (self.phase, e) {
            (Phase::Start, Event::Begin) => true,
            (Phase::BeforeHooks, Event::BeforeHooksDone(_)) => true,
            (Phase::Sending, Event::Responded(_)) => true,
            (Phase::AfterHooks(_), Event::AfterHooksDone(_)) => true,
            _ => false,
        }
    }

    /// The work left before the flow must finish: retries left, then the
    /// stages left in the current attempt.
    pub open spec fn measure(&self) -> nat {
        let stage: nat = match self.phase {
            Phase::Start => 3,
            Phase::BeforeHooks => 2,
            Phase::Sending => 1,
            _ => 0,
        };
        ((self.max_retries - self.retry_count) * 4 + stage) as nat
    }

    /// The transition table of a request:
    ///
    /// - before-request hooks run first when there are any; `Continue` sends,
    ///   `Abort` fails the request unsent, `Retry` starts over while retries
    ///   remain and otherwise fails it unsent;
    /// - after the response the after-request hooks run when there are any;
    ///   `Continue` keeps the result, `Abort` keeps only its latency and fails
    ///   it, `Retry` starts over while retries remain and otherwise, the limit
    ///   exceeded, fails it: a 2xx status is dropped, so that the metrics
    ///   count it as failed, while any other status, the latency and the body
    ///   bytes that were received are kept.
    pub open spec fn transition(self, e: Event) -> (RequestFlow, Step) {
        match (self.phase, e) {
            (Phase::Start, Event::Begin) => if self.has_before_hooks {
                (RequestFlow { phase: Phase::BeforeHooks, ..self }, Step::RunBeforeHooks)
            } else {
                (RequestFlow { phase: Phase::Sending, ..self }, Step::Send)
            },
            (Phase::BeforeHooks, Event::BeforeHooksDone(a)) => match a {
                HookAction::Continue => (RequestFlow { phase: Phase::Sending, ..self }, Step::Send),
                HookAction::Abort => finish(
                    self,
                    RequestResult { latency: Duration::spec_zero(), status: None, bytes: 0 },
                    Outcome::Failure,
                ),
                HookAction::Retry => if self.retry_count < self.max_retries {
                    restart(self)
                } else {
                    finish(
                        self,
                        RequestResult { latency: Duration::spec_zero(), status: None, bytes: 0 },
                        Outcome::Failure,
                    )
                },
            },
            (Phase::Sending, Event::Responded(r)) => if self.has_after_hooks {
                (RequestFlow { phase: Phase::AfterHooks(r), ..self }, Step::RunAfterHooks)
            } else {
                finish(self, r, Outcome::Status(r.status))
            },
            (Phase::AfterHooks(r), Event::AfterHooksDone(a)) => match a {
                HookAction::Continue => finish(self, r, Outcome::Status(r.status)),
                HookAction::Abort => finish(
                    self,
                    RequestResult { latency: r.latency, status: None, bytes: 0 },
                    Outcome::Failure,
                ),
                HookAction::Retry => if self.retry_count < self.max_retries {
                    restart(self)
                } else {
                    finish(
                        self,
                        RequestResult {
                            latency: r.latency,
                            status: if is_success(r.status) {
                                None
                            } else {
                                r.status
                            },
                            bytes: r.bytes,
                        },
                        Outcome::Failure,
                    )
                },
            },
            _ => (self, Step::Send),
        }
    }

    /// A new flow for a request with the given retry limit and hooks.
    pub fn new(max_retries: usize, has_before_hooks: bool, has_after_hooks: bool) -> (f: RequestFlow)
        ensures
            f == (RequestFlow {
                phase: Phase::Start,
                retry_count: 0,
                max_retries,
                has_before_hooks,
                has_after_hooks,
            }),
            f.wf(),
    {
        RequestFlow { phase: Phase::Start, retry_count: 0, max_retries, has_before_hooks, has_after_hooks }
    }

    /// Moves the flow on by one event and says what to do next.
    ///
    /// Every step that does not finish the request lowers [`Self::measure`],
    /// so a request ends after at most `4 * (max_retries + 1)` steps; a
    /// finished request that was failed carries no 2xx status, and
    /// one counted by status carries that status.
    pub fn step(&mut self, e: Event) -> (s: Step)
        requires
            old(self).wf(),
            old(self).expects(e),
        ensures
            (*final(self), s) == old(self).transition(e),
            final(self).wf(),
            s is Finish <==> final(self).phase == Phase::Finished,
            !(s is Finish) ==> final(self).measure() < old(self).measure(),
            s matches Step::Finish(r, o) ==> finish_consistent(r, o),
            old(self).phase == Phase::Sending && !old(self).has_after_hooks ==> (e matches Event::Responded(
                r,
            ) && s == Step::Finish(r, Outcome::Status(r.status))),
            old(self).phase matches Phase::AfterHooks(r) ==> (e == Event::AfterHooksDone(
                HookAction::Continue,
            ) ==> s == Step::Finish(r, Outcome::Status(r.status))),
    {
        let zero = RequestResult { latency: Duration::zero(), status: None, bytes: 0 };
        match (self.phase, e) {
            (Phase::Start, Event::Begin) => {
                if self.has_before_hooks {
                    self.phase = Phase::BeforeHooks;
                    Step::RunBeforeHooks
                } else {
                    self.phase = Phase::Sending;
                    Step::Send
                }
            },
            (Phase::BeforeHooks, Event::BeforeHooksDone(a)) => match a {
                HookAction::Continue => {
                    self.phase = Phase::Sending;
                    Step::Send
                },
                HookAction::Abort => {
                    self.phase = Phase::Finished;
                    Step::Finish(zero, Outcome::Failure)
                },
                HookAction::Retry => {
                    if self.retry_count < self.max_retries {
                        self.retry()
                    } else {
                        self.phase = Phase::Finished;
                        Step::Finish(zero, Outcome::Failure)
                    }
                },
            },
            (Phase::Sending, Event::Responded(r)) => {
                if self.has_after_hooks {
                    self.phase = Phase::AfterHooks(r);
                    Step::RunAfterHooks
                } else {
                    self.phase = Phase::Finished;
                    Step::Finish(r, Outcome::Status(r.status))
                }
            },
            (Phase::AfterHooks(r), Event::AfterHooksDone(a)) => match a {
                HookAction::Continue => {
                    self.phase = Phase::Finished;
                    Step::Finish(r, Outcome::Status(r.status))
                },
                HookAction::Abort => {
                    self.phase = Phase::Finished;
                    Step::Finish(
                        RequestResult { latency: r.latency, status: None, bytes: 0 },
                        Outcome::Failure,
                    )
                },
                HookAction::Retry => {
                    if self.retry_count < self.max_retries {
                        self.retry()
                    } else {
                        self.phase = Phase::Finished;
                        let status = if success_status(r.status) {
                            None
                        } else {
                            r.status
                        };
                        Step::Finish(
                            RequestResult { latency: r.latency, status, bytes: r.bytes },
                            Outcome::Failure,
                        )
                    }
                },
            },
            _ => Step::Send,
        }
    }

    fn retry(&mut self) -> (s: Step)
        requires
            old(self).retry_count < old(self).max_retries,
        ensures
            (*final(self), s) == restart(*old(self)),
    {
        self.retry_count = self.retry_count + 1;
        if self.has_before_hooks {
            self.phase = Phase::BeforeHooks;
            Step::RunBeforeHooks
        } else {
            self.phase = Phase::Sending;
            Step::Send
        }
    }
}


/// A finished request counts as a success in the shared counters exactly
/// when the result handed on to the metrics has a 2xx status; a request given
/// up by a hook counts as failed and carries no 2xx status.
pub proof fn lemma_finish_counts_agree(f: RequestFlow, e: Event)
    requires
        f.wf(),
        f.expects(e),
    ensures
        f.transition(e).1 matches Step::Finish(r, o) ==> outcome_success(o) == is_success(r.status),
        f.transition(e).1 matches Step::Finish(r, o) ==> (o == Outcome::Failure ==> !is_success(
            r.status)),
{
}

/// A request is retried at most `max_retries` times: every retry raises the
/// retry count by one, and the count never passes the limit.
pub proof fn lemma_retries_bounded(f: RequestFlow, e: Event)
    requires
        f.wf(),
        f.expects(e),
    ensures
        f.transition(e).0.wf(),
        f.transition(e).0.retry_count == f.retry_count || f.transition(e).0.retry_count
            == f.retry_count + 1,
        f.transition(e).0.max_retries == f.max_retries,
{
}


/// How many outcomes count as successes.
pub open spec fn outcome_successes(os: Seq<Outcome>) -> nat
    decreases os.len(),
{
    if os.len() == 0 {
        0
    } else {
        outcome_successes(os.drop_last()) + if outcome_success(os.last()) {
            1nat
        } else {
            0nat
        }
    }
}

/// The shared success counter and the metrics agree: when every finished
/// request's result is consistent with its outcome, as [`RequestFlow::step`]
/// guarantees, the outcomes count as many successes as the results have 2xx
/// statuses.
pub proof fn lemma_counters_agree(rs: Seq<RequestResult>, os: Seq<Outcome>)
    requires
        rs.len() == os.len(),
        forall|i: int| 0 <= i < rs.len() ==> finish_consistent(#[trigger] rs[i], os[i]),
    ensures
        outcome_successes(os) == success_count(rs),
    decreases rs.len(),
{
    if rs.len() > 0 {
        let (r0, o0) = (rs.drop_last(), os.drop_last());
        assert forall|i: int| 0 <= i < r0.len() implies finish_consistent(#[trigger] r0[i], o0[i]) by {
            assert(r0[i] == rs[i] && o0[i] == os[i]);
        }
        lemma_counters_agree(r0, o0);
        assert(finish_consistent(rs[rs.len() - 1], os[os.len() - 1]));
    }
}


/// The state after `k` claims in a row, and how many of them were granted.
pub open spec fn claims(s: ExecutorState, k: nat) -> (ExecutorState, nat)
    decreases k,
{
    if k == 0 {
        (s, 0)
    } else {
        let (s1, granted) = claims(s, (k - 1) as nat);
        let (s2, go) = s1.claim();
        (
            s2,
            granted + if go {
                1nat
            } else {
                0nat
            },
        )
    }
}

/// A benchmark limited to `n` requests grants exactly `min(k, n)` of `k`
/// claims when nothing else stops it, so it never runs more than `n`
/// requests; once a claim is refused, the workers are told to stop.
pub proof fn lemma_request_limit(n: usize, k: nat)
    ensures
        ({
            let fresh = ExecutorState {
                stop: false,
                request_count: 0,
                target_requests: Some(n),
                successful_count: 0,
                failed_count: 0,
            };
            let (s, granted) = claims(fresh, k);
            &&& granted == if k <= n {
                k
            } else {
                n as nat
            }
            &&& s.request_count == granted
            &&& s.stop == (k > n)
            &&& s.target_requests == Some(n)
        }),
    decreases k,
{
    if k > 0 {
        lemma_request_limit(n, (k - 1) as nat);
    }
}

/// A claim against a stopped benchmark is refused and claims nothing,
/// whatever its request limit; a claim that is refused stops the benchmark
/// and claims nothing; a granted claim claims exactly one more request (the
/// count wrapping like the counter itself when there is no limit), and only
/// below the limit; and a running benchmark below its limit, or without
/// one, grants the claim. The limit and the completion counters never change.
pub proof fn lemma_claim(s: ExecutorState)
    requires
        s.wf(),
    ensures
        s.stop ==> !s.claim().1 && s.claim().0.stop && s.claim().0.request_count
            == s.request_count,
        !s.claim().1 ==> s.claim().0.stop && s.claim().0.request_count == s.request_count,
        s.claim().1 ==> !s.stop && s.claim().0.request_count == bump(s.request_count),
        s.claim().1 && s.target_requests is Some ==> s.claim().0.request_count == s.request_count
            + 1,
        s.claim().1 ==> (s.target_requests matches Some(t) ==> s.request_count < t),
        !s.stop && (s.target_requests matches Some(t) ==> s.request_count < t) ==> s.claim().1,
        s.claim().0.target_requests == s.target_requests,
        s.claim().0.successful_count == s.successful_count,
        s.claim().0.failed_count == s.failed_count,
        s.claim().0.wf(),
{
}

/// A response that no hook intervenes on is handed on exactly as it came
/// back, counted by its own status: without after-request hooks, and when
/// the after-request hooks answer `Continue`.
pub proof fn lemma_response_kept(f: RequestFlow, r: RequestResult)
    ensures
        f.phase == Phase::Sending && !f.has_after_hooks ==> f.transition(Event::Responded(r)) == (
        RequestFlow { phase: Phase::Finished, ..f },
        Step::Finish(r, Outcome::Status(r.status)),
        ),
        f.phase == Phase::AfterHooks(r) ==> f.transition(Event::AfterHooksDone(HookAction::Continue))
            == (RequestFlow { phase: Phase::Finished, ..f }, Step::Finish(r, Outcome::Status(r.status))),
{
}

/// A request fails only when a hook answers `Abort` or `Retry`; a response
/// that finishes the request unhooked is handed on as it came; one that the
/// after-request hooks answered keeps its latency, and keeps its status and
/// bytes unless a hook dropped them.
pub proof fn lemma_failure_needs_a_hook(f: RequestFlow, e: Event)
    requires
        f.wf(),
        f.expects(e),
    ensures
        f.transition(e).1 matches Step::Finish(_, Outcome::Failure) ==> (e matches Event::BeforeHooksDone(
            a,
        ) && a != HookAction::Continue) || (e matches Event::AfterHooksDone(a) && a
            != HookAction::Continue),
        f.transition(e).1 matches Step::Finish(out, _) ==> (f.phase matches Phase::AfterHooks(r) ==> (
        out.latency == r.latency && (out.bytes == r.bytes || out.bytes == 0) && (out.status
            == r.status || out.status is None))),
        f.transition(e).1 matches Step::Finish(out, _) ==> (e matches Event::Responded(r) ==> out
            == r),
{
}

} // verus!
