//! Recording request results and computing benchmark metrics.
use std::collections::HashMap;

use vstd::prelude::*;

use crate::binary64::{
    hundredths, lemma_pow2_53, mebibytes_f64, mebibytes_hundredths, nearest, nearest_up,
    round_half_even_exec, secs_f64, secs_hundredths,
};
use crate::text::{decimal, decimal2, push_char, push_decimal, push_decimal2, push_str};
use crate::time::{Duration, MAX_NANOS};

verus! {

/// The result of one request: how long it took, its status code if a
/// response came back, and how many body bytes were received.
#[derive(Debug, Clone, Copy, PartialEq, Eq)]
pub struct RequestResult {
    pub latency: Duration,
    pub status: Option<u16>,
    pub bytes: usize,
}

/// A status code in the 2xx range.
pub open spec fn is_success_code(code: u16) -> bool {
    200 <= code && code < 300
}

/// A response with a 2xx status.
pub open spec fn is_success(status: Option<u16>) -> bool {
    status matches Some(code) && is_success_code(code)
}

/// Whether `status` is a 2xx response.
pub fn success_status(status: Option<u16>) -> (b: bool)
    ensures
        b == is_success(status),
{
    match status {
        Some(code) => 200 <= code && code < 300,
        None => false,
    }
}


// ---------------------------------------------------------------------------
// What a sequence of recorded results adds up to
// ---------------------------------------------------------------------------

/// How many results have a 2xx status.
pub open spec fn success_count(h: Seq<RequestResult>) -> nat
    decreases h.len(),
{
    if h.len() == 0 {
        0
    } else {
        success_count(h.drop_last()) + if is_success(h.last().status) {
            1nat
        } else {
            0nat
        }
    }
}

/// How many results have status `code`.
pub open spec fn status_count(h: Seq<RequestResult>, code: u16) -> nat
    decreases h.len(),
{
    if h.len() == 0 {
        0
    } else {
        status_count(h.drop_last(), code) + if h.last().status == Some(code) {
            1nat
        } else {
            0nat
        }
    }
}

/// The body bytes of all results.
pub open spec fn bytes_total(h: Seq<RequestResult>) -> nat
    decreases h.len(),
{
    if h.len() == 0 {
        0
    } else {
        bytes_total(h.drop_last()) + h.last().bytes as nat
    }
}

/// The latencies of the results, in recording order.
pub open spec fn latencies_of(h: Seq<RequestResult>) -> Seq<Duration> {
    h.map_values(|r: RequestResult| r.latency)
}

/// `m` maps each status code that occurs in `h` to how often it occurs.
pub open spec fn tally_of(m: Map<u16, usize>, h: Seq<RequestResult>) -> bool {
    forall|code: u16|
        #![trigger m.contains_key(code)]
        #![trigger status_count(h, code)]
        (m.contains_key(code) <==> status_count(h, code) > 0) && (m.contains_key(code) ==> m[code]
            == status_count(h, code))
}

/// How many results carry a status code, that is, got a response.
pub open spec fn responded_count(h: Seq<RequestResult>) -> nat
    decreases h.len(),
{
    if h.len() == 0 {
        0
    } else {
        responded_count(h.drop_last()) + if h.last().status is Some {
            1nat
        } else {
            0nat
        }
    }
}

/// How many results have a status code in `lo..hi`.
pub open spec fn status_count_between(h: Seq<RequestResult>, lo: int, hi: int) -> nat
    decreases hi - lo,
{
    if hi <= lo {
        0
    } else {
        status_count_between(h, lo, hi - 1) + status_count(h, (hi - 1) as u16)
    }
}

/// The counts that the tally `m` holds for the codes in `lo..hi`, added up.
pub open spec fn tally_sum(m: Map<u16, usize>, lo: int, hi: int) -> nat
    decreases hi - lo,
{
    if hi <= lo {
        0
    } else {
        tally_sum(m, lo, hi - 1) + if m.contains_key((hi - 1) as u16) {
            m[(hi - 1) as u16] as nat
        } else {
            0nat
        }
    }
}

proof fn lemma_tally_sum(m: Map<u16, usize>, h: Seq<RequestResult>, lo: int, hi: int)
    requires
        tally_of(m, h),
        0 <= lo,
        hi <= 0x1_0000,
    ensures
        tally_sum(m, lo, hi) == status_count_between(h, lo, hi),
    decreases hi - lo,
{
    if hi > lo {
        lemma_tally_sum(m, h, lo, hi - 1);
        let c = (hi - 1) as u16;
        assert(m.contains_key(c) <==> status_count(h, c) > 0);
    }
}

proof fn lemma_between_push(h: Seq<RequestResult>, r: RequestResult, lo: int, hi: int)
    requires
        0 <= lo,
        hi <= 0x1_0000,
    ensures
        status_count_between(h.push(r), lo, hi) == status_count_between(h, lo, hi) + if (
        r.status matches Some(c) && lo <= c < hi) {
            1nat
        } else {
            0nat
        },
    decreases hi - lo,
{
    assert(h.push(r).drop_last() =~= h);
    if hi > lo {
        lemma_between_push(h, r, lo, hi - 1);
    }
}

proof fn lemma_between_none(h: Seq<RequestResult>, lo: int, hi: int)
    requires
        h.len() == 0,
    ensures
        status_count_between(h, lo, hi) == 0,
    decreases hi - lo,
{
    if hi > lo {
        lemma_between_none(h, lo, hi - 1);
    }
}

proof fn lemma_between_counts(h: Seq<RequestResult>)
    ensures
        status_count_between(h, 200, 300) == success_count(h),
        status_count_between(h, 0, 0x1_0000) == responded_count(h),
    decreases h.len(),
{
    if h.len() > 0 {
        let p = h.drop_last();
        lemma_between_counts(p);
        assert(p.push(h.last()) =~= h);
        lemma_between_push(p, h.last(), 200, 300);
        lemma_between_push(p, h.last(), 0, 0x1_0000);
    } else {
        lemma_between_none(h, 200, 300);
        lemma_between_none(h, 0, 0x1_0000);
    }
}

/// Of the recorded results, the successful ones are among those that got a
/// response, and those are among all of them.
pub proof fn lemma_success_within(h: Seq<RequestResult>)
    ensures
        success_count(h) <= responded_count(h) <= h.len(),
    decreases h.len(),
{
    if h.len() > 0 {
        lemma_success_within(h.drop_last());
    }
}

/// In a tally of recorded results, the counts of the 2xx codes add up to the
/// number of successful results, and all the counts add up to the number of
/// results that carry a status.
pub proof fn lemma_tally_totals(m: Map<u16, usize>, h: Seq<RequestResult>)
    requires
        tally_of(m, h),
    ensures
        tally_sum(m, 200, 300) == success_count(h),
        tally_sum(m, 0, 0x1_0000) == responded_count(h),
{
    lemma_tally_sum(m, h, 200, 300);
    lemma_tally_sum(m, h, 0, 0x1_0000);
    lemma_between_counts(h);
}

/// The total length of a sequence of durations, in nanoseconds.
pub open spec fn sum_nanos(s: Seq<Duration>) -> nat
    decreases s.len(),
{
    if s.len() == 0 {
        0
    } else {
        sum_nanos(s.drop_last()) + s.last()@
    }
}

/// Durations in order of length, shortest first.
pub open spec fn sorted_by_length(s: Seq<Duration>) -> bool {
    forall|i: int, j: int| 0 <= i <= j < s.len() ==> s[i]@ <= s[j]@
}

proof fn lemma_counts_bounded(h: Seq<RequestResult>, code: u16)
    ensures
        success_count(h) <= h.len(),
        status_count(h, code) <= h.len(),
    decreases h.len(),
{
    if h.len() > 0 {
        lemma_counts_bounded(h.drop_last(), code);
    }
}

proof fn lemma_push_counts(h: Seq<RequestResult>, r: RequestResult)
    ensures
        h.push(r).drop_last() == h,
        h.push(r).last() == r,
        latencies_of(h.push(r)) == latencies_of(h).push(r.latency),
{
    assert(h.push(r).drop_last() =~= h);
    assert(latencies_of(h.push(r)) =~= latencies_of(h).push(r.latency));
}

/// The raw results of a benchmark, gathered one request at a time.
pub struct Metrics {
    total: usize,
    success: usize,
    latencies: Vec<Duration>,
    status_codes: HashMap<u16, usize>,
    total_bytes: u64,
    history: Ghost<Seq<RequestResult>>,
}

impl View for Metrics {
    type V = Seq<RequestResult>;

    /// The results recorded so far, in order.
    closed spec fn view(&self) -> Seq<RequestResult> {
        self.history@
    }
}

impl Metrics {
    /// The counters agree with the recorded results.
    pub closed spec fn wf(&self) -> bool {
        let h = self.history@;
        &&& self.total == h.len()
        &&& self.success == success_count(h)
        &&& self.latencies@ == latencies_of(h)
        &&& tally_of(self.status_codes@, h)
        &&& self.total_bytes == bytes_total(h)
    }

    /// No results yet.
    pub fn new() -> (m: Metrics)
        ensures
            m.wf(),
            m@ == Seq::<RequestResult>::empty(),
    {
        let m = Metrics {
            total: 0,
            success: 0,
            latencies: Vec::new(),
            status_codes: HashMap::new(),
            total_bytes: 0,
            history: Ghost(Seq::empty()),
        };
        proof {
            assert(m.latencies@ =~= latencies_of(Seq::empty()));
        }
        m
    }

    /// No results yet, with room reserved for `capacity` latencies.
    pub fn with_capacity(capacity: usize) -> (m: Metrics)
        ensures
            m.wf(),
            m@ == Seq::<RequestResult>::empty(),
    {
        let m = Metrics {
            total: 0,
            success: 0,
            latencies: Vec::with_capacity(capacity),
            status_codes: HashMap::new(),
            total_bytes: 0,
            history: Ghost(Seq::empty()),
        };
        proof {
            assert(m.latencies@ =~= latencies_of(Seq::empty()));
        }
        m
    }

    /// How many results were recorded.
    pub fn recorded(&self) -> (n: usize)
        requires
            self.wf(),
        ensures
            n == self@.len(),
    {
        self.total
    }

    /// How many results so far had a 2xx status.
    pub fn successful(&self) -> (n: usize)
        requires
            self.wf(),
        ensures
            n == success_count(self@),
    {
        self.success
    }

    /// How often each status code came back so far.
    pub fn status_codes(&self) -> (m: &HashMap<u16, usize>)
        requires
            self.wf(),
        ensures
            tally_of(m@, self@),
    {
        &self.status_codes
    }

    /// The latencies recorded so far, in recording order.
    pub fn latencies(&self) -> (v: &Vec<Duration>)
        requires
            self.wf(),
        ensures
            v@ == latencies_of(self@),
    {
        &self.latencies
    }

    /// The body bytes received so far.
    pub fn bytes_received(&self) -> (n: u64)
        requires
            self.wf(),
        ensures
            n == bytes_total(self@),
    {
        self.total_bytes
    }

    /// Whether the recorded latencies add up to a span that a duration can hold.
    pub fn latency_sum_fits(&self) -> (b: bool)
        requires
            self.wf(),
        ensures
            b == (sum_nanos(latencies_of(self@)) <= MAX_NANOS),
    {
        let lats = &self.latencies;
        let n = lats.len();
        let mut sum: u128 = 0;
        let mut i: usize = 0;
        while i < n
            invariant
                n == lats@.len(),
                lats@ == latencies_of(self@),
                i <= n,
                sum <= MAX_NANOS,
                sum == sum_nanos(lats@.subrange(0, i as int)),
            decreases n - i,
        {
            proof {
                assert(lats@.subrange(0, i + 1).drop_last() =~= lats@.subrange(0, i as int));
            }
            let next = sum + lats[i].as_nanos();
            if next > MAX_NANOS {
                proof {
                    lemma_sum_prefix(lats@, i + 1);
                }
                return false;
            }
            sum = next;
            i = i + 1;
        }
        assert(lats@.subrange(0, n as int) =~= lats@);
        true
    }

    /// Records one more result.
    pub fn record(&mut self, result: RequestResult)
        requires
            old(self).wf(),
            old(self)@.len() < usize::MAX,
            bytes_total(old(self)@) + result.bytes <= u64::MAX,
        ensures
            final(self).wf(),
            final(self)@ == old(self)@.push(result),
    {
        broadcast use vstd::std_specs::hash::group_hash_axioms;

        let ghost h = self.history@;
        let ghost h2 = h.push(result);
        proof {
            lemma_push_counts(h, result);
        }
        self.total = self.total + 1;
        self.total_bytes = self.total_bytes + result.bytes as u64;
        if let Some(status) = result.status {
            let count = match self.status_codes.get(&status) {
                Some(c) => *c,
                None => 0,
            };
            proof {
                lemma_counts_bounded(h, status);
            }
            self.status_codes.insert(status, count + 1);
            if 200 <= status && status < 300 {
                self.success = self.success + 1;
            }
        }
        self.latencies.push(result.latency);
        self.history = Ghost(h2);
        proof {
            assert(tally_of(self.status_codes@, h2)) by {
                assert forall|code: u16| #[trigger]
                    self.status_codes@.contains_key(code) || status_count(h2, code) > 0 implies (
                    self.status_codes@.contains_key(code) <==> status_count(h2, code) > 0) && (
                    self.status_codes@.contains_key(code) ==> self.status_codes@[code]
                        == status_count(h2, code)) by {
                    assert(status_count(h, code) > 0 ==> old(self).status_codes@.contains_key(code));
                }
            }
        }
    }
}


impl Default for Metrics {
    /// No results yet.
    fn default() -> (m: Metrics)
        ensures
            m.wf(),
            m@ == Seq::<RequestResult>::empty(),
    {
        Metrics::new()
    }
}

// ---------------------------------------------------------------------------
// From raw results to the benchmark's figures
// ---------------------------------------------------------------------------

/// The figures of a finished benchmark.
///
/// Latencies are listed shortest first; the percentile at `p` is the latency
/// at [`percentile_index`] of that list. Throughput, a ratio, is left to the
/// caller: `total_requests` over `duration`.
#[derive(Debug)]
pub struct BenchmarkResults {
    pub total_requests: usize,
    pub successful_requests: usize,
    pub failed_requests: usize,
    pub duration: Duration,
    pub latency_min: Duration,
    pub latency_max: Duration,
    pub latency_mean: Duration,
    pub latency_p50: Duration,
    pub latency_p90: Duration,
    pub latency_p95: Duration,
    pub latency_p99: Duration,
    pub status_codes: HashMap<u16, usize>,
    pub total_bytes: u64,
    pub latencies: Vec<Duration>,
}

/// The position of the `p`th percentile in a sorted list of `n` values:
/// `n * p / 100` counted from one, and the first value below that.
pub open spec fn percentile_index(n: nat, p: nat) -> nat {
    if n * p / 100 >= 1 {
        (n * p / 100 - 1) as nat
    } else {
        0
    }
}

proof fn lemma_percentile_index(n: nat, p: nat, q: nat)
    requires
        n > 0,
        p <= q <= 100,
    ensures
        percentile_index(n, p) <= percentile_index(n, q) < n,
{
    assert(n * p <= n * q) by (nonlinear_arith)
        requires
            p <= q,
    ;
    assert(n * q <= n * 100) by (nonlinear_arith)
        requires
            q <= 100,
    ;
    assert(n * p / 100 <= n * q / 100) by (nonlinear_arith)
        requires
            n * p <= n * q,
    ;
    assert(n * q / 100 <= n) by (nonlinear_arith)
        requires
            n * q <= n * 100,
    ;
}

/// The `p`th percentile of a list sorted shortest first.
pub fn percentile(sorted: &Vec<Duration>, p: usize) -> (d: Duration)
    requires
        sorted@.len() > 0,
        p <= 100,
        sorted@.len() * p <= usize::MAX,
    ensures
        d == sorted@[percentile_index(sorted@.len(), p as nat) as int],
{
    proof {
        lemma_percentile_index(sorted@.len(), p as nat, 100);
    }
    let idx = sorted.len() * p / 100;
    let idx = if idx >= 1 {
        idx - 1
    } else {
        0
    };
    sorted[idx]
}

/// `slice::sort_by_key` keyed by length: puts the durations in order, shortest first.
#[verifier::external_body]
fn sort_by_length(v: &mut Vec<Duration>)
    ensures
        final(v)@.to_multiset() == old(v)@.to_multiset(),
        sorted_by_length(final(v)@),
{
    v.sort_by_key(|d| d.as_nanos())
}

proof fn lemma_sum_remove(s: Seq<Duration>, i: int)
    requires
        0 <= i < s.len(),
    ensures
        sum_nanos(s) == sum_nanos(s.remove(i)) + s[i]@,
    decreases s.len(),
{
    if i == s.len() - 1 {
        assert(s.remove(i) =~= s.drop_last());
    } else {
        lemma_sum_remove(s.drop_last(), i);
        assert(s.remove(i).drop_last() =~= s.drop_last().remove(i));
        assert(s.remove(i).last() == s.last());
    }
}

/// Reordering durations does not change their total.
proof fn lemma_sum_permutation(a: Seq<Duration>, b: Seq<Duration>)
    requires
        a.to_multiset() == b.to_multiset(),
    ensures
        sum_nanos(a) == sum_nanos(b),
    decreases a.len(),
{
    a.to_multiset_ensures();
    b.to_multiset_ensures();
    if a.len() > 0 {
        let x = a.last();
        assert(a.contains(x)) by {
            assert(a[a.len() - 1] == x);
        }
        assert(a.to_multiset().count(x) > 0);
        assert(b.to_multiset().count(x) > 0);
        assert(b.contains(x));
        let k = choose|k: int| 0 <= k < b.len() && b[k] == x;
        assert(a.remove(a.len() - 1) =~= a.drop_last());
        a.drop_last().to_multiset_ensures();
        b.remove(k).to_multiset_ensures();
        lemma_sum_permutation(a.drop_last(), b.remove(k));
        lemma_sum_remove(b, k);
    }
}

proof fn lemma_sum_prefix(s: Seq<Duration>, i: int)
    requires
        0 <= i <= s.len(),
    ensures
        sum_nanos(s.subrange(0, i)) <= sum_nanos(s),
    decreases s.len() - i,
{
    if i < s.len() {
        lemma_sum_prefix(s, i + 1);
        assert(s.subrange(0, i + 1).drop_last() =~= s.subrange(0, i));
    } else {
        assert(s.subrange(0, i) =~= s);
    }
}

/// The total of durations that all lie between `lo` and `hi` lies between
/// `n * lo` and `n * hi`.
proof fn lemma_sum_bounds(s: Seq<Duration>, lo: nat, hi: nat)
    requires
        forall|i: int| 0 <= i < s.len() ==> lo <= #[trigger] s[i]@ <= hi,
    ensures
        s.len() * lo <= sum_nanos(s) <= s.len() * hi,
    decreases s.len(),
{
    if s.len() > 0 {
        let t = s.drop_last();
        assert forall|i: int| 0 <= i < t.len() implies lo <= #[trigger] t[i]@ <= hi by {
            assert(t[i] == s[i]);
        }
        lemma_sum_bounds(t, lo, hi);
        let n = s.len();
        assert((n - 1) * lo + lo == n * lo) by (nonlinear_arith);
        assert((n - 1) * hi + hi == n * hi) by (nonlinear_arith);
    }
}

proof fn lemma_mean_bounds(sum: nat, n: nat, lo: nat, hi: nat)
    requires
        n > 0,
        n * lo <= sum <= n * hi,
    ensures
        lo <= sum / n <= hi,
{
    assert(lo <= sum / n) by (nonlinear_arith)
        requires
            n > 0,
            n * lo <= sum,
    ;
    assert(sum / n <= hi) by (nonlinear_arith)
        requires
            n > 0,
            sum <= n * hi,
    ;
}

/// The summary figures of latencies sorted shortest first: minimum, maximum,
/// mean (total over the count modulo 2^32), and the 50th, 90th, 95th and
/// 99th percentiles; all zero when there are none.
fn latency_summary(sorted: &Vec<Duration>) -> (r: (
    Duration,
    Duration,
    Duration,
    Duration,
    Duration,
    Duration,
    Duration,
))
    requires
        sorted_by_length(sorted@),
        sum_nanos(sorted@) <= MAX_NANOS,
        sorted@.len() > 0 ==> sorted@.len() % 0x1_0000_0000 != 0,
        sorted@.len() * 99 <= usize::MAX,
    ensures
        sorted@.len() == 0 ==> r.0@ == 0 && r.1@ == 0 && r.2@ == 0 && r.3@ == 0 && r.4@ == 0
            && r.5@ == 0 && r.6@ == 0,
        sorted@.len() > 0 ==> {
            let s = sorted@;
            let n = s.len();
            &&& r.0 == s[0]
            &&& r.1 == s[n - 1]
            &&& r.2@ == sum_nanos(s) / (n % 0x1_0000_0000)
            &&& r.3 == s[percentile_index(n, 50) as int]
            &&& r.4 == s[percentile_index(n, 90) as int]
            &&& r.5 == s[percentile_index(n, 95) as int]
            &&& r.6 == s[percentile_index(n, 99) as int]
        },
        r.0@ <= r.3@ <= r.4@ <= r.5@ <= r.6@ <= r.1@,
        sorted@.len() <= u32::MAX ==> r.0@ <= r.2@ <= r.1@,
{
    let n = sorted.len();
    let zero = Duration::zero();
    if n == 0 {
        return (zero, zero, zero, zero, zero, zero, zero);
    }
    let mut sum: u128 = 0;
    let mut i: usize = 0;
    while i < n
        invariant
            n == sorted@.len(),
            i <= n,
            sum_nanos(sorted@) <= MAX_NANOS,
            sum == sum_nanos(sorted@.subrange(0, i as int)),
        decreases n - i,
    {
        proof {
            assert(sorted@.subrange(0, i + 1).drop_last() =~= sorted@.subrange(0, i as int));
            lemma_sum_prefix(sorted@, i + 1);
        }
        sum = sum + sorted[i].as_nanos();
        i = i + 1;
    }
    assert(sorted@.subrange(0, n as int) =~= sorted@);
    let divisor: u128 = (n as u128) % 0x1_0000_0000;
    let mean = Duration::from_total_nanos(sum / divisor);
    proof {
        lemma_percentile_index(n as nat, 0, 50);
        lemma_percentile_index(n as nat, 50, 90);
        lemma_percentile_index(n as nat, 90, 95);
        lemma_percentile_index(n as nat, 95, 99);
        lemma_percentile_index(n as nat, 99, 100);
        if n <= u32::MAX {
            lemma_sum_bounds(sorted@, sorted@[0]@, sorted@[n - 1]@);
            lemma_mean_bounds(sum as nat, n as nat, sorted@[0]@, sorted@[n - 1]@);
        }
    }
    (
        sorted[0],
        sorted[n - 1],
        mean,
        percentile(sorted, 50),
        percentile(sorted, 90),
        percentile(sorted, 95),
        percentile(sorted, 99),
    )
}

impl Metrics {
    /// The benchmark's figures from the recorded results and the time it took.
    ///
    /// The mean divides the total latency by the number of results taken
    /// modulo 2^32, as dividing a duration by a `u32` count does.
    pub fn into_results(self, elapsed: Duration) -> (r: BenchmarkResults)
        requires
            self.wf(),
            sum_nanos(latencies_of(self@)) <= MAX_NANOS,
            self@.len() > 0 ==> self@.len() % 0x1_0000_0000 != 0,
            self@.len() * 99 <= usize::MAX,
        ensures
            r.total_requests == self@.len(),
            r.successful_requests == success_count(self@),
            r.failed_requests == self@.len() - success_count(self@),
            r.duration == elapsed,
            tally_of(r.status_codes@, self@),
            r.total_bytes == bytes_total(self@),
            r.latencies@.to_multiset() == latencies_of(self@).to_multiset(),
            sorted_by_length(r.latencies@),
            self@.len() == 0 ==> r.latency_min@ == 0 && r.latency_max@ == 0 && r.latency_mean@ == 0
                && r.latency_p50@ == 0 && r.latency_p90@ == 0 && r.latency_p95@ == 0
                && r.latency_p99@ == 0,
            self@.len() > 0 ==> {
                let s = r.latencies@;
                let n = s.len();
                &&& r.latency_min == s[0]
                &&& r.latency_max == s[n - 1]
                &&& r.latency_mean@ == sum_nanos(latencies_of(self@)) / (n % 0x1_0000_0000)
                &&& r.latency_p50 == s[percentile_index(n, 50) as int]
                &&& r.latency_p90 == s[percentile_index(n, 90) as int]
                &&& r.latency_p95 == s[percentile_index(n, 95) as int]
                &&& r.latency_p99 == s[percentile_index(n, 99) as int]
            },
            r.successful_requests + r.failed_requests == r.total_requests,
            r.latency_min@ <= r.latency_p50@ <= r.latency_p90@ <= r.latency_p95@ <= r.latency_p99@
                <= r.latency_max@,
            self@.len() <= u32::MAX ==> r.latency_min@ <= r.latency_mean@ <= r.latency_max@,
    {
        let ghost h = self@;
        proof {
            lemma_counts_bounded(h, 0);
        }
        let mut sorted = self.latencies;
        let ghost unsorted = sorted@;
        sort_by_length(&mut sorted);
        proof {
            lemma_sum_permutation(sorted@, unsorted);
            unsorted.to_multiset_ensures();
            sorted@.to_multiset_ensures();
        }
        let (latency_min, latency_max, latency_mean, latency_p50, latency_p90, latency_p95, latency_p99) =
            latency_summary(&sorted);
        BenchmarkResults {
            total_requests: self.total,
            successful_requests: self.success,
            failed_requests: self.total - self.success,
            duration: elapsed,
            latency_min,
            latency_max,
            latency_mean,
            latency_p50,
            latency_p90,
            latency_p95,
            latency_p99,
            status_codes: self.status_codes,
            total_bytes: self.total_bytes,
            latencies: sorted,
        }
    }
}


// ---------------------------------------------------------------------------
// Rendering
// ---------------------------------------------------------------------------

/// A count of hundredths written with two decimals, like `12.05`.
pub open spec fn fixed2(hundredths: nat) -> Seq<char> {
    decimal(hundredths / 100) + seq!['.'] + decimal2(hundredths % 100)
}

fn push_fixed2(s: &mut String, hundredths: u128)
    ensures
        final(s)@ == old(s)@ + fixed2(hundredths as nat),
{
    push_decimal(s, hundredths / 100);
    push_char(s, '.');
    push_decimal2(s, hundredths % 100);
    proof {
        assert(final(s)@ =~= old(s)@ + fixed2(hundredths as nat));
    }
}

/// How a latency is shown: whole microseconds below a millisecond
/// (`500us`); below a second, milliseconds with two decimals (`12.50ms`),
/// from the binary64 nearest to the microseconds over 1000 (what
/// `micros as f64 / 1000.0` gives); from there on, seconds as
/// [`seconds_text`] shows them.
pub open spec fn duration_text(d: Duration) -> Seq<char> {
    let micros = d@ / 1000;
    if micros < 1000 {
        decimal(micros) + "us"@
    } else if micros < 1_000_000 {
        fixed2(hundredths(nearest(micros, 1000))) + "ms"@
    } else {
        seconds_text(d)
    }
}

/// A span in seconds with two decimals, like `2.50s`: the binary64 that
/// `Duration::as_secs_f64` gives, rounded to hundredths.
pub open spec fn seconds_text(d: Duration) -> Seq<char> {
    fixed2(hundredths(secs_f64(d@ / 1_000_000_000, d@ % 1_000_000_000))) + "s"@
}

/// Shows a span in seconds with two decimals.
pub fn format_seconds(d: Duration) -> (s: String)
    ensures
        s@ == seconds_text(d),
{
    let mut s = String::new();
    push_fixed2(&mut s, secs_hundredths(d.as_secs(), d.subsec_nanos()));
    push_str(&mut s, "s");
    s
}

/// A byte count in mebibytes (2^20 bytes) with two decimals, like `0.62 MB`:
/// the binary64 quotient `bytes as f64 / 1048576.0`, rounded to hundredths.
pub open spec fn megabytes_text(bytes: u64) -> Seq<char> {
    fixed2(hundredths(mebibytes_f64(bytes as nat))) + " MB"@
}

/// Shows a byte count in mebibytes with two decimals.
pub fn format_megabytes(bytes: u64) -> (s: String)
    ensures
        s@ == megabytes_text(bytes),
{
    let mut s = String::new();
    push_fixed2(&mut s, mebibytes_hundredths(bytes));
    push_str(&mut s, " MB");
    s
}

/// Shows a latency in the unit that suits its size.
pub fn format_duration(d: Duration) -> (s: String)
    ensures
        s@ == duration_text(d),
{
    let micros = d.as_micros();
    let mut s = String::new();
    if micros < 1000 {
        push_decimal(&mut s, micros);
        push_str(&mut s, "us");
    } else if micros < 1_000_000 {
        proof {
            lemma_pow2_53();
        }
        let (m, p) = nearest_up(micros, 1000);
        push_fixed2(&mut s, round_half_even_exec(m * 100, p));
        push_str(&mut s, "ms");
    } else {
        s = format_seconds(d);
    }
    s
}


// ---------------------------------------------------------------------------
// Latency histogram and status code listing
// ---------------------------------------------------------------------------

/// The bucket that `ms` falls in: the first bound it does not exceed, or the
/// overflow bucket past the last bound.
pub open spec fn bucket_index(ms: nat, bounds: Seq<nat>) -> nat
    decreases bounds.len(),
{
    if bounds.len() == 0 {
        0
    } else if ms <= bounds[0] {
        0
    } else {
        bucket_index(ms, bounds.drop_first()) + 1
    }
}

/// Whole milliseconds of a duration, as a `u64` holds them (modulo 2^64).
pub open spec fn whole_millis(d: Duration) -> nat {
    (d@ / 1_000_000) % 0x1_0000_0000_0000_0000
}

/// Whole milliseconds of each duration.
pub open spec fn millis_of(s: Seq<Duration>) -> Seq<nat> {
    s.map_values(|d: Duration| whole_millis(d))
}

fn whole_millis_exec(d: &Duration) -> (ms: u64)
    ensures
        ms == whole_millis(*d),
{
    (d.as_nanos() / 1_000_000 % 0x1_0000_0000_0000_0000) as u64
}

/// How many of the latencies fall in bucket `i`.
pub open spec fn bucket_count(lats: Seq<Duration>, bounds: Seq<nat>, i: nat) -> nat
    decreases lats.len(),
{
    if lats.len() == 0 {
        0
    } else {
        bucket_count(lats.drop_last(), bounds, i) + if bucket_index(
            whole_millis(lats.last()),
            bounds,
        ) == i {
            1nat
        } else {
            0nat
        }
    }
}

/// The label of bucket `i`: `"{lower}-{upper}ms"`, or `"{lower}ms+"` for the overflow bucket.
pub open spec fn bucket_label(bounds: Seq<nat>, i: int) -> Seq<char> {
    let lower = if i == 0 {
        0
    } else {
        bounds[i - 1]
    };
    if i < bounds.len() {
        decimal(lower) + seq!['-'] + decimal(bounds[i]) + "ms"@
    } else {
        decimal(lower) + "ms+"@
    }
}

/// The sum of the bucket counts below `k`.
pub open spec fn counted_below(lats: Seq<Duration>, bounds: Seq<nat>, k: nat) -> nat
    decreases k,
{
    if k == 0 {
        0
    } else {
        counted_below(lats, bounds, (k - 1) as nat) + bucket_count(lats, bounds, (k - 1) as nat)
    }
}

proof fn lemma_bucket_index_bound(ms: nat, bounds: Seq<nat>)
    ensures
        bucket_index(ms, bounds) <= bounds.len(),
        bucket_index(ms, bounds) < bounds.len() ==> ms <= bounds[bucket_index(ms, bounds) as int],
        forall|j: int| 0 <= j < bucket_index(ms, bounds) ==> ms > #[trigger] bounds[j],
    decreases bounds.len(),
{
    if bounds.len() > 0 && ms > bounds[0] {
        lemma_bucket_index_bound(ms, bounds.drop_first());
        assert forall|j: int| 0 <= j < bucket_index(ms, bounds) implies ms > #[trigger] bounds[j] by {
            if j > 0 {
                assert(bounds[j] == bounds.drop_first()[j - 1]);
            }
        }
    }
}

proof fn lemma_bucket_index_first(ms: nat, bounds: Seq<nat>, i: int)
    requires
        0 <= i <= bounds.len(),
        forall|j: int| 0 <= j < i ==> ms > #[trigger] bounds[j],
        i < bounds.len() ==> ms <= bounds[i],
    ensures
        bucket_index(ms, bounds) == i,
    decreases i,
{
    if i > 0 {
        assert(ms > bounds[0]);
        assert forall|j: int| 0 <= j < i - 1 implies ms > #[trigger] bounds.drop_first()[j] by {
            assert(bounds.drop_first()[j] == bounds[j + 1]);
        }
        lemma_bucket_index_first(ms, bounds.drop_first(), i - 1);
    }
}

proof fn lemma_counted_push(lats: Seq<Duration>, x: Duration, bounds: Seq<nat>, k: nat)
    ensures
        counted_below(lats.push(x), bounds, k) == counted_below(lats, bounds, k) + if bucket_index(
            whole_millis(x),
            bounds,
        ) < k {
            1nat
        } else {
            0nat
        },
    decreases k,
{
    assert(lats.push(x).drop_last() =~= lats);
    if k > 0 {
        lemma_counted_push(lats, x, bounds, (k - 1) as nat);
    }
}

proof fn lemma_counted_empty(lats: Seq<Duration>, bounds: Seq<nat>, k: nat)
    requires
        lats.len() == 0,
    ensures
        counted_below(lats, bounds, k) == 0,
    decreases k,
{
    if k > 0 {
        lemma_counted_empty(lats, bounds, (k - 1) as nat);
    }
}

/// Every latency lands in exactly one bucket.
pub proof fn lemma_histogram_total(lats: Seq<Duration>, bounds: Seq<nat>)
    ensures
        counted_below(lats, bounds, bounds.len() + 1) == lats.len(),
    decreases lats.len(),
{
    if lats.len() > 0 {
        let init = lats.drop_last();
        assert(init.push(lats.last()) =~= lats);
        lemma_histogram_total(init, bounds);
        lemma_counted_push(init, lats.last(), bounds, bounds.len() + 1);
        lemma_bucket_index_bound(whole_millis(lats.last()), bounds);
    } else {
        lemma_counted_empty(lats, bounds, bounds.len() + 1);
    }
}

/// The default histogram bounds: 1, 5, 10, 25, 50, 100, 250, 500 and 1000 milliseconds.
pub fn default_buckets() -> (v: Vec<Duration>)
    ensures
        millis_of(v@) == seq![1nat, 5, 10, 25, 50, 100, 250, 500, 1000],
{
    let v = vec![
        Duration::from_millis(1),
        Duration::from_millis(5),
        Duration::from_millis(10),
        Duration::from_millis(25),
        Duration::from_millis(50),
        Duration::from_millis(100),
        Duration::from_millis(250),
        Duration::from_millis(500),
        Duration::from_millis(1000),
    ];
    assert(millis_of(v@) =~= seq![1nat, 5, 10, 25, 50, 100, 250, 500, 1000]);
    v
}

impl BenchmarkResults {
    /// Counts the latencies per bucket: a latency, in whole milliseconds,
    /// falls in the first bucket whose bound it does not exceed, or in the
    /// last (overflow) bucket. Each count comes with its label.
    pub fn compute_histogram(&self, buckets: &Vec<Duration>) -> (h: Vec<(String, u64)>)
        ensures
            h@.len() == buckets@.len() + 1,
            forall|i: int|
                0 <= i < h@.len() ==> (#[trigger] h@[i]).0@ == bucket_label(millis_of(buckets@), i)
                    && h@[i].1 == bucket_count(self.latencies@, millis_of(buckets@), i as nat),
    {
        let ghost bounds = millis_of(buckets@);
        let nb = buckets.len();
        let mut bucket_ms: Vec<u64> = Vec::new();
        let mut b: usize = 0;
        while b < nb
            invariant
                nb == buckets@.len(),
                b <= nb,
                bounds == millis_of(buckets@),
                bucket_ms@.len() == b,
                forall|j: int| 0 <= j < b ==> bucket_ms@[j] == bounds[j],
            decreases nb - b,
        {
            bucket_ms.push(whole_millis_exec(&buckets[b]));
            assert(bounds[b as int] == whole_millis(buckets@[b as int]));
            b = b + 1;
        }
        let mut counts: Vec<u64> = Vec::new();
        counts.push(0);
        let mut c: usize = 0;
        while c < nb
            invariant
                nb == buckets@.len(),
                c <= nb,
                counts@.len() == c + 1,
                forall|j: int| 0 <= j <= c ==> counts@[j] == 0,
            decreases nb - c,
        {
            counts.push(0);
            c = c + 1;
        }
        let lats = &self.latencies;
        let n = lats.len();
        let mut k: usize = 0;
        while k < n
            invariant
                n == lats@.len(),
                k <= n,
                nb == buckets@.len(),
                bounds == millis_of(buckets@),
                bucket_ms@.len() == nb,
                forall|j: int| 0 <= j < nb ==> bucket_ms@[j] == bounds[j],
                counts@.len() == nb + 1,
                forall|j: int|
                    0 <= j <= nb ==> #[trigger] counts@[j] == bucket_count(
                        lats@.subrange(0, k as int),
                        bounds,
                        j as nat,
                    ),
                forall|j: int| 0 <= j <= nb ==> #[trigger] counts@[j] <= k,
            decreases n - k,
        {
            let ms = whole_millis_exec(&lats[k]);
            let mut i: usize = 0;
            while i < nb && ms > bucket_ms[i]
                invariant
                    nb == bounds.len(),
                    i <= nb,
                    bucket_ms@.len() == nb,
                    forall|j: int| 0 <= j < nb ==> bucket_ms@[j] == bounds[j],
                    forall|j: int| 0 <= j < i ==> ms > #[trigger] bounds[j],
                decreases nb - i,
            {
                i = i + 1;
            }
            let idx = i;
            proof {
                lemma_bucket_index_first(ms as nat, bounds, idx as int);
                let pre = lats@.subrange(0, k as int);
                let post = lats@.subrange(0, k + 1);
                assert(post.drop_last() =~= pre);
                assert(post.last() == lats@[k as int]);
                assert forall|j: int| 0 <= j <= nb implies #[trigger] bucket_count(post, bounds, j as nat)
                    == bucket_count(pre, bounds, j as nat) + if j == idx {
                    1nat
                } else {
                    0nat
                } by {}
            }
            let old_count = counts[idx];
            counts.set(idx, old_count + 1);
            k = k + 1;
        }
        assert(lats@.subrange(0, n as int) =~= lats@);
        let mut result: Vec<(String, u64)> = Vec::new();
        let mut prev: u64 = 0;
        let mut i: usize = 0;
        while i < nb
            invariant
                nb == buckets@.len(),
                i <= nb,
                bounds == millis_of(buckets@),
                bucket_ms@.len() == nb,
                forall|j: int| 0 <= j < nb ==> bucket_ms@[j] == bounds[j],
                counts@.len() == nb + 1,
                forall|j: int|
                    0 <= j <= nb ==> #[trigger] counts@[j] == bucket_count(lats@, bounds, j as nat),
                prev == if i == 0 {
                    0
                } else {
                    bounds[i - 1]
                },
                result@.len() == i,
                forall|j: int|
                    0 <= j < i ==> (#[trigger] result@[j]).0@ == bucket_label(bounds, j)
                        && result@[j].1 == bucket_count(lats@, bounds, j as nat),
            decreases nb - i,
        {
            let upper = bucket_ms[i];
            let mut label = String::new();
            push_decimal(&mut label, prev as u128);
            push_char(&mut label, '-');
            push_decimal(&mut label, upper as u128);
            push_str(&mut label, "ms");
            proof {
                assert(label@ =~= bucket_label(bounds, i as int));
            }
            result.push((label, counts[i]));
            prev = upper;
            i = i + 1;
        }
        let mut label = String::new();
        push_decimal(&mut label, prev as u128);
        push_str(&mut label, "ms+");
        proof {
            assert(label@ =~= bucket_label(bounds, nb as int));
        }
        result.push((label, counts[nb]));
        result
    }

    /// The status codes seen and how often, in increasing order of code.
    pub fn sorted_status_codes(&self) -> (v: Vec<(u16, usize)>)
        ensures
            forall|i: int, j: int| 0 <= i < j < v@.len() ==> v@[i].0 < v@[j].0,
            forall|i: int|
                0 <= i < v@.len() ==> self.status_codes@.contains_key((#[trigger] v@[i]).0)
                    && self.status_codes@[v@[i].0] == v@[i].1,
            forall|code: u16|
                self.status_codes@.contains_key(code) ==> exists|i: int|
                    0 <= i < v@.len() && (#[trigger] v@[i]).0 == code,
    {
        broadcast use vstd::std_specs::hash::group_hash_axioms;

        let mut v: Vec<(u16, usize)> = Vec::new();
        let mut code: u32 = 0;
        while code <= 0xffff
            invariant
                code <= 0x10000,
                forall|i: int| 0 <= i < v@.len() ==> (#[trigger] v@[i]).0 < code,
                forall|i: int, j: int| 0 <= i < j < v@.len() ==> v@[i].0 < v@[j].0,
                forall|i: int|
                    0 <= i < v@.len() ==> self.status_codes@.contains_key((#[trigger] v@[i]).0)
                        && self.status_codes@[v@[i].0] == v@[i].1,
                forall|c: u16|
                    c < code && self.status_codes@.contains_key(c) ==> exists|i: int|
                        0 <= i < v@.len() && (#[trigger] v@[i]).0 == c,
            decreases 0x10000 - code,
        {
            let c = code as u16;
            match self.status_codes.get(&c) {
                Some(n) => {
                    let ghost before = v@;
                    v.push((c, *n));
                    proof {
                        assert(v@[before.len() as int].0 == c);
                        assert forall|d: u16|
                            d < code + 1 && self.status_codes@.contains_key(d) implies exists|i: int|
                            0 <= i < v@.len() && (#[trigger] v@[i]).0 == d by {
                            if d < code {
                                let i = choose|i: int| 0 <= i < before.len() && (#[trigger] before[i]).0 == d;
                                assert(v@[i] == before[i]);
                            } else {
                                assert(v@[before.len() as int].0 == d);
                            }
                        }
                    }
                },
                None => {},
            }
            code = code + 1;
        }
        v
    }
}

} // verus!
