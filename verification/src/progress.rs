//! What the progress display shows: elapsed time as a clock and how far
//! the benchmark has come.
use vstd::prelude::*;

use crate::config::StopCondition;
use crate::text::{decimal2, push_char, push_decimal2};
use crate::time::Duration;

verus! {

/// Elapsed time on a clock: `MMmSSs` from one minute on, `SSs` before,
/// each part with at least two digits.
pub open spec fn clock_text(d: Duration) -> Seq<char> {
    let secs = d@ / 1_000_000_000;
    let mins = secs / 60;
    if mins > 0 {
        decimal2(mins) + seq!['m'] + decimal2(secs % 60) + seq!['s']
    } else {
        decimal2(secs % 60) + seq!['s']
    }
}

/// Shows elapsed time as minutes and seconds.
pub fn format_duration(d: Duration) -> (s: String)
    ensures
        s@ == clock_text(d),
{
    let secs = d.as_secs();
    let mins = secs / 60;
    let rest = secs % 60;
    let mut s = String::new();
    if mins > 0 {
        push_decimal2(&mut s, mins as u128);
        push_char(&mut s, 'm');
    }
    push_decimal2(&mut s, rest as u128);
    push_char(&mut s, 's');
    proof {
        assert(s@ =~= clock_text(d));
    }
    s
}

/// How far the progress bar stands: requests done out of a request target,
/// or milliseconds elapsed out of a time target (a `u64` holds them modulo
/// 2^64), never past the target; nothing without a target.
pub open spec fn progress_position(
    total_requests: usize,
    elapsed: Duration,
    target_requests: Option<usize>,
    target_duration: Option<Duration>,
) -> Option<u64> {
    match (target_requests, target_duration) {
        (Some(t), _) => Some(
            (if total_requests <= t {
                total_requests
            } else {
                t
            }) as u64,
        ),
        (_, Some(t)) => {
            let e = elapsed@ / 1_000_000;
            let m = t@ / 1_000_000;
            Some(((if e <= m {
                e
            } else {
                m
            }) % 0x1_0000_0000_0000_0000) as u64)
        },
        _ => None,
    }
}

/// The position of the progress bar.
pub fn position(
    total_requests: usize,
    elapsed: Duration,
    target_requests: Option<usize>,
    target_duration: Option<Duration>,
) -> (p: Option<u64>)
    ensures
        p == progress_position(total_requests, elapsed, target_requests, target_duration),
        target_requests matches Some(t) ==> p == Some(
            (if total_requests <= t {
                total_requests
            } else {
                t
            }) as u64,
        ),
        target_requests is None && target_duration is None ==> p is None,
{
    match (target_requests, target_duration) {
        (Some(t), _) => Some(
            if total_requests <= t {
                total_requests as u64
            } else {
                t as u64
            },
        ),
        (_, Some(t)) => {
            let e = elapsed.as_millis();
            let m = t.as_millis();
            let lower = if e <= m {
                e
            } else {
                m
            };
            Some((lower % 0x1_0000_0000_0000_0000) as u64)
        },
        _ => None,
    }
}

/// The targets that a progress report shows: the request count of a
/// benchmark limited by requests, the span of one limited by time.
pub fn progress_targets(sc: &StopCondition) -> (r: (Option<usize>, Option<Duration>))
    ensures
        r.0 == (match *sc {
            StopCondition::Requests(n) => Some(n),
            _ => None,
        }),
        r.1 == (match *sc {
            StopCondition::Duration(d) => Some(d),
            _ => None,
        }),
{
    match sc {
        StopCondition::Requests(n) => (Some(*n), None),
        StopCondition::Duration(d) => (None, Some(*d)),
        StopCondition::Infinite => (None, None),
    }
}

/// How many requests completed since the last report, which saw `previous`:
/// none when the count did not grow.
pub fn requests_since(total: usize, previous: usize) -> (n: usize)
    ensures
        n == if total >= previous {
            total - previous
        } else {
            0
        },
{
    if total >= previous {
        total - previous
    } else {
        0
    }
}

/// With a request target the bar shows the requests done, capped at the
/// target: it stands at the count below the target, at the target from
/// there on, and it never moves back as more requests complete.
pub proof fn lemma_position_by_requests(
    done: usize,
    more: usize,
    elapsed: Duration,
    t: usize,
    target_duration: Option<Duration>,
)
    requires
        done <= more,
    ensures
        done <= t ==> progress_position(done, elapsed, Some(t), target_duration) == Some(
            done as u64,
        ),
        done >= t ==> progress_position(done, elapsed, Some(t), target_duration) == Some(t as u64),
        progress_position(done, elapsed, Some(t), target_duration)->0 <= progress_position(
            more,
            elapsed,
            Some(t),
            target_duration,
        )->0 <= t,
{
}

/// With only a time target the bar shows whole milliseconds elapsed, capped
/// at the target's, and never moves back as time passes (below 2^64
/// milliseconds).
pub proof fn lemma_position_by_time(total: usize, early: Duration, late: Duration, t: Duration)
    requires
        early@ <= late@,
        t@ / 1_000_000 < 0x1_0000_0000_0000_0000,
    ensures
        early@ / 1_000_000 <= t@ / 1_000_000 ==> progress_position(total, early, None, Some(t))
            == Some((early@ / 1_000_000) as u64),
        progress_position(total, early, None, Some(t))->0 <= progress_position(
            total,
            late,
            None,
            Some(t),
        )->0 <= t@ / 1_000_000,
{
    assert(early@ / 1_000_000 <= late@ / 1_000_000) by (nonlinear_arith)
        requires
            early@ <= late@,
    ;
}

} // verus!
