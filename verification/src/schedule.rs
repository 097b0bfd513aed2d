//! Run-level scheduling bookkeeping: building the candidate jobs from
//! the missing dates and the cache, worker-slot labels, the pre-flight
//! ping decision, and the order-independence of the run's outcome.

use vstd::prelude::*;

verus! {

use crate::cache::UrlCache;
use crate::dates::Date;
use crate::download::{
    DateUrlCached,
    DateUrlCachedV,
    DownloadOptionsV,
    JobEventV,
    spec_run,
};

/// The fewest candidate dates for which the pre-flight proxy ping is
/// worth the extra round trip.
pub const MIN_COUNT_FOR_PING: usize = 10;

/// Whether the proxy is pinged before the batch starts: always when
/// asked to, otherwise only for batches of at least
/// [`MIN_COUNT_FOR_PING`] dates.
pub fn should_ping_proxy(always_ping: bool, count: usize) -> (b: bool)
    ensures
        b == (always_ping || count >= MIN_COUNT_FOR_PING),
{
    always_ping || count >= MIN_COUNT_FOR_PING
}

/// The rotating worker-slot label of the job at `index`, used only
/// for display.
pub fn job_slot(index: usize, job_count: usize) -> (r: usize)
    requires
        job_count > 0,
    ensures
        r as int == index as int % job_count as int,
{
    index % job_count
}

/// One candidate job per date, in order, each carrying the URL the
/// cache pre-supplies for its date, if a cache is in use and holds
/// one.
pub fn make_jobs(dates: &Vec<Date>, cache: Option<&UrlCache>) -> (r: Vec<DateUrlCached>)
    ensures
        r@.len() == dates@.len(),
        forall|i: int|
            0 <= i < r@.len() ==> (#[trigger] r@[i])@.date == dates@[i] && r@[i]@.url == (
            match cache {
                Some(c) => c.spec_get(dates@[i]),
                None => None,
            }),
{
    let mut out: Vec<DateUrlCached> = Vec::new();
    let n = dates.len();
    let mut i: usize = 0;
    while i < n
        invariant
            n == dates@.len(),
            0 <= i <= n,
            out@.len() == i,
            forall|k: int|
                0 <= k < i ==> (#[trigger] out@[k])@.date == dates@[k] && out@[k]@.url == (
                match cache {
                    Some(c) => c.spec_get(dates@[k]),
                    None => None,
                }),
        decreases n - i,
    {
        let url = match cache {
            Some(c) => c.get(dates[i]),
            None => None,
        };
        out.push(DateUrlCached { date: dates[i], url });
        i += 1;
    }
    out
}

/// Whether the job run described by its event trace ends with its
/// image saved.
pub open spec fn job_succeeds(
    opts: DownloadOptionsV,
    job: DateUrlCachedV,
    events: Seq<JobEventV>,
) -> bool {
    spec_run(opts, job, events).0.phase is Done
}

/// The set of dates whose files a run writes: those of the jobs whose
/// own event trace ends in success.  Concurrency and completion order
/// do not appear: each job's outcome depends on its own trace alone.
pub open spec fn saved_dates(
    opts: DownloadOptionsV,
    jobs: Seq<DateUrlCachedV>,
    traces: Seq<Seq<JobEventV>>,
) -> Set<Date> {
    Set::new(
        |d: Date|
            exists|i: int|
                0 <= i < jobs.len() && i < traces.len() && (#[trigger] jobs[i]).date == d
                    && job_succeeds(opts, jobs[i], traces[i]),
    )
}

/// Processing the same jobs, each with its own event trace, in any
/// other order yields the same set of written files.  Running with one
/// worker or with ten differs only in which interleaving — which
/// permutation — the completions form, so the final file set is the
/// same.
pub proof fn lemma_outcomes_order_independent(
    opts: DownloadOptionsV,
    jobs: Seq<DateUrlCachedV>,
    traces: Seq<Seq<JobEventV>>,
    perm: Seq<int>,
)
    requires
        jobs.len() == traces.len(),
        perm.len() == jobs.len(),
        forall|i: int| 0 <= i < perm.len() ==> 0 <= #[trigger] perm[i] < jobs.len(),
        forall|i: int, j: int| 0 <= i < j < perm.len() ==> perm[i] != perm[j],
        forall|v: int| 0 <= v < jobs.len() ==> perm.contains(v),
    ensures
        saved_dates(
            opts,
            perm.map_values(|k: int| jobs[k]),
            perm.map_values(|k: int| traces[k]),
        ) =~= saved_dates(opts, jobs, traces),
{
    let rjobs = perm.map_values(|k: int| jobs[k]);
    let rtraces = perm.map_values(|k: int| traces[k]);
    assert forall|d: Date| saved_dates(opts, rjobs, rtraces).contains(d) implies saved_dates(
        opts,
        jobs,
        traces,
    ).contains(d) by {
        let i = choose|i: int|
            0 <= i < rjobs.len() && i < rtraces.len() && (#[trigger] rjobs[i]).date == d
                && job_succeeds(opts, rjobs[i], rtraces[i]);
        assert(rjobs[i] == jobs[perm[i]]);
        assert(rtraces[i] == traces[perm[i]]);
        assert(jobs[perm[i]].date == d && job_succeeds(opts, jobs[perm[i]], traces[perm[i]]));
    }
    assert forall|d: Date| saved_dates(opts, jobs, traces).contains(d) implies saved_dates(
        opts,
        rjobs,
        rtraces,
    ).contains(d) by {
        let j = choose|j: int|
            0 <= j < jobs.len() && j < traces.len() && (#[trigger] jobs[j]).date == d
                && job_succeeds(opts, jobs[j], traces[j]);
        assert(perm.contains(j));
        let i = choose|i: int| 0 <= i < perm.len() && perm[i] == j;
        assert(rjobs[i] == jobs[j]);
        assert(rtraces[i] == traces[j]);
        assert(rjobs[i].date == d && job_succeeds(opts, rjobs[i], rtraces[i]));
    }
}

} // verus!
