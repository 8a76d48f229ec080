//! The table of `run` and `evaluate` work that outlived the 30 s cap, kept
//! for `poll`.
//!
//! At most [`MAX_JOBS`] jobs are kept, each for [`JOB_TTL_MS`] after its
//! last change; when more are kept, the oldest go first. Times are the
//! driver's monotonic clock in milliseconds; `V` is the value a job ends
//! with.

use vstd::prelude::*;

use uuid::Uuid;

use crate::text::{push_str, same_text};

verus! {

/// How many jobs are kept at most.
pub const MAX_JOBS: usize = 64;
/// How long a job is kept after its last change: 30 minutes.
pub const JOB_TTL_MS: u64 = 1_800_000;

/// Where a job stands.
pub enum JobState<V> {
    Running,
    Done { value: Option<V> },
    Failed { error: String },
}

/// A job and the time of its last change.
pub struct Job<V> {
    pub id: String,
    pub state: JobState<V>,
    pub updated_ms: u64,
}

/// Whether a job changed at `updated` is still kept at `now`.
pub open spec fn fresh(now: u64, updated: u64) -> bool {
    now < updated || now - updated < JOB_TTL_MS
}

pub open spec fn ids_distinct<V>(jobs: Seq<Job<V>>) -> bool {
    forall|i: int, j: int| 0 <= i < j < jobs.len() ==> jobs[i].id@ != jobs[j].id@
}

/// The index of the job `id`.
pub open spec fn has_job<V>(jobs: Seq<Job<V>>, id: Seq<char>) -> bool {
    exists|i: int| 0 <= i < jobs.len() && jobs[i].id@ == id
}

pub open spec fn job_index<V>(jobs: Seq<Job<V>>, id: Seq<char>) -> int {
    choose|i: int| 0 <= i < jobs.len() && jobs[i].id@ == id
}

/// The job table.
pub struct JobTable<V> {
    pub jobs: Vec<Job<V>>,
}

/// What a collection at `now` leaves of `before`: of the jobs still fresh,
/// all when there are at most [`MAX_JOBS`], else [`MAX_JOBS`] of them, none
/// of the dropped ones newer than a kept one.
pub open spec fn collected<V>(before: Seq<Job<V>>, after: Seq<Job<V>>, now: u64) -> bool {
    let f = before.filter(fresh_at(now));
    &&& after.len() <= MAX_JOBS
    &&& forall|i: int| 0 <= i < after.len() ==> f.contains(#[trigger] after[i])
    &&& f.len() <= MAX_JOBS ==> after == f
    &&& f.len() > MAX_JOBS ==> after.len() == MAX_JOBS && forall|i: int|
        0 <= i < f.len() && !after.contains(#[trigger] f[i]) ==> forall|j: int|
            0 <= j < after.len() ==> f[i].updated_ms <= #[trigger] after[j].updated_ms
}

/// A job id: "job-" and a random UUID.
pub open spec fn uuid_char(c: char) -> bool {
    ('0' <= c && c <= '9') || ('a' <= c && c <= 'f') || c == '-'
}

/// A fresh random UUID, hyphenated in lowercase
/// (`uuid::Uuid::new_v4().to_string()`). It rests on a random source;
/// claimed of every outcome: 36 characters, lowercase hex digits and hyphens.
#[verifier::external_body]
fn random_uuid() -> (r: String)
    ensures
        r@.len() == 36,
        forall|i: int| 0 <= i < 36 ==> uuid_char(#[trigger] r@[i]),
{
    Uuid::new_v4().to_string()
}

impl<V> JobTable<V> {
    /// Distinct ids, and at most one job beyond [`MAX_JOBS`]: the one a
    /// mint adds after its collection.
    pub open spec fn well_formed(&self) -> bool {
        ids_distinct(self.jobs@) && self.jobs.len() <= MAX_JOBS + 1
    }

    pub fn new() -> (r: Self)
        ensures
            r.well_formed(),
            r.jobs@.len() == 0,
    {
        JobTable { jobs: Vec::new() }
    }

    fn position(&self, id: &str) -> (r: Option<usize>)
        requires
            ids_distinct(self.jobs@),
        ensures
            match r {
                Some(i) => i < self.jobs.len() && self.jobs@[i as int].id@ == id@ && job_index(self.jobs@, id@) == i,
                None => !has_job(self.jobs@, id@),
            },
    {
        let mut i: usize = 0;
        while i < self.jobs.len()
            invariant
                i <= self.jobs.len(),
                ids_distinct(self.jobs@),
                forall|j: int| 0 <= j < i ==> self.jobs@[j].id@ != id@,
            decreases self.jobs.len() - i,
        {
            if same_text(self.jobs[i].id.as_str(), id) {
                proof {
                    assert(self.jobs@[i as int].id@ == id@);
                    let c = job_index(self.jobs@, id@);
                    assert(0 <= c < self.jobs@.len() && self.jobs@[c].id@ == id@);
                    if c < i {
                        assert(self.jobs@[c].id@ != self.jobs@[i as int].id@);
                    } else if c > i {
                        assert(self.jobs@[i as int].id@ != self.jobs@[c].id@);
                    }
                }
                return Some(i);
            }
            i = i + 1;
        }
        None
    }

    /// Drops the jobs past their time at `now_ms`, then the oldest while
    /// more than [`MAX_JOBS`] are kept.
    pub fn gc(&mut self, now_ms: u64)
        requires
            ids_distinct(old(self).jobs@),
        ensures
            final(self).well_formed(),
            collected(old(self).jobs@, final(self).jobs@, now_ms),
    {
        let ghost before = self.jobs@;
        let mut all: Vec<Job<V>> = Vec::new();
        std::mem::swap(&mut all, &mut self.jobs);
        let kept = keep_fresh(all, now_ms);
        proof {
            lemma_filter_ids_distinct(before, fresh_at(now_ms));
        }
        let left = evict_oldest(kept);
        self.jobs = left;
    }
}

impl<V> JobTable<V> {
    /// Starts a job at `now_ms`: collects the table, then adds the job,
    /// running, under a fresh id "job-{uuid}", which is returned.
    pub fn mint_running(&mut self, now_ms: u64) -> (r: String)
        requires
            old(self).well_formed(),
        ensures
            final(self).well_formed(),
            r@.len() == 40 && r@.take(4) == "job-"@,
            forall|i: int| 4 <= i < 40 ==> uuid_char(#[trigger] r@[i]),
            exists|mid: Seq<Job<V>>| #![trigger collected(old(self).jobs@, mid, now_ms)]
                collected(old(self).jobs@, mid, now_ms) && placed(mid, final(self).jobs@, r@, JobState::<V>::Running, now_ms),
    {
        let mut id = "job-".to_owned();
        let u = random_uuid();
        push_str(&mut id, u.as_str());
        proof {
            reveal_strlit("job-");
            assert(id@.take(4) =~= "job-"@);
            assert forall|i: int| 4 <= i < 40 implies uuid_char(#[trigger] id@[i]) by {
                assert(id@[i] == u@[i - 4]);
            }
        }
        self.gc(now_ms);
        let ghost mid = self.jobs@;
        let job = Job { id: id.clone(), state: JobState::Running, updated_ms: now_ms };
        let ghost jg = job;
        match self.position(id.as_str()) {
            Some(i) => {
                self.jobs.set(i, job);
                assert(has_job(mid, id@));
                assert(self.jobs@ == mid.update(job_index(mid, id@), jg));
                proof {
                    assert forall|a: int, b: int| 0 <= a < b < self.jobs@.len() implies self.jobs@[a].id@ != self.jobs@[b].id@ by {
                        if a != i && b != i {
                            assert(mid[a].id@ != mid[b].id@);
                        } else if a == i {
                            assert(mid[a].id@ != mid[b].id@);
                        } else {
                            assert(mid[a].id@ != mid[b].id@);
                        }
                    }
                }
            },
            None => {
                self.jobs.push(job);
                proof {
                    assert forall|a: int, b: int| 0 <= a < b < self.jobs@.len() implies self.jobs@[a].id@ != self.jobs@[b].id@ by {
                        if b == self.jobs@.len() - 1 {
                            assert(mid[a].id@ != id@);
                        } else {
                            assert(mid[a].id@ != mid[b].id@);
                        }
                    }
                }
                assert(self.jobs@ == mid.push(jg));
            },
        }
        assert(jg.id@ == id@);
        assert(placed(mid, self.jobs@, id@, JobState::<V>::Running, now_ms));
        assert(collected(old(self).jobs@, mid, now_ms));
        id
    }

    /// Records that the job `id` ended with `value` at `now_ms`; an unknown
    /// id changes nothing.
    pub fn complete(&mut self, id: &str, value: Option<V>, now_ms: u64)
        requires
            old(self).well_formed(),
        ensures
            final(self).well_formed(),
            final(self).jobs@ == restated(old(self).jobs@, id@, JobState::Done { value }, now_ms),
    {
        self.restate(id, JobState::Done { value }, now_ms);
    }

    /// Records that the job `id` failed with `error` at `now_ms`; an unknown
    /// id changes nothing.
    pub fn fail(&mut self, id: &str, error: String, now_ms: u64)
        requires
            old(self).well_formed(),
        ensures
            final(self).well_formed(),
            final(self).jobs@ == restated(old(self).jobs@, id@, JobState::Failed { error }, now_ms),
    {
        self.restate(id, JobState::Failed { error }, now_ms);
    }

    fn restate(&mut self, id: &str, state: JobState<V>, now_ms: u64)
        requires
            old(self).well_formed(),
        ensures
            final(self).well_formed(),
            final(self).jobs@ == restated(old(self).jobs@, id@, state, now_ms),
    {
        match self.position(id) {
            Some(i) => {
                let ghost before = self.jobs@;
                let name = self.jobs[i].id.clone();
                self.jobs.set(i, Job { id: name, state, updated_ms: now_ms });
                proof {
                    assert forall|a: int, b: int| 0 <= a < b < self.jobs@.len() implies self.jobs@[a].id@ != self.jobs@[b].id@ by {
                        assert(before[a].id@ != before[b].id@);
                    }
                }
            },
            None => {},
        }
    }

    /// Collects the table at `now_ms`, then finds the job `id`.
    pub fn lookup(&mut self, id: &str, now_ms: u64) -> (r: Option<&Job<V>>)
        requires
            old(self).well_formed(),
        ensures
            final(self).well_formed(),
            collected(old(self).jobs@, final(self).jobs@, now_ms),
            match r {
                Some(j) => has_job(final(self).jobs@, id@) && *j == final(self).jobs@[job_index(final(self).jobs@, id@)],
                None => !has_job(final(self).jobs@, id@),
            },
    {
        self.gc(now_ms);
        match self.position(id) {
            Some(i) => Some(&self.jobs[i]),
            None => None,
        }
    }
}

/// `after` is `mid` with a job `id` in state `state` changed at `now`:
/// replacing a job of that id, else added last.
pub open spec fn placed<V>(mid: Seq<Job<V>>, after: Seq<Job<V>>, id: Seq<char>, state: JobState<V>, now: u64) -> bool {
    exists|job: Job<V>| #![trigger job.id]
        job.id@ == id && job.state == state && job.updated_ms == now && after == (if has_job(mid, id) {
            mid.update(job_index(mid, id), job)
        } else {
            mid.push(job)
        })
}

/// `jobs` with the job `id`, if there is one, in state `state`, changed at `now`.
pub open spec fn restated<V>(jobs: Seq<Job<V>>, id: Seq<char>, state: JobState<V>, now: u64) -> Seq<Job<V>> {
    if has_job(jobs, id) {
        let i = job_index(jobs, id);
        jobs.update(i, Job { id: jobs[i].id, state, updated_ms: now })
    } else {
        jobs
    }
}

impl<V> JobState<V> {
    /// The status a job reports: "running", "done" or "error".
    pub fn status(&self) -> (r: &'static str)
        ensures
            r@ == match self {
                JobState::Running => "running"@,
                JobState::Done { .. } => "done"@,
                JobState::Failed { .. } => "error"@,
            },
    {
        match self {
            JobState::Running => "running",
            JobState::Done { .. } => "done",
            JobState::Failed { .. } => "error",
        }
    }
}

/// A job is read back as it was last recorded: when the job `id` is still
/// fresh at `now` and at most [`MAX_JOBS`] jobs are, a lookup at `now` finds
/// it unchanged.
pub proof fn law_recorded_job_is_read_back<V>(jobs: Seq<Job<V>>, i: int, now: u64, after: Seq<Job<V>>)
    requires
        ids_distinct(jobs),
        0 <= i < jobs.len(),
        fresh(now, jobs[i].updated_ms),
        jobs.filter(fresh_at(now)).len() <= MAX_JOBS,
        collected(jobs, after, now),
    ensures
        has_job(after, jobs[i].id@),
        after[job_index(after, jobs[i].id@)] == jobs[i],
{
    jobs.lemma_filter_contains(fresh_at(now), i);
    lemma_filter_ids_distinct(jobs, fresh_at(now));
    let p = choose|p: int| 0 <= p < after.len() && after[p] == jobs[i];
    let c = job_index(after, jobs[i].id@);
    if c != p {
        if c < p {
            assert(after[c].id@ != after[p].id@);
        } else {
            assert(after[p].id@ != after[c].id@);
        }
    }
}

/// A collection keeps at most [`MAX_JOBS`] jobs, all still fresh.
pub proof fn law_collection_bounds_the_table<V>(before: Seq<Job<V>>, after: Seq<Job<V>>, now: u64)
    requires
        collected(before, after, now),
    ensures
        after.len() <= MAX_JOBS,
        forall|i: int| 0 <= i < after.len() ==> fresh(now, #[trigger] after[i].updated_ms) && before.contains(after[i]),
{
    assert forall|i: int| 0 <= i < after.len() implies fresh(now, #[trigger] after[i].updated_ms) && before.contains(after[i]) by {
        let f = before.filter(fresh_at(now));
        let p = choose|p: int| 0 <= p < f.len() && f[p] == after[i];
        before.lemma_filter_pred(fresh_at(now), p);
        before.lemma_filter_contains_rev(fresh_at(now), after[i]);
    }
}

/// Whether a job is still kept at `now`.
pub open spec fn fresh_at<V>(now: u64) -> spec_fn(Job<V>) -> bool {
    |j: Job<V>| fresh(now, j.updated_ms)
}

proof fn lemma_filter_ids_distinct<V>(s: Seq<Job<V>>, p: spec_fn(Job<V>) -> bool)
    requires
        ids_distinct(s),
    ensures
        ids_distinct(s.filter(p)),
    decreases s.len(),
{
    reveal(Seq::filter);
    if s.len() > 0 {
        let d = s.drop_last();
        assert(ids_distinct(d));
        lemma_filter_ids_distinct(d, p);
        let fd = d.filter(p);
        if p(s.last()) {
            let f = fd.push(s.last());
            assert forall|i: int, j: int| 0 <= i < j < f.len() implies f[i].id@ != f[j].id@ by {
                if j == f.len() - 1 {
                    d.lemma_filter_contains_rev(p, fd[i]);
                    let k = choose|k: int| 0 <= k < d.len() && d[k] == fd[i];
                    assert(s[k] == d[k]);
                    assert(s[s.len() - 1] == s.last());
                }
            }
        }
    }
}

/// The jobs kept at `now_ms`, in order.
fn keep_fresh<V>(jobs: Vec<Job<V>>, now_ms: u64) -> (r: Vec<Job<V>>)
    ensures
        r@ == jobs@.filter(fresh_at(now_ms)),
{
    let ghost all = jobs@;
    let mut rest = jobs;
    let mut kept: Vec<Job<V>> = Vec::new();
    let mut n: usize = 0;
    let total = rest.len();
    while rest.len() > 0
        invariant
            total == all.len(),
            n + rest.len() == total,
            rest@ == all.skip(n as int),
            kept@ == all.take(n as int).filter(fresh_at(now_ms)),
        decreases rest.len(),
    {
        let job = rest.remove(0);
        proof {
            assert(job == all[n as int]);
            assert(all.take(n + 1).drop_last() =~= all.take(n as int));
            assert(all.take(n + 1).last() == job);
            reveal(Seq::filter);
        }
        if now_ms < job.updated_ms || now_ms - job.updated_ms < JOB_TTL_MS {
            kept.push(job);
        }
        n = n + 1;
        assert(rest@ =~= all.skip(n as int));
    }
    assert(all.take(n as int) =~= all);
    kept
}

/// Drops the oldest job while more than [`MAX_JOBS`] are kept.
fn evict_oldest<V>(jobs: Vec<Job<V>>) -> (r: Vec<Job<V>>)
    requires
        ids_distinct(jobs@),
    ensures
        r.len() <= MAX_JOBS,
        ids_distinct(r@),
        jobs.len() <= MAX_JOBS ==> r@ == jobs@,
        jobs.len() > MAX_JOBS ==> r.len() == MAX_JOBS,
        forall|i: int| 0 <= i < r.len() ==> jobs@.contains(#[trigger] r@[i]),
        forall|i: int| 0 <= i < jobs.len() && !r@.contains(#[trigger] jobs@[i]) ==> forall|j: int|
            0 <= j < r.len() ==> jobs@[i].updated_ms <= #[trigger] r@[j].updated_ms,
{
    let ghost all = jobs@;
    let mut kept = jobs;
    while kept.len() > MAX_JOBS
        invariant
            ids_distinct(kept@),
            kept.len() <= all.len(),
            all.len() <= MAX_JOBS ==> kept@ == all,
            all.len() > MAX_JOBS ==> kept.len() >= MAX_JOBS,
            forall|i: int| 0 <= i < kept.len() ==> all.contains(#[trigger] kept@[i]),
            forall|i: int| 0 <= i < all.len() && !kept@.contains(#[trigger] all[i]) ==> forall|j: int|
                0 <= j < kept.len() ==> all[i].updated_ms <= #[trigger] kept@[j].updated_ms,
        decreases kept.len(),
    {
        let mut m: usize = 0;
        let mut j: usize = 1;
        while j < kept.len()
            invariant
                m < j <= kept.len(),
                forall|k: int| 0 <= k < j ==> kept@[m as int].updated_ms <= #[trigger] kept@[k].updated_ms,
            decreases kept.len() - j,
        {
            if kept[j].updated_ms < kept[m].updated_ms {
                m = j;
            }
            j = j + 1;
        }
        let ghost prev = kept@;
        let _gone = kept.remove(m);
        proof {
            assert forall|q: int| 0 <= q < kept.len() implies prev.contains(#[trigger] kept@[q]) && kept@[q] == prev[if q < m { q } else { q + 1 }] by {
                if q < m {
                    assert(kept@[q] == prev[q]);
                } else {
                    assert(kept@[q] == prev[q + 1]);
                }
            }
            assert forall|i: int| 0 <= i < all.len() && !kept@.contains(#[trigger] all[i]) implies forall|q: int|
                0 <= q < kept.len() ==> all[i].updated_ms <= #[trigger] kept@[q].updated_ms by {
                if prev.contains(all[i]) {
                    let p = choose|p: int| 0 <= p < prev.len() && prev[p] == all[i];
                    if p != m {
                        if p < m {
                            assert(kept@[p] == all[i]);
                        } else {
                            assert(kept@[p - 1] == all[i]);
                        }
                    }
                    assert forall|q: int| 0 <= q < kept.len() implies all[i].updated_ms <= #[trigger] kept@[q].updated_ms by {
                        let src = if q < m { q } else { q + 1 };
                        assert(kept@[q] == prev[src]);
                    }
                }
            }
        }
    }
    kept
}

} // verus!
