//! The job record and the transitions of a single job.

use crate::errors::ErrorClass;
use vstd::arithmetic::power2::{
    lemma2_to64, lemma_pow2_pos, lemma_pow2_strictly_increases, lemma_pow2_unfold, pow2,
};
use vstd::prelude::*;

verus! {

/// The status of a job: `New`, then `Started`, then one of the terminal
/// states. A job whose attempt failed transiently goes back to `New`.
#[derive(Clone, Copy, Debug, PartialEq, Eq, Structural)]
pub enum JobStatus {
    New,
    Started,
    Success,
    Failure,
    Broken,
}

impl JobStatus {
    /// A terminal status is never left.
    pub open spec fn terminal_spec(self) -> bool {
        self == JobStatus::Success || self == JobStatus::Failure || self == JobStatus::Broken
    }

    /// A status that fails every job depending on this one.
    pub open spec fn failed_spec(self) -> bool {
        self == JobStatus::Failure || self == JobStatus::Broken
    }

    /// The number under which the status is stored.
    pub open spec fn code_spec(self) -> i16 {
        match self {
            JobStatus::New => 0,
            JobStatus::Started => 1,
            JobStatus::Success => 2,
            JobStatus::Failure => 3,
            JobStatus::Broken => 4,
        }
    }

    /// The status that is stored under `code`, if it is the number of one.
    pub open spec fn of_code(code: i16) -> Option<JobStatus> {
        if code == 0 {
            Some(JobStatus::New)
        } else if code == 1 {
            Some(JobStatus::Started)
        } else if code == 2 {
            Some(JobStatus::Success)
        } else if code == 3 {
            Some(JobStatus::Failure)
        } else if code == 4 {
            Some(JobStatus::Broken)
        } else {
            None
        }
    }

    /// The number under which the status is stored.
    pub fn code(self) -> (r: i16)
        ensures
            r == self.code_spec(),
            Self::of_code(r) == Some(self),
    {
        match self {
            JobStatus::New => 0,
            JobStatus::Started => 1,
            JobStatus::Success => 2,
            JobStatus::Failure => 3,
            JobStatus::Broken => 4,
        }
    }

    /// The status that is stored under `code`.
    pub fn from_code(code: i16) -> (r: Option<JobStatus>)
        ensures
            r == Self::of_code(code),
            r.is_some() ==> r.unwrap().code_spec() == code,
    {
        if code == 0 {
            Some(JobStatus::New)
        } else if code == 1 {
            Some(JobStatus::Started)
        } else if code == 2 {
            Some(JobStatus::Success)
        } else if code == 3 {
            Some(JobStatus::Failure)
        } else if code == 4 {
            Some(JobStatus::Broken)
        } else {
            None
        }
    }

    pub fn is_terminal(self) -> (r: bool)
        ensures
            r == self.terminal_spec(),
    {
        match self {
            JobStatus::Success | JobStatus::Failure | JobStatus::Broken => true,
            _ => false,
        }
    }

    pub fn is_failed(self) -> (r: bool)
        ensures
            r == self.failed_spec(),
    {
        match self {
            JobStatus::Failure | JobStatus::Broken => true,
            _ => false,
        }
    }
}

/// What a job does, with the parameters of its kind. Every kind that can
/// run works on one repository, named by its identifier in the store.
#[derive(Clone, Debug, PartialEq, Eq)]
pub enum JobKind {
    Commit { repo: u64 },
    GenerateDelta { repo: u64, source: String, target: String },
    UpdateRepo { repo: u64 },
    Publish { repo: u64 },
    /// The stored parameters of the job, which could not be read as those
    /// of any kind. Such a job never runs: it is `Broken`.
    Unreadable { contents: String },
}

impl JobKind {
    /// The repository that the job works on; none, written 0, for a job
    /// whose parameters could not be read.
    pub open spec fn repo_spec(self) -> u64 {
        match self {
            JobKind::Commit { repo } => repo,
            JobKind::GenerateDelta { repo, source, target } => repo,
            JobKind::UpdateRepo { repo } => repo,
            JobKind::Publish { repo } => repo,
            JobKind::Unreadable { contents } => 0,
        }
    }

    /// Whether the job is handed to the delta generator instead of running
    /// against the repository backend under the repository's lock.
    pub open spec fn delta_spec(self) -> bool {
        self is GenerateDelta
    }

    /// Whether the parameters of the job could be read.
    pub open spec fn readable_spec(self) -> bool {
        !(self is Unreadable)
    }

    pub fn repo(&self) -> (r: u64)
        ensures
            r == self.repo_spec(),
    {
        match self {
            JobKind::Commit { repo } => *repo,
            JobKind::GenerateDelta { repo, source: _, target: _ } => *repo,
            JobKind::UpdateRepo { repo } => *repo,
            JobKind::Publish { repo } => *repo,
            JobKind::Unreadable { contents: _ } => 0,
        }
    }

    pub fn is_readable(&self) -> (r: bool)
        ensures
            r == self.readable_spec(),
    {
        match self {
            JobKind::Unreadable { contents: _ } => false,
            _ => true,
        }
    }

    pub fn is_delta(&self) -> (r: bool)
        ensures
            r == self.delta_spec(),
    {
        match self {
            JobKind::GenerateDelta { repo: _, source: _, target: _ } => true,
            _ => false,
        }
    }
}

/// How an attempt at a job ended.
#[derive(Clone, Debug, PartialEq, Eq)]
pub enum JobOutcome {
    Success { results: String },
    Failed { class: ErrorClass, detail: String },
}

/// A durable unit of work as the store holds it.
#[derive(Clone, Debug, PartialEq, Eq)]
pub struct Job {
    /// Unique and ascending; among claimable jobs the lowest goes first.
    pub id: u64,
    pub kind: JobKind,
    pub status: JobStatus,
    /// The jobs that must reach `Success` before this one may start.
    pub deps: Vec<u64>,
    /// Output or error detail, set on the transition to a terminal status.
    pub results: Option<String>,
    pub created: u64,
    pub started: Option<u64>,
    pub ended: Option<u64>,
    /// The number of attempts that failed transiently.
    pub retries: u32,
    /// How many such failures are forgiven.
    pub max_retries: u32,
    /// The earliest time at which the job may be claimed.
    pub not_before: u64,
    /// The executor that has claimed the job.
    pub lease: Option<u64>,
}

/// The larger of two times.
pub open spec fn later(a: u64, b: u64) -> u64 {
    if a >= b {
        a
    } else {
        b
    }
}

/// The delay before the next attempt after `retries` earlier failures:
/// `base` doubled that many times, held at the largest `u64`.
pub open spec fn backoff_delay(base: u64, retries: u32) -> int {
    if base * pow2(retries as nat) > u64::MAX {
        u64::MAX as int
    } else {
        base * pow2(retries as nat)
    }
}

/// The time from which a job that failed at `now` may be claimed again,
/// held at the largest `u64`.
pub open spec fn eligible_at(now: u64, base: u64, retries: u32) -> u64 {
    if now + backoff_delay(base, retries) > u64::MAX {
        u64::MAX
    } else {
        (now + backoff_delay(base, retries)) as u64
    }
}

impl Job {
    /// What must hold of every job record, whatever table it stands in.
    pub open spec fn wf(self) -> bool {
        &&& self.deps@.no_duplicates()
        &&& (self.status == JobStatus::Started) == self.lease.is_some()
        &&& self.status == JobStatus::Started ==> self.started.is_some()
        &&& self.status == JobStatus::Started ==> self.kind.readable_spec()
        &&& self.status == JobStatus::New ==> self.started.is_none()
        &&& self.status.terminal_spec() == self.ended.is_some()
        &&& self.status.terminal_spec() == self.results.is_some()
        &&& self.started.is_some() ==> self.created <= self.started.unwrap()
        &&& self.ended.is_some() ==> self.created <= self.ended.unwrap()
        &&& self.started.is_some() && self.ended.is_some() ==> self.started.unwrap()
            <= self.ended.unwrap()
        &&& !self.status.terminal_spec() ==> self.retries <= self.max_retries
    }

    /// The record of a job at its insertion: `New`, never tried, claimable
    /// at once.
    pub open spec fn fresh(
        id: u64,
        kind: JobKind,
        deps: Vec<u64>,
        max_retries: u32,
        now: u64,
    ) -> Job {
        Job {
            id,
            kind,
            status: JobStatus::New,
            deps,
            results: None,
            created: now,
            started: None,
            ended: None,
            retries: 0,
            max_retries,
            not_before: now,
            lease: None,
        }
    }

    /// The job once `lease` has claimed it at `now`.
    pub open spec fn claimed(self, lease: u64, now: u64) -> Job {
        Job {
            status: JobStatus::Started,
            lease: Some(lease),
            started: Some(later(now, self.created)),
            ..self
        }
    }

    /// The job given back unharmed: `New` again, its retry count untouched.
    pub open spec fn released(self) -> Job {
        Job { status: JobStatus::New, lease: None, started: None, ..self }
    }

    /// The job sent back for another attempt, claimable from `not_before`.
    pub open spec fn retried(self, not_before: u64) -> Job {
        Job {
            status: JobStatus::New,
            lease: None,
            started: None,
            retries: (self.retries + 1) as u32,
            not_before,
            ..self
        }
    }

    /// The time recorded as the end of the job: `now`, but never before its
    /// start or its creation.
    pub open spec fn end_time(self, now: u64) -> u64 {
        match self.started {
            Some(s) => later(now, s),
            None => later(now, self.created),
        }
    }

    /// The job at its end with the given terminal status and results.
    pub open spec fn finished(self, status: JobStatus, results: String, now: u64) -> Job {
        Job {
            status,
            lease: None,
            ended: Some(self.end_time(now)),
            results: Some(results),
            ..self
        }
    }

    /// The job failed for good by one transient failure too many. The
    /// failure is counted where the counter has room for it.
    pub open spec fn exhausted(self, detail: String, now: u64) -> Job {
        Job {
            retries: if self.retries < u32::MAX {
                (self.retries + 1) as u32
            } else {
                self.retries
            },
            ..self.finished(JobStatus::Failure, detail, now)
        }
    }

    /// The job after an attempt that ended with `outcome` at `now`.
    ///
    /// Success ends it in `Success`. A transient failure sends it back to
    /// `New` with a backoff while its retry count is below its bound, and
    /// ends it in `Failure` otherwise. A permanent failure ends it in
    /// `Failure`, invalid parameters in `Broken`. An internal failure leaves
    /// it as it is: the operation is repeated, not the job.
    pub open spec fn after_attempt(self, outcome: JobOutcome, now: u64, backoff_base: u64) -> Job {
        match outcome {
            JobOutcome::Success { results } => self.finished(JobStatus::Success, results, now),
            JobOutcome::Failed { class, detail } => match class {
                ErrorClass::Transient => if self.retries < self.max_retries {
                    self.retried(eligible_at(now, backoff_base, self.retries))
                } else {
                    self.exhausted(detail, now)
                },
                ErrorClass::Permanent => self.finished(JobStatus::Failure, detail, now),
                ErrorClass::Broken => self.finished(JobStatus::Broken, detail, now),
                ErrorClass::Internal => self,
            },
        }
    }

    /// Whether the job record is well formed. Nothing occurs twice among
    /// its dependencies, its status, lease, timestamps, results and retry
    /// count agree with each other, and it is not `Started` with parameters
    /// that could not be read.
    pub fn is_well_formed(&self) -> (r: bool)
        ensures
            r == self.wf(),
    {
        let started_status = match self.status {
            JobStatus::Started => true,
            _ => false,
        };
        let new_status = match self.status {
            JobStatus::New => true,
            _ => false,
        };
        let terminal = self.status.is_terminal();
        if started_status != self.lease.is_some() {
            return false;
        }
        if started_status && (self.started.is_none() || !self.kind.is_readable()) {
            return false;
        }
        if new_status && self.started.is_some() {
            return false;
        }
        if terminal != self.ended.is_some() || terminal != self.results.is_some() {
            return false;
        }
        match self.started {
            Some(s) => {
                if s < self.created {
                    return false;
                }
                match self.ended {
                    Some(e) => {
                        if e < s {
                            return false;
                        }
                    },
                    None => {},
                }
            },
            None => {},
        }
        match self.ended {
            Some(e) => {
                if e < self.created {
                    return false;
                }
            },
            None => {},
        }
        if !terminal && self.retries > self.max_retries {
            return false;
        }
        distinct(&self.deps)
    }
}

/// Whether nothing occurs twice in `ids`.
pub fn distinct(ids: &Vec<u64>) -> (r: bool)
    ensures
        r == ids@.no_duplicates(),
{
    let mut i: usize = 0;
    while i < ids.len()
        invariant
            i <= ids.len(),
            forall|a: int, b: int| 0 <= a < b < i ==> ids@[a] != ids@[b],
        decreases ids.len() - i,
    {
        let mut j: usize = 0;
        while j < i
            invariant
                j <= i < ids.len(),
                forall|a: int| 0 <= a < j ==> ids@[a] != ids@[i as int],
            decreases i - j,
        {
            if ids[j] == ids[i] {
                return false;
            }
            j += 1;
        }
        i += 1;
    }
    true
}

/// The delay before the next attempt after `retries` earlier failures.
pub fn backoff(base: u64, retries: u32) -> (r: u64)
    ensures
        r == backoff_delay(base, retries),
{
    if base == 0 {
        assert(base * pow2(retries as nat) == 0) by (nonlinear_arith)
            requires
                base == 0,
        ;
        return 0;
    }
    let mut delay: u64 = base;
    let mut i: u32 = 0;
    proof {
        lemma2_to64();
    }
    while i < retries && delay <= u64::MAX / 2
        invariant
            i <= retries,
            base > 0,
            delay == base * pow2(i as nat),
        decreases retries - i,
    {
        proof {
            lemma_pow2_unfold((i + 1) as nat);
            assert(base * (2 * pow2(i as nat)) == 2 * (base * pow2(i as nat)))
                by (nonlinear_arith);
        }
        delay = delay * 2;
        i += 1;
    }
    if i < retries {
        proof {
            lemma_pow2_strictly_increases(i as nat, retries as nat);
            lemma_pow2_pos(i as nat);
            assert(base * pow2(retries as nat) >= base * (pow2(i as nat) + 1))
                by (nonlinear_arith)
                requires
                    base > 0,
                    pow2(retries as nat) > pow2(i as nat),
            ;
            assert(base * (pow2(i as nat) + 1) == base * pow2(i as nat) + base)
                by (nonlinear_arith);
            lemma_pow2_unfold((i + 1) as nat);
            lemma_pow2_strictly_increases(i as nat, (i + 1) as nat);
            if retries as nat > (i + 1) as nat {
                lemma_pow2_strictly_increases((i + 1) as nat, retries as nat);
            }
            assert(pow2(retries as nat) >= 2 * pow2(i as nat));
            assert(base * pow2(retries as nat) >= base * (2 * pow2(i as nat)))
                by (nonlinear_arith)
                requires
                    base > 0,
                    pow2(retries as nat) >= 2 * pow2(i as nat),
            ;
            assert(base * (2 * pow2(i as nat)) == 2 * (base * pow2(i as nat)))
                by (nonlinear_arith);
        }
        u64::MAX
    } else {
        delay
    }
}

/// The time from which a job that failed at `now` after `retries` earlier
/// failures may be claimed again.
pub fn next_eligible(now: u64, base: u64, retries: u32) -> (r: u64)
    ensures
        r == eligible_at(now, base, retries),
{
    let delay = backoff(base, retries);
    if delay > u64::MAX - now {
        u64::MAX
    } else {
        now + delay
    }
}

} // verus!
