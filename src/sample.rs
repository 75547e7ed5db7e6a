//! Timing samples and the outcome of one worker's call.

use vstd::prelude::*;

verus! {

/// The recorded outcome of one completed call.
#[derive(Clone, Copy, Debug, PartialEq, Eq, Structural)]
pub struct Sample {
    /// HTTP status code of the response (any class, not only 2xx).
    pub status: u16,
    /// Wall-clock time from request start to response headers, in milliseconds.
    pub latency_ms: u64,
    /// When the call completed, in seconds since the Unix epoch.
    pub timestamp: u64,
}

/// A status code in the 2xx range.
pub open spec fn is_success_status(status: u16) -> bool {
    200 <= status && status < 300
}

/// Whether `status` is a success code (200 to 299).
pub fn is_success(status: u16) -> (r: bool)
    ensures
        r == is_success_status(status),
{
    200 <= status && status < 300
}

impl Sample {
    pub fn new(status: u16, latency_ms: u64, timestamp: u64) -> (r: Sample)
        ensures
            r.status == status,
            r.latency_ms == latency_ms,
            r.timestamp == timestamp,
    {
        Sample { status, latency_ms, timestamp }
    }

    /// Whether the response carried a 2xx status.
    pub fn is_success(&self) -> (r: bool)
        ensures
            r == is_success_status(self.status),
    {
        is_success(self.status)
    }
}

/// What one worker hands back: a sample when a response arrived, nothing when
/// the call failed (network error, timeout, refused connection, ...).
#[derive(Clone, Copy, Debug, PartialEq, Eq, Structural)]
pub enum WorkerOutcome {
    Completed(Sample),
    Failed,
}

/// The samples of the completed outcomes, in the order of the outcomes.
pub open spec fn completed_samples(outcomes: Seq<WorkerOutcome>) -> Seq<Sample>
    decreases outcomes.len(),
{
    if outcomes.len() == 0 {
        Seq::empty()
    } else {
        let rest = completed_samples(outcomes.drop_last());
        match outcomes.last() {
            WorkerOutcome::Completed(s) => rest.push(s),
            WorkerOutcome::Failed => rest,
        }
    }
}

/// Number of outcomes that completed.
pub open spec fn completed_count(outcomes: Seq<WorkerOutcome>) -> nat
    decreases outcomes.len(),
{
    if outcomes.len() == 0 {
        0
    } else {
        completed_count(outcomes.drop_last()) + match outcomes.last() {
            WorkerOutcome::Completed(_) => 1nat,
            WorkerOutcome::Failed => 0nat,
        }
    }
}

/// The sample set of a run: one sample per completed outcome, none for a
/// failed one, nothing lost and nothing repeated.
pub fn collect_samples(outcomes: &Vec<WorkerOutcome>) -> (r: Vec<Sample>)
    ensures
        r@ == completed_samples(outcomes@),
{
    let mut r: Vec<Sample> = Vec::new();
    let mut i: usize = 0;
    while i < outcomes.len()
        invariant
            i <= outcomes@.len(),
            r@ == completed_samples(outcomes@.take(i as int)),
        decreases outcomes@.len() - i,
    {
        assert(outcomes@.take(i as int + 1).drop_last() =~= outcomes@.take(i as int));
        match outcomes[i] {
            WorkerOutcome::Completed(s) => r.push(s),
            WorkerOutcome::Failed => {},
        }
        i = i + 1;
    }
    assert(outcomes@.take(i as int) =~= outcomes@);
    r
}

/// Every completed outcome yields exactly one sample: the sample set is as
/// long as the number of completed outcomes, so a run in which no call fails
/// yields one sample per worker.
pub proof fn lemma_one_sample_per_completed_call(outcomes: Seq<WorkerOutcome>)
    ensures
        completed_samples(outcomes).len() == completed_count(outcomes),
        completed_count(outcomes) <= outcomes.len(),
        (forall|i: int| 0 <= i < outcomes.len() ==> outcomes[i] is Completed)
            ==> completed_count(outcomes) == outcomes.len(),
    decreases outcomes.len(),
{
    if outcomes.len() > 0 {
        let rest = outcomes.drop_last();
        lemma_one_sample_per_completed_call(rest);
        assert forall|i: int| 0 <= i < rest.len() implies rest[i] == outcomes[i] by {}
    }
}

} // verus!
