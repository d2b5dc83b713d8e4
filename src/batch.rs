//! Batch requests and their per-item outcomes.
use vstd::prelude::*;

verus! {

/// A batch of items to process together.
#[derive(Debug, Clone)]
pub struct BatchRequest<T> {
    pub items: Vec<T>,
    /// Stop at the first failing item.
    pub fail_on_error: bool,
}

/// The outcome of one item of a batch.
#[derive(Debug, Clone)]
pub struct BatchResult<T> {
    pub success: bool,
    pub result: Option<T>,
    pub error: Option<String>,
}

/// Outcomes of a batch, in item order, with their tallies.
#[derive(Debug, Clone)]
pub struct BatchResponse<T> {
    pub results: Vec<BatchResult<T>>,
    pub success_count: usize,
    pub error_count: usize,
}

/// Number of successful outcomes in a sequence.
pub open spec fn successes<T>(s: Seq<BatchResult<T>>) -> nat
    decreases s.len(),
{
    if s.len() == 0 {
        0
    } else {
        successes(s.drop_last()) + if s.last().success {
            1nat
        } else {
            0nat
        }
    }
}

impl<T> BatchResponse<T> {
    /// The tallies agree with the outcomes.
    pub open spec fn wf(&self) -> bool {
        &&& self.success_count == successes(self.results@)
        &&& self.success_count + self.error_count == self.results@.len()
    }

    /// An empty response.
    pub fn new() -> (r: BatchResponse<T>)
        ensures
            r.wf(),
            r.results@.len() == 0,
            r.success_count == 0 && r.error_count == 0,
    {
        BatchResponse { results: Vec::new(), success_count: 0, error_count: 0 }
    }

    /// Records a successful item.
    pub fn add_success(&mut self, result: T)
        requires
            old(self).wf(),
            old(self).results@.len() < usize::MAX,
        ensures
            final(self).wf(),
            final(self).results@.len() == old(self).results@.len() + 1,
            final(self).results@.drop_last() == old(self).results@,
            final(self).results@.last() == (BatchResult {
                success: true,
                result: Some(result),
                error: None,
            }),
            final(self).success_count == old(self).success_count + 1,
            final(self).error_count == old(self).error_count,
    {
        self.results.push(BatchResult { success: true, result: Some(result), error: None });
        self.success_count = self.success_count + 1;
        assert(self.results@.drop_last() =~= old(self).results@);
    }

    /// Records a failed item with its error message.
    pub fn add_error(&mut self, error: String)
        requires
            old(self).wf(),
            old(self).results@.len() < usize::MAX,
        ensures
            final(self).wf(),
            final(self).results@.len() == old(self).results@.len() + 1,
            final(self).results@.drop_last() == old(self).results@,
            final(self).results@.last() == (BatchResult::<T> {
                success: false,
                result: None,
                error: Some(error),
            }),
            final(self).success_count == old(self).success_count,
            final(self).error_count == old(self).error_count + 1,
    {
        self.results.push(BatchResult { success: false, result: None, error: Some(error) });
        self.error_count = self.error_count + 1;
        assert(self.results@.drop_last() =~= old(self).results@);
    }

    /// No item was recorded.
    pub fn is_empty(&self) -> (r: bool)
        ensures
            r == (self.results@.len() == 0),
    {
        self.results.len() == 0
    }

    /// Some item failed.
    pub fn has_errors(&self) -> (r: bool)
        ensures
            r == (self.error_count > 0),
    {
        self.error_count > 0
    }

    /// Successes and total, the two terms of the success rate (zero items
    /// give a rate of zero).
    pub fn success_ratio(&self) -> (r: (usize, usize))
        ensures
            r == (self.success_count, self.results@.len() as usize),
    {
        (self.success_count, self.results.len())
    }
}

/// Records the outcome of one item of a batch and says whether the batch
/// goes on: it stops at the first failure when `fail_on_error` is set.
pub fn record_outcome<T>(resp: &mut BatchResponse<T>, outcome: Result<T, String>, fail_on_error: bool) -> (go_on: bool)
    requires
        old(resp).wf(),
        old(resp).results@.len() < usize::MAX,
    ensures
        final(resp).wf(),
        final(resp).results@.len() == old(resp).results@.len() + 1,
        final(resp).results@.drop_last() == old(resp).results@,
        final(resp).results@.last().success == outcome.is_ok(),
        go_on == (outcome.is_ok() || !fail_on_error),
{
    match outcome {
        Ok(v) => {
            resp.add_success(v);
            true
        },
        Err(e) => {
            resp.add_error(e);
            !fail_on_error
        },
    }
}

} // verus!
