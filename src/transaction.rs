//! Per-connection transaction state.
use vstd::prelude::*;

verus! {

/// The `MULTI` queue of one connection.
pub struct Transaction {
    pub is_txing: bool,
    /// The queued requests, each as its argument list.
    pub tasks: Vec<Vec<Vec<u8>>>,
    /// Index of the last task that `EXEC` ran.
    pub job_done_at: Option<usize>,
    /// The reply frame of each task that `EXEC` ran.
    pub response: Vec<Vec<u8>>,
}

impl Transaction {
    pub fn new() -> (r: Self)
        ensures
            !r.is_txing,
            r.tasks@.len() == 0,
            r.job_done_at is None,
            r.response@.len() == 0,
    {
        Transaction { is_txing: false, tasks: Vec::new(), job_done_at: None, response: Vec::new() }
    }

    /// Starts a fresh queue.
    pub fn begin(&mut self)
        ensures
            final(self).is_txing,
            final(self).tasks@.len() == 0,
            final(self).job_done_at is None,
            final(self).response@.len() == 0,
    {
        self.is_txing = true;
        self.tasks = Vec::new();
        self.job_done_at = None;
        self.response = Vec::new();
    }

    /// Drops the queue and leaves the transaction.
    pub fn discard(&mut self)
        ensures
            !final(self).is_txing,
            final(self).tasks@.len() == 0,
            final(self).job_done_at is None,
            final(self).response@.len() == 0,
    {
        self.is_txing = false;
        self.tasks = Vec::new();
        self.job_done_at = None;
        self.response = Vec::new();
    }

    /// Queues a request.
    pub fn enqueue(&mut self, args: Vec<Vec<u8>>)
        ensures
            final(self).is_txing == old(self).is_txing,
            final(self).tasks@ == old(self).tasks@.push(args),
            final(self).job_done_at == old(self).job_done_at,
            final(self).response@ == old(self).response@,
    {
        self.tasks.push(args);
    }
}

} // verus!
