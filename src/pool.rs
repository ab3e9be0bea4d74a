//! The job queue shared by the workers of a pool: unbounded and first in,
//! first out. Once closed it takes no more jobs, and its workers leave when
//! it has drained.

use vstd::prelude::*;

verus! {

/// What a worker does next.
pub enum Claim<T> {
    /// Run this job.
    Run(T),
    /// Wait until a job comes or the queue is closed.
    Wait,
    /// Leave: the queue is closed and empty.
    Exit,
}

/// A first-in, first-out queue of jobs.
pub struct JobQueue<T> {
    pending: Vec<T>,
    closed: bool,
    submitted: Ghost<Seq<T>>,
    started: Ghost<Seq<T>>,
}

impl<T> JobQueue<T> {
    /// The jobs waiting for a worker, oldest first.
    pub closed spec fn pending(&self) -> Seq<T> {
        self.pending@
    }

    /// Whether the queue has been closed.
    pub closed spec fn is_closed(&self) -> bool {
        self.closed
    }

    /// Every job ever accepted, in order of submission.
    pub closed spec fn submitted(&self) -> Seq<T> {
        self.submitted@
    }

    /// Every job handed to a worker, in the order handed out.
    pub closed spec fn started(&self) -> Seq<T> {
        self.started@
    }

    /// The jobs accepted are those handed out, then those still waiting.
    pub open spec fn wf(&self) -> bool {
        self.submitted() == self.started() + self.pending()
    }

    /// An open queue with no job.
    pub fn new() -> (r: JobQueue<T>)
        ensures
            r.wf(),
            !r.is_closed(),
            r.pending() == Seq::<T>::empty(),
            r.submitted() == Seq::<T>::empty(),
            r.started() == Seq::<T>::empty(),
    {
        let r = JobQueue {
            pending: Vec::new(),
            closed: false,
            submitted: Ghost(Seq::empty()),
            started: Ghost(Seq::empty()),
        };
        assert(r.started() + r.pending() =~= Seq::<T>::empty());
        r
    }

    /// Adds a job at the back of an open queue; a closed queue hands the job
    /// back untouched.
    pub fn submit(&mut self, job: T) -> (r: Result<(), T>)
        requires
            old(self).wf(),
        ensures
            final(self).wf(),
            final(self).is_closed() == old(self).is_closed(),
            final(self).started() == old(self).started(),
            old(self).is_closed() ==> r == Err::<(), T>(job) && final(self).pending() == old(
                self,
            ).pending() && final(self).submitted() == old(self).submitted(),
            !old(self).is_closed() ==> r is Ok && final(self).pending() == old(self).pending().push(
                job,
            ) && final(self).submitted() == old(self).submitted().push(job),
    {
        if self.closed {
            return Err(job);
        }
        let ghost s = self.submitted@;
        self.submitted = Ghost(s.push(job));
        self.pending.push(job);
        assert(self.submitted() =~= self.started() + self.pending());
        Ok(())
    }

    /// Hands the oldest waiting job to a worker; with none waiting, the
    /// worker waits while the queue is open and leaves once it is closed.
    pub fn next(&mut self) -> (r: Claim<T>)
        requires
            old(self).wf(),
        ensures
            final(self).wf(),
            final(self).is_closed() == old(self).is_closed(),
            final(self).submitted() == old(self).submitted(),
            old(self).pending().len() > 0 ==> r == Claim::Run(old(self).pending()[0])
                && final(self).pending() == old(self).pending().drop_first()
                && final(self).started() == old(self).started().push(old(self).pending()[0]),
            old(self).pending().len() == 0 ==> *final(self) == *old(self) && (if old(
                self,
            ).is_closed() {
                r is Exit
            } else {
                r is Wait
            }),
            r is Exit ==> final(self).started() == final(self).submitted(),
    {
        if self.pending.len() > 0 {
            let ghost p = self.pending@;
            let ghost st = self.started@;
            let job = self.pending.remove(0);
            self.started = Ghost(st.push(job));
            assert(self.pending@ =~= p.drop_first());
            assert(self.started() + self.pending() =~= st + p);
            Claim::Run(job)
        } else if self.closed {
            assert(self.started() + self.pending() =~= self.started());
            Claim::Exit
        } else {
            Claim::Wait
        }
    }

    /// Closes the queue: it takes no more jobs, and the jobs waiting are
    /// still handed out.
    pub fn close(&mut self)
        requires
            old(self).wf(),
        ensures
            final(self).wf(),
            final(self).is_closed(),
            final(self).pending() == old(self).pending(),
            final(self).submitted() == old(self).submitted(),
            final(self).started() == old(self).started(),
    {
        self.closed = true;
    }

    /// The number of jobs waiting.
    pub fn pending_len(&self) -> (r: usize)
        ensures
            r == self.pending().len(),
    {
        self.pending.len()
    }
}

/// When no job waits, every job accepted has been handed out exactly once,
/// in the order of submission: none was lost and none was handed out twice.
pub proof fn law_drained_queue_started_all<T>(q: JobQueue<T>)
    requires
        q.wf(),
        q.pending().len() == 0,
    ensures
        q.started() == q.submitted(),
{
    assert(q.started() + q.pending() =~= q.started());
}

} // verus!
