//! Admission to the translation service: how many requests may be under
//! way at once, and which job goes next.
//!
//! The caller runs the workers. It hands every job to [`Dispatcher::submit`]
//! and reports every finished worker to [`Dispatcher::finished`]; each call
//! answers with the job to start now, if there is one.

use vstd::prelude::*;
use crate::pipeline::Job;

verus! {

/// The dispatcher's state, as the contracts see it.
pub ghost struct Permits {
    /// The most requests that may be under way at once.
    pub limit: int,
    /// The requests under way; each holds one permit.
    pub in_flight: int,
    /// The jobs that wait for a permit, oldest first.
    pub waiting: Seq<Job>,
}

/// What the dispatcher is told.
pub ghost enum Signal {
    /// A job arrives.
    Submit(Job),
    /// A worker has finished and gives its permit back.
    Finished,
}

impl Permits {
    pub open spec fn initial(limit: int) -> Permits {
        Permits { limit, in_flight: 0, waiting: Seq::empty() }
    }

    /// No more permits are held than there are, and a job waits only while
    /// every permit is held.
    pub open spec fn wf(self) -> bool {
        &&& 0 <= self.in_flight <= self.limit
        &&& self.waiting.len() > 0 ==> self.in_flight == self.limit
    }

    /// The state after one event.
    pub open spec fn step(self, e: Signal) -> Permits {
        match e {
            Signal::Submit(job) => if self.in_flight < self.limit {
                Permits { in_flight: self.in_flight + 1, ..self }
            } else {
                Permits { waiting: self.waiting.push(job), ..self }
            },
            Signal::Finished => if self.in_flight == 0 {
                self
            } else if self.waiting.len() > 0 {
                Permits { waiting: self.waiting.drop_first(), ..self }
            } else {
                Permits { in_flight: self.in_flight - 1, ..self }
            },
        }
    }

    /// The job that an event lets start, if any.
    pub open spec fn started(self, e: Signal) -> Option<Job> {
        match e {
            Signal::Submit(job) => if self.in_flight < self.limit {
                Some(job)
            } else {
                None
            },
            Signal::Finished => if self.in_flight > 0 && self.waiting.len() > 0 {
                Some(self.waiting[0])
            } else {
                None
            },
        }
    }

    /// The state after a sequence of events.
    pub open spec fn run(self, events: Seq<Signal>) -> Permits
        decreases events.len(),
    {
        if events.len() == 0 {
            self
        } else {
            self.run(events.drop_last()).step(events.last())
        }
    }
}

/// The concurrency bound. Whatever jobs arrive and whenever workers finish,
/// never more than `limit` requests are under way.
pub proof fn law_concurrency_bound(limit: int, events: Seq<Signal>)
    requires
        0 <= limit,
    ensures
        Permits::initial(limit).run(events).wf(),
        0 <= Permits::initial(limit).run(events).in_flight <= limit,
        Permits::initial(limit).run(events).limit == limit,
    decreases events.len(),
{
    if events.len() > 0 {
        law_concurrency_bound(limit, events.drop_last());
    }
}

/// Jobs start in the order in which they arrived: a job that has to wait is
/// put behind all that wait already, and the one that starts next is the
/// oldest.
pub proof fn law_first_come_first_served(p: Permits, e: Signal)
    requires
        p.wf(),
    ensures
        p.step(e).wf(),
        e matches Signal::Submit(job) ==> (p.started(e) == Some(job) || p.step(e).waiting.last()
            == job),
        e is Finished && p.waiting.len() > 0 && p.limit > 0 ==> p.started(e) == Some(
            p.waiting.first(),
        ),
{
}

/// Admits at most `limit` requests at a time and keeps the rest in a queue.
#[derive(Debug)]
pub struct Dispatcher {
    limit: usize,
    in_flight: usize,
    waiting: Vec<Job>,
}

impl Dispatcher {
    pub closed spec fn view(&self) -> Permits {
        Permits { limit: self.limit as int, in_flight: self.in_flight as int, waiting: self.waiting@ }
    }

    /// A dispatcher with `concurrent_requests` permits, none of them held.
    pub fn new(concurrent_requests: usize) -> (d: Dispatcher)
        ensures
            d@ == Permits::initial(concurrent_requests as int),
            d@.wf(),
    {
        Dispatcher { limit: concurrent_requests, in_flight: 0, waiting: Vec::new() }
    }

    /// Takes a job. Returns it if a permit is free, which the job then
    /// holds; else the job waits its turn.
    pub fn submit(&mut self, job: Job) -> (start: Option<Job>)
        requires
            old(self)@.wf(),
        ensures
            final(self)@.wf(),
            final(self)@ == old(self)@.step(Signal::Submit(job)),
            start == old(self)@.started(Signal::Submit(job)),
    {
        if self.in_flight < self.limit {
            self.in_flight = self.in_flight + 1;
            Some(job)
        } else {
            self.waiting.push(job);
            None
        }
    }

    /// Takes back the permit of a worker that has finished. Returns the
    /// oldest waiting job, which takes the permit over, if one waits.
    pub fn finished(&mut self) -> (start: Option<Job>)
        requires
            old(self)@.wf(),
        ensures
            final(self)@.wf(),
            final(self)@ == old(self)@.step(Signal::Finished),
            start == old(self)@.started(Signal::Finished),
    {
        if self.in_flight == 0 {
            None
        } else if self.waiting.len() > 0 {
            let job = self.waiting.remove(0);
            assert(self.waiting@ =~= old(self).waiting@.drop_first());
            Some(job)
        } else {
            self.in_flight = self.in_flight - 1;
            None
        }
    }

    /// Number of requests under way.
    pub fn in_flight(&self) -> (n: usize)
        ensures
            n == self@.in_flight,
    {
        self.in_flight
    }

    /// Number of permits, held or free.
    pub fn limit(&self) -> (n: usize)
        ensures
            n == self@.limit,
    {
        self.limit
    }

    /// Number of jobs that wait for a permit.
    pub fn waiting(&self) -> (n: usize)
        ensures
            n == self@.waiting.len(),
    {
        self.waiting.len()
    }
}

} // verus!
