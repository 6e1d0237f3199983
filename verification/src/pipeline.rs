//! The translation pipeline's bookkeeping: which text nodes are still owed an
//! answer, how often each was retried, and what each answer does to the node
//! it belongs to.
//!
//! The caller owns the channels and the network. It feeds every answer to
//! [`Pipeline::on_outcome`], carries out the returned [`Action`], and stops as
//! soon as [`Pipeline::is_done`] holds.

use vstd::prelude::*;
use crate::text::{is_blank, text_is_blank, views};

verus! {

/// How often a failed text is sent again before it is given up.
pub const MAX_ATTEMPTS: usize = 4;

/// Capacity of each of the two queues between the pipeline and its workers.
pub const WRITER_QUEUE: usize = 15_000;

/// One request for the translation of one text node.
#[derive(Clone, Debug)]
pub struct Job {
    /// Index of the node in the pipeline's node list.
    pub id: usize,
    /// The node's text as it was when the pipeline was built.
    pub text: String,
    /// 0 for the first request, then the number of the retry.
    pub attempt: usize,
}

/// What came back for a job.
#[derive(Clone, Debug)]
pub enum TranslationResult {
    Translated(String),
    Failed,
}

/// The answer to one job.
#[derive(Clone, Debug)]
pub struct Outcome {
    pub id: usize,
    pub result: TranslationResult,
}

/// What the caller has to do after an outcome was taken in.
#[derive(Clone, Debug)]
pub enum Action {
    /// The node's text was replaced; nothing more to do for it.
    Written { id: usize },
    /// The job failed and is to be sent again.
    Resend(Job),
    /// The job failed for the last time; the node keeps its text.
    Exhausted { id: usize },
    /// The outcome names no node that is still open.
    Ignored,
}

/// An event of a run, as the contracts see it.
pub ghost enum Event {
    Translated { id: int, text: Seq<char> },
    Failed { id: int },
    SendFailed { id: int },
}

impl Event {
    pub open spec fn id(self) -> int {
        match self {
            Event::Translated { id, .. } => id,
            Event::Failed { id } => id,
            Event::SendFailed { id } => id,
        }
    }
}

/// What an event asks of the caller, as the contracts see it.
pub ghost enum Reaction {
    Written { id: int },
    Resend { id: int, text: Seq<char>, attempt: int },
    Exhausted { id: int },
    Dropped { id: int },
    Ignored,
}

/// The pipeline's state, as the contracts see it.
pub ghost struct State {
    /// The texts as they were at the start; what a retry sends again.
    pub texts: Seq<Seq<char>>,
    /// The texts the nodes hold now.
    pub contents: Seq<Seq<char>>,
    /// Per node, the retries made so far.
    pub retries: Seq<int>,
    /// Per node, whether it is finished: written, given up or skipped.
    pub done: Seq<bool>,
}

/// Number of finished nodes among the first `n`.
pub open spec fn count_done(done: Seq<bool>, n: int) -> int
    decreases n,
{
    if n <= 0 {
        0
    } else {
        count_done(done, n - 1) + if done[n - 1] { 1int } else { 0int }
    }
}

impl State {
    pub open spec fn total(self) -> int {
        self.texts.len() as int
    }

    pub open spec fn wf(self) -> bool {
        &&& self.contents.len() == self.texts.len()
        &&& self.retries.len() == self.texts.len()
        &&& self.done.len() == self.texts.len()
        &&& forall|i: int| 0 <= i < self.texts.len() ==> 0 <= #[trigger] self.retries[i] <= MAX_ATTEMPTS
    }

    /// Number of finished nodes.
    pub open spec fn completed(self) -> int {
        count_done(self.done, self.done.len() as int)
    }

    /// Whether node `id` still waits for an answer.
    pub open spec fn open(self, id: int) -> bool {
        0 <= id < self.total() && !self.done[id]
    }

    /// The state a pipeline starts in: blank texts are finished at once, and
    /// nothing was retried or written.
    pub open spec fn initial(texts: Seq<Seq<char>>) -> State {
        State {
            texts,
            contents: texts,
            retries: Seq::new(texts.len(), |i: int| 0int),
            done: Seq::new(texts.len(), |i: int| is_blank(texts[i])),
        }
    }

    /// The state after one event.
    pub open spec fn step(self, e: Event) -> State {
        let id = e.id();
        if !self.open(id) {
            self
        } else {
            match e {
                Event::Translated { text, .. } => State {
                    contents: self.contents.update(id, text),
                    done: self.done.update(id, true),
                    ..self
                },
                Event::Failed { .. } => if self.retries[id] < MAX_ATTEMPTS {
                    State { retries: self.retries.update(id, self.retries[id] + 1), ..self }
                } else {
                    State { done: self.done.update(id, true), ..self }
                },
                Event::SendFailed { .. } => State { done: self.done.update(id, true), ..self },
            }
        }
    }

    /// What one event asks of the caller.
    pub open spec fn reaction(self, e: Event) -> Reaction {
        let id = e.id();
        if !self.open(id) {
            Reaction::Ignored
        } else {
            match e {
                Event::Translated { .. } => Reaction::Written { id },
                Event::Failed { .. } => if self.retries[id] < MAX_ATTEMPTS {
                    Reaction::Resend { id, text: self.texts[id], attempt: self.retries[id] + 1 }
                } else {
                    Reaction::Exhausted { id }
                },
                Event::SendFailed { .. } => Reaction::Dropped { id },
            }
        }
    }

    /// The state after a sequence of events.
    pub open spec fn run(self, events: Seq<Event>) -> State
        decreases events.len(),
    {
        if events.len() == 0 {
            self
        } else {
            self.run(events.drop_last()).step(events.last())
        }
    }
}

impl Outcome {
    /// The event that this outcome is.
    pub open spec fn event(self) -> Event {
        match self.result {
            TranslationResult::Translated(text) => Event::Translated {
                id: self.id as int,
                text: text@,
            },
            TranslationResult::Failed => Event::Failed { id: self.id as int },
        }
    }

    /// The outcome of a job whose request gave `translated`, or failed with
    /// `None`.
    pub fn from_reply(id: usize, translated: Option<String>) -> (o: Outcome)
        ensures
            o.id == id,
            match translated {
                Some(text) => o.result == TranslationResult::Translated(text),
                None => o.result == TranslationResult::Failed,
            },
    {
        match translated {
            Some(text) => Outcome { id, result: TranslationResult::Translated(text) },
            None => Outcome { id, result: TranslationResult::Failed },
        }
    }
}

impl Action {
    /// The reaction that this action is.
    pub open spec fn view(self) -> Reaction {
        match self {
            Action::Written { id } => Reaction::Written { id: id as int },
            Action::Resend(job) => Reaction::Resend {
                id: job.id as int,
                text: job.text@,
                attempt: job.attempt as int,
            },
            Action::Exhausted { id } => Reaction::Exhausted { id: id as int },
            Action::Ignored => Reaction::Ignored,
        }
    }
}

/// The ids of the nodes among the first `n` that are not finished, ascending.
pub open spec fn open_ids(done: Seq<bool>, n: int) -> Seq<int>
    decreases n,
{
    if n <= 0 {
        Seq::empty()
    } else if done[n - 1] {
        open_ids(done, n - 1)
    } else {
        open_ids(done, n - 1).push(n - 1)
    }
}

/// The count of finished nodes never exceeds the number of nodes looked at,
/// and falls short of it where one of them is not finished.
pub proof fn lemma_count_bound(done: Seq<bool>, n: int)
    requires
        0 <= n <= done.len(),
    ensures
        0 <= count_done(done, n) <= n,
        (exists|id: int| 0 <= id < n && !done[id]) ==> count_done(done, n) < n,
    decreases n,
{
    if n > 0 {
        lemma_count_bound(done, n - 1);
    }
}

/// Finishing one more node raises the count of finished nodes by one.
pub proof fn lemma_count_finish(done: Seq<bool>, n: int, id: int)
    requires
        0 <= n <= done.len(),
        0 <= id < done.len(),
        !done[id],
    ensures
        count_done(done.update(id, true), n) == count_done(done, n) + if id < n { 1int } else { 0int },
    decreases n,
{
    if n > 0 {
        lemma_count_finish(done, n - 1, id);
    }
}

/// The bookkeeping of one run over a fixed list of text nodes.
#[derive(Debug)]
pub struct Pipeline {
    texts: Vec<String>,
    contents: Vec<String>,
    retries: Vec<usize>,
    done: Vec<bool>,
    completed: usize,
}

impl Pipeline {
    pub closed spec fn view(&self) -> State {
        State {
            texts: views(self.texts@),
            contents: views(self.contents@),
            retries: Seq::new(self.retries@.len(), |i: int| self.retries@[i] as int),
            done: self.done@,
        }
    }

    /// The state is well formed and the running count of finished nodes is
    /// right.
    pub closed spec fn wf(&self) -> bool {
        &&& self@.wf()
        &&& self.completed == self@.completed()
    }

    /// A well-formed pipeline has a well-formed state.
    pub proof fn lemma_wf(&self)
        requires
            self.wf(),
        ensures
            self@.wf(),
            0 <= self@.completed() <= self@.total(),
    {
        lemma_count_bound(self.done@, self.done@.len() as int);
    }

    /// Starts a run over `texts`, the contents of the text nodes in the order
    /// of their ids. Blank texts are finished from the start.
    pub fn new(texts: Vec<String>) -> (p: Pipeline)
        ensures
            p.wf(),
            p@ == State::initial(views(texts@)),
    {
        let mut contents: Vec<String> = Vec::new();
        let mut retries: Vec<usize> = Vec::new();
        let mut done: Vec<bool> = Vec::new();
        let mut completed: usize = 0;
        let mut i: usize = 0;
        while i < texts.len()
            invariant
                i <= texts.len(),
                contents@.len() == i,
                retries@.len() == i,
                done@.len() == i,
                forall|j: int| 0 <= j < i ==> contents@[j]@ == texts@[j]@,
                forall|j: int| 0 <= j < i ==> retries@[j] == 0,
                forall|j: int| 0 <= j < i ==> done@[j] == is_blank(#[trigger] texts@[j]@),
                completed == count_done(done@, i as int),
                completed <= i,
            decreases texts.len() - i,
        {
            let blank = text_is_blank(texts[i].as_str());
            contents.push(texts[i].clone());
            retries.push(0);
            let ghost before = done@;
            done.push(blank);
            proof {
                lemma_count_prefix(before, done@, i as int);
            }
            if blank {
                completed += 1;
            }
            i += 1;
        }
        let p = Pipeline { texts, contents, retries, done, completed };
        proof {
            let init = State::initial(views(p.texts@));
            assert(p@.texts =~= init.texts);
            assert(p@.contents =~= init.contents);
            assert(p@.retries =~= init.retries);
            assert(p@.done =~= init.done);
        }
        p
    }

    /// Number of text nodes.
    pub fn total(&self) -> (n: usize)
        requires
            self.wf(),
        ensures
            n == self@.total(),
    {
        self.texts.len()
    }

    /// Number of finished nodes.
    pub fn completed(&self) -> (n: usize)
        requires
            self.wf(),
        ensures
            n == self@.completed(),
    {
        self.completed
    }

    /// Whether every node is finished; the run ends the moment this holds.
    pub fn is_done(&self) -> (b: bool)
        requires
            self.wf(),
        ensures
            b == (self@.completed() == self@.total()),
    {
        self.completed == self.texts.len()
    }

    /// Whether node `id` still waits for an answer.
    pub fn is_open(&self, id: usize) -> (b: bool)
        requires
            self.wf(),
        ensures
            b == self@.open(id as int),
    {
        id < self.done.len() && !self.done[id]
    }

    /// Marks the open node `id` as finished.
    fn finish(&mut self, id: usize)
        requires
            old(self).wf(),
            old(self)@.open(id as int),
        ensures
            final(self).wf(),
            final(self)@ == (State { done: old(self)@.done.update(id as int, true), ..old(self)@ }),
    {
        proof {
            let n = self.done@.len() as int;
            assert(0 <= id < n && !self.done@[id as int]);
            lemma_count_bound(self.done@, n);
            lemma_count_finish(self.done@, n, id as int);
            assert(self.completed < self.done.len());
        }
        self.completed = self.completed + 1;
        self.done.set(id, true);
        assert(self@.retries =~= old(self)@.retries);
    }

    /// Takes in the answer to a job. A translation is written into its node,
    /// a failure is answered by a retry while retries are left, and an answer
    /// for a node that is finished, or that does not exist, changes nothing.
    pub fn on_outcome(&mut self, outcome: Outcome) -> (action: Action)
        requires
            old(self).wf(),
        ensures
            final(self).wf(),
            final(self)@ == old(self)@.step(outcome.event()),
            action@ == old(self)@.reaction(outcome.event()),
    {
        let id = outcome.id;
        if !self.is_open(id) {
            return Action::Ignored;
        }
        match outcome.result {
            TranslationResult::Translated(text) => {
                self.contents.set(id, text);
                assert(self@.contents =~= old(self)@.contents.update(id as int, text@));
                assert(self@.retries =~= old(self)@.retries);
                self.finish(id);
                Action::Written { id }
            },
            TranslationResult::Failed => {
                let made = self.retries[id];
                if made < MAX_ATTEMPTS {
                    self.retries.set(id, made + 1);
                    assert(self@.retries =~= old(self)@.retries.update(id as int, made + 1));
                    let text = self.texts[id].clone();
                    Action::Resend(Job { id, text, attempt: made + 1 })
                } else {
                    self.finish(id);
                    Action::Exhausted { id }
                }
            },
        }
    }

    /// Records that a job for node `id` could not be handed to the workers:
    /// the node is finished with its text unchanged. Returns whether the node
    /// was open.
    pub fn on_send_failure(&mut self, id: usize) -> (counted: bool)
        requires
            old(self).wf(),
        ensures
            final(self).wf(),
            final(self)@ == old(self)@.step(Event::SendFailed { id: id as int }),
            counted == old(self)@.open(id as int),
    {
        if self.is_open(id) {
            self.finish(id);
            true
        } else {
            false
        }
    }

    /// The jobs to send now: one for every open node, by ascending id, with
    /// the node's first text and the number of its latest attempt.
    pub fn pending_jobs(&self) -> (jobs: Vec<Job>)
        requires
            self.wf(),
        ensures
            jobs@.len() == open_ids(self@.done, self@.total()).len(),
            forall|k: int| 0 <= k < jobs@.len() ==> {
                let id = open_ids(self@.done, self@.total())[k];
                &&& (#[trigger] jobs@[k]).id == id
                &&& jobs@[k].text@ == self@.texts[id]
                &&& jobs@[k].attempt == self@.retries[id]
            },
    {
        let mut jobs: Vec<Job> = Vec::new();
        let mut i: usize = 0;
        while i < self.texts.len()
            invariant
                self.wf(),
                i <= self.texts@.len(),
                self.done@.len() == self.texts@.len(),
                self.retries@.len() == self.texts@.len(),
                jobs@.len() == open_ids(self.done@, i as int).len(),
                forall|k: int|
                    0 <= k < jobs@.len() ==> 0 <= #[trigger] open_ids(self.done@, i as int)[k] < i,
                forall|k: int|
                    0 <= k < jobs@.len() ==> (#[trigger] jobs@[k]).id == open_ids(
                        self.done@,
                        i as int,
                    )[k],
                forall|k: int|
                    0 <= k < jobs@.len() ==> (#[trigger] jobs@[k]).text@
                        == self.texts@[jobs@[k].id as int]@,
                forall|k: int|
                    0 <= k < jobs@.len() ==> (#[trigger] jobs@[k]).attempt
                        == self.retries@[jobs@[k].id as int],
            decreases self.texts.len() - i,
        {
            if !self.done[i] {
                jobs.push(Job { id: i, text: self.texts[i].clone(), attempt: self.retries[i] });
            }
            i += 1;
        }
        jobs
    }

    /// The text that node `id` holds now.
    pub fn content(&self, id: usize) -> (text: &String)
        requires
            self.wf(),
            id < self@.total(),
        ensures
            text@ == self@.contents[id as int],
    {
        &self.contents[id]
    }

    /// The text that node `id` held at the start.
    pub fn snapshot(&self, id: usize) -> (text: &String)
        requires
            self.wf(),
            id < self@.total(),
        ensures
            text@ == self@.texts[id as int],
    {
        &self.texts[id]
    }

    /// How often node `id` was retried.
    pub fn retries(&self, id: usize) -> (n: usize)
        requires
            self.wf(),
            id < self@.total(),
        ensures
            n == self@.retries[id as int],
            n <= MAX_ATTEMPTS,
    {
        self.retries[id]
    }

    /// Ends the run and hands out the texts of all nodes, by id.
    pub fn into_contents(self) -> (contents: Vec<String>)
        requires
            self.wf(),
        ensures
            views(contents@) == self@.contents,
    {
        self.contents
    }
}

/// The count over the first `n` nodes depends on those nodes only.
proof fn lemma_count_prefix(a: Seq<bool>, b: Seq<bool>, n: int)
    requires
        0 <= n <= a.len(),
        n <= b.len(),
        forall|j: int| 0 <= j < n ==> a[j] == b[j],
    ensures
        count_done(a, n) == count_done(b, n),
    decreases n,
{
    if n > 0 {
        lemma_count_prefix(a, b, n - 1);
    }
}

} // verus!
