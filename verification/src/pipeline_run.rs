//! What holds of every run of the pipeline, whatever answers arrive and in
//! whatever order.

use vstd::prelude::*;
use crate::pipeline::{
    count_done, lemma_count_bound, lemma_count_finish, Event, State, MAX_ATTEMPTS,
};
use crate::text::is_blank;

verus! {

/// A step keeps the state well formed and never touches the first texts.
pub proof fn lemma_step_wf(s: State, e: Event)
    requires
        s.wf(),
    ensures
        s.step(e).wf(),
        s.step(e).texts == s.texts,
{
}

/// A run keeps the state well formed and never touches the first texts.
pub proof fn lemma_run_wf(s: State, events: Seq<Event>)
    requires
        s.wf(),
    ensures
        s.run(events).wf(),
        s.run(events).texts == s.texts,
    decreases events.len(),
{
    if events.len() > 0 {
        lemma_run_wf(s, events.drop_last());
        lemma_step_wf(s.run(events.drop_last()), events.last());
    }
}

/// Mutation is local. After any run, a node holds either the text it held
/// before the run or the text of a translation that arrived for this very
/// node during the run; a node that was finished before the run keeps its
/// text.
pub proof fn law_mutation_locality(s: State, events: Seq<Event>, id: int)
    requires
        s.wf(),
        0 <= id < s.total(),
    ensures
        s.run(events).contents[id] == s.contents[id] || exists|k: int|
            0 <= k < events.len() && #[trigger] events[k] == (Event::Translated {
                id,
                text: s.run(events).contents[id],
            }),
        s.done[id] ==> s.run(events).contents[id] == s.contents[id],
        s.done[id] ==> s.run(events).done[id],
    decreases events.len(),
{
    if events.len() > 0 {
        let before = events.drop_last();
        let mid = s.run(before);
        let end = s.run(events);
        law_mutation_locality(s, before, id);
        lemma_run_wf(s, before);
        if end.contents[id] == mid.contents[id] {
            if mid.contents[id] != s.contents[id] {
                let k = choose|k: int|
                    0 <= k < before.len() && #[trigger] before[k] == (Event::Translated {
                        id,
                        text: mid.contents[id],
                    });
                assert(events[k] == before[k]);
            }
        } else {
            assert(events[events.len() - 1] == events.last());
        }
    }
}

/// A node is written at most once: once a translation has been written into
/// it, no later event changes its text.
pub proof fn law_first_translation_wins(s: State, text: Seq<char>, events: Seq<Event>, id: int)
    requires
        s.wf(),
        s.open(id),
    ensures
        s.step(Event::Translated { id, text }).run(events).contents[id] == text,
{
    let written = s.step(Event::Translated { id, text });
    lemma_step_wf(s, Event::Translated { id, text });
    law_mutation_locality(written, events, id);
}

/// Whether every translation that arrives in the run is the text that its
/// node held at the start.
pub open spec fn translates_nothing(s: State, events: Seq<Event>) -> bool {
    forall|k: int|
        0 <= k < events.len() ==> ((#[trigger] events[k]) matches Event::Translated { id, text }
            ==> 0 <= id < s.total() ==> text == s.texts[id])
}

/// Untouched text stays as it is. If every node holds its first text and the
/// service gives every text back as it got it, then after the run every
/// node still holds its first text.
pub proof fn law_identity_translation(s: State, events: Seq<Event>)
    requires
        s.wf(),
        s.contents == s.texts,
        translates_nothing(s, events),
    ensures
        s.run(events).contents == s.texts,
    decreases events.len(),
{
    if events.len() > 0 {
        let before = events.drop_last();
        assert forall|k: int| 0 <= k < before.len() implies ((#[trigger] before[k]) matches Event::Translated {
            id,
            text,
        } ==> 0 <= id < s.total() ==> text == s.texts[id]) by {
            assert(before[k] == events[k]);
        }
        law_identity_translation(s, before);
        lemma_run_wf(s, before);
        assert(s.run(events).contents =~= s.texts);
    }
}

/// Number of jobs that a run asks to send again for node `id`.
pub open spec fn resends(s: State, events: Seq<Event>, id: int) -> int
    decreases events.len(),
{
    if events.len() == 0 {
        0
    } else {
        let asked = s.run(events.drop_last()).reaction(events.last());
        resends(s, events.drop_last(), id) + if asked is Resend && asked->Resend_id == id {
            1int
        } else {
            0int
        }
    }
}

/// Number of jobs sent for node `id` in a whole run over `texts`: the first
/// one, unless the text is blank, and every retry.
pub open spec fn jobs_emitted(texts: Seq<Seq<char>>, events: Seq<Event>, id: int) -> int {
    resends(State::initial(texts), events, id) + if is_blank(texts[id]) {
        0int
    } else {
        1int
    }
}

/// Every retry is counted: the retries a node has after a run are those it
/// had before plus the jobs the run asked to send again for it.
pub proof fn lemma_resends_counted(s: State, events: Seq<Event>, id: int)
    requires
        s.wf(),
        0 <= id < s.total(),
    ensures
        s.run(events).retries[id] == s.retries[id] + resends(s, events, id),
        resends(s, events, id) >= 0,
    decreases events.len(),
{
    if events.len() > 0 {
        lemma_resends_counted(s, events.drop_last(), id);
        lemma_run_wf(s, events.drop_last());
    }
}

/// Retries are bounded. In any run, no more than `MAX_ATTEMPTS + 1` jobs are
/// sent for one node.
pub proof fn law_retry_bound(texts: Seq<Seq<char>>, events: Seq<Event>, id: int)
    requires
        0 <= id < texts.len(),
    ensures
        0 <= jobs_emitted(texts, events, id) <= MAX_ATTEMPTS + 1,
{
    let s = State::initial(texts);
    lemma_resends_counted(s, events, id);
    lemma_run_wf(s, events);
}

/// The most events that node `i` can still take before it is finished.
pub open spec fn budget(s: State, i: int) -> int {
    if s.done[i] {
        0
    } else {
        MAX_ATTEMPTS + 1 - s.retries[i]
    }
}

/// The sum of the budgets of the first `n` nodes.
pub open spec fn remaining_upto(s: State, n: int) -> int
    decreases n,
{
    if n <= 0 {
        0
    } else {
        remaining_upto(s, n - 1) + budget(s, n - 1)
    }
}

/// The most events for open nodes that the pipeline can still take.
pub open spec fn remaining(s: State) -> int {
    remaining_upto(s, s.total())
}

/// Whether every event of the run arrives for a node that is open then.
pub open spec fn all_effective(s: State, events: Seq<Event>) -> bool
    decreases events.len(),
{
    events.len() == 0 || (all_effective(s, events.drop_last()) && s.run(events.drop_last()).open(
        events.last().id(),
    ))
}

proof fn lemma_remaining_step(s: State, e: Event, n: int)
    requires
        s.wf(),
        s.open(e.id()),
        0 <= n <= s.total(),
    ensures
        remaining_upto(s.step(e), n) == remaining_upto(s, n) - if e.id() < n {
            budget(s, e.id()) - budget(s.step(e), e.id())
        } else {
            0int
        },
        0 <= budget(s.step(e), e.id()) < budget(s, e.id()),
    decreases n,
{
    if n > 0 {
        lemma_remaining_step(s, e, n - 1);
    }
}

proof fn lemma_remaining_zero(s: State, n: int)
    requires
        s.wf(),
        0 <= n <= s.total(),
    ensures
        remaining_upto(s, n) >= 0,
        remaining_upto(s, n) <= n * (MAX_ATTEMPTS + 1),
        remaining_upto(s, n) == 0 <==> count_done(s.done, n) == n,
    decreases n,
{
    if n > 0 {
        lemma_remaining_zero(s, n - 1);
        lemma_count_bound(s.done, n - 1);
        assert(n * (MAX_ATTEMPTS + 1) == (n - 1) * (MAX_ATTEMPTS + 1) + (MAX_ATTEMPTS + 1))
            by (nonlinear_arith);
    }
}

/// Every event either is ignored or brings the end nearer: an event for a
/// node that is not open changes nothing, and any other lowers what remains.
pub proof fn law_progress(s: State, e: Event)
    requires
        s.wf(),
    ensures
        !s.open(e.id()) ==> s.step(e) == s,
        s.open(e.id()) ==> 0 <= remaining(s.step(e)) < remaining(s),
{
    if s.open(e.id()) {
        lemma_remaining_step(s, e, s.total());
        lemma_step_wf(s, e);
        lemma_remaining_zero(s.step(e), s.total());
    }
}

/// The pipeline is finished exactly when nothing remains, and what remains
/// is never more than `MAX_ATTEMPTS + 1` events for each node.
pub proof fn law_done_when_nothing_remains(s: State)
    requires
        s.wf(),
    ensures
        0 <= remaining(s) <= s.total() * (MAX_ATTEMPTS + 1),
        remaining(s) == 0 <==> s.completed() == s.total(),
{
    lemma_remaining_zero(s, s.total());
}

/// Termination. A run in which every event arrives for a node that is open
/// cannot be longer than what remained at its start, so it has at most
/// `(MAX_ATTEMPTS + 1) * total` events; and once nothing remains, every node
/// is finished.
pub proof fn law_termination(s: State, events: Seq<Event>)
    requires
        s.wf(),
        all_effective(s, events),
    ensures
        events.len() + remaining(s.run(events)) <= remaining(s),
        events.len() <= s.total() * (MAX_ATTEMPTS + 1),
        remaining(s.run(events)) == 0 <==> s.run(events).completed() == s.total(),
    decreases events.len(),
{
    lemma_run_wf(s, events);
    law_done_when_nothing_remains(s.run(events));
    law_done_when_nothing_remains(s);
    if events.len() > 0 {
        law_termination(s, events.drop_last());
        lemma_run_wf(s, events.drop_last());
        law_progress(s.run(events.drop_last()), events.last());
    }
}

/// The run ends exactly when every node is finished: the count of finished
/// nodes reaches the number of nodes if and only if none is open.
pub proof fn law_done_means_none_open(s: State)
    requires
        s.wf(),
    ensures
        s.completed() == s.total() <==> forall|id: int| !s.open(id),
{
    lemma_all_counted(s.done, s.total());
    if s.completed() == s.total() {
        assert forall|id: int| !s.open(id) by {
            if s.open(id) {
                lemma_count_bound(s.done, s.total());
            }
        }
    } else {
        let i = choose|i: int| 0 <= i < s.total() && !s.done[i];
        assert(s.open(i));
    }
}

/// The count reaches `n` only where all of the first `n` nodes are finished.
proof fn lemma_all_counted(done: Seq<bool>, n: int)
    requires
        0 <= n <= done.len(),
    ensures
        count_done(done, n) == n <==> forall|i: int| 0 <= i < n ==> done[i],
    decreases n,
{
    if n > 0 {
        lemma_all_counted(done, n - 1);
        lemma_count_bound(done, n - 1);
        if count_done(done, n) != n && done[n - 1] {
            let i = choose|i: int| 0 <= i < n - 1 && !done[i];
            assert(!done[i]);
        }
    }
}

/// The count of finished nodes never falls, and it rises by one with every
/// event that finishes a node.
pub proof fn law_completed_monotone(s: State, e: Event)
    requires
        s.wf(),
    ensures
        s.completed() <= s.step(e).completed() <= s.completed() + 1,
        s.step(e).completed() == s.completed() + 1 <==> s.step(e).done != s.done,
{
    let id = e.id();
    if s.open(id) && s.step(e).done != s.done {
        lemma_count_finish(s.done, s.total(), id);
        assert(s.step(e).done == s.done.update(id, true));
    }
}

} // verus!
