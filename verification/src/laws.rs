//! The laws of the broker, proved of the model in `model`.
//!
//! A submission is told from others by its uuid. The laws hold of runs in
//! which the testing system hands in no uuid while a submission with that
//! uuid is still queued or bound.

use vstd::prelude::*;
use crate::invoker::gateway::{InputMessageView, SummaryView};
use crate::model::{Broker, Effects, Event, InvokerView, MAX_SUBMISSIONS_COUNT};
use crate::submission::SubmissionView;
use crate::testing_system::gateway::OutputMessageView;
use crate::verdict::{TestResultView, Verdict};

verus! {

impl Broker {
    /// Session `k` is live and bound to submission `u`.
    pub open spec fn bound_by(self, k: u128, u: u128) -> bool {
        self.invokers.contains_key(k) && self.invokers[k].submission_uuid == Some(u)
    }

    /// Some live session is bound to submission `u`.
    pub open spec fn is_bound(self, u: u128) -> bool {
        exists|k: u128| self.bound_by(k, u)
    }

    /// Submission `u` waits at place `i` of the queue.
    pub open spec fn queued_at(self, i: int, u: u128) -> bool {
        0 <= i < self.queue.len() && self.queue[i].uuid == u
    }

    /// Submission `u` waits in the queue.
    pub open spec fn is_queued(self, u: u128) -> bool {
        exists|i: int| self.queued_at(i, u)
    }

    /// The state is consistent: results are allocated for exactly the
    /// submissions that are queued or bound; each submission is queued once
    /// or bound to one session, never both; the queue is within its capacity;
    /// and a queued submission has one result per test.
    pub open spec fn consistent(self) -> bool {
        &&& forall|k: u128, u: u128| #[trigger] self.bound_by(k, u) ==> self.results.contains_key(u)
        &&& forall|k1: u128, k2: u128, u: u128|
            #[trigger] self.bound_by(k1, u) && #[trigger] self.bound_by(k2, u) ==> k1 == k2
        &&& forall|i: int, u: u128| #[trigger] self.queued_at(i, u) ==> self.results.contains_key(u)
        &&& forall|i: int, j: int, u: u128|
            #[trigger] self.queued_at(i, u) && #[trigger] self.queued_at(j, u) ==> i == j
        &&& forall|i: int, k: u128, u: u128|
            #[trigger] self.queued_at(i, u) ==> !#[trigger] self.bound_by(k, u)
        &&& forall|u: u128| #[trigger]
            self.results.contains_key(u) ==> self.is_queued(u) || self.is_bound(u)
        &&& self.queue.len() <= MAX_SUBMISSIONS_COUNT
        &&& forall|i: int, u: u128| #[trigger]
            self.queued_at(i, u) ==> self.results[u].len() == self.queue[i].tests_count
    }
}

/// Serving an idle session keeps the state consistent.
pub proof fn lemma_dispatch_consistent(m: Broker, uuid: u128)
    requires
        m.consistent(),
        m.invokers.contains_key(uuid),
        m.binding(uuid).is_none(),
    ensures
        m.dispatch(uuid).next.consistent(),
{
    let n = m.dispatch(uuid).next;
    if m.connected && m.queue.len() > 0 {
        let head = m.queue[0].uuid;
        assert(m.queued_at(0, head));
        assert forall|i: int, u: u128| #[trigger] n.queued_at(i, u)
            implies m.queued_at(i + 1, u) by {}
        assert forall|k: u128, u: u128| #[trigger] n.bound_by(k, u) implies (if k == uuid {
            u == head
        } else {
            m.bound_by(k, u)
        }) by {}
        assert(n.bound_by(uuid, head));
        assert forall|u: u128| #[trigger] n.results.contains_key(u) implies n.is_queued(u)
            || n.is_bound(u) by {
            if u != head {
                if m.is_queued(u) {
                    let i = choose|i: int| m.queued_at(i, u);
                    assert(i != 0);
                    assert(n.queued_at(i - 1, u));
                } else {
                    assert(m.is_bound(u));
                    let k = choose|k: u128| m.bound_by(k, u);
                    assert(n.bound_by(k, u));
                }
            }
        }
        assert forall|i: int, u: u128| #[trigger] n.queued_at(i, u) implies n.results[u].len()
            == n.queue[i].tests_count by {
            assert(m.queued_at(i + 1, u));
        }
        assert forall|i: int, k: u128, u: u128| #[trigger] n.queued_at(i, u)
            implies !#[trigger] n.bound_by(k, u) by {
            assert(m.queued_at(i + 1, u));
            if n.bound_by(k, u) {
                if k == uuid {
                    assert(m.queued_at(0, u));
                } else {
                    assert(m.bound_by(k, u));
                }
            }
        }
        assert forall|k1: u128, k2: u128, u: u128|
            #[trigger] n.bound_by(k1, u) && #[trigger] n.bound_by(k2, u) implies k1 == k2 by {
            if k1 != k2 {
                if k1 == uuid {
                    assert(m.bound_by(k2, u));
                    assert(m.queued_at(0, u));
                } else if k2 == uuid {
                    assert(m.bound_by(k1, u));
                    assert(m.queued_at(0, u));
                } else {
                    assert(m.bound_by(k1, u) && m.bound_by(k2, u));
                }
            }
        }
        assert forall|i: int, j: int, u: u128|
            #[trigger] n.queued_at(i, u) && #[trigger] n.queued_at(j, u) implies i == j by {
            assert(m.queued_at(i + 1, u) && m.queued_at(j + 1, u));
        }
        assert forall|k: u128, u: u128| #[trigger] n.bound_by(k, u) implies n.results.contains_key(
            u,
        ) by {
            if k != uuid {
                assert(m.bound_by(k, u));
            }
        }
    }
}

/// Taking a bound submission's results away and idling its session keeps
/// the state consistent.
pub proof fn lemma_release_consistent(m: Broker, uuid: u128, s: u128)
    requires
        m.consistent(),
        m.binding(uuid) == Some(s),
    ensures
        (Broker { results: m.results.remove(s), ..m }).rebound(uuid, None).consistent(),
{
    let n = (Broker { results: m.results.remove(s), ..m }).rebound(uuid, None);
    assert(m.bound_by(uuid, s));
    assert forall|k: u128, u: u128| #[trigger] n.bound_by(k, u) implies m.bound_by(k, u) && k
        != uuid && u != s by {}
    assert forall|i: int, u: u128| #[trigger] n.queued_at(i, u) implies m.queued_at(i, u) && u
        != s by {
        assert(m.queued_at(i, u));
    }
    assert forall|u: u128| #[trigger] n.results.contains_key(u) implies n.is_queued(u)
        || n.is_bound(u) by {
        if m.is_queued(u) {
            let i = choose|i: int| m.queued_at(i, u);
            assert(n.queued_at(i, u));
        } else {
            assert(m.is_bound(u));
            let k = choose|k: u128| m.bound_by(k, u);
            assert(k != uuid);
            assert(n.bound_by(k, u));
        }
    }
    assert forall|i: int, k: u128, u: u128| #[trigger] n.queued_at(i, u)
        implies !#[trigger] n.bound_by(k, u) by {
        assert(m.queued_at(i, u));
        if n.bound_by(k, u) {
            assert(m.bound_by(k, u));
        }
    }
    assert forall|k1: u128, k2: u128, u: u128|
        #[trigger] n.bound_by(k1, u) && #[trigger] n.bound_by(k2, u) implies k1 == k2 by {
        assert(m.bound_by(k1, u) && m.bound_by(k2, u));
    }
    assert forall|i: int, j: int, u: u128|
        #[trigger] n.queued_at(i, u) && #[trigger] n.queued_at(j, u) implies i == j by {
        assert(m.queued_at(i, u) && m.queued_at(j, u));
    }
}

/// Giving up what a session is bound to keeps the state consistent.
pub proof fn lemma_finish_current_consistent(m: Broker, uuid: u128)
    requires
        m.consistent(),
    ensures
        m.finish_current(uuid).next.consistent(),
        m.finish_current(uuid).next.binding(uuid).is_none(),
        m.finish_current(uuid).next.invokers.dom() =~= m.invokers.dom(),
{
    match m.binding(uuid) {
        Some(s) => {
            lemma_release_consistent(m, uuid, s);
        },
        None => {},
    }
}

/// Ending a session keeps the state consistent.
pub proof fn lemma_close_consistent(m: Broker, uuid: u128)
    requires
        m.consistent(),
    ensures
        m.close(uuid).next.consistent(),
        !m.close(uuid).next.invokers.contains_key(uuid),
{
    lemma_finish_current_consistent(m, uuid);
    let f = m.finish_current(uuid).next;
    let n = m.close(uuid).next;
    assert forall|k: u128, u: u128| #[trigger] n.bound_by(k, u) implies f.bound_by(k, u) by {}
    assert forall|i: int, u: u128| #[trigger] n.queued_at(i, u) implies f.queued_at(i, u) by {}
    assert forall|u: u128| #[trigger] n.results.contains_key(u) implies n.is_queued(u)
        || n.is_bound(u) by {
        if f.is_queued(u) {
            let i = choose|i: int| f.queued_at(i, u);
            assert(n.queued_at(i, u));
        } else {
            assert(f.is_bound(u));
            let k = choose|k: u128| f.bound_by(k, u);
            assert(n.bound_by(k, u));
        }
    }
    assert forall|i: int, k: u128, u: u128| #[trigger] n.queued_at(i, u)
        implies !#[trigger] n.bound_by(k, u) by {
        assert(f.queued_at(i, u));
        if n.bound_by(k, u) {
            assert(f.bound_by(k, u));
        }
    }
    assert forall|k1: u128, k2: u128, u: u128|
        #[trigger] n.bound_by(k1, u) && #[trigger] n.bound_by(k2, u) implies k1 == k2 by {
        assert(f.bound_by(k1, u) && f.bound_by(k2, u));
    }
    assert forall|i: int, j: int, u: u128|
        #[trigger] n.queued_at(i, u) && #[trigger] n.queued_at(j, u) implies i == j by {
        assert(f.queued_at(i, u) && f.queued_at(j, u));
    }
}

/// Nothing is wrong with the broker at start.
pub proof fn lemma_fresh_consistent(connected: bool)
    ensures
        Broker::fresh(connected).consistent(),
{
}

/// Entering a session into the registry keeps the state consistent.
pub proof fn lemma_register_consistent(m: Broker, uuid: u128, key: Seq<char>)
    requires
        m.consistent(),
    ensures
        m.register(uuid, key).next.consistent(),
{
    lemma_close_consistent(m, uuid);
    let c = m.close(uuid).next;
    let e = Broker {
        invokers: c.invokers.insert(uuid, InvokerView { key, submission_uuid: None }),
        ..c
    };
    assert forall|k: u128, u: u128| #[trigger] e.bound_by(k, u) implies c.bound_by(k, u) by {}
    assert forall|i: int, u: u128| #[trigger] e.queued_at(i, u) implies c.queued_at(i, u) by {}
    assert forall|u: u128| #[trigger] e.results.contains_key(u) implies e.is_queued(u)
        || e.is_bound(u) by {
        if c.is_queued(u) {
            let i = choose|i: int| c.queued_at(i, u);
            assert(e.queued_at(i, u));
        } else {
            assert(c.is_bound(u));
            let k = choose|k: u128| c.bound_by(k, u);
            assert(e.bound_by(k, u));
        }
    }
    assert forall|i: int, k: u128, u: u128| #[trigger] e.queued_at(i, u)
        implies !#[trigger] e.bound_by(k, u) by {
        assert(c.queued_at(i, u));
        if e.bound_by(k, u) {
            assert(c.bound_by(k, u));
        }
    }
    assert forall|k1: u128, k2: u128, u: u128|
        #[trigger] e.bound_by(k1, u) && #[trigger] e.bound_by(k2, u) implies k1 == k2 by {
        assert(c.bound_by(k1, u) && c.bound_by(k2, u));
    }
    assert forall|i: int, j: int, u: u128|
        #[trigger] e.queued_at(i, u) && #[trigger] e.queued_at(j, u) implies i == j by {
        assert(c.queued_at(i, u) && c.queued_at(j, u));
    }
    assert(e.consistent());
    lemma_dispatch_consistent(e, uuid);
}

/// Taking in a submission keeps the state consistent, provided that no
/// submission with its uuid is queued or bound.
pub proof fn lemma_submit_consistent(m: Broker, submission: SubmissionView)
    requires
        m.consistent(),
        !m.results.contains_key(submission.uuid),
    ensures
        m.submit(submission).next.consistent(),
{
    let n = m.submit(submission).next;
    let s = submission.uuid;
    assert forall|i: int| !m.queued_at(i, s) by {}
    assert forall|k: u128| !m.bound_by(k, s) by {}
    if m.queue.len() < MAX_SUBMISSIONS_COUNT {
        let last = m.queue.len() as int;
        assert(n.queued_at(last, s));
        assert forall|i: int, u: u128| #[trigger] n.queued_at(i, u) implies (if i == last {
            u == s
        } else {
            m.queued_at(i, u)
        }) by {}
        assert forall|k: u128, u: u128| #[trigger] n.bound_by(k, u) implies m.bound_by(k, u) by {}
        assert forall|u: u128| #[trigger] n.results.contains_key(u) implies n.is_queued(u)
            || n.is_bound(u) by {
            if u != s {
                if m.is_queued(u) {
                    let i = choose|i: int| m.queued_at(i, u);
                    assert(n.queued_at(i, u));
                } else {
                    assert(m.is_bound(u));
                    let k = choose|k: u128| m.bound_by(k, u);
                    assert(n.bound_by(k, u));
                }
            }
        }
        assert forall|i: int, k: u128, u: u128| #[trigger] n.queued_at(i, u)
            implies !#[trigger] n.bound_by(k, u) by {
            if n.bound_by(k, u) {
                assert(m.bound_by(k, u));
                if i != last {
                    assert(m.queued_at(i, u));
                }
            }
        }
        assert forall|k1: u128, k2: u128, u: u128|
            #[trigger] n.bound_by(k1, u) && #[trigger] n.bound_by(k2, u) implies k1 == k2 by {
            assert(m.bound_by(k1, u) && m.bound_by(k2, u));
        }
        assert forall|i: int, j: int, u: u128|
            #[trigger] n.queued_at(i, u) && #[trigger] n.queued_at(j, u) implies i == j by {
            if i != last {
                assert(m.queued_at(i, u));
            }
            if j != last {
                assert(m.queued_at(j, u));
            }
        }
        assert forall|i: int, u: u128| #[trigger] n.queued_at(i, u) implies n.results[u].len()
            == n.queue[i].tests_count by {
            if i != last {
                assert(m.queued_at(i, u));
            }
        }
        assert forall|i: int, u: u128| #[trigger] n.queued_at(i, u) implies n.results.contains_key(
            u,
        ) by {
            if i != last {
                assert(m.queued_at(i, u));
            }
        }
        assert forall|k: u128, u: u128| #[trigger] n.bound_by(k, u) implies n.results.contains_key(
            u,
        ) by {
            assert(m.bound_by(k, u));
        }
    } else {
        assert(n.results =~= m.results);
        assert(n == m);
    }
}

/// Recording the result of a test keeps the state consistent.
pub proof fn lemma_on_test_consistent(
    m: Broker,
    uuid: u128,
    result: TestResultView,
    test: u16,
    data: Seq<u8>,
)
    requires
        m.consistent(),
    ensures
        m.on_test(uuid, result, test, data).next.consistent(),
{
    let n = m.on_test(uuid, result, test, data).next;
    match m.binding(uuid) {
        Some(s) => {
            if m.names_test(s, test) {
                assert(m.bound_by(uuid, s));
                assert forall|k: u128, u: u128| #[trigger] n.bound_by(k, u) implies m.bound_by(
                    k,
                    u,
                ) by {}
                assert forall|i: int, u: u128| #[trigger] n.queued_at(i, u) implies m.queued_at(
                    i,
                    u,
                ) by {}
                assert forall|u: u128| #[trigger] n.results.contains_key(u) implies n.is_queued(u)
                    || n.is_bound(u) by {
                    if u == s {
                        assert(n.bound_by(uuid, s));
                    } else if m.is_queued(u) {
                        let i = choose|i: int| m.queued_at(i, u);
                        assert(n.queued_at(i, u));
                    } else {
                        assert(m.is_bound(u));
                        let k = choose|k: u128| m.bound_by(k, u);
                        assert(n.bound_by(k, u));
                    }
                }
                assert forall|i: int, k: u128, u: u128| #[trigger] n.queued_at(i, u)
                    implies !#[trigger] n.bound_by(k, u) by {
                    assert(m.queued_at(i, u));
                    if n.bound_by(k, u) {
                        assert(m.bound_by(k, u));
                    }
                }
                assert forall|k1: u128, k2: u128, u: u128|
                    #[trigger] n.bound_by(k1, u) && #[trigger] n.bound_by(k2, u) implies k1
                    == k2 by {
                    assert(m.bound_by(k1, u) && m.bound_by(k2, u));
                }
                assert forall|i: int, j: int, u: u128|
                    #[trigger] n.queued_at(i, u) && #[trigger] n.queued_at(j, u) implies i == j by {
                    assert(m.queued_at(i, u) && m.queued_at(j, u));
                }
                assert forall|i: int, u: u128| #[trigger] n.queued_at(i, u)
                    implies n.results[u].len()
                    == n.queue[i].tests_count by {
                    assert(m.queued_at(i, u));
                }
            }
        },
        None => {},
    }
}

/// Passing on a final verdict keeps the state consistent.
pub proof fn lemma_on_verdict_consistent(
    m: Broker,
    uuid: u128,
    verdict: Verdict,
    message: SummaryView,
)
    requires
        m.consistent(),
    ensures
        m.on_verdict(uuid, verdict, message).next.consistent(),
{
    match m.binding(uuid) {
        Some(s) => {
            lemma_release_consistent(m, uuid, s);
            let idle = (Broker { results: m.results.remove(s), ..m }).rebound(uuid, None);
            lemma_dispatch_consistent(idle, uuid);
        },
        None => {},
    }
}

/// Whether an event brings a submission whose uuid is in use.
pub open spec fn reuses_uuid(m: Broker, event: Event) -> bool {
    match event {
        Event::Submitted { submission } => m.results.contains_key(submission.uuid),
        _ => false,
    }
}

/// Every step keeps the state consistent, provided that it brings no
/// submission whose uuid is in use.
pub proof fn lemma_step_consistent(m: Broker, event: Event)
    requires
        m.consistent(),
        !reuses_uuid(m, event),
    ensures
        m.step(event).next.consistent(),
{
    match event {
        Event::Connected => {
            lemma_flag_consistent(m, true);
        },
        Event::Disconnected => {
            lemma_flag_consistent(m, false);
        },
        Event::Submitted { submission } => {
            lemma_submit_consistent(m, submission);
        },
        Event::Registered { uuid, key } => {
            lemma_register_consistent(m, uuid, key);
        },
        Event::Polled { uuid } => {
            if m.invokers.contains_key(uuid) && m.binding(uuid).is_none() {
                lemma_dispatch_consistent(m, uuid);
            }
        },
        Event::Received { uuid, frame } => {
            match frame {
                InputMessageView::Exited { .. } => {
                    lemma_close_consistent(m, uuid);
                },
                InputMessageView::Verdict { verdict, message } => {
                    lemma_on_verdict_consistent(m, uuid, verdict, message);
                },
                InputMessageView::TestVerdict { result, test, data } => {
                    lemma_on_test_consistent(m, uuid, result, test, data);
                },
                _ => {},
            }
        },
        Event::Abandoned { uuid } => {
            lemma_finish_current_consistent(m, uuid);
        },
        Event::Closed { uuid } => {
            lemma_close_consistent(m, uuid);
        },
    }
}

/// The state of the link has no part in consistency.
pub proof fn lemma_flag_consistent(m: Broker, connected: bool)
    requires
        m.consistent(),
    ensures
        (Broker { connected, ..m }).consistent(),
{
    let n = Broker { connected, ..m };
    assert forall|k: u128, u: u128| #[trigger] n.bound_by(k, u) implies m.bound_by(k, u) by {}
    assert forall|i: int, u: u128| #[trigger] n.queued_at(i, u) implies m.queued_at(i, u) by {}
    assert forall|u: u128| #[trigger] n.results.contains_key(u) implies n.is_queued(u)
        || n.is_bound(u) by {
        if m.is_queued(u) {
            let i = choose|i: int| m.queued_at(i, u);
            assert(n.queued_at(i, u));
        } else {
            assert(m.is_bound(u));
            let k = choose|k: u128| m.bound_by(k, u);
            assert(n.bound_by(k, u));
        }
    }
    assert forall|i: int, k: u128, u: u128| #[trigger] n.queued_at(i, u)
        implies !#[trigger] n.bound_by(k, u) by {
        assert(m.queued_at(i, u));
        if n.bound_by(k, u) {
            assert(m.bound_by(k, u));
        }
    }
    assert forall|k1: u128, k2: u128, u: u128|
        #[trigger] n.bound_by(k1, u) && #[trigger] n.bound_by(k2, u) implies k1 == k2 by {
        assert(m.bound_by(k1, u) && m.bound_by(k2, u));
    }
    assert forall|i: int, j: int, u: u128|
        #[trigger] n.queued_at(i, u) && #[trigger] n.queued_at(j, u) implies i == j by {
        assert(m.queued_at(i, u) && m.queued_at(j, u));
    }
}

/// Whether a frame is the final verdict of submission `u`.
pub open spec fn is_verdict_for(frame: OutputMessageView, u: u128) -> bool {
    match frame {
        OutputMessageView::SubmissionVerdict { submission_uuid, .. } => submission_uuid == u,
        _ => false,
    }
}

/// How many final verdicts of submission `u` there are among `frames`.
pub open spec fn verdicts_for(frames: Seq<OutputMessageView>, u: u128) -> nat
    decreases frames.len(),
{
    if frames.len() == 0 {
        0
    } else {
        verdicts_for(frames.drop_last(), u) + if is_verdict_for(frames.last(), u) {
            1nat
        } else {
            0nat
        }
    }
}

/// Whether an event hands in a submission with uuid `u`.
pub open spec fn is_submission_of(event: Event, u: u128) -> bool {
    match event {
        Event::Submitted { submission } => submission.uuid == u,
        _ => false,
    }
}

/// How often a submission with uuid `u` is handed in during `events`.
pub open spec fn submissions_of(events: Seq<Event>, u: u128) -> nat
    decreases events.len(),
{
    if events.len() == 0 {
        0
    } else {
        submissions_of(events.drop_last(), u) + if is_submission_of(events.last(), u) {
            1nat
        } else {
            0nat
        }
    }
}

/// The state that `events` lead to from `m`.
pub open spec fn run(m: Broker, events: Seq<Event>) -> Broker
    decreases events.len(),
{
    if events.len() == 0 {
        m
    } else {
        run(m, events.drop_last()).step(events.last()).next
    }
}

/// The frames owed to the testing system in the course of `events`, in order.
pub open spec fn emitted(m: Broker, events: Seq<Event>) -> Seq<OutputMessageView>
    decreases events.len(),
{
    if events.len() == 0 {
        Seq::empty()
    } else {
        emitted(m, events.drop_last()) + run(m, events.drop_last()).step(
            events.last(),
        ).effects.upstream
    }
}

/// No event of the run brings a submission whose uuid is in use at that point.
pub open spec fn well_behaved(m: Broker, events: Seq<Event>) -> bool
    decreases events.len(),
{
    events.len() == 0 || (well_behaved(m, events.drop_last()) && !reuses_uuid(
        run(m, events.drop_last()),
        events.last(),
    ))
}

/// The link to the testing system is never lost during `events`.
pub open spec fn link_stays_up(events: Seq<Event>) -> bool {
    forall|i: int| 0 <= i < events.len() ==> events[i] != Event::Disconnected
}

/// One if results are allocated for `u`, else zero.
pub open spec fn in_flight(m: Broker, u: u128) -> nat {
    if m.results.contains_key(u) {
        1
    } else {
        0
    }
}

/// The verdicts among two runs of frames are those among the one and those
/// among the other.
pub proof fn lemma_verdicts_for_concat(
    a: Seq<OutputMessageView>,
    b: Seq<OutputMessageView>,
    u: u128,
)
    ensures
        verdicts_for(a + b, u) == verdicts_for(a, u) + verdicts_for(b, u),
    decreases b.len(),
{
    if b.len() == 0 {
        assert(a + b =~= a);
    } else {
        assert((a + b).drop_last() =~= a + b.drop_last());
        lemma_verdicts_for_concat(a, b.drop_last(), u);
    }
}

/// One frame holds one verdict for `u` or none.
pub proof fn lemma_verdicts_for_one(frame: OutputMessageView, u: u128)
    ensures
        verdicts_for(seq![frame], u) == if is_verdict_for(frame, u) {
            1nat
        } else {
            0nat
        },
{
    reveal_with_fuel(verdicts_for, 2);
    assert(seq![frame].drop_last() =~= Seq::<OutputMessageView>::empty());
}

/// What one step does to one submission: it owes at most one final verdict
/// for it; it owes one only as the submission's results leave the broker;
/// results enter the broker only as the submission is handed in; and while
/// the link is up, a verdict is owed whenever the results leave.
pub proof fn lemma_step_verdicts(m: Broker, event: Event, u: u128)
    requires
        m.consistent(),
        !reuses_uuid(m, event),
    ensures
        ({
            let step = m.step(event);
            let owed = verdicts_for(step.effects.upstream, u);
            let before = in_flight(m, u) + if is_submission_of(event, u) {
                1nat
            } else {
                0nat
            };
            &&& owed + in_flight(step.next, u) <= before
            &&& m.connected ==> owed + in_flight(step.next, u) == before
        }),
{
    let step = m.step(event);
    match event {
        Event::Submitted { submission } => {
            if m.queue.len() >= MAX_SUBMISSIONS_COUNT {
                assert(step.next.results =~= m.results);
                lemma_verdicts_for_one(
                    crate::model::failure(
                        submission.uuid,
                        Seq::empty(),
                        crate::model::queue_full(),
                    ),
                    u,
                );
            }
        },
        Event::Registered { uuid, key } => {
            lemma_close_verdicts(m, uuid, u);
        },
        Event::Received { uuid, frame } => {
            match frame {
                InputMessageView::Exited { .. } => {
                    lemma_close_verdicts(m, uuid, u);
                },
                InputMessageView::Verdict { verdict, message } => {
                    match m.binding(uuid) {
                        Some(s) => {
                            assert(m.bound_by(uuid, s));
                            lemma_verdicts_for_one(
                                OutputMessageView::SubmissionVerdict {
                                    submission_uuid: s,
                                    verdict,
                                    tests_result: m.results_of(s),
                                    message,
                                },
                                u,
                            );
                        },
                        None => {},
                    }
                },
                InputMessageView::TestVerdict { result, test, data } => {
                    match m.binding(uuid) {
                        Some(s) => {
                            if m.names_test(s, test) {
                                lemma_verdicts_for_one(
                                    OutputMessageView::TestVerdict {
                                        submission_uuid: s,
                                        test,
                                        result,
                                        data,
                                    },
                                    u,
                                );
                            }
                        },
                        None => {},
                    }
                },
                _ => {},
            }
        },
        Event::Abandoned { uuid } => {
            lemma_close_verdicts(m, uuid, u);
        },
        Event::Closed { uuid } => {
            lemma_close_verdicts(m, uuid, u);
        },
        _ => {},
    }
}

/// `lemma_step_verdicts` for a session that gives up what it is bound to,
/// and for the end of a session.
pub proof fn lemma_close_verdicts(m: Broker, uuid: u128, u: u128)
    requires
        m.consistent(),
    ensures
        ({
            let step = m.close(uuid);
            let owed = verdicts_for(step.effects.upstream, u);
            &&& owed + in_flight(step.next, u) <= in_flight(m, u)
            &&& m.connected ==> owed + in_flight(step.next, u) == in_flight(m, u)
        }),
        ({
            let step = m.finish_current(uuid);
            let owed = verdicts_for(step.effects.upstream, u);
            &&& owed + in_flight(step.next, u) <= in_flight(m, u)
            &&& m.connected ==> owed + in_flight(step.next, u) == in_flight(m, u)
        }),
{
    match m.binding(uuid) {
        Some(s) => {
            assert(m.bound_by(uuid, s));
            lemma_verdicts_for_one(
                crate::model::failure(s, m.results_of(s), crate::model::invoker_disconnected()),
                u,
            );
        },
        None => {},
    }
}

/// A run that reuses no uuid in use leads from a consistent state to
/// consistent states only. In a consistent state a session's binding has
/// results, and no two sessions are bound to one submission.
pub proof fn lemma_run_consistent(m: Broker, events: Seq<Event>)
    requires
        m.consistent(),
        well_behaved(m, events),
    ensures
        run(m, events).consistent(),
    decreases events.len(),
{
    if events.len() > 0 {
        lemma_run_consistent(m, events.drop_last());
        lemma_step_consistent(run(m, events.drop_last()), events.last());
    }
}

/// Across a run, a submission gets at most one final verdict each time it is
/// handed in: the verdicts owed for a uuid, and one more while results are
/// allocated for it, never exceed the times it was handed in, and one more
/// if results were allocated for it at the start.
pub proof fn lemma_at_most_one_verdict(m: Broker, events: Seq<Event>, u: u128)
    requires
        m.consistent(),
        well_behaved(m, events),
    ensures
        verdicts_for(emitted(m, events), u) + in_flight(run(m, events), u) <= in_flight(m, u)
            + submissions_of(events, u),
    decreases events.len(),
{
    if events.len() > 0 {
        let before = run(m, events.drop_last());
        lemma_at_most_one_verdict(m, events.drop_last(), u);
        lemma_run_consistent(m, events.drop_last());
        lemma_step_verdicts(before, events.last(), u);
        lemma_verdicts_for_concat(
            emitted(m, events.drop_last()),
            before.step(events.last()).effects.upstream,
            u,
        );
    }
}

/// While the link stays up, every step leaves the link up.
pub proof fn lemma_run_connected(m: Broker, events: Seq<Event>)
    requires
        m.connected,
        link_stays_up(events),
    ensures
        run(m, events).connected,
    decreases events.len(),
{
    if events.len() > 0 {
        lemma_link_stays_up_before(events);
        lemma_run_connected(m, events.drop_last());
        let event = events.last();
        assert(event == events[events.len() - 1]);
        assert(event != Event::Disconnected);
    }
}

/// A link that stays up during a run stays up during all of it but the last
/// event.
pub proof fn lemma_link_stays_up_before(events: Seq<Event>)
    requires
        events.len() > 0,
        link_stays_up(events),
    ensures
        link_stays_up(events.drop_last()),
{
    assert forall|i: int| 0 <= i < events.drop_last().len() implies events.drop_last()[i]
        != Event::Disconnected by {
        assert(events.drop_last()[i] == events[i]);
    }
}

/// While the link stays up, every submission handed in is accounted for:
/// either results are still allocated for it, and it is then queued or
/// bound, or exactly one final verdict was owed for it.
pub proof fn lemma_exactly_one_verdict(m: Broker, events: Seq<Event>, u: u128)
    requires
        m.consistent(),
        m.connected,
        well_behaved(m, events),
        link_stays_up(events),
    ensures
        verdicts_for(emitted(m, events), u) + in_flight(run(m, events), u) == in_flight(m, u)
            + submissions_of(events, u),
        run(m, events).results.contains_key(u) ==> run(m, events).is_queued(u) || run(
            m,
            events,
        ).is_bound(u),
    decreases events.len(),
{
    lemma_run_consistent(m, events);
    if events.len() > 0 {
        let before = run(m, events.drop_last());
        lemma_link_stays_up_before(events);
        lemma_exactly_one_verdict(m, events.drop_last(), u);
        lemma_run_consistent(m, events.drop_last());
        lemma_run_connected(m, events.drop_last());
        lemma_step_verdicts(before, events.last(), u);
        lemma_verdicts_for_concat(
            emitted(m, events.drop_last()),
            before.step(events.last()).effects.upstream,
            u,
        );
    }
}

/// In a consistent state, the submission bound to a session has results
/// allocated, and no other live session is bound to it.
pub proof fn lemma_binding_exclusive(m: Broker, k: u128, u: u128)
    requires
        m.consistent(),
        m.invokers.contains_key(k),
        m.invokers[k].submission_uuid == Some(u),
    ensures
        m.results.contains_key(u),
        forall|other: u128|
            other != k && #[trigger] m.invokers.contains_key(other)
                ==> m.invokers[other].submission_uuid != Some(u),
{
    assert(m.bound_by(k, u));
    assert forall|other: u128| other != k && #[trigger] m.invokers.contains_key(other) implies
        m.invokers[other].submission_uuid != Some(u) by {
        if m.invokers[other].submission_uuid == Some(u) {
            assert(m.bound_by(other, u));
        }
    }
}

/// A report on a test that the bound submission has is stored at the test's
/// place, leaves the other results as they were, and, while the link is up,
/// is passed on to the testing system as it came.
pub proof fn lemma_test_recorded(
    m: Broker,
    uuid: u128,
    s: u128,
    result: TestResultView,
    test: u16,
    data: Seq<u8>,
)
    requires
        m.binding(uuid) == Some(s),
        m.names_test(s, test),
    ensures
        ({
            let step = m.receive(uuid, InputMessageView::TestVerdict { result, test, data });
            &&& step.next.results.contains_key(s)
            &&& step.next.results[s] == m.results[s].update(test - 1, result)
            &&& step.next.results[s][test - 1] == result
            &&& m.connected ==> step.effects.upstream == seq![
                OutputMessageView::TestVerdict { submission_uuid: s, test, result, data },
            ]
        }),
{
}

/// The results kept for a submission number as many from the step that
/// allocates them to the step that takes them away: one per test of the
/// submission.
pub proof fn lemma_results_length_kept(m: Broker, event: Event, u: u128)
    requires
        m.consistent(),
        !reuses_uuid(m, event),
    ensures
        m.results.contains_key(u) && m.step(event).next.results.contains_key(u) ==> m.step(
            event,
        ).next.results[u].len() == m.results[u].len(),
        !m.results.contains_key(u) && m.step(event).next.results.contains_key(u) ==> (
        event matches Event::Submitted { submission } && submission.uuid == u && m.step(
            event,
        ).next.results[u].len() == submission.tests_count),
{
}

/// The queue is first in, first out: a step leaves it alone, or adds the
/// submission handed in at its back, or takes the submission at its front
/// and starts a session on it.
pub proof fn lemma_queue_fifo(m: Broker, event: Event)
    ensures
        ({
            let step = m.step(event);
            ||| step.next.queue == m.queue && step.effects.downstream.is_none()
            ||| event matches Event::Submitted { submission } && step.next.queue == m.queue.push(
                submission,
            ) && step.effects.downstream.is_none()
            ||| m.queue.len() > 0 && step.next.queue == m.queue.drop_first()
                && step.effects.downstream == Some(
                crate::invoker::gateway::OutputMessageView::TestSubmission {
                    submission: m.queue[0],
                },
            ) && exists|k: u128| step.next.bound_by(k, m.queue[0].uuid)
        }),
{
    let step = m.step(event);
    match event {
        Event::Registered { uuid, key } => {
            if step.effects.downstream.is_some() {
                assert(step.next.bound_by(uuid, m.queue[0].uuid));
            }
        },
        Event::Polled { uuid } => {
            if step.effects.downstream.is_some() {
                assert(step.next.bound_by(uuid, m.queue[0].uuid));
            }
        },
        Event::Received { uuid, frame } => {
            if step.effects.downstream.is_some() {
                assert(step.next.bound_by(uuid, m.queue[0].uuid));
            }
        },
        _ => {},
    }
}

/// While the link is up, a session leaves the submission it is bound to
/// only in a step that owes the final verdict of that submission: a session
/// is never bound to the next submission before the verdict of the one
/// before is owed.
pub proof fn lemma_rebinding_owes_verdict(m: Broker, event: Event, k: u128, a: u128)
    requires
        m.consistent(),
        m.connected,
        m.bound_by(k, a),
        !m.step(event).next.bound_by(k, a),
    ensures
        verdicts_for(m.step(event).effects.upstream, a) == 1,
{
    match event {
        Event::Registered { uuid, key } => {
            lemma_close_verdicts(m, uuid, a);
            if uuid == k {
                lemma_verdicts_for_one(
                    crate::model::failure(a, m.results_of(a), crate::model::invoker_disconnected()),
                    a,
                );
            } else {
                assert(m.register(uuid, key).next.bound_by(k, a));
            }
        },
        Event::Received { uuid, frame } => {
            match frame {
                InputMessageView::Exited { .. } => {
                    if uuid == k {
                        lemma_verdicts_for_one(
                            crate::model::failure(
                                a,
                                m.results_of(a),
                                crate::model::invoker_disconnected(),
                            ),
                            a,
                        );
                    }
                },
                InputMessageView::Verdict { verdict, message } => {
                    if uuid == k {
                        lemma_verdicts_for_one(
                            OutputMessageView::SubmissionVerdict {
                                submission_uuid: a,
                                verdict,
                                tests_result: m.results_of(a),
                                message,
                            },
                            a,
                        );
                    } else {
                        assert(m.on_verdict(uuid, verdict, message).next.bound_by(k, a));
                    }
                },
                _ => {},
            }
        },
        Event::Abandoned { uuid } => {
            if uuid == k {
                lemma_verdicts_for_one(
                    crate::model::failure(a, m.results_of(a), crate::model::invoker_disconnected()),
                    a,
                );
            }
        },
        Event::Closed { uuid } => {
            if uuid == k {
                lemma_verdicts_for_one(
                    crate::model::failure(a, m.results_of(a), crate::model::invoker_disconnected()),
                    a,
                );
            }
        },
        _ => {},
    }
}

/// The submissions that a run takes into the queue, in the order in which
/// they were handed in.
pub open spec fn accepted(m: Broker, events: Seq<Event>) -> Seq<SubmissionView>
    decreases events.len(),
{
    if events.len() == 0 {
        m.queue
    } else {
        let before = run(m, events.drop_last());
        match events.last() {
            Event::Submitted { submission } => if before.queue.len() < MAX_SUBMISSIONS_COUNT {
                accepted(m, events.drop_last()).push(submission)
            } else {
                accepted(m, events.drop_last())
            },
            _ => accepted(m, events.drop_last()),
        }
    }
}

/// The submissions that a run starts a session on, in the order in which
/// the sessions were started.
pub open spec fn started(m: Broker, events: Seq<Event>) -> Seq<SubmissionView>
    decreases events.len(),
{
    if events.len() == 0 {
        Seq::empty()
    } else {
        let before = run(m, events.drop_last());
        match before.step(events.last()).effects.downstream {
            Some(
                crate::invoker::gateway::OutputMessageView::TestSubmission { submission },
            ) => started(m, events.drop_last()).push(submission),
            _ => started(m, events.drop_last()),
        }
    }
}

/// Submissions are started in the order in which they were taken in: at
/// every point of a run, those started and those that wait, in this order,
/// are those accepted.
pub proof fn lemma_started_in_order(m: Broker, events: Seq<Event>)
    ensures
        started(m, events) + run(m, events).queue == accepted(m, events),
    decreases events.len(),
{
    if events.len() == 0 {
        assert(started(m, events) + run(m, events).queue =~= accepted(m, events));
    } else {
        let before = run(m, events.drop_last());
        lemma_started_in_order(m, events.drop_last());
        lemma_queue_fifo(before, events.last());
        let step = before.step(events.last());
        if step.effects.downstream.is_some() {
            assert(seq![before.queue[0]] + before.queue.drop_first() =~= before.queue);
        }
        assert(started(m, events) + run(m, events).queue =~= accepted(m, events));
    }
}

/// Giving up what a session is bound to leaves the queue alone, so the
/// submission does not wait again, and to give up a second time changes
/// nothing and owes nothing.
pub proof fn lemma_finish_current_once(m: Broker, uuid: u128)
    ensures
        m.finish_current(uuid).next.queue == m.queue,
        m.finish_current(uuid).next.binding(uuid).is_none(),
        m.binding(uuid).is_some() ==> !m.finish_current(uuid).next.results.contains_key(
            m.binding(uuid).unwrap(),
        ),
        m.finish_current(uuid).next.finish_current(uuid).next == m.finish_current(uuid).next,
        m.finish_current(uuid).next.finish_current(uuid).effects == Effects::none(),
        m.connected && m.binding(uuid).is_some() ==> verdicts_for(
            m.finish_current(uuid).effects.upstream,
            m.binding(uuid).unwrap(),
        ) == 1,
{
    match m.binding(uuid) {
        Some(s) => {
            lemma_verdicts_for_one(
                crate::model::failure(s, m.results_of(s), crate::model::invoker_disconnected()),
                s,
            );
        },
        None => {},
    }
}

/// Whether no event of the run hands in a submission.
pub open spec fn brings_nothing(events: Seq<Event>) -> bool {
    forall|i: int| 0 <= i < events.len() ==> !((#[trigger] events[i]) is Submitted)
}

/// A run that hands in nothing reuses no uuid and hands in no uuid.
pub proof fn lemma_brings_nothing(m: Broker, events: Seq<Event>, u: u128)
    requires
        brings_nothing(events),
    ensures
        well_behaved(m, events),
        submissions_of(events, u) == 0,
    decreases events.len(),
{
    if events.len() > 0 {
        assert forall|i: int| 0 <= i < events.drop_last().len() implies !((
        #[trigger] events.drop_last()[i]) is Submitted) by {
            assert(events.drop_last()[i] == events[i]);
        }
        lemma_brings_nothing(m, events.drop_last(), u);
        assert(events.last() == events[events.len() - 1]);
    }
}

/// Whatever the sessions receive, poll for, give up or close on, in
/// whatever order, a submission in flight gets at most one final verdict.
/// Once it is owed the results of the submission are gone, and nothing that
/// comes later owes another.
pub proof fn lemma_frames_owe_one_verdict(m: Broker, events: Seq<Event>, u: u128)
    requires
        m.consistent(),
        brings_nothing(events),
    ensures
        verdicts_for(emitted(m, events), u) + in_flight(run(m, events), u) <= in_flight(m, u),
        verdicts_for(emitted(m, events), u) <= 1,
        verdicts_for(emitted(m, events), u) == 1 ==> !run(m, events).results.contains_key(u),
{
    lemma_brings_nothing(m, events, u);
    lemma_at_most_one_verdict(m, events, u);
}

/// From the start of the broker on, a submission whose uuid is handed in
/// once gets at most one final verdict, whatever else happens.
pub proof fn lemma_one_verdict_from_start(connected: bool, events: Seq<Event>, u: u128)
    requires
        well_behaved(Broker::fresh(connected), events),
        submissions_of(events, u) <= 1,
    ensures
        verdicts_for(emitted(Broker::fresh(connected), events), u) <= 1,
{
    lemma_fresh_consistent(connected);
    lemma_at_most_one_verdict(Broker::fresh(connected), events, u);
}

} // verus!
