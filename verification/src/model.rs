//! The broker as a mathematical state machine.
//!
//! The executable broker is specified by this model: every operation on
//! `Server` is stated as one step here, and the laws of the broker are proved
//! about these steps.

use vstd::prelude::*;
use crate::invoker::gateway::{InputMessageView, SummaryView};
use crate::submission::SubmissionView;
use crate::testing_system::gateway::OutputMessageView;
use crate::verdict::{TestResultView, Verdict};

verus! {

/// How many submissions the queue holds at most.
pub const MAX_SUBMISSIONS_COUNT: usize = 10000;

/// A live session: the key the invoker presented and the submission bound
/// to it, if any.
pub struct InvokerView {
    pub key: Seq<char>,
    pub submission_uuid: Option<u128>,
}

/// What a step hands to the outside: the frames owed to the testing system,
/// in order, and the frame owed to the invoker of the session concerned.
pub struct Effects {
    pub upstream: Seq<OutputMessageView>,
    pub downstream: Option<crate::invoker::gateway::OutputMessageView>,
}

/// The broker's state.
pub struct Broker {
    /// The registry: session uuid to session.
    pub invokers: Map<u128, InvokerView>,
    /// Submission uuid to the results of its tests so far.
    pub results: Map<u128, Seq<TestResultView>>,
    /// Submissions that wait for an invoker, oldest first.
    pub queue: Seq<SubmissionView>,
    /// Whether the link to the testing system is up.
    pub connected: bool,
}

/// A state together with what the step that led to it hands out.
pub struct Step {
    pub next: Broker,
    pub effects: Effects,
}

/// What can happen to the broker.
pub enum Event {
    /// The link to the testing system came up.
    Connected,
    /// The link to the testing system went down.
    Disconnected,
    /// The testing system sent a submission.
    Submitted { submission: SubmissionView },
    /// An invoker passed authentication.
    Registered { uuid: u128, key: Seq<char> },
    /// A session asked for work.
    Polled { uuid: u128 },
    /// A session's invoker sent a frame.
    Received { uuid: u128, frame: InputMessageView },
    /// A session gave up the submission it was bound to.
    Abandoned { uuid: u128 },
    /// A session's socket failed, or the operator deleted the session.
    Closed { uuid: u128 },
}

/// The message of the verdict made up for a submission whose invoker is gone.
pub open spec fn invoker_disconnected() -> Seq<char> {
    "invoker disconnected"@
}

/// The message of the verdict made up for a submission that found the queue full.
pub open spec fn queue_full() -> Seq<char> {
    "queue full"@
}

/// The verdict that the broker makes up for a submission that no invoker
/// will finish.
pub open spec fn failure(
    submission_uuid: u128,
    tests_result: Seq<TestResultView>,
    text: Seq<char>,
) -> OutputMessageView {
    OutputMessageView::SubmissionVerdict {
        submission_uuid,
        verdict: Verdict::TE,
        tests_result,
        message: Err(text),
    }
}

/// What a request is refused with where no session has the uuid.
pub open spec fn no_such_invoker(uuid: u128) -> Seq<char> {
    "Invoker "@ + crate::identifier::hyphenated(uuid) + " doesn't exist"@
}

/// What a busy session's request for work is refused with.
pub open spec fn already_bound() -> Seq<char> {
    "Invoker already has submission and can't take new one."@
}

/// What a request for work is refused with while the link is down.
pub open spec fn upstream_unavailable() -> Seq<char> {
    "upstream-unavailable"@
}

impl Effects {
    /// Nothing to send.
    pub open spec fn none() -> Effects {
        Effects { upstream: Seq::empty(), downstream: None }
    }
}

impl Broker {
    /// The broker at start: nothing registered, queued or allocated.
    pub open spec fn fresh(connected: bool) -> Broker {
        Broker { invokers: Map::empty(), results: Map::empty(), queue: Seq::empty(), connected }
    }

    /// The submission bound to a session, if the session is live and busy.
    pub open spec fn binding(self, uuid: u128) -> Option<u128> {
        if self.invokers.contains_key(uuid) {
            self.invokers[uuid].submission_uuid
        } else {
            None
        }
    }

    /// The results allocated for a submission, or none at all.
    pub open spec fn results_of(self, submission_uuid: u128) -> Seq<TestResultView> {
        if self.results.contains_key(submission_uuid) {
            self.results[submission_uuid]
        } else {
            Seq::empty()
        }
    }

    /// A frame for the testing system goes out only while the link is up.
    pub open spec fn notice(self, frame: OutputMessageView) -> Seq<OutputMessageView> {
        if self.connected {
            seq![frame]
        } else {
            Seq::empty()
        }
    }

    /// The state with one session's binding replaced.
    pub open spec fn rebound(self, uuid: u128, submission_uuid: Option<u128>) -> Broker {
        Broker {
            invokers: self.invokers.insert(
                uuid,
                InvokerView { key: self.invokers[uuid].key, submission_uuid },
            ),
            ..self
        }
    }

    /// Dispatch to an idle session: while the link is up, the oldest queued
    /// submission leaves the queue and is bound to the session.
    pub open spec fn dispatch(self, uuid: u128) -> Step {
        if self.connected && self.queue.len() > 0 {
            Step {
                next: Broker { queue: self.queue.drop_first(), ..self }.rebound(
                    uuid,
                    Some(self.queue[0].uuid),
                ),
                effects: Effects {
                    upstream: Seq::empty(),
                    downstream: Some(
                        crate::invoker::gateway::OutputMessageView::TestSubmission {
                            submission: self.queue[0],
                        },
                    ),
                },
            }
        } else {
            Step { next: self, effects: Effects::none() }
        }
    }

    /// Why a session's request for work is refused, where it is: no session
    /// has the uuid, the session is busy, or the link is down.
    pub open spec fn poll_refusal(self, uuid: u128) -> Option<Seq<char>> {
        if !self.invokers.contains_key(uuid) {
            Some(no_such_invoker(uuid))
        } else if self.binding(uuid).is_some() {
            Some(already_bound())
        } else if !self.connected {
            Some(upstream_unavailable())
        } else {
            None
        }
    }

    /// A session asks for work. Only a live, idle session is served.
    pub open spec fn poll(self, uuid: u128) -> Step {
        if self.invokers.contains_key(uuid) && self.binding(uuid).is_none() {
            self.dispatch(uuid)
        } else {
            Step { next: self, effects: Effects::none() }
        }
    }

    /// The submission bound to a session is given up: its results go, and a
    /// failure verdict is owed for it. The session stays, idle.
    pub open spec fn finish_current(self, uuid: u128) -> Step {
        match self.binding(uuid) {
            Some(s) => Step {
                next: Broker { results: self.results.remove(s), ..self }.rebound(uuid, None),
                effects: Effects {
                    upstream: self.notice(failure(s, self.results_of(s), invoker_disconnected())),
                    downstream: None,
                },
            },
            None => Step { next: self, effects: Effects::none() },
        }
    }

    /// A session ends: what it was bound to is given up, and it leaves the
    /// registry.
    pub open spec fn close(self, uuid: u128) -> Step {
        let finished = self.finish_current(uuid);
        Step {
            next: Broker { invokers: finished.next.invokers.remove(uuid), ..finished.next },
            effects: finished.effects,
        }
    }

    /// An authenticated invoker enters the registry under its uuid. A session
    /// that held the uuid before is ended first. The new session is served
    /// at once if work waits.
    pub open spec fn register(self, uuid: u128, key: Seq<char>) -> Step {
        let closed = self.close(uuid);
        let entered = Broker {
            invokers: closed.next.invokers.insert(
                uuid,
                InvokerView { key, submission_uuid: None },
            ),
            ..closed.next
        };
        let served = entered.dispatch(uuid);
        Step {
            next: served.next,
            effects: Effects {
                upstream: closed.effects.upstream,
                downstream: served.effects.downstream,
            },
        }
    }

    /// The testing system hands in a submission: results are allocated for
    /// it, one skipped result per test, and it joins the queue. Where the
    /// queue is full the allocation is undone and a failure verdict is owed.
    pub open spec fn submit(self, submission: SubmissionView) -> Step {
        let allocated = self.results.insert(
            submission.uuid,
            Seq::new(submission.tests_count as nat, |i: int| TestResultView::skipped()),
        );
        if self.queue.len() < MAX_SUBMISSIONS_COUNT {
            Step {
                next: Broker { results: allocated, queue: self.queue.push(submission), ..self },
                effects: Effects::none(),
            }
        } else {
            Step {
                next: Broker { results: allocated.remove(submission.uuid), ..self },
                effects: Effects {
                    upstream: self.notice(failure(submission.uuid, Seq::empty(), queue_full())),
                    downstream: None,
                },
            }
        }
    }

    /// Whether `test`, counted from one, names a test of the submission.
    pub open spec fn names_test(self, submission_uuid: u128, test: u16) -> bool {
        self.results.contains_key(submission_uuid) && 1 <= test
            <= self.results[submission_uuid].len()
    }

    /// A busy session reports one test: the result is stored and passed on.
    /// A report from an idle session, or for a test out of range, is dropped.
    pub open spec fn on_test(
        self,
        uuid: u128,
        result: TestResultView,
        test: u16,
        data: Seq<u8>,
    ) -> Step {
        match self.binding(uuid) {
            Some(s) => if self.names_test(s, test) {
                Step {
                    next: Broker {
                        results: self.results.insert(
                            s,
                            self.results[s].update(test - 1, result),
                        ),
                        ..self
                    },
                    effects: Effects {
                        upstream: self.notice(
                            OutputMessageView::TestVerdict {
                                submission_uuid: s,
                                test,
                                result,
                                data,
                            },
                        ),
                        downstream: None,
                    },
                }
            } else {
                Step { next: self, effects: Effects::none() }
            },
            None => Step { next: self, effects: Effects::none() },
        }
    }

    /// A busy session reports the final verdict, which goes out with all
    /// results. The results go, the session is idle again and is served at
    /// once if work waits. A verdict from an idle session is dropped.
    pub open spec fn on_verdict(self, uuid: u128, verdict: Verdict, message: SummaryView) -> Step {
        match self.binding(uuid) {
            Some(s) => {
                let idle = Broker { results: self.results.remove(s), ..self }.rebound(uuid, None);
                let served = idle.dispatch(uuid);
                Step {
                    next: served.next,
                    effects: Effects {
                        upstream: self.notice(
                            OutputMessageView::SubmissionVerdict {
                                submission_uuid: s,
                                verdict,
                                tests_result: self.results_of(s),
                                message,
                            },
                        ),
                        downstream: served.effects.downstream,
                    },
                }
            },
            None => Step { next: self, effects: Effects::none() },
        }
    }

    /// A session's invoker sent a frame.
    pub open spec fn receive(self, uuid: u128, frame: InputMessageView) -> Step {
        match frame {
            InputMessageView::Exited { .. } => self.close(uuid),
            InputMessageView::Verdict { verdict, message } => self.on_verdict(
                uuid,
                verdict,
                message,
            ),
            InputMessageView::TestVerdict { result, test, data } => self.on_test(
                uuid,
                result,
                test,
                data,
            ),
            _ => Step { next: self, effects: Effects::none() },
        }
    }

    /// One step of the broker.
    pub open spec fn step(self, event: Event) -> Step {
        match event {
            Event::Connected => Step {
                next: Broker { connected: true, ..self },
                effects: Effects::none(),
            },
            Event::Disconnected => Step {
                next: Broker { connected: false, ..self },
                effects: Effects::none(),
            },
            Event::Submitted { submission } => self.submit(submission),
            Event::Registered { uuid, key } => self.register(uuid, key),
            Event::Polled { uuid } => self.poll(uuid),
            Event::Received { uuid, frame } => self.receive(uuid, frame),
            Event::Abandoned { uuid } => self.finish_current(uuid),
            Event::Closed { uuid } => self.close(uuid),
        }
    }
}

} // verus!
