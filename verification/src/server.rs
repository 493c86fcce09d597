//! The broker's shared state.

use std::collections::HashMap;
use vstd::prelude::*;
use vstd::string::StringExecFns;
use crate::invoker::gateway::OutputMessage;
use crate::invoker::Invoker;
use crate::invokers_side::InvokersSide;
use crate::model::{Broker, Effects};
use crate::testing_system_side::TestingSystemSide;
use crate::verdict::{results_view, TestResult, Verdict};

verus! {

broadcast use vstd::std_specs::hash::group_hash_axioms;

/// What an operation on the broker hands to its caller to send: the frames
/// for the testing system, in order, and the frame for the invoker of the
/// session concerned.
#[derive(Debug, PartialEq, Eq)]
pub struct Outcome {
    pub upstream: Vec<crate::testing_system::gateway::OutputMessage>,
    pub downstream: Option<OutputMessage>,
}

/// The views of a run of frames for the testing system.
pub open spec fn frames_view(
    frames: Seq<crate::testing_system::gateway::OutputMessage>,
) -> Seq<crate::testing_system::gateway::OutputMessageView> {
    frames.map_values(|m: crate::testing_system::gateway::OutputMessage| m@)
}

/// The view of a frame for an invoker, where there is one.
pub open spec fn frame_view(frame: Option<OutputMessage>) -> Option<
    crate::invoker::gateway::OutputMessageView,
> {
    match frame {
        Some(m) => Some(m@),
        None => None,
    }
}

impl View for Outcome {
    type V = Effects;

    open spec fn view(&self) -> Effects {
        Effects { upstream: frames_view(self.upstream@), downstream: frame_view(self.downstream) }
    }
}

/// The broker: the registry of sessions, the queue of submissions that wait,
/// the results of the submissions in flight, and whether the testing system
/// is reachable.
pub struct Server {
    pub(crate) testing_system_side: TestingSystemSide,
    pub(crate) invokers_side: InvokersSide,
    pub(crate) tests_results: HashMap<u128, Vec<TestResult>>,
}

impl View for Server {
    type V = Broker;

    open(crate) spec fn view(&self) -> Broker {
        Broker {
            invokers: self.invokers_side.registry(),
            results: self.tests_results@.map_values(|v: Vec<TestResult>| results_view(v@)),
            queue: self.invokers_side.waiting(),
            connected: self.testing_system_side.linked(),
        }
    }
}

impl Server {
    /// A broker with nothing registered, queued or allocated, and no link to
    /// the testing system.
    pub fn new() -> (r: Server)
        ensures
            r@ == Broker::fresh(false),
    {
        let r = Server {
            testing_system_side: TestingSystemSide::new(),
            invokers_side: InvokersSide::new(),
            tests_results: HashMap::new(),
        };
        assert(r@.invokers =~= Map::empty());
        assert(r@.results =~= Map::empty());
        assert(r@.queue =~= Seq::empty());
        r
    }

    /// What the broker knows of the testing system.
    pub fn testing_system_side(&self) -> (r: &TestingSystemSide)
        ensures
            r.linked() == self@.connected,
    {
        &self.testing_system_side
    }

    /// The registry and the queue.
    pub fn invokers_side(&self) -> (r: &InvokersSide)
        ensures
            r.registry() == self@.invokers,
            r.waiting() == self@.queue,
    {
        &self.invokers_side
    }

    /// A copy of the results of every submission in flight.
    pub fn tests_results(&self) -> (r: HashMap<u128, Vec<TestResult>>)
        ensures
            r@.map_values(|v: Vec<TestResult>| results_view(v@)) == self@.results,
    {
        let mut out: HashMap<u128, Vec<TestResult>> = HashMap::new();
        for entry in it: self.tests_results.iter()
            invariant
                forall|k: u128| #[trigger]
                    out@.contains_key(k) ==> self.tests_results@.contains_key(k) && results_view(
                        out@[k]@,
                    ) == results_view(self.tests_results@[k]@),
                forall|i: int|
                    0 <= i < it.index() ==> out@.contains_key(*(#[trigger] it.seq()[i]).0),
        {
            let (uuid, results) = entry;
            out.insert(*uuid, crate::verdict::clone_results(results));
        }
        assert(out@.map_values(|v: Vec<TestResult>| results_view(v@)) =~= self@.results);
        out
    }

    /// The submission bound to a session; none for an idle or unknown session.
    pub(crate) fn binding(&self, uuid: u128) -> (r: Option<u128>)
        ensures
            r == self@.binding(uuid),
    {
        match self.invokers_side.invokers.get(&uuid) {
            Some(invoker) => invoker.get_submission_uuid(),
            None => None,
        }
    }

    /// Serves an idle session, as `Broker::dispatch` says.
    pub(crate) fn dispatch(&mut self, uuid: u128) -> (r: Option<OutputMessage>)
        requires
            old(self)@.invokers.contains_key(uuid),
        ensures
            final(self)@ == old(self)@.dispatch(uuid).next,
            frame_view(r) == old(self)@.dispatch(uuid).effects.downstream,
    {
        if !self.testing_system_side.connected || self.invokers_side.submissions_pool.len() == 0 {
            return None;
        }
        let taken = self.invokers_side.invokers.remove(&uuid);
        let mut invoker = taken.unwrap();
        let popped = self.invokers_side.submissions_pool.pop_front();
        let submission = popped.unwrap();
        let frame = Invoker::run_submission(&mut invoker, submission);
        self.invokers_side.invokers.insert(uuid, invoker);
        assert(self@.invokers =~= old(self)@.dispatch(uuid).next.invokers);
        assert(self@.queue =~= old(self)@.dispatch(uuid).next.queue);
        Some(frame)
    }

    /// Ends the work of session `uuid` on submission `s`: the results of `s`
    /// leave the broker and are handed back, and the session is idle.
    pub(crate) fn release(&mut self, uuid: u128, s: u128) -> (r: Vec<TestResult>)
        requires
            old(self)@.binding(uuid) == Some(s),
        ensures
            final(self)@ == (Broker {
                results: old(self)@.results.remove(s),
                ..old(self)@
            }).rebound(uuid, None),
            results_view(r@) == old(self)@.results_of(s),
    {
        let tests_result = match self.tests_results.remove(&s) {
            Some(v) => v,
            None => Vec::new(),
        };
        let taken = self.invokers_side.invokers.remove(&uuid);
        let mut invoker = taken.unwrap();
        invoker.unbind();
        self.invokers_side.invokers.insert(uuid, invoker);
        assert(results_view(tests_result@) =~= old(self)@.results_of(s));
        assert(self@.invokers =~= old(self)@.rebound(uuid, None).invokers);
        assert(self@.results =~= old(self)@.results.remove(s));
        tests_result
    }

    /// Gives up what a session is bound to, as `Broker::finish_current` says.
    pub(crate) fn finish_current(&mut self, uuid: u128) -> (r: Vec<
        crate::testing_system::gateway::OutputMessage,
    >)
        ensures
            final(self)@ == old(self)@.finish_current(uuid).next,
            frames_view(r@) == old(self)@.finish_current(uuid).effects.upstream,
    {
        let mut out: Vec<crate::testing_system::gateway::OutputMessage> = Vec::new();
        let bound = self.binding(uuid);
        match bound {
            Some(s) => {
                let tests_result = self.release(uuid, s);
                if self.testing_system_side.connected {
                    out.push(
                        crate::testing_system::gateway::OutputMessage::SubmissionVerdict {
                            submission_uuid: s,
                            verdict: Verdict::TE,
                            tests_result,
                            message: Err(String::from_str("invoker disconnected")),
                        },
                    );
                }
                assert(frames_view(out@) =~= old(self)@.finish_current(uuid).effects.upstream);
            },
            None => {
                assert(frames_view(out@) =~= Seq::empty());
            },
        }
        out
    }

    /// Ends a session, as `Broker::close` says.
    pub(crate) fn close(&mut self, uuid: u128) -> (r: Vec<
        crate::testing_system::gateway::OutputMessage,
    >)
        ensures
            final(self)@ == old(self)@.close(uuid).next,
            frames_view(r@) == old(self)@.close(uuid).effects.upstream,
    {
        let out = self.finish_current(uuid);
        self.invokers_side.invokers.remove(&uuid);
        assert(self@.invokers =~= old(self)@.close(uuid).next.invokers);
        out
    }
}

} // verus!
