//! What the broker knows of the testing system, and what it takes from it.

use vstd::prelude::*;
use vstd::string::StringExecFns;
use crate::model::{queue_full, Broker, Event, MAX_SUBMISSIONS_COUNT};
use crate::server::{frames_view, Server};
use crate::submission::Submission;
use crate::testing_system::gateway::OutputMessage;
use crate::verdict::{results_view, skipped_results, Verdict};

verus! {

broadcast use vstd::std_specs::hash::group_hash_axioms;

/// Whether the link to the testing system is up.
pub struct TestingSystemSide {
    pub(crate) connected: bool,
}

/// A submission turned away: why, and the frames owed to the testing system
/// for it.
#[derive(Debug, PartialEq, Eq)]
pub struct Rejection {
    pub reason: String,
    pub upstream: Vec<OutputMessage>,
}

impl TestingSystemSide {
    /// Whether the link is up.
    pub open(crate) spec fn linked(&self) -> bool {
        self.connected
    }

    /// No link yet.
    pub fn new() -> (r: TestingSystemSide)
        ensures
            !r.linked(),
    {
        TestingSystemSide { connected: false }
    }

    /// Whether the link is up.
    pub fn is_connected(&self) -> (r: bool)
        ensures
            r == self.linked(),
    {
        self.connected
    }

    /// The link to the testing system has come up.
    pub fn start(server: &mut Server)
        ensures
            final(server)@ == old(server)@.step(Event::Connected).next,
    {
        server.testing_system_side.connected = true;
    }

    /// The link to the testing system is gone. Sessions go on; no frame is
    /// owed to the testing system until the link is back.
    pub fn stop(server: &mut Server)
        ensures
            final(server)@ == old(server)@.step(Event::Disconnected).next,
    {
        server.testing_system_side.connected = false;
    }

    /// Takes a submission in, as `Broker::submit` says: results are
    /// allocated for it and it joins the queue. Where the queue is full the
    /// submission is turned away with the reason `queue full`, the allocation
    /// is undone, and a failure verdict is owed.
    pub fn add_submission(server: &mut Server, submission: Submission) -> (r: Result<
        (),
        Rejection,
    >)
        ensures
            final(server)@ == old(server)@.submit(submission@).next,
            match r {
                Ok(()) => old(server)@.queue.len() < MAX_SUBMISSIONS_COUNT,
                Err(rejection) => old(server)@.queue.len() >= MAX_SUBMISSIONS_COUNT
                    && rejection.reason@ == queue_full() && frames_view(rejection.upstream@)
                    == old(server)@.submit(submission@).effects.upstream,
            },
    {
        let uuid = submission.uuid;
        server.tests_results.insert(uuid, skipped_results(submission.tests_count));
        if server.invokers_side.submissions_pool.len() < MAX_SUBMISSIONS_COUNT {
            server.invokers_side.submissions_pool.push_back(submission);
            assert(server@.results =~= old(server)@.submit(submission@).next.results);
            assert(server@.queue =~= old(server)@.submit(submission@).next.queue);
            return Ok(());
        }
        server.tests_results.remove(&uuid);
        assert(server@.results =~= old(server)@.submit(submission@).next.results);
        let mut upstream: Vec<OutputMessage> = Vec::new();
        if server.testing_system_side.connected {
            let tests_result = Vec::new();
            assert(results_view(tests_result@) =~= Seq::empty());
            upstream.push(
                OutputMessage::SubmissionVerdict {
                    submission_uuid: uuid,
                    verdict: Verdict::TE,
                    tests_result,
                    message: Err(String::from_str("queue full")),
                },
            );
        }
        assert(frames_view(upstream@) =~= old(server)@.submit(submission@).effects.upstream);
        Err(Rejection { reason: String::from_str("queue full"), upstream })
    }
}

} // verus!
