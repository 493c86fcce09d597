//! The invoker-facing side: frames and sessions.

pub mod framing;
pub mod gateway;

use vstd::prelude::*;
use vstd::string::StringExecFns;
use crate::identifier::uuid_text;
use crate::invoker::gateway::{InputMessage, InputMessageView, OutputMessage, OutputMessageView};
use crate::model::InvokerView;
use crate::server::{frame_view, frames_view, Outcome, Server};
use crate::submission::Submission;
use crate::verdict::results_view;

verus! {

broadcast use vstd::std_specs::hash::group_hash_axioms;

/// The text that refuses a request on a session that does not exist.
pub fn no_such_invoker(uuid: u128) -> (r: String)
    ensures
        r@ == crate::model::no_such_invoker(uuid),
{
    let mut text = String::from_str("Invoker ");
    text.append(uuid_text(uuid).as_str());
    text.append(" doesn't exist");
    text
}

/// The text of an exit code, where there is one.
pub open spec fn code_view(code: Option<String>) -> Option<Seq<char>> {
    match code {
        Some(c) => Some(c@),
        None => None,
    }
}

/// The exit code that a frame carries: only `EXITED` has one.
pub open spec fn exit_code_of(frame: InputMessageView) -> Option<Seq<char>> {
    match frame {
        InputMessageView::Exited { exit_code, .. } => Some(exit_code),
        _ => None,
    }
}

/// A live session with one invoker: its identity and the submission it is
/// working on, if any. A session without one is idle.
#[derive(Debug)]
pub struct Invoker {
    pub(crate) uuid: u128,
    pub(crate) key: String,
    pub(crate) submission_uuid: Option<u128>,
}

impl View for Invoker {
    type V = InvokerView;

    open(crate) spec fn view(&self) -> InvokerView {
        InvokerView { key: self.key@, submission_uuid: self.submission_uuid }
    }
}

impl Invoker {
    /// The uuid under which the session is registered.
    pub open(crate) spec fn id(&self) -> u128 {
        self.uuid
    }

    /// An idle session.
    pub fn new(uuid: u128, key: String) -> (r: Invoker)
        ensures
            r.id() == uuid,
            r@ == (InvokerView { key: key@, submission_uuid: None }),
    {
        Invoker { uuid, key, submission_uuid: None }
    }

    /// The uuid of the session.
    pub fn uuid(&self) -> (r: u128)
        ensures
            r == self.id(),
    {
        self.uuid
    }

    /// The key that the invoker presented.
    pub fn key(&self) -> (r: &String)
        ensures
            r@ == self@.key,
    {
        &self.key
    }

    /// The submission bound to the session.
    pub fn get_submission_uuid(&self) -> (r: Option<u128>)
        ensures
            r == self@.submission_uuid,
    {
        self.submission_uuid
    }

    /// Binds `submission` to the session and gives the frame that starts the
    /// invoker on it.
    pub fn run_submission(invoker: &mut Invoker, submission: Submission) -> (r: OutputMessage)
        ensures
            final(invoker).id() == old(invoker).id(),
            final(invoker)@ == (InvokerView {
                key: old(invoker)@.key,
                submission_uuid: Some(submission.uuid),
            }),
            r@ == (OutputMessageView::TestSubmission { submission: submission@ }),
    {
        invoker.submission_uuid = Some(submission.uuid);
        OutputMessage::TestSubmission { submission }
    }

    /// A session asks for work. A live, idle session is served from the head
    /// of the queue while the testing system is reachable, and told to start
    /// on what it got. The request of a session that does not exist, is busy
    /// or finds the link down is refused, and nothing changes.
    pub fn take_submission(server: &mut Server, uuid: u128) -> (r: Result<
        Option<OutputMessage>,
        String,
    >)
        ensures
            final(server)@ == old(server)@.poll(uuid).next,
            match r {
                Ok(frame) => old(server)@.poll_refusal(uuid).is_none() && frame_view(frame) == old(
                    server,
                )@.poll(uuid).effects.downstream,
                Err(reason) => old(server)@.poll_refusal(uuid) == Some(reason@) && final(server)@
                    == old(server)@,
            },
    {
        if !server.invokers_side.invokers.contains_key(&uuid) {
            return Err(no_such_invoker(uuid));
        }
        if server.binding(uuid).is_some() {
            return Err(
                String::from_str("Invoker already has submission and can't take new one."),
            );
        }
        if !server.testing_system_side.connected {
            return Err(String::from_str("upstream-unavailable"));
        }
        Ok(server.dispatch(uuid))
    }

    /// Ends a session: what it was bound to is given up with a failure
    /// verdict, and it leaves the registry. Refused where no session has the
    /// uuid.
    pub fn delete(server: &mut Server, uuid: u128) -> (r: Result<Outcome, String>)
        ensures
            final(server)@ == old(server)@.close(uuid).next,
            match r {
                Ok(outcome) => old(server)@.invokers.contains_key(uuid) && outcome@ == old(
                    server,
                )@.close(uuid).effects,
                Err(reason) => !old(server)@.invokers.contains_key(uuid) && reason@
                    == crate::model::no_such_invoker(uuid) && final(server)@ == old(server)@,
            },
    {
        if !server.invokers_side.invokers.contains_key(&uuid) {
            assert(server@.close(uuid).next.invokers =~= server@.invokers);
            return Err(no_such_invoker(uuid));
        }
        let upstream = server.close(uuid);
        Ok(Outcome { upstream, downstream: None })
    }

    /// Handles one frame from a session's invoker, as `Broker::receive`
    /// says, and hands back what is to be sent and, where the invoker has
    /// exited, its exit code: the session is then over.
    pub fn message_handler(server: &mut Server, uuid: u128, message: InputMessage) -> (r: (
        Outcome,
        Option<String>,
    ))
        ensures
            final(server)@ == old(server)@.receive(uuid, message@).next,
            r.0@ == old(server)@.receive(uuid, message@).effects,
            code_view(r.1) == exit_code_of(message@),
    {
        let mut upstream: Vec<crate::testing_system::gateway::OutputMessage> = Vec::new();
        let mut downstream: Option<OutputMessage> = None;
        let mut exit_code: Option<String> = None;
        assert(frames_view(upstream@) =~= Seq::empty());
        match message {
            InputMessage::Exited { exit_code: code, exit_message: _ } => {
                upstream = server.close(uuid);
                exit_code = Some(code);
            },
            InputMessage::Verdict { verdict, message } => {
                match server.binding(uuid) {
                    Some(s) => {
                        let tests_result = server.release(uuid, s);
                        if server.testing_system_side.connected {
                            upstream.push(
                                crate::testing_system::gateway::OutputMessage::SubmissionVerdict {
                                    submission_uuid: s,
                                    verdict,
                                    tests_result,
                                    message,
                                },
                            );
                        }
                        assert(frames_view(upstream@) =~= old(server)@.on_verdict(
                            uuid,
                            verdict,
                            crate::invoker::gateway::summary_view(message),
                        ).effects.upstream);
                        downstream = server.dispatch(uuid);
                    },
                    None => {},
                }
            },
            InputMessage::TestVerdict { result, test, data } => {
                match server.binding(uuid) {
                    Some(s) => {
                        let allocated: usize = match server.tests_results.get(&s) {
                            Some(v) => v.len(),
                            None => 0,
                        };
                        if 1 <= test && test as usize <= allocated {
                            let taken = server.tests_results.remove(&s);
                            let mut tests_result = taken.unwrap();
                            let ghost before = tests_result@;
                            tests_result[test as usize - 1] = result.clone();
                            assert(results_view(tests_result@) =~= results_view(before).update(
                                test - 1,
                                result@,
                            ));
                            server.tests_results.insert(s, tests_result);
                            assert(server@.results =~= old(server)@.on_test(
                                uuid,
                                result@,
                                test,
                                data@,
                            ).next.results);
                            if server.testing_system_side.connected {
                                upstream.push(
                                    crate::testing_system::gateway::OutputMessage::TestVerdict {
                                        submission_uuid: s,
                                        test,
                                        result,
                                        data,
                                    },
                                );
                            }
                            assert(frames_view(upstream@) =~= old(server)@.on_test(
                                uuid,
                                result@,
                                test,
                                data@,
                            ).effects.upstream);
                        }
                    },
                    None => {},
                }
            },
            _ => {},
        }
        (Outcome { upstream, downstream }, exit_code)
    }

    /// Gives up the submission that session `uuid` is bound to, as
    /// `Broker::finish_current` says: the results of the submission leave
    /// the broker, a failure verdict with the message `invoker disconnected`
    /// is owed for it while the testing system is reachable, and the session
    /// is idle. The submission does not go back into the queue. Nothing
    /// changes and nothing is owed where the session is idle or unknown.
    pub fn finish_current_submission(server: &mut Server, uuid: u128) -> (r: Outcome)
        ensures
            final(server)@ == old(server)@.finish_current(uuid).next,
            r@ == old(server)@.finish_current(uuid).effects,
    {
        let upstream = server.finish_current(uuid);
        Outcome { upstream, downstream: None }
    }

    /// Clears the binding: the session is idle again.
    pub(crate) fn unbind(&mut self)
        ensures
            final(self).id() == old(self).id(),
            final(self)@ == (InvokerView { key: old(self)@.key, submission_uuid: None }),
    {
        self.submission_uuid = None;
    }
}

} // verus!
