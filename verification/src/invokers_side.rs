//! The registry of sessions and the queue they are served from.

use std::collections::HashMap;
use std::collections::VecDeque;
use vstd::prelude::*;
use crate::authorisation::Handshake;
use crate::invoker::gateway::{OutputMessage, OutputMessageView};
use crate::invoker::Invoker;
use crate::model::InvokerView;
use crate::server::{Outcome, Server};
use crate::submission::{Submission, SubmissionView};

verus! {

broadcast use vstd::std_specs::hash::group_hash_axioms;

/// The sessions that are live, by uuid, and the submissions that wait for
/// one of them, oldest first.
pub struct InvokersSide {
    pub(crate) invokers: HashMap<u128, Invoker>,
    pub(crate) submissions_pool: VecDeque<Submission>,
}

impl InvokersSide {
    /// The registry as a mathematical map.
    pub open(crate) spec fn registry(&self) -> Map<u128, InvokerView> {
        self.invokers@.map_values(|i: Invoker| i@)
    }

    /// The queue as a mathematical sequence, oldest first.
    pub open(crate) spec fn waiting(&self) -> Seq<SubmissionView> {
        self.submissions_pool@.map_values(|s: Submission| s@)
    }

    /// No session, nothing queued.
    pub fn new() -> (r: InvokersSide)
        ensures
            r.registry() == Map::<u128, InvokerView>::empty(),
            r.waiting() == Seq::<SubmissionView>::empty(),
    {
        let r = InvokersSide { invokers: HashMap::new(), submissions_pool: VecDeque::new() };
        assert(r.registry() =~= Map::empty());
        assert(r.waiting() =~= Seq::empty());
        r
    }

    /// How many submissions wait.
    pub fn waiting_count(&self) -> (r: usize)
        ensures
            r == self.waiting().len(),
    {
        self.submissions_pool.len()
    }

    /// Enters an authenticated invoker into the registry, as
    /// `Broker::register` says: a session that held the uuid before is ended
    /// first, and the new session is served at once if work waits.
    pub fn add_invoker(server: &mut Server, uuid: u128, key: String) -> (r: Outcome)
        ensures
            final(server)@ == old(server)@.register(uuid, key@).next,
            r@ == old(server)@.register(uuid, key@).effects,
    {
        let upstream = server.close(uuid);
        server.invokers_side.invokers.insert(uuid, Invoker::new(uuid, key));
        assert(server@.invokers =~= old(server)@.close(uuid).next.invokers.insert(
            uuid,
            InvokerView { key: key@, submission_uuid: None },
        ));
        let downstream = server.dispatch(uuid);
        Outcome { upstream, downstream }
    }

    /// Closes a handshake. `valid` says whether the invoker's reply was a
    /// signature of the challenge that its certificate confirms. Only then
    /// does the invoker enter the registry, as `Broker::register` says;
    /// otherwise the broker stays as it is. The frame tells the invoker the
    /// outcome.
    pub fn accept(server: &mut Server, handshake: Handshake, valid: bool) -> (r: (
        OutputMessage,
        Option<Outcome>,
    ))
        ensures
            r.0@ == (OutputMessageView::Auth { ok: valid }),
            match r.1 {
                Some(outcome) => valid && final(server)@ == old(server)@.register(
                    handshake.uuid,
                    handshake.key@,
                ).next && outcome@ == old(server)@.register(
                    handshake.uuid,
                    handshake.key@,
                ).effects,
                None => !valid && final(server)@ == old(server)@,
            },
    {
        let (frame, passed) = handshake.conclude(valid);
        match passed {
            Some((uuid, key)) => {
                let outcome = InvokersSide::add_invoker(server, uuid, key);
                (frame, Some(outcome))
            },
            None => (frame, None),
        }
    }

    /// The operator deletes a session: it is ended as `Broker::close` says.
    /// Refused, with nothing changed, where no session has the uuid.
    pub fn delete_invoker(server: &mut Server, uuid: u128) -> (r: Result<Outcome, String>)
        ensures
            final(server)@ == old(server)@.close(uuid).next,
            match r {
                Ok(outcome) => old(server)@.invokers.contains_key(uuid) && outcome@ == old(
                    server,
                )@.close(uuid).effects,
                Err(reason) => !old(server)@.invokers.contains_key(uuid) && reason@
                    == crate::model::no_such_invoker(uuid) && final(server)@ == old(server)@,
            },
    {
        Invoker::delete(server, uuid)
    }

    /// Every live session with the submission it is bound to, if any.
    pub fn get_invokers_status(&self) -> (r: HashMap<u128, Option<u128>>)
        ensures
            r@ == self.registry().map_values(|i: InvokerView| i.submission_uuid),
    {
        let mut out: HashMap<u128, Option<u128>> = HashMap::new();
        for entry in it: self.invokers.iter()
            invariant
                forall|k: u128| #[trigger]
                    out@.contains_key(k) ==> self.invokers@.contains_key(k) && out@[k]
                        == self.invokers@[k]@.submission_uuid,
                forall|i: int|
                    0 <= i < it.index() ==> out@.contains_key(*(#[trigger] it.seq()[i]).0),
        {
            let (uuid, invoker) = entry;
            out.insert(*uuid, invoker.get_submission_uuid());
        }
        assert(out@ =~= self.registry().map_values(|i: InvokerView| i.submission_uuid));
        out
    }
}

} // verus!
