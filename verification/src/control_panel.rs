//! What the operator's control panel shows and does.

use std::collections::HashMap;
use vstd::prelude::*;
use vstd::std_specs::iter::IteratorSpec;
use vstd::string::StringExecFns;
use crate::identifier::{lemma_urn_injective, parse_uuid, parsed_uuid, urn, urn_text};
use crate::invokers_side::InvokersSide;
use crate::json::{
    has_key, is_plain, is_plain_member, is_walk, json_object, members_view, object_text,
    optional_text, written_text,
};
use crate::model::Effects;
use crate::server::{frames_view, Outcome, Server};

verus! {

broadcast use vstd::std_specs::hash::group_hash_axioms;

/// The URN of a submission, where a session has one.
pub open spec fn binding_text(binding: Option<u128>) -> Option<Seq<char>> {
    match binding {
        Some(uuid) => Some(urn(uuid)),
        None => None,
    }
}

/// Whether `entry` shows session `uuid` of `status`: its URN, and the URN of
/// the submission it is bound to, if any.
pub open spec fn shows(
    entry: (String, Option<String>),
    status: Map<u128, Option<u128>>,
    uuid: u128,
) -> bool {
    status.contains_key(uuid) && entry.0@ == urn(uuid) && optional_text(entry.1) == binding_text(
        status[uuid],
    )
}

/// Whether `entry` shows some session of `status`.
pub open spec fn shows_some(
    entry: (String, Option<String>),
    status: Map<u128, Option<u128>>,
) -> bool {
    exists|uuid: u128| shows(entry, status, uuid)
}

/// Whether some entry shows session `uuid` of `status`.
pub open spec fn is_shown(
    entries: Seq<(String, Option<String>)>,
    status: Map<u128, Option<u128>>,
    uuid: u128,
) -> bool {
    exists|i: int| 0 <= i < entries.len() && shows(entries[i], status, uuid)
}

/// One entry per session: the session's URN and the URN of the submission
/// it is bound to, if any. Every session is shown, and nothing else.
pub fn status_entries(status: &HashMap<u128, Option<u128>>) -> (r: Vec<
    (String, Option<String>),
>)
    ensures
        r@.len() == status@.dom().len(),
        forall|i: int| 0 <= i < r@.len() ==> shows_some(#[trigger] r@[i], status@),
        forall|uuid: u128| #[trigger] status@.contains_key(uuid) ==> is_shown(r@, status@, uuid),
{
    let mut out: Vec<(String, Option<String>)> = Vec::new();
    let pairs = status.iter();
    let ghost all = pairs.remaining();
    assert(all.len() == status@.dom().len());
    for entry in it: pairs
        invariant
            it.seq() == all,
            all == vstd::std_specs::hash::spec_hash_map_iter(status).remaining(),
            out@.len() == it.index(),
            forall|i: int|
                0 <= i < out@.len() ==> shows(#[trigger] out@[i], status@, *all[i].0),
    {
        let (uuid, binding) = entry;
        let shown: Option<String> = match binding {
            Some(s) => Some(urn_text(*s)),
            None => None,
        };
        out.push((urn_text(*uuid), shown));
    }
    assert forall|i: int| 0 <= i < out@.len() implies shows_some(#[trigger] out@[i], status@) by {
        assert(shows(out@[i], status@, *all[i].0));
    }
    assert forall|uuid: u128| #[trigger] status@.contains_key(uuid) implies is_shown(
        out@,
        status@,
        uuid,
    ) by {
        let wanted = (&uuid, &status@[uuid]);
        assert(all.contains(wanted));
        let i = choose|i: int| 0 <= i < all.len() && all[i] == wanted;
        assert(shows(out@[i], status@, uuid));
    }
    out
}

/// What stands in for a document that could not be written.
pub open spec fn server_error() -> Seq<char> {
    "SERVERERROR"@
}

/// The body of a reply: the document where it could be written.
pub fn body_of(document: Result<String, serde_json::Error>) -> (r: String)
    ensures
        match document {
            Ok(text) => r@ == text@,
            Err(_) => r@ == server_error(),
        },
{
    match document {
        Ok(text) => text,
        Err(_) => String::from_str("SERVERERROR"),
    }
}

/// What the JSON object shows of session `uuid`: its URN as the key, and as
/// the value the URN of the submission it is bound to, if any.
pub open spec fn member_of(status: Map<u128, Option<u128>>, uuid: u128) -> (
    Seq<char>,
    Option<Seq<char>>,
) {
    (urn(uuid), binding_text(status[uuid]))
}

/// Whether `member` shows some session of `status`.
pub open spec fn shows_session(
    member: (Seq<char>, Option<Seq<char>>),
    status: Map<u128, Option<u128>>,
) -> bool {
    exists|uuid: u128| status.contains_key(uuid) && member == member_of(status, uuid)
}

/// The body of the reply that shows every session with the submission it is
/// bound to: a JSON object with one member for each session, in whatever
/// order, the URN of the session as the key and that of its submission, or
/// `null`, as the value.
pub fn invokers_status_body(status: &HashMap<u128, Option<u128>>) -> (r: String)
    ensures
        is_status_document(r@, status@),
{
    let entries = status_entries(status);
    let ghost members = members_view(entries@);
    assert forall|i: int| 0 <= i < entries@.len() implies is_plain_member(
        #[trigger] members_view(entries@)[i],
    ) by {
        assert(shows_some(entries@[i], status@));
        let uuid = choose|uuid: u128| shows(entries@[i], status@, uuid);
        lemma_urn_is_plain(uuid);
        match status@[uuid] {
            Some(submission) => {
                lemma_urn_is_plain(submission);
            },
            None => {},
        }
    }
    let document = json_object(&entries);
    let ghost written = written_text(document);
    proof {
        match written {
            Some(text) => {
                let walk = choose|walk: Seq<(Seq<char>, Option<Seq<char>>)>|
                    is_walk(walk, members) && text == object_text(walk);
                assert forall|i: int| 0 <= i < walk.len() implies shows_session(
                    #[trigger] walk[i],
                    status@,
                ) by {
                    assert(members.contains(walk[i]));
                    let j = choose|j: int| 0 <= j < members.len() && members[j] == walk[i];
                    assert(shows_some(entries@[j], status@));
                    let uuid = choose|uuid: u128| shows(entries@[j], status@, uuid);
                    assert(walk[i] == member_of(status@, uuid));
                }
                assert forall|uuid: u128| #[trigger] status@.contains_key(uuid)
                    implies walk.contains(member_of(status@, uuid)) by {
                    assert(is_shown(entries@, status@, uuid));
                    let j = choose|j: int|
                        0 <= j < entries@.len() && shows(entries@[j], status@, uuid);
                    assert(members[j].0 == urn(uuid));
                    assert(has_key(walk, members[j].0));
                    let i = choose|i: int| 0 <= i < walk.len() && walk[i].0 == urn(uuid);
                    assert(shows_session(walk[i], status@));
                    let other = choose|other: u128|
                        status@.contains_key(other) && walk[i] == member_of(status@, other);
                    lemma_urn_injective(other, uuid);
                }
                assert(is_status_walk(walk, status@));
            },
            None => {},
        }
    }
    body_of(document)
}

/// Whether the members of `walk` show the sessions of `status`: each member
/// shows a session, each session is shown by a member, and no two members
/// have one key.
pub open spec fn is_status_walk(
    walk: Seq<(Seq<char>, Option<Seq<char>>)>,
    status: Map<u128, Option<u128>>,
) -> bool {
    &&& forall|i: int| 0 <= i < walk.len() ==> shows_session(#[trigger] walk[i], status)
    &&& forall|uuid: u128| #[trigger]
        status.contains_key(uuid) ==> walk.contains(member_of(status, uuid))
    &&& forall|i: int, j: int|
        0 <= i < j < walk.len() ==> (#[trigger] walk[i]).0 != (#[trigger] walk[j]).0
}

/// Whether `text` is a JSON object that shows the sessions of `status`, in
/// whatever order.
pub open spec fn is_status_document(text: Seq<char>, status: Map<u128, Option<u128>>) -> bool {
    exists|walk: Seq<(Seq<char>, Option<Seq<char>>)>|
        is_status_walk(walk, status) && text == object_text(walk)
}

/// The URN of an identifier is plain.
pub proof fn lemma_urn_is_plain(uuid: u128)
    ensures
        is_plain(urn(uuid)),
{
    reveal_strlit("urn:uuid:");
    let head = "urn:uuid:"@;
    let tail = crate::identifier::hyphenated(uuid);
    let text = urn(uuid);
    assert(head.len() == 9);
    assert forall|i: int| 0 <= i < text.len() implies ' ' <= #[trigger] text[i] <= '~' && text[i]
        != '"' && text[i] != '\\' by {
        if i < 9 {
            assert(text[i] == head[i]);
        } else {
            let k = i - 9;
            assert(text[i] == tail[k]);
            crate::invoker::framing::lemma_hex_char(crate::identifier::nibble(uuid, k));
            crate::invoker::framing::lemma_hex_char(crate::identifier::nibble(uuid, k - 1));
            crate::invoker::framing::lemma_hex_char(crate::identifier::nibble(uuid, k - 2));
            crate::invoker::framing::lemma_hex_char(crate::identifier::nibble(uuid, k - 3));
            crate::invoker::framing::lemma_hex_char(crate::identifier::nibble(uuid, k - 4));
        }
    }
}

/// What a request to delete a session is answered with where the session
/// was deleted.
pub open spec fn deleted() -> Seq<char> {
    "Succes"@
}

/// What a request to delete a session is answered with where the text
/// given for the uuid is none.
pub open spec fn invalid_uuid(text: Seq<char>) -> Seq<char> {
    "Invalid uuid: "@ + text
}

/// The session that a request to delete removes: the one named, where the
/// name was a uuid and a session has it.
pub open spec fn removed(
    invokers: Map<u128, crate::model::InvokerView>,
    named: Option<u128>,
) -> Option<u128> {
    match named {
        Some(uuid) => if invokers.contains_key(uuid) {
            Some(uuid)
        } else {
            None
        },
        None => None,
    }
}

/// The text that answers a request to delete the session named `text`,
/// which read as `named`.
pub open spec fn delete_answer(
    invokers: Map<u128, crate::model::InvokerView>,
    text: Seq<char>,
    named: Option<u128>,
) -> Seq<char> {
    match named {
        Some(uuid) => if invokers.contains_key(uuid) {
            deleted()
        } else {
            crate::model::no_such_invoker(uuid)
        },
        None => invalid_uuid(text),
    }
}

/// What a request to delete a session comes to: the text of the reply, what
/// is to be sent, and the session that was removed, if one was.
#[derive(Debug, PartialEq, Eq)]
pub struct Deletion {
    pub reply: String,
    pub outcome: Outcome,
    pub removed: Option<u128>,
}

/// Deletes the session that the operator named, where the name was a uuid
/// and a session has it, as `Broker::close` says. Nothing changes and nothing
/// is owed where the name was no uuid or no session has it.
pub fn delete_reply(server: &mut Server, text: &str, named: Option<u128>) -> (r: Deletion)
    ensures
        r.reply@ == delete_answer(old(server)@.invokers, text@, named),
        r.removed == removed(old(server)@.invokers, named),
        match r.removed {
            Some(uuid) => final(server)@ == old(server)@.close(uuid).next && r.outcome@ == old(
                server,
            )@.close(uuid).effects,
            None => final(server)@ == old(server)@ && r.outcome@ == Effects::none(),
        },
{
    let nothing = Outcome { upstream: Vec::new(), downstream: None };
    assert(frames_view(nothing.upstream@) =~= Seq::empty());
    match named {
        Some(uuid) => match InvokersSide::delete_invoker(server, uuid) {
            Ok(outcome) => Deletion {
                reply: String::from_str("Succes"),
                outcome,
                removed: Some(uuid),
            },
            Err(reason) => Deletion { reply: reason, outcome: nothing, removed: None },
        },
        None => {
            let mut reply = String::from_str("Invalid uuid: ");
            reply.append(text);
            Deletion { reply, outcome: nothing, removed: None }
        },
    }
}

/// Answers the operator's request to delete the session named `text`:
/// `delete_reply` on what `text` reads as.
pub fn delete_invoker_reply(server: &mut Server, text: &str) -> (r: Deletion)
    ensures
        r.reply@ == delete_answer(old(server)@.invokers, text@, parsed_uuid(text@)),
        r.removed == removed(old(server)@.invokers, parsed_uuid(text@)),
        match r.removed {
            Some(uuid) => final(server)@ == old(server)@.close(uuid).next && r.outcome@ == old(
                server,
            )@.close(uuid).effects,
            None => final(server)@ == old(server)@ && r.outcome@ == Effects::none(),
        },
{
    let named = parse_uuid(text);
    delete_reply(server, text, named)
}

} // verus!
