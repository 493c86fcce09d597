//! JSON objects of plain texts, as `serde_json` writes them.

use std::collections::HashMap;
use vstd::prelude::*;

verus! {

/// The error of `serde_json`, carried through as it comes.
#[verifier::external_type_specification]
#[verifier::external_body]
pub struct ExJsonError(serde_json::Error);

/// Text that JSON writes as it stands between quotes: printable ASCII
/// without the quote and the backslash.
pub open spec fn is_plain(text: Seq<char>) -> bool {
    forall|i: int|
        0 <= i < text.len() ==> ' ' <= #[trigger] text[i] <= '~' && text[i] != '"' && text[i]
            != '\\'
}

/// The text of an optional text.
pub open spec fn optional_text(text: Option<String>) -> Option<Seq<char>> {
    match text {
        Some(t) => Some(t@),
        None => None,
    }
}

/// A pair of a text and an optional text as a mathematical value.
pub open spec fn member_view(entry: (String, Option<String>)) -> (Seq<char>, Option<Seq<char>>) {
    (entry.0@, optional_text(entry.1))
}

/// The views of a run of pairs.
pub open spec fn members_view(entries: Seq<(String, Option<String>)>) -> Seq<
    (Seq<char>, Option<Seq<char>>),
> {
    entries.map_values(|entry: (String, Option<String>)| member_view(entry))
}

/// Whether the key of a member and its value, if it has one, are plain.
pub open spec fn is_plain_member(member: (Seq<char>, Option<Seq<char>>)) -> bool {
    is_plain(member.0) && match member.1 {
        Some(value) => is_plain(value),
        None => true,
    }
}

/// A member of a JSON object with plain texts: the key in quotes, a colon,
/// and the value in quotes, or `null` where there is no value.
pub open spec fn member_text(member: (Seq<char>, Option<Seq<char>>)) -> Seq<char> {
    seq!['"'] + member.0 + seq!['"', ':'] + match member.1 {
        Some(value) => seq!['"'] + value + seq!['"'],
        None => seq!['n', 'u', 'l', 'l'],
    }
}

/// The members of a JSON object with commas between them.
pub open spec fn members_text(walk: Seq<(Seq<char>, Option<Seq<char>>)>) -> Seq<char>
    decreases walk.len(),
{
    if walk.len() == 0 {
        Seq::empty()
    } else if walk.len() == 1 {
        member_text(walk[0])
    } else {
        members_text(walk.drop_last()) + seq![','] + member_text(walk.last())
    }
}

/// The JSON object with these members, in this order.
pub open spec fn object_text(walk: Seq<(Seq<char>, Option<Seq<char>>)>) -> Seq<char> {
    seq!['{'] + members_text(walk) + seq!['}']
}

/// Whether some member of `walk` has this key.
pub open spec fn has_key(walk: Seq<(Seq<char>, Option<Seq<char>>)>, key: Seq<char>) -> bool {
    exists|i: int| 0 <= i < walk.len() && walk[i].0 == key
}

/// Whether `walk` lists what a map made of `members` holds, in some order:
/// each of its members is one of `members`, each key of `members` is the
/// key of one of its members, and no two of its members have one key.
pub open spec fn is_walk(
    walk: Seq<(Seq<char>, Option<Seq<char>>)>,
    members: Seq<(Seq<char>, Option<Seq<char>>)>,
) -> bool {
    &&& forall|i: int| 0 <= i < walk.len() ==> members.contains(#[trigger] walk[i])
    &&& forall|j: int| 0 <= j < members.len() ==> has_key(walk, (#[trigger] members[j]).0)
    &&& forall|i: int, j: int|
        0 <= i < j < walk.len() ==> (#[trigger] walk[i]).0 != (#[trigger] walk[j]).0
}

/// Whether `text` is a JSON object of `members`, in whatever order.
pub open spec fn is_object_of(
    text: Seq<char>,
    members: Seq<(Seq<char>, Option<Seq<char>>)>,
) -> bool {
    exists|walk: Seq<(Seq<char>, Option<Seq<char>>)>|
        is_walk(walk, members) && text == object_text(walk)
}

/// The text of a document, where it could be written.
pub open spec fn written_text(document: Result<String, serde_json::Error>) -> Option<Seq<char>> {
    match document {
        Ok(text) => Some(text@),
        Err(_) => None,
    }
}

/// Writes pairs of a text and an optional text as one JSON object, with
/// `serde_json::to_string` on a hash map of the pairs. The call succeeds:
/// the keys are texts, the values texts or nothing, and the writer is a
/// vector, so none of the causes for which `serde_json` fails arises. The
/// text is the object in compact form: a brace, the members with commas
/// between them, a brace. The members come in the order in which the map is
/// walked, so the contract leaves the order open. It speaks of plain texts
/// only, which `serde_json` writes without escapes.
#[verifier::external_body]
pub(crate) fn json_object(entries: &Vec<(String, Option<String>)>) -> (r: Result<
    String,
    serde_json::Error,
>)
    requires
        forall|i: int|
            0 <= i < entries@.len() ==> is_plain_member(#[trigger] members_view(entries@)[i]),
    ensures
        r is Ok,
        r matches Ok(text) ==> is_object_of(text@, members_view(entries@)),
{
    let map: HashMap<String, Option<String>> = entries.iter().cloned().collect();
    serde_json::to_string(&map)
}

} // verus!
