//! Frames read back as they were written.
//!
//! The laws here are about frames made of ASCII header lines: a key with no
//! white space in it, one space, a value with no white space at its ends,
//! and a line feed; then the line `DATA` and the payload.

use vstd::prelude::*;
use vstd::utf8::*;
use crate::identifier::{hex_char, hyphenated, nibble, parsed_uuid};
use crate::invoker::gateway::{
    first_char, first_line, groups_from, headers_from, headers_of, line_end, line_feed, line_text,
    message_of, InputMessageView,
};
use crate::seconds::is_literal;
use crate::testing_system::gateway::joined;
use crate::text::{
    all_digits, decimal_text, digit_char, is_digit, is_whitespace, lemma_decimal_round_trip,
    lemma_decimal_text, number_or, trim, trim_end, trim_start,
};
use crate::verdict::Verdict;

verus! {

/// Text that can stand as the key of a header: ASCII, not empty, without
/// white space, and not the word `DATA`.
pub open spec fn is_key(key: Seq<char>) -> bool {
    &&& key.len() > 0
    &&& is_ascii_chars(key)
    &&& forall|i: int| 0 <= i < key.len() ==> !is_whitespace(#[trigger] key[i])
    &&& key != "DATA"@
}

/// Text that can stand as the value of a header: ASCII, without line feed,
/// and without white space at either end.
pub open spec fn is_value(value: Seq<char>) -> bool {
    &&& is_ascii_chars(value)
    &&& forall|i: int| 0 <= i < value.len() ==> #[trigger] value[i] != '\n'
    &&& value.len() > 0 ==> !is_whitespace(value[0]) && !is_whitespace(value.last())
}

/// A header line.
pub open spec fn line_of(key: Seq<char>, value: Seq<char>) -> Seq<char> {
    key + seq![' '] + value + seq!['\n']
}

/// Whether every line has a key and a value that can stand as such.
pub open spec fn are_lines(lines: Seq<(Seq<char>, Seq<char>)>) -> bool {
    forall|i: int| 0 <= i < lines.len() ==> is_key((#[trigger] lines[i]).0) && is_value(lines[i].1)
}

/// The frame with these header lines and this payload.
pub open spec fn rendered(lines: Seq<(Seq<char>, Seq<char>)>, data: Seq<u8>) -> Seq<u8>
    decreases lines.len(),
{
    if lines.len() == 0 {
        encode_utf8("DATA\n"@) + data
    } else {
        encode_utf8(line_of(lines[0].0, lines[0].1)) + rendered(lines.drop_first(), data)
    }
}

/// The headers that lines amount to on top of those `seen`: a later line
/// replaces an earlier one with the same key.
pub open spec fn headers_with(
    seen: Map<Seq<char>, Seq<char>>,
    lines: Seq<(Seq<char>, Seq<char>)>,
) -> Map<Seq<char>, Seq<char>>
    decreases lines.len(),
{
    if lines.len() == 0 {
        seen
    } else {
        headers_with(seen.insert(lines[0].0, lines[0].1), lines.drop_first())
    }
}

/// The first line feed is where a line feed stands with none before it.
pub proof fn lemma_line_feed_at(bytes: Seq<u8>, from: int, at: int)
    requires
        0 <= from <= at < bytes.len(),
        forall|i: int| from <= i < at ==> bytes[i] != 10,
        bytes[at] == 10,
    ensures
        line_feed(bytes, from) == at,
    decreases at - from,
{
    if from < at {
        lemma_line_feed_at(bytes, from + 1, at);
    }
}

/// The first `wanted` is where one stands with none before it, or at the
/// end where none stands at all.
pub proof fn lemma_first_char_at(text: Seq<char>, wanted: char, from: int, at: int)
    requires
        0 <= from <= at <= text.len(),
        forall|i: int| from <= i < at ==> text[i] != wanted,
        at < text.len() ==> text[at] == wanted,
    ensures
        first_char(text, wanted, from) == at,
    decreases at - from,
{
    if from < at {
        lemma_first_char_at(text, wanted, from + 1, at);
    }
}

/// Text that neither starts nor ends with white space is its own trim.
pub proof fn lemma_trim_keeps(text: Seq<char>)
    requires
        text.len() > 0 ==> !is_whitespace(text[0]) && !is_whitespace(text.last()),
    ensures
        trim(text) == text,
{
}

/// White space at the end does not survive trimming.
pub proof fn lemma_trim_end_drops(text: Seq<char>, c: char)
    requires
        is_whitespace(c),
    ensures
        trim_end(text.push(c)) == trim_end(text),
{
    assert(text.push(c).drop_last() =~= text);
}

/// White space at the start does not survive trimming.
pub proof fn lemma_trim_start_drops(text: Seq<char>, c: char)
    requires
        is_whitespace(c),
    ensures
        trim_start(seq![c] + text) == trim_start(text),
{
    assert((seq![c] + text).drop_first() =~= text);
}

/// The first line of a frame that starts with an ASCII line is that line,
/// and what follows it is left over.
pub proof fn lemma_first_line_text(line: Seq<char>, rest: Seq<u8>)
    requires
        line.len() > 0,
        is_ascii_chars(line),
        line.last() == '\n',
        forall|i: int| 0 <= i < line.len() - 1 ==> #[trigger] line[i] != '\n',
    ensures
        line_end(encode_utf8(line) + rest) == line.len(),
        (encode_utf8(line) + rest).take(line.len() as int) == encode_utf8(line),
        (encode_utf8(line) + rest).skip(line.len() as int) == rest,
        line_text(encode_utf8(line)) == line,
{
    let bytes = encode_utf8(line);
    let whole = bytes + rest;
    is_ascii_chars_encode_utf8(line);
    assert forall|i: int| 0 <= i < line.len() - 1 implies whole[i] != 10 by {
        assert(whole[i] == bytes[i]);
        assert(bytes[i] == line[i] as u8);
        assert(line[i] != '\n');
        assert('\0' <= line[i] <= '\u{7f}');
    }
    assert(whole[line.len() - 1] == 10) by {
        assert(whole[line.len() - 1] == bytes[line.len() - 1]);
        assert(bytes[line.len() - 1] == line[line.len() - 1] as u8);
    }
    lemma_line_feed_at(whole, 0, line.len() - 1);
    assert(whole.take(line.len() as int) =~= bytes);
    assert(whole.skip(line.len() as int) =~= rest);
    encode_utf8_valid_utf8(line);
    encode_utf8_decode_utf8(line);
}

/// A header line reads back as its key and its value.
pub proof fn lemma_first_line_of_header(key: Seq<char>, value: Seq<char>, rest: Seq<u8>)
    requires
        is_key(key),
        is_value(value),
    ensures
        trim(first_line(encode_utf8(line_of(key, value)) + rest).0) == key,
        trim(first_line(encode_utf8(line_of(key, value)) + rest).1) == value,
        first_line(encode_utf8(line_of(key, value)) + rest).2 == rest,
{
    let line = line_of(key, value);
    let body = key + seq![' '] + value;
    assert(line =~= body.push('\n'));
    assert(is_ascii_chars(line)) by {
        assert forall|i: int| 0 <= i < line.len() implies '\0' <= #[trigger] line[i]
            <= '\u{7f}' by {
            if i < key.len() {
                assert(line[i] == key[i]);
            } else if i == key.len() {
            } else if i < key.len() + 1 + value.len() {
                assert(line[i] == value[i - key.len() - 1]);
            } else {
            }
        }
    }
    assert forall|i: int| 0 <= i < line.len() - 1 implies #[trigger] line[i] != '\n' by {
        if i < key.len() {
            assert(line[i] == key[i]);
            assert(!is_whitespace(key[i]));
        } else if i == key.len() {
        } else {
            assert(line[i] == value[i - key.len() - 1]);
        }
    }
    lemma_first_line_text(line, rest);
    let whole = encode_utf8(line) + rest;
    assert(line_text(whole.take(line_end(whole))) == line);
    assert(line[0] == key[0]);
    assert(!is_whitespace(key[0]));
    assert(trim_start(line) == line);
    lemma_trim_end_drops(body, '\n');
    let kept = trim(line);
    assert(kept == trim_end(body));
    if value.len() > 0 {
        assert(body.last() == value.last());
        assert(kept == body);
        assert forall|i: int| 0 <= i < key.len() implies body[i] != ' ' by {
            assert(body[i] == key[i]);
            assert(!is_whitespace(key[i]));
        }
        lemma_first_char_at(body, ' ', 0, key.len() as int);
        assert(body.take(key.len() as int) =~= key);
        assert(body.skip(key.len() as int) =~= seq![' '] + value);
        lemma_trim_start_drops(value, ' ');
        lemma_trim_keeps(value);
        assert(trim_start(value) == value);
        assert(trim(seq![' '] + value) == value);
    } else {
        assert(body =~= key.push(' '));
        lemma_trim_end_drops(key, ' ');
        assert(key.last() == key[key.len() - 1]);
        assert(!is_whitespace(key[key.len() - 1]));
        assert(kept == key);
        assert forall|i: int| 0 <= i < key.len() implies key[i] != ' ' by {
            assert(!is_whitespace(key[i]));
        }
        lemma_first_char_at(key, ' ', 0, key.len() as int);
        assert(key.take(key.len() as int) =~= key);
        assert(key.skip(key.len() as int) =~= Seq::<char>::empty());
        assert(value =~= Seq::<char>::empty());
    }
    assert(key[key.len() - 1] == key.last());
    lemma_trim_keeps(key);
}

/// The line `DATA` ends the headers.
pub proof fn lemma_first_line_of_data(data: Seq<u8>)
    ensures
        trim(first_line(encode_utf8("DATA\n"@) + data).0) == "DATA"@,
        first_line(encode_utf8("DATA\n"@) + data).2 == data,
{
    reveal_strlit("DATA\n");
    reveal_strlit("DATA");
    let line = "DATA\n"@;
    let word = "DATA"@;
    assert(line =~= word.push('\n'));
    lemma_first_line_text(line, data);
    assert(trim_start(line) == line);
    lemma_trim_end_drops(word, '\n');
    assert(trim(line) == word);
    lemma_first_char_at(word, ' ', 0, 4);
    assert(word.take(4) =~= word);
    lemma_trim_keeps(word);
}

/// A frame reads back as it was written: its headers are those of its
/// lines, and its payload is its payload, byte for byte.
pub proof fn lemma_headers_round_trip(
    seen: Map<Seq<char>, Seq<char>>,
    lines: Seq<(Seq<char>, Seq<char>)>,
    data: Seq<u8>,
)
    requires
        are_lines(lines),
    ensures
        headers_from(seen, rendered(lines, data)) == (headers_with(seen, lines), data),
    decreases lines.len(),
{
    if lines.len() == 0 {
        let frame = encode_utf8("DATA\n"@) + data;
        lemma_first_line_of_data(data);
        reveal_strlit("DATA\n");
        is_ascii_chars_encode_utf8("DATA\n"@);
        assert(frame.len() > 0);
    } else {
        let key = lines[0].0;
        let value = lines[0].1;
        let rest = rendered(lines.drop_first(), data);
        let frame = encode_utf8(line_of(key, value)) + rest;
        lemma_first_line_of_header(key, value, rest);
        assert(line_of(key, value).len() > 0);
        assert(is_ascii_chars(line_of(key, value))) by {
            assert forall|i: int| 0 <= i < line_of(key, value).len() implies '\0'
                <= #[trigger] line_of(key, value)[i] <= '\u{7f}' by {
                if i < key.len() {
                    assert(line_of(key, value)[i] == key[i]);
                } else if i == key.len() {
                } else if i < key.len() + 1 + value.len() {
                    assert(line_of(key, value)[i] == value[i - key.len() - 1]);
                } else {
                }
            }
        }
        is_ascii_chars_encode_utf8(line_of(key, value));
        assert(frame.len() > 0);
        assert(are_lines(lines.drop_first())) by {
            assert forall|i: int| 0 <= i < lines.drop_first().len() implies is_key(
                (#[trigger] lines.drop_first()[i]).0,
            ) && is_value(lines.drop_first()[i].1) by {
                assert(lines.drop_first()[i] == lines[i + 1]);
            }
        }
        lemma_headers_round_trip(seen.insert(key, value), lines.drop_first(), data);
    }
}

/// `lemma_headers_round_trip` for a whole frame.
pub proof fn lemma_frame_round_trip(lines: Seq<(Seq<char>, Seq<char>)>, data: Seq<u8>)
    requires
        are_lines(lines),
    ensures
        headers_of(rendered(lines, data)) == (headers_with(Map::empty(), lines), data),
{
    lemma_headers_round_trip(Map::empty(), lines, data);
}

/// A decimal numeral can stand as the value of a header.
pub proof fn lemma_decimal_is_value(n: nat)
    ensures
        is_value(decimal_text(n)),
{
    lemma_decimal_text(n);
    let text = decimal_text(n);
    assert forall|i: int| 0 <= i < text.len() implies '\0' <= #[trigger] text[i] <= '\u{7f}'
        && text[i] != '\n' && !is_whitespace(text[i]) by {
        assert(is_digit(text[i]));
    }
    assert(!is_whitespace(text[0]));
    assert(!is_whitespace(text[text.len() - 1]));
}

/// The hyphenated form of an identifier can stand as the value of a header.
pub proof fn lemma_hyphenated_is_value(id: u128)
    ensures
        is_value(hyphenated(id)),
{
    let text = hyphenated(id);
    assert forall|i: int| 0 <= i < text.len() implies '\0' <= #[trigger] text[i] <= '\u{7f}'
        && text[i] != '\n' && !is_whitespace(text[i]) by {
        lemma_hex_char(nibble(id, i));
        lemma_hex_char(nibble(id, i - 1));
        lemma_hex_char(nibble(id, i - 2));
        lemma_hex_char(nibble(id, i - 3));
        lemma_hex_char(nibble(id, i - 4));
    }
    assert(!is_whitespace(text[0]));
    assert(!is_whitespace(text[text.len() - 1]));
}

/// A hexadecimal digit is a decimal digit or one of the letters `a` to `f`.
pub proof fn lemma_hex_char(d: nat)
    ensures
        ('0' <= hex_char(d) <= '9') || ('a' <= hex_char(d) <= 'f'),
{
}

/// The mnemonic of a verdict can stand as the value of a header.
pub proof fn lemma_mnemonic_is_value(verdict: Verdict)
    ensures
        is_value(verdict.mnemonic()),
{
    let text = verdict.mnemonic();
    assert(text.len() == 2);
    assert('A' <= text[0] <= 'Z' && 'A' <= text[1] <= 'Z');
    assert forall|i: int| 0 <= i < text.len() implies '\0' <= #[trigger] text[i] <= '\u{7f}'
        && text[i] != '\n' by {
        if i == 0 {
        } else {
            assert(i == 1);
        }
    }
    assert(text.last() == text[1]);
}

/// Text of `len` capital letters that starts with `first` and `second`.
pub open spec fn is_word(text: Seq<char>, len: nat, first: char, second: char) -> bool {
    &&& text.len() == len
    &&& len >= 2
    &&& text[0] == first
    &&& text[1] == second
    &&& forall|i: int| 0 <= i < text.len() ==> 'A' <= #[trigger] text[i] <= 'Z'
}

/// A word of capital letters other than `DATA` can stand as a key, and any
/// as a value.
pub proof fn lemma_word_is_key(text: Seq<char>, len: nat, first: char, second: char)
    requires
        is_word(text, len, first, second),
    ensures
        text != "DATA"@ ==> is_key(text),
        is_value(text),
{
    assert forall|i: int| 0 <= i < text.len() implies '\0' <= #[trigger] text[i] <= '\u{7f}'
        && !is_whitespace(text[i]) && text[i] != '\n' by {
        assert('A' <= text[i] <= 'Z');
    }
    assert(!is_whitespace(text[0]));
    assert(!is_whitespace(text[text.len() - 1]));
}

/// The words of the protocol, each by its length and its first two letters.
pub proof fn lemma_words()
    ensures
        is_word("TYPE"@, 4, 'T', 'Y'),
        is_word("ID"@, 2, 'I', 'D'),
        is_word("KEY"@, 3, 'K', 'E'),
        is_word("NAME"@, 4, 'N', 'A'),
        is_word("SUM"@, 3, 'S', 'U'),
        is_word("GROUPS"@, 6, 'G', 'R'),
        is_word("MESSAGE"@, 7, 'M', 'E'),
        is_word("VERDICT"@, 7, 'V', 'E'),
        is_word("TIME"@, 4, 'T', 'I'),
        is_word("MEMORY"@, 6, 'M', 'E'),
        is_word("CODE"@, 4, 'C', 'O'),
        is_word("TOKEN"@, 5, 'T', 'O'),
        is_word("SIGNED"@, 6, 'S', 'I'),
        is_word("TEST"@, 4, 'T', 'E'),
        is_word("EXITED"@, 6, 'E', 'X'),
        is_word("ERROR"@, 5, 'E', 'R'),
        is_word("OPERROR"@, 7, 'O', 'P'),
        "DATA"@.len() == 4,
        "DATA"@[0] == 'D',
{
    reveal_strlit("TYPE");
    reveal_strlit("ID");
    reveal_strlit("KEY");
    reveal_strlit("NAME");
    reveal_strlit("SUM");
    reveal_strlit("GROUPS");
    reveal_strlit("MESSAGE");
    reveal_strlit("VERDICT");
    reveal_strlit("TIME");
    reveal_strlit("MEMORY");
    reveal_strlit("CODE");
    reveal_strlit("TOKEN");
    reveal_strlit("SIGNED");
    reveal_strlit("TEST");
    reveal_strlit("EXITED");
    reveal_strlit("ERROR");
    reveal_strlit("OPERROR");
    reveal_strlit("DATA");
}

/// Joined points start with the first group's points and a space.
pub proof fn lemma_joined_front(first: u8, rest: Seq<u8>)
    requires
        rest.len() > 0,
    ensures
        joined(seq![first] + rest) == decimal_text(first as nat) + seq![' '] + joined(rest),
    decreases rest.len(),
{
    let all = seq![first] + rest;
    reveal_with_fuel(joined, 2);
    if rest.len() == 1 {
        assert(all.drop_last() =~= seq![first]);
        assert(all.last() == rest[0]);
        assert(joined(all) =~= decimal_text(first as nat) + seq![' '] + joined(rest));
    } else {
        assert(all.drop_last() =~= seq![first] + rest.drop_last());
        assert(all.last() == rest.last());
        lemma_joined_front(first, rest.drop_last());
        assert(joined(all) =~= decimal_text(first as nat) + seq![' '] + joined(rest));
    }
}

/// The points of groups, joined, consist of digits and single spaces, and
/// start and end with a digit.
pub proof fn lemma_joined_is_value(groups: Seq<u8>)
    requires
        groups.len() > 0,
    ensures
        is_value(joined(groups)),
        joined(groups).len() > 0,
    decreases groups.len(),
{
    let text = joined(groups);
    lemma_decimal_is_value(groups.last() as nat);
    lemma_decimal_text(groups.last() as nat);
    if groups.len() > 1 {
        lemma_joined_is_value(groups.drop_last());
        let head = joined(groups.drop_last());
        let tail = decimal_text(groups.last() as nat);
        assert(text =~= head + seq![' '] + tail);
        assert forall|i: int| 0 <= i < text.len() implies '\0' <= #[trigger] text[i]
            <= '\u{7f}' && text[i] != '\n' by {
            if i < head.len() {
                assert(text[i] == head[i]);
            } else if i == head.len() {
            } else {
                assert(text[i] == tail[i - head.len() - 1]);
            }
        }
        assert(text[0] == head[0]);
        assert(text.last() == tail.last());
    }
}

/// Points that were joined read back as they were, wherever in a text the
/// joined points start.
pub proof fn lemma_groups_round_trip(before: Seq<char>, groups: Seq<u8>)
    requires
        groups.len() > 0,
    ensures
        groups_from(before + joined(groups), before.len() as int) == groups,
    decreases groups.len(),
{
    let text = before + joined(groups);
    let from = before.len() as int;
    let first = decimal_text(groups[0] as nat);
    lemma_decimal_text(groups[0] as nat);
    lemma_decimal_round_trip(groups[0] as nat, 255);
    if groups.len() == 1 {
        assert(joined(groups) == first);
        assert forall|i: int| from <= i < text.len() implies text[i] != ' ' by {
            assert(text[i] == first[i - from]);
            assert(is_digit(first[i - from]));
        }
        lemma_first_char_at(text, ' ', from, text.len() as int);
        assert(text.subrange(from, text.len() as int) =~= first);
        assert(groups =~= seq![groups[0]]);
    } else {
        let rest = groups.drop_first();
        assert(groups =~= seq![groups[0]] + rest);
        lemma_joined_front(groups[0], rest);
        let cut = from + first.len();
        assert(text =~= before + first + seq![' '] + joined(rest));
        assert forall|i: int| from <= i < cut implies text[i] != ' ' by {
            assert(text[i] == first[i - from]);
            assert(is_digit(first[i - from]));
        }
        lemma_joined_is_value(rest);
        assert(text[cut] == ' ');
        lemma_first_char_at(text, ' ', from, cut);
        assert(text.subrange(from, cut) =~= first);
        let longer = before + first + seq![' '];
        assert(text =~= longer + joined(rest));
        lemma_groups_round_trip(longer, rest);
        assert(groups_from(text, cut + 1) == rest);
    }
}

/// One more line at the end is one more header on top of the others.
pub proof fn lemma_headers_with_push(
    seen: Map<Seq<char>, Seq<char>>,
    lines: Seq<(Seq<char>, Seq<char>)>,
    last: (Seq<char>, Seq<char>),
)
    ensures
        headers_with(seen, lines.push(last)) == headers_with(seen, lines).insert(last.0, last.1),
    decreases lines.len(),
{
    reveal_with_fuel(headers_with, 2);
    if lines.len() == 0 {
        assert(lines.push(last).drop_first() =~= Seq::<(Seq<char>, Seq<char>)>::empty());
    } else {
        assert(lines.push(last).drop_first() =~= lines.drop_first().push(last));
        lemma_headers_with_push(seen.insert(lines[0].0, lines[0].1), lines.drop_first(), last);
    }
}

/// One more line that can stand as such keeps a run of lines such a run.
pub proof fn lemma_are_lines_push(lines: Seq<(Seq<char>, Seq<char>)>, last: (Seq<char>, Seq<char>))
    requires
        are_lines(lines),
        is_key(last.0),
        is_value(last.1),
    ensures
        are_lines(lines.push(last)),
{
    assert forall|i: int| 0 <= i < lines.push(last).len() implies is_key(
        (#[trigger] lines.push(last)[i]).0,
    ) && is_value(lines.push(last)[i].1) by {
        if i < lines.len() {
            assert(lines.push(last)[i] == lines[i]);
        }
    }
}

/// The header lines of the frame that carries `message`.
pub open spec fn lines_of(message: InputMessageView) -> Seq<(Seq<char>, Seq<char>)> {
    match message {
        InputMessageView::Token { uuid, key } => seq![
            ("TYPE"@, "TOKEN"@),
            ("ID"@, hyphenated(uuid)),
            ("KEY"@, key),
        ],
        InputMessageView::Signed { .. } => seq![("TYPE"@, "SIGNED"@)],
        InputMessageView::Verdict { verdict, message } => match message {
            Ok((sum, groups)) => seq![
                ("TYPE"@, "VERDICT"@),
                ("NAME"@, verdict.mnemonic()),
                ("SUM"@, decimal_text(sum as nat)),
                ("GROUPS"@, joined(groups)),
            ],
            Err(text) => seq![
                ("TYPE"@, "VERDICT"@),
                ("NAME"@, verdict.mnemonic()),
                ("MESSAGE"@, text),
            ],
        },
        InputMessageView::TestVerdict { result, test, .. } => seq![
            ("TYPE"@, "TEST"@),
            ("ID"@, decimal_text(test as nat)),
            ("VERDICT"@, result.verdict.mnemonic()),
            ("TIME"@, result.time),
            ("MEMORY"@, decimal_text(result.memory as nat)),
        ],
        InputMessageView::Exited { exit_code, exit_message } => seq![
            ("TYPE"@, "EXITED"@),
            ("CODE"@, exit_code),
            ("MESSAGE"@, exit_message),
        ],
        InputMessageView::Error { message } => seq![("TYPE"@, "ERROR"@), ("MESSAGE"@, message)],
        InputMessageView::OpError { message } => seq![
            ("TYPE"@, "OPERROR"@),
            ("MESSAGE"@, message),
        ],
    }
}

/// The payload of the frame that carries `message`.
pub open spec fn payload_of(message: InputMessageView) -> Seq<u8> {
    match message {
        InputMessageView::Signed { signature } => signature,
        InputMessageView::TestVerdict { data, .. } => data,
        _ => Seq::empty(),
    }
}

/// The frame that carries `message`.
pub open spec fn frame_of(message: InputMessageView) -> Seq<u8> {
    rendered(lines_of(message), payload_of(message))
}

/// Whether a message can be written and read back: its texts can stand as
/// values of headers, a time is a literal, and a verdict closes with points
/// for at least one group exactly when it is `OK`.
pub open spec fn is_writable(message: InputMessageView) -> bool {
    match message {
        InputMessageView::Token { key, .. } => is_value(key),
        InputMessageView::Signed { .. } => true,
        InputMessageView::Verdict { verdict, message } => match message {
            Ok((sum, groups)) => verdict == Verdict::OK && groups.len() > 0,
            Err(text) => verdict != Verdict::OK && is_value(text),
        },
        InputMessageView::TestVerdict { result, .. } => is_value(result.time) && is_literal(
            result.time,
        ),
        InputMessageView::Exited { exit_code, exit_message } => is_value(exit_code) && is_value(
            exit_message,
        ),
        InputMessageView::Error { message } => is_value(message),
        InputMessageView::OpError { message } => is_value(message),
    }
}

/// The message as it is read back. Only the uuid of a `TOKEN` is not fixed
/// here: it is what the text of the uuid reads as, or `fallback`.
pub open spec fn read_back(message: InputMessageView, fallback: u128) -> InputMessageView {
    match message {
        InputMessageView::Token { uuid, key } => InputMessageView::Token {
            uuid: match parsed_uuid(hyphenated(uuid)) {
                Some(read) => read,
                None => fallback,
            },
            key,
        },
        _ => message,
    }
}

/// The lines of a message that can be written can stand as lines, and
/// amount to these headers.
pub proof fn lemma_lines_of(message: InputMessageView)
    requires
        is_writable(message),
    ensures
        are_lines(lines_of(message)),
        headers_of(frame_of(message)) == (
            headers_with(Map::empty(), lines_of(message)),
            payload_of(message),
        ),
{
    lemma_words();
    lemma_word_is_key("TYPE"@, 4, 'T', 'Y');
    lemma_word_is_key("ID"@, 2, 'I', 'D');
    lemma_word_is_key("KEY"@, 3, 'K', 'E');
    lemma_word_is_key("NAME"@, 4, 'N', 'A');
    lemma_word_is_key("SUM"@, 3, 'S', 'U');
    lemma_word_is_key("GROUPS"@, 6, 'G', 'R');
    lemma_word_is_key("MESSAGE"@, 7, 'M', 'E');
    lemma_word_is_key("VERDICT"@, 7, 'V', 'E');
    lemma_word_is_key("TIME"@, 4, 'T', 'I');
    lemma_word_is_key("MEMORY"@, 6, 'M', 'E');
    lemma_word_is_key("CODE"@, 4, 'C', 'O');
    lemma_word_is_key("TOKEN"@, 5, 'T', 'O');
    lemma_word_is_key("SIGNED"@, 6, 'S', 'I');
    lemma_word_is_key("TEST"@, 4, 'T', 'E');
    lemma_word_is_key("EXITED"@, 6, 'E', 'X');
    lemma_word_is_key("ERROR"@, 5, 'E', 'R');
    lemma_word_is_key("OPERROR"@, 7, 'O', 'P');
    let none = Seq::<(Seq<char>, Seq<char>)>::empty();
    assert(are_lines(none));
    match message {
        InputMessageView::Token { uuid, key } => {
            lemma_hyphenated_is_value(uuid);
            lemma_are_lines_push(none, ("TYPE"@, "TOKEN"@));
            lemma_are_lines_push(none.push(("TYPE"@, "TOKEN"@)), ("ID"@, hyphenated(uuid)));
            lemma_are_lines_push(
                none.push(("TYPE"@, "TOKEN"@)).push(("ID"@, hyphenated(uuid))),
                ("KEY"@, key),
            );
        },
        InputMessageView::Signed { .. } => {
            lemma_are_lines_push(none, ("TYPE"@, "SIGNED"@));
        },
        InputMessageView::Verdict { verdict, message } => {
            lemma_mnemonic_is_value(verdict);
            lemma_are_lines_push(none, ("TYPE"@, "VERDICT"@));
            lemma_are_lines_push(none.push(("TYPE"@, "VERDICT"@)), ("NAME"@, verdict.mnemonic()));
            let two = none.push(("TYPE"@, "VERDICT"@)).push(("NAME"@, verdict.mnemonic()));
            match message {
                Ok((sum, groups)) => {
                    lemma_decimal_is_value(sum as nat);
                    lemma_joined_is_value(groups);
                    lemma_are_lines_push(two, ("SUM"@, decimal_text(sum as nat)));
                    lemma_are_lines_push(
                        two.push(("SUM"@, decimal_text(sum as nat))),
                        ("GROUPS"@, joined(groups)),
                    );
                },
                Err(text) => {
                    lemma_are_lines_push(two, ("MESSAGE"@, text));
                },
            }
        },
        InputMessageView::TestVerdict { result, test, .. } => {
            lemma_mnemonic_is_value(result.verdict);
            lemma_decimal_is_value(test as nat);
            lemma_decimal_is_value(result.memory as nat);
            lemma_are_lines_push(none, ("TYPE"@, "TEST"@));
            let one = none.push(("TYPE"@, "TEST"@));
            lemma_are_lines_push(one, ("ID"@, decimal_text(test as nat)));
            let two = one.push(("ID"@, decimal_text(test as nat)));
            lemma_are_lines_push(two, ("VERDICT"@, result.verdict.mnemonic()));
            let three = two.push(("VERDICT"@, result.verdict.mnemonic()));
            lemma_are_lines_push(three, ("TIME"@, result.time));
            let four = three.push(("TIME"@, result.time));
            lemma_are_lines_push(four, ("MEMORY"@, decimal_text(result.memory as nat)));
        },
        InputMessageView::Exited { exit_code, exit_message } => {
            lemma_are_lines_push(none, ("TYPE"@, "EXITED"@));
            lemma_are_lines_push(none.push(("TYPE"@, "EXITED"@)), ("CODE"@, exit_code));
            lemma_are_lines_push(
                none.push(("TYPE"@, "EXITED"@)).push(("CODE"@, exit_code)),
                ("MESSAGE"@, exit_message),
            );
        },
        InputMessageView::Error { message } => {
            lemma_are_lines_push(none, ("TYPE"@, "ERROR"@));
            lemma_are_lines_push(none.push(("TYPE"@, "ERROR"@)), ("MESSAGE"@, message));
        },
        InputMessageView::OpError { message } => {
            lemma_are_lines_push(none, ("TYPE"@, "OPERROR"@));
            lemma_are_lines_push(none.push(("TYPE"@, "OPERROR"@)), ("MESSAGE"@, message));
        },
    }
    lemma_frame_round_trip(lines_of(message), payload_of(message));
}

/// Whether the uuid of a message reads back from its text. Only a `TOKEN`
/// has one.
pub open spec fn uuid_reads_back(message: InputMessageView) -> bool {
    match message {
        InputMessageView::Token { uuid, .. } => parsed_uuid(hyphenated(uuid)) == Some(uuid),
        _ => true,
    }
}

/// A message that can be written reads back, from the frame that carries
/// it, as the message it was, the uuid of a `TOKEN` aside; and the `TOKEN`
/// too where the text of its uuid reads back as the uuid.
pub proof fn lemma_message_round_trip(message: InputMessageView, fallback: u128)
    requires
        is_writable(message),
    ensures
        message_of(
            headers_of(frame_of(message)).0,
            headers_of(frame_of(message)).1,
            fallback,
        ) == Ok::<InputMessageView, Seq<char>>(read_back(message, fallback)),
        uuid_reads_back(message) ==> message_of(
            headers_of(frame_of(message)).0,
            headers_of(frame_of(message)).1,
            fallback,
        ) == Ok::<InputMessageView, Seq<char>>(message),
{
    lemma_lines_of(message);
    lemma_words();
    let none = Seq::<(Seq<char>, Seq<char>)>::empty();
    let nothing = Map::<Seq<char>, Seq<char>>::empty();
    let whole = message;
    let headers = headers_with(nothing, lines_of(message));
    assert(headers_with(nothing, none) == nothing);
    match message {
        InputMessageView::Token { uuid, key } => {
            let one = none.push(("TYPE"@, "TOKEN"@));
            let two = one.push(("ID"@, hyphenated(uuid)));
            lemma_headers_with_push(nothing, none, ("TYPE"@, "TOKEN"@));
            lemma_headers_with_push(nothing, one, ("ID"@, hyphenated(uuid)));
            lemma_headers_with_push(nothing, two, ("KEY"@, key));
            assert(lines_of(whole) =~= two.push(("KEY"@, key)));
            assert(headers == nothing.insert("TYPE"@, "TOKEN"@).insert(
                "ID"@,
                hyphenated(uuid),
            ).insert("KEY"@, key));
        },
        InputMessageView::Signed { .. } => {
            lemma_headers_with_push(nothing, none, ("TYPE"@, "SIGNED"@));
            assert(lines_of(whole) =~= none.push(("TYPE"@, "SIGNED"@)));
            assert(headers == nothing.insert("TYPE"@, "SIGNED"@));
        },
        InputMessageView::Verdict { verdict, message } => {
            let one = none.push(("TYPE"@, "VERDICT"@));
            let two = one.push(("NAME"@, verdict.mnemonic()));
            lemma_headers_with_push(nothing, none, ("TYPE"@, "VERDICT"@));
            lemma_headers_with_push(nothing, one, ("NAME"@, verdict.mnemonic()));
            Verdict::lemma_round_trip(verdict);
            match message {
                Ok((sum, groups)) => {
                    let three = two.push(("SUM"@, decimal_text(sum as nat)));
                    lemma_headers_with_push(nothing, two, ("SUM"@, decimal_text(sum as nat)));
                    lemma_headers_with_push(nothing, three, ("GROUPS"@, joined(groups)));
                    assert(lines_of(whole) =~= three.push(("GROUPS"@, joined(groups))));
                    assert(headers == nothing.insert("TYPE"@, "VERDICT"@).insert(
                        "NAME"@,
                        verdict.mnemonic(),
                    ).insert("SUM"@, decimal_text(sum as nat)).insert("GROUPS"@, joined(groups)));
                    lemma_decimal_round_trip(sum as nat, 255);
                    lemma_groups_round_trip(Seq::empty(), groups);
                    assert(Seq::<char>::empty() + joined(groups) =~= joined(groups));
                },
                Err(text) => {
                    lemma_headers_with_push(nothing, two, ("MESSAGE"@, text));
                    assert(lines_of(whole) =~= two.push(("MESSAGE"@, text)));
                    assert(headers == nothing.insert("TYPE"@, "VERDICT"@).insert(
                        "NAME"@,
                        verdict.mnemonic(),
                    ).insert("MESSAGE"@, text));
                },
            }
        },
        InputMessageView::TestVerdict { result, test, data } => {
            let one = none.push(("TYPE"@, "TEST"@));
            let two = one.push(("ID"@, decimal_text(test as nat)));
            let three = two.push(("VERDICT"@, result.verdict.mnemonic()));
            let four = three.push(("TIME"@, result.time));
            lemma_headers_with_push(nothing, none, ("TYPE"@, "TEST"@));
            lemma_headers_with_push(nothing, one, ("ID"@, decimal_text(test as nat)));
            lemma_headers_with_push(nothing, two, ("VERDICT"@, result.verdict.mnemonic()));
            lemma_headers_with_push(nothing, three, ("TIME"@, result.time));
            lemma_headers_with_push(nothing, four, ("MEMORY"@, decimal_text(result.memory as nat)));
            assert(lines_of(whole) =~= four.push(
                ("MEMORY"@, decimal_text(result.memory as nat)),
            ));
            assert(headers == nothing.insert("TYPE"@, "TEST"@).insert(
                "ID"@,
                decimal_text(test as nat),
            ).insert("VERDICT"@, result.verdict.mnemonic()).insert("TIME"@, result.time).insert(
                "MEMORY"@,
                decimal_text(result.memory as nat),
            ));
            Verdict::lemma_round_trip(result.verdict);
            lemma_decimal_round_trip(test as nat, 0xffff);
            lemma_decimal_round_trip(result.memory as nat, 0xffff_ffff);
        },
        InputMessageView::Exited { exit_code, exit_message } => {
            let one = none.push(("TYPE"@, "EXITED"@));
            let two = one.push(("CODE"@, exit_code));
            lemma_headers_with_push(nothing, none, ("TYPE"@, "EXITED"@));
            lemma_headers_with_push(nothing, one, ("CODE"@, exit_code));
            lemma_headers_with_push(nothing, two, ("MESSAGE"@, exit_message));
            assert(lines_of(whole) =~= two.push(("MESSAGE"@, exit_message)));
            assert(headers == nothing.insert("TYPE"@, "EXITED"@).insert("CODE"@, exit_code).insert(
                "MESSAGE"@,
                exit_message,
            ));
        },
        InputMessageView::Error { message } => {
            let one = none.push(("TYPE"@, "ERROR"@));
            lemma_headers_with_push(nothing, none, ("TYPE"@, "ERROR"@));
            lemma_headers_with_push(nothing, one, ("MESSAGE"@, message));
            assert(lines_of(whole) =~= one.push(
                ("MESSAGE"@, message),
            ));
            assert(headers == nothing.insert("TYPE"@, "ERROR"@).insert("MESSAGE"@, message));
        },
        InputMessageView::OpError { message } => {
            let one = none.push(("TYPE"@, "OPERROR"@));
            lemma_headers_with_push(nothing, none, ("TYPE"@, "OPERROR"@));
            lemma_headers_with_push(nothing, one, ("MESSAGE"@, message));
            assert(lines_of(whole) =~= one.push(
                ("MESSAGE"@, message),
            ));
            assert(headers == nothing.insert("TYPE"@, "OPERROR"@).insert("MESSAGE"@, message));
        },
    }
}

} // verus!
