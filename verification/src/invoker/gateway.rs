//! Frames exchanged with an invoker.
//!
//! A frame is a run of header lines `KEY VALUE`, each ended by a line feed,
//! then a line `DATA`, then an opaque payload.

use vstd::prelude::*;
use vstd::slice::slice_to_vec;
use vstd::string::StrSliceExecFns;
use vstd::string::StringExecFns;
use vstd::utf8::encode_utf8;
use crate::identifier::{parse_uuid, parsed_uuid, random_uuid};
use crate::seconds::{is_literal, Seconds};
use crate::submission::{Submission, SubmissionView};
use crate::text::{
    chars_of, number_or, parse_bounded, parse_bounded_range, str_eq, trim, trim_range, trimmed,
    utf8_decoded, utf8_text,
};
use crate::verdict::{TestResult, TestResultView, Verdict};

verus! {

/// The codec of the invoker protocol.
pub struct Gateway;

/// How a verdict closes. On success it gives the sum and the points per
/// group, else a message.
pub type Summary = Result<(u8, Vec<u8>), String>;

/// A `Summary` as a mathematical value.
pub type SummaryView = Result<(u8, Seq<u8>), Seq<char>>;

/// The view of a `Summary`.
pub open spec fn summary_view(summary: Summary) -> SummaryView {
    match summary {
        Ok((sum, groups)) => Ok((sum, groups@)),
        Err(message) => Err(message@),
    }
}

/// A frame received from an invoker.
#[allow(inconsistent_fields)]
#[derive(Debug, PartialEq, Eq)]
pub enum InputMessage {
    Token { uuid: u128, key: String },
    Signed { signature: Vec<u8> },
    Verdict { verdict: Verdict, message: Summary },
    TestVerdict { result: TestResult, test: u16, data: Vec<u8> },
    Exited { exit_code: String, exit_message: String },
    Error { message: String },
    OpError { message: String },
}

/// An `InputMessage` as a mathematical value.
#[allow(inconsistent_fields)]
pub enum InputMessageView {
    Token { uuid: u128, key: Seq<char> },
    Signed { signature: Seq<u8> },
    Verdict { verdict: Verdict, message: SummaryView },
    TestVerdict { result: TestResultView, test: u16, data: Seq<u8> },
    Exited { exit_code: Seq<char>, exit_message: Seq<char> },
    Error { message: Seq<char> },
    OpError { message: Seq<char> },
}

impl View for InputMessage {
    type V = InputMessageView;

    open spec fn view(&self) -> InputMessageView {
        match *self {
            InputMessage::Token { uuid, key } => InputMessageView::Token { uuid, key: key@ },
            InputMessage::Signed { signature } => InputMessageView::Signed {
                signature: signature@,
            },
            InputMessage::Verdict { verdict, message } => InputMessageView::Verdict {
                verdict,
                message: summary_view(message),
            },
            InputMessage::TestVerdict { result, test, data } => InputMessageView::TestVerdict {
                result: result@,
                test,
                data: data@,
            },
            InputMessage::Exited { exit_code, exit_message } => InputMessageView::Exited {
                exit_code: exit_code@,
                exit_message: exit_message@,
            },
            InputMessage::Error { message } => InputMessageView::Error { message: message@ },
            InputMessage::OpError { message } => InputMessageView::OpError { message: message@ },
        }
    }
}

/// A frame sent to an invoker.
#[derive(Debug, PartialEq, Eq)]
pub enum OutputMessage {
    Challenge { nonce: Vec<u8> },
    Auth { ok: bool },
    TestSubmission { submission: Submission },
    StopTesting,
    CloseInvoker,
}

/// An `OutputMessage` as a mathematical value.
pub enum OutputMessageView {
    Challenge { nonce: Seq<u8> },
    Auth { ok: bool },
    TestSubmission { submission: SubmissionView },
    StopTesting,
    CloseInvoker,
}

impl View for OutputMessage {
    type V = OutputMessageView;

    open spec fn view(&self) -> OutputMessageView {
        match *self {
            OutputMessage::Challenge { nonce } => OutputMessageView::Challenge { nonce: nonce@ },
            OutputMessage::Auth { ok } => OutputMessageView::Auth { ok },
            OutputMessage::TestSubmission { submission } => OutputMessageView::TestSubmission {
                submission: submission@,
            },
            OutputMessage::StopTesting => OutputMessageView::StopTesting,
            OutputMessage::CloseInvoker => OutputMessageView::CloseInvoker,
        }
    }
}

/// The headers of a frame: for each key the value of its last line.
#[derive(Debug)]
pub struct Headers {
    pub(crate) entries: Vec<(String, String)>,
}

/// The map that a run of header lines amounts to: a later line replaces an
/// earlier one with the same key.
pub open spec fn entries_map(entries: Seq<(String, String)>) -> Map<Seq<char>, Seq<char>>
    decreases entries.len(),
{
    if entries.len() == 0 {
        Map::empty()
    } else {
        entries_map(entries.drop_last()).insert(entries.last().0@, entries.last().1@)
    }
}

impl View for Headers {
    type V = Map<Seq<char>, Seq<char>>;

    open(crate) spec fn view(&self) -> Map<Seq<char>, Seq<char>> {
        entries_map(self.entries@)
    }
}

impl Headers {
    /// No header.
    pub fn new() -> (r: Headers)
        ensures
            r@ == Map::<Seq<char>, Seq<char>>::empty(),
    {
        Headers { entries: Vec::new() }
    }

    /// Sets the value of `key`.
    pub fn insert(&mut self, key: String, value: String)
        ensures
            final(self)@ == old(self)@.insert(key@, value@),
    {
        self.entries.push((key, value));
        assert(self.entries@.drop_last() =~= old(self).entries@);
    }

    /// The value of `key`, if the frame has the header.
    pub fn get(&self, key: &str) -> (r: Option<&String>)
        ensures
            match r {
                Some(value) => self@.contains_key(key@) && self@[key@] == value@,
                None => !self@.contains_key(key@),
            },
    {
        let mut i: usize = self.entries.len();
        assert(self.entries@.take(i as int) =~= self.entries@);
        while i > 0
            invariant
                i <= self.entries.len(),
                self@.contains_key(key@) == entries_map(self.entries@.take(i as int)).contains_key(
                    key@,
                ),
                self@.contains_key(key@) ==> self@[key@] == entries_map(
                    self.entries@.take(i as int),
                )[key@],
            decreases i,
        {
            assert(self.entries@.take(i as int).drop_last() =~= self.entries@.take(i as int - 1));
            let entry = &self.entries[i - 1];
            if str_eq(entry.0.as_str(), key) {
                return Some(&entry.1);
            }
            i -= 1;
        }
        None
    }
}

/// The place of the first line feed at or after `from`, or the length where
/// there is none.
pub open spec fn line_feed(bytes: Seq<u8>, from: int) -> int
    decreases bytes.len() - from,
{
    if 0 <= from < bytes.len() && bytes[from] != 10 {
        line_feed(bytes, from + 1)
    } else {
        from
    }
}

/// The length of the first line, its line feed included.
pub open spec fn line_end(bytes: Seq<u8>) -> int {
    let at = line_feed(bytes, 0);
    if at < bytes.len() {
        at + 1
    } else {
        at
    }
}

/// The text of a line: what its bytes encode, or the word `UNDEFINED` where
/// they are no UTF-8.
pub open spec fn line_text(line: Seq<u8>) -> Seq<char> {
    match utf8_decoded(line) {
        Some(text) => text,
        None => "UNDEFINED"@,
    }
}

/// The place of the first `wanted` at or after `from`, or the length where
/// there is none.
pub open spec fn first_char(text: Seq<char>, wanted: char, from: int) -> int
    decreases text.len() - from,
{
    if 0 <= from < text.len() && text[from] != wanted {
        first_char(text, wanted, from + 1)
    } else {
        from
    }
}

/// The first line of `bytes` in three parts: the trimmed line up to its
/// first space, the rest of the trimmed line from that space on, and the
/// bytes after the line.
pub open spec fn first_line(bytes: Seq<u8>) -> (Seq<char>, Seq<char>, Seq<u8>) {
    let end = line_end(bytes);
    let text = trim(line_text(bytes.take(end)));
    let cut = first_char(text, ' ', 0);
    (text.take(cut), text.skip(cut), bytes.skip(end))
}

/// The first line feed is looked for forwards and within the bytes.
pub proof fn lemma_line_feed_bounds(bytes: Seq<u8>, from: int)
    requires
        0 <= from <= bytes.len(),
    ensures
        from <= line_feed(bytes, from) <= bytes.len(),
    decreases bytes.len() - from,
{
    if from < bytes.len() && bytes[from] != 10 {
        lemma_line_feed_bounds(bytes, from + 1);
    }
}

/// The headers and the payload of a frame, read from `bytes` on top of the
/// headers `seen` so far: header lines up to the line `DATA` or the end of
/// the bytes, then the payload.
pub open spec fn headers_from(seen: Map<Seq<char>, Seq<char>>, bytes: Seq<u8>) -> (
    Map<Seq<char>, Seq<char>>,
    Seq<u8>,
)
    decreases bytes.len(),
    via headers_from_decreases
{
    if bytes.len() == 0 {
        (seen, bytes)
    } else {
        let line = first_line(bytes);
        if trim(line.0) == "DATA"@ {
            (seen, line.2)
        } else {
            headers_from(seen.insert(trim(line.0), trim(line.1)), line.2)
        }
    }
}

#[via_fn]
proof fn headers_from_decreases(seen: Map<Seq<char>, Seq<char>>, bytes: Seq<u8>) {
    lemma_line_feed_bounds(bytes, 0);
}

/// The headers and the payload of a frame.
pub open spec fn headers_of(bytes: Seq<u8>) -> (Map<Seq<char>, Seq<char>>, Seq<u8>) {
    headers_from(Map::empty(), bytes)
}

/// The value of a header, or `default` where the frame lacks the header.
pub open spec fn text_or(
    headers: Map<Seq<char>, Seq<char>>,
    key: Seq<char>,
    default: Seq<char>,
) -> Seq<char> {
    if headers.contains_key(key) {
        headers[key]
    } else {
        default
    }
}

/// The points of the groups: `text` from `from` on is cut at every space,
/// and each piece is read as a number up to 255; a piece that is none
/// counts 0.
pub open spec fn groups_from(text: Seq<char>, from: int) -> Seq<u8>
    decreases text.len() - from,
    via groups_from_decreases
{
    let cut = first_char(text, ' ', from);
    let points = number_or(text.subrange(from, cut), 255, 0) as u8;
    if 0 <= from <= cut < text.len() {
        seq![points] + groups_from(text, cut + 1)
    } else {
        seq![points]
    }
}

#[via_fn]
proof fn groups_from_decreases(text: Seq<char>, from: int) {
}

/// The time that a header value states: the value where it is a literal,
/// zero where it is not.
pub open spec fn seconds_or_zero(text: Seq<char>) -> Seq<char> {
    if is_literal(text) {
        text
    } else {
        Seconds::zero_text()
    }
}

/// What closes a verdict. With the verdict `OK` it is the sum and the points
/// of the groups, each 0 where the header is missing or no number; with any
/// other verdict it is the message.
pub open spec fn summary_of(headers: Map<Seq<char>, Seq<char>>, verdict: Verdict) -> SummaryView {
    if verdict == Verdict::OK {
        Ok(
            (
                number_or(text_or(headers, "SUM"@, "0"@), 255, 0) as u8,
                groups_from(text_or(headers, "GROUPS"@, "0"@), 0),
            ),
        )
    } else {
        Err(text_or(headers, "MESSAGE"@, "Undefined error message"@))
    }
}

/// The message that a frame with these headers and this payload carries.
/// A frame without the header `TYPE`, or with a type that no message has,
/// carries none. A number that is missing or is no number counts 0, and a
/// time that is no literal counts zero. `fallback` is the uuid of a `TOKEN`
/// whose `ID` is none.
pub open spec fn message_of(
    headers: Map<Seq<char>, Seq<char>>,
    data: Seq<u8>,
    fallback: u128,
) -> Result<InputMessageView, Seq<char>> {
    if !headers.contains_key("TYPE"@) {
        Err("Message doesn't contain TYPE header"@)
    } else if headers["TYPE"@] == "TOKEN"@ {
        Ok(
            InputMessageView::Token {
                uuid: match parsed_uuid(text_or(headers, "ID"@, ""@)) {
                    Some(uuid) => uuid,
                    None => fallback,
                },
                key: text_or(headers, "KEY"@, ""@),
            },
        )
    } else if headers["TYPE"@] == "SIGNED"@ {
        Ok(InputMessageView::Signed { signature: data })
    } else if headers["TYPE"@] == "VERDICT"@ {
        let verdict = Verdict::of_text(text_or(headers, "NAME"@, "UV"@));
        Ok(InputMessageView::Verdict { verdict, message: summary_of(headers, verdict) })
    } else if headers["TYPE"@] == "TEST"@ {
        Ok(
            InputMessageView::TestVerdict {
                result: TestResultView {
                    verdict: Verdict::of_text(text_or(headers, "VERDICT"@, "UV"@)),
                    time: seconds_or_zero(text_or(headers, "TIME"@, ""@)),
                    memory: number_or(text_or(headers, "MEMORY"@, ""@), 0xffff_ffff, 0) as u32,
                },
                test: number_or(text_or(headers, "ID"@, ""@), 0xffff, 0) as u16,
                data,
            },
        )
    } else if headers["TYPE"@] == "EXITED"@ {
        Ok(
            InputMessageView::Exited {
                exit_code: text_or(headers, "CODE"@, "0"@),
                exit_message: text_or(headers, "MESSAGE"@, "0"@),
            },
        )
    } else if headers["TYPE"@] == "ERROR"@ {
        Ok(InputMessageView::Error { message: text_or(headers, "MESSAGE"@, ""@) })
    } else if headers["TYPE"@] == "OPERROR"@ {
        Ok(InputMessageView::OpError { message: text_or(headers, "MESSAGE"@, ""@) })
    } else {
        Err("Can't parse message"@)
    }
}

/// Whether the frame is a `TOKEN` whose `ID` is no uuid.
pub open spec fn lacks_uuid(headers: Map<Seq<char>, Seq<char>>) -> bool {
    headers.contains_key("TYPE"@) && headers["TYPE"@] == "TOKEN"@ && parsed_uuid(
        text_or(headers, "ID"@, ""@),
    ).is_none()
}

/// The outcome of reading a frame as a mathematical value.
pub open spec fn decoded_view(r: Result<InputMessage, String>) -> Result<
    InputMessageView,
    Seq<char>,
> {
    match r {
        Ok(message) => Ok(message@),
        Err(reason) => Err(reason@),
    }
}

/// The uuid of a `TOKEN`; zero for anything else.
pub open spec fn token_uuid(r: Result<InputMessageView, Seq<char>>) -> u128 {
    match r {
        Ok(InputMessageView::Token { uuid, .. }) => uuid,
        _ => 0,
    }
}

/// The numbers that the lines of `text` from `from` on state. A line ends
/// at a line feed, or at a carriage return and a line feed, or with the
/// text. A number is read up to 255; a line that states none counts 0.
pub open spec fn numbers_from(text: Seq<char>, from: int) -> Seq<u8>
    decreases text.len() - from,
    via numbers_from_decreases
{
    if 0 <= from < text.len() {
        let feed = first_char(text, '\n', from);
        let end = if from < feed < text.len() && text[feed - 1] == '\r' {
            feed - 1
        } else {
            feed
        };
        let number = number_or(text.subrange(from, end), 255, 0) as u8;
        if from <= feed < text.len() {
            seq![number] + numbers_from(text, feed + 1)
        } else {
            seq![number]
        }
    } else {
        Seq::empty()
    }
}

#[via_fn]
proof fn numbers_from_decreases(text: Seq<char>, from: int) {
}

/// What bytes that are no UTF-8 are refused with.
pub open spec fn not_text() -> Seq<char> {
    "Bytes couldn't be parsed to string"@
}

/// The bytes of a frame for an invoker: its header lines, the line `DATA`,
/// and the payload where the frame has one.
pub open spec fn frame_of(message: OutputMessageView) -> Seq<u8> {
    match message {
        OutputMessageView::Challenge { nonce } => encode_utf8("TYPE CHALLENGE\nDATA\n"@) + nonce,
        OutputMessageView::Auth { ok } => if ok {
            encode_utf8("TYPE AUTH\nOK 1\nDATA\n"@)
        } else {
            encode_utf8("TYPE AUTH\nOK 0\nDATA\n"@)
        },
        OutputMessageView::TestSubmission { submission } => encode_utf8("TYPE START\nDATA\n"@)
            + submission.data,
        OutputMessageView::StopTesting => encode_utf8("TYPE STOP\nDATA\n"@),
        OutputMessageView::CloseInvoker => encode_utf8("TYPE CLOSE\nDATA\n"@),
    }
}

fn scan_char(chars: &Vec<char>, wanted: char, from: usize) -> (r: usize)
    requires
        from <= chars.len(),
    ensures
        from <= r <= chars.len(),
        r == first_char(chars@, wanted, from as int),
{
    let mut at: usize = from;
    while at < chars.len() && chars[at] != wanted
        invariant
            from <= at <= chars.len(),
            first_char(chars@, wanted, from as int) == first_char(chars@, wanted, at as int),
        decreases chars.len() - at,
    {
        at += 1;
    }
    at
}

fn parse_groups(text: &str) -> (r: Vec<u8>)
    ensures
        r@ == groups_from(text@, 0),
{
    let chars = chars_of(text);
    let mut out: Vec<u8> = Vec::new();
    let mut from: usize = 0;
    loop
        invariant_except_break
            from <= chars.len(),
            groups_from(chars@, 0) == out@ + groups_from(chars@, from as int),
        ensures
            out@ == groups_from(chars@, 0),
        decreases chars.len() - from,
    {
        let cut = scan_char(&chars, ' ', from);
        let points: u8 = match parse_bounded_range(&chars, from, cut, 255) {
            Some(v) => v as u8,
            None => 0,
        };
        let ghost before = out@;
        out.push(points);
        if cut >= chars.len() {
            assert(out@ =~= before + seq![points]);
            break ;
        }
        assert(out@ + groups_from(chars@, cut + 1) =~= before + (seq![points] + groups_from(
            chars@,
            cut + 1,
        )));
        from = cut + 1;
    }
    out
}

fn header_or<'a>(headers: &'a Headers, key: &str, default: &'a str) -> (r: &'a str)
    ensures
        r@ == text_or(headers@, key@, default@),
{
    match headers.get(key) {
        Some(value) => value.as_str(),
        None => default,
    }
}

fn parse_summary(headers: &Headers, verdict: Verdict) -> (r: Summary)
    ensures
        summary_view(r) == summary_of(headers@, verdict),
{
    match verdict {
        Verdict::OK => {
            let sum: u8 = match parse_bounded(header_or(headers, "SUM", "0"), 255) {
                Some(v) => v as u8,
                None => 0,
            };
            let groups = parse_groups(header_or(headers, "GROUPS", "0"));
            Ok((sum, groups))
        },
        _ => Err(header_or(headers, "MESSAGE", "Undefined error message").to_owned()),
    }
}

impl Gateway {
    /// Splits `data` after its first line and the line at its first space.
    /// A line that is no UTF-8 reads as the word `UNDEFINED`.
    pub fn first_line_of_bytes(data: &[u8]) -> (r: (String, String, &[u8]))
        ensures
            r.0@ == first_line(data@).0,
            r.1@ == first_line(data@).1,
            r.2@ == first_line(data@).2,
    {
        let mut at: usize = 0;
        while at < data.len() && data[at] != 10
            invariant
                at <= data.len(),
                line_feed(data@, 0) == line_feed(data@, at as int),
            decreases data.len() - at,
        {
            at += 1;
        }
        let end: usize = if at < data.len() {
            at + 1
        } else {
            at
        };
        let (line, rest) = data.split_at(end);
        assert(line@ =~= data@.take(end as int));
        assert(rest@ =~= data@.skip(end as int));
        let text: &str = match utf8_text(line) {
            Some(text) => text,
            None => "UNDEFINED",
        };
        let chars = chars_of(text);
        let (a, b) = trim_range(&chars, 0, chars.len());
        assert(chars@.subrange(0, chars.len() as int) =~= chars@);
        let ghost kept = chars@.subrange(a as int, b as int);
        let mut cut: usize = a;
        while cut < b && chars[cut] != ' '
            invariant
                a <= cut <= b <= chars.len(),
                kept == chars@.subrange(a as int, b as int),
                first_char(kept, ' ', 0) == first_char(kept, ' ', cut - a),
            decreases b - cut,
        {
            cut += 1;
        }
        assert(kept.take(cut - a) =~= chars@.subrange(a as int, cut as int));
        assert(kept.skip(cut - a) =~= chars@.subrange(cut as int, b as int));
        let key = text.substring_char(a, cut).to_owned();
        let value = text.substring_char(cut, b).to_owned();
        (key, value, rest)
    }

    /// Reads bytes as lines of text with one number each. Bytes that are no
    /// UTF-8 are refused.
    pub fn to_vec_u8(bytes: Vec<u8>) -> (r: Result<Vec<u8>, String>)
        ensures
            match r {
                Ok(numbers) => utf8_decoded(bytes@).is_some() && numbers@ == numbers_from(
                    utf8_decoded(bytes@).unwrap(),
                    0,
                ),
                Err(reason) => utf8_decoded(bytes@).is_none() && reason@ == not_text(),
            },
    {
        let text: &str = match utf8_text(bytes.as_slice()) {
            Some(text) => text,
            None => {
                return Err(String::from_str("Bytes couldn't be parsed to string"));
            },
        };
        let chars = chars_of(text);
        let mut out: Vec<u8> = Vec::new();
        let mut from: usize = 0;
        while from < chars.len()
            invariant
                numbers_from(chars@, 0) == out@ + numbers_from(chars@, from as int),
            decreases chars.len() - from,
        {
            let feed = scan_char(&chars, '\n', from);
            let end: usize = if from < feed && feed < chars.len() && chars[feed - 1] == '\r' {
                feed - 1
            } else {
                feed
            };
            let number: u8 = match parse_bounded_range(&chars, from, end, 255) {
                Some(v) => v as u8,
                None => 0,
            };
            let ghost before = out@;
            out.push(number);
            if feed == chars.len() {
                assert(out@ + numbers_from(chars@, feed as int) =~= before + seq![number]);
                from = feed;
            } else {
                assert(out@ + numbers_from(chars@, feed + 1) =~= before + (seq![number]
                    + numbers_from(chars@, feed + 1)));
                from = feed + 1;
            }
        }
        assert(out@ + numbers_from(chars@, from as int) =~= out@);
        Ok(out)
    }

    /// Reads the headers and the payload of a frame.
    pub fn parse_headers(bytes: Vec<u8>) -> (r: (Headers, Vec<u8>))
        ensures
            r.0@ == headers_of(bytes@).0,
            r.1@ == headers_of(bytes@).1,
    {
        let mut headers = Headers::new();
        let mut data: &[u8] = bytes.as_slice();
        loop
            invariant_except_break
                headers_of(bytes@) == headers_from(headers@, data@),
            ensures
                headers_of(bytes@) == (headers@, data@),
            decreases data@.len(),
        {
            if data.len() == 0 {
                break ;
            }
            proof {
                lemma_line_feed_bounds(data@, 0);
            }
            let (key, value, rest) = Gateway::first_line_of_bytes(data);
            let key = trimmed(key.as_str());
            let value = trimmed(value.as_str());
            data = rest;
            if str_eq(key.as_str(), "DATA") {
                break ;
            }
            headers.insert(key, value);
        }
        (headers, slice_to_vec(data))
    }

    /// Reads the message that a frame received from an invoker carries.
    pub fn read_message_from(data: Vec<u8>) -> (r: Result<InputMessage, String>)
        ensures
            decoded_view(r) == message_of(
                headers_of(data@).0,
                headers_of(data@).1,
                token_uuid(decoded_view(r)),
            ),
            !lacks_uuid(headers_of(data@).0) ==> forall|fallback: u128|
                decoded_view(r) == #[trigger] message_of(
                    headers_of(data@).0,
                    headers_of(data@).1,
                    fallback,
                ),
    {
        InputMessage::parse_from(data)
    }

    /// Writes the frame that carries `message` to an invoker.
    pub fn send_message_to(message: &OutputMessage) -> (r: Vec<u8>)
        ensures
            r@ == frame_of(message@),
    {
        message.parse_to()
    }
}

impl InputMessage {
    /// The `TOKEN` of an invoker with this key whose `ID` read as `read`:
    /// where it read as no uuid, `fallback` is the invoker's uuid.
    pub fn token(read: Option<u128>, fallback: u128, key: String) -> (r: InputMessage)
        ensures
            r@ == (InputMessageView::Token {
                uuid: match read {
                    Some(uuid) => uuid,
                    None => fallback,
                },
                key: key@,
            }),
    {
        let uuid = match read {
            Some(uuid) => uuid,
            None => fallback,
        };
        InputMessage::Token { uuid, key }
    }

    /// Reads the message out of a frame's headers and payload, as
    /// `message_of` says. `fallback` becomes the uuid of a `TOKEN` whose `ID`
    /// is no uuid.
    pub fn from_headers(headers: &Headers, data: Vec<u8>, fallback: u128) -> (r: Result<
        InputMessage,
        String,
    >)
        ensures
            decoded_view(r) == message_of(headers@, data@, fallback),
    {
        let kind: &str = match headers.get("TYPE") {
            Some(kind) => kind.as_str(),
            None => {
                return Err(String::from_str("Message doesn't contain TYPE header"));
            },
        };
        if str_eq(kind, "TOKEN") {
            let read = parse_uuid(header_or(headers, "ID", ""));
            Ok(InputMessage::token(read, fallback, header_or(headers, "KEY", "").to_owned()))
        } else if str_eq(kind, "SIGNED") {
            Ok(InputMessage::Signed { signature: data })
        } else if str_eq(kind, "VERDICT") {
            let verdict = Verdict::parse(header_or(headers, "NAME", "UV"));
            Ok(InputMessage::Verdict { verdict, message: parse_summary(headers, verdict) })
        } else if str_eq(kind, "TEST") {
            let test: u16 = match parse_bounded(header_or(headers, "ID", ""), 0xffff) {
                Some(v) => v as u16,
                None => 0,
            };
            let verdict = Verdict::parse(header_or(headers, "VERDICT", "UV"));
            let time = match Seconds::parse(header_or(headers, "TIME", "")) {
                Some(time) => time,
                None => Seconds::zero(),
            };
            let memory: u32 = match parse_bounded(header_or(headers, "MEMORY", ""), 0xffff_ffff) {
                Some(v) => v as u32,
                None => 0,
            };
            let result = TestResult { verdict, time, memory };
            Ok(InputMessage::TestVerdict { result, test, data })
        } else if str_eq(kind, "EXITED") {
            Ok(
                InputMessage::Exited {
                    exit_code: header_or(headers, "CODE", "0").to_owned(),
                    exit_message: header_or(headers, "MESSAGE", "0").to_owned(),
                },
            )
        } else if str_eq(kind, "ERROR") {
            Ok(InputMessage::Error { message: header_or(headers, "MESSAGE", "").to_owned() })
        } else if str_eq(kind, "OPERROR") {
            Ok(InputMessage::OpError { message: header_or(headers, "MESSAGE", "").to_owned() })
        } else {
            Err(String::from_str("Can't parse message"))
        }
    }

    /// Reads a frame. Total: a frame that carries no message is refused
    /// with a reason, never with a failure. The uuid of a `TOKEN` whose `ID`
    /// is no uuid is drawn at random; everything else is fixed by the bytes.
    pub fn parse_from(bytes: Vec<u8>) -> (r: Result<InputMessage, String>)
        ensures
            decoded_view(r) == message_of(
                headers_of(bytes@).0,
                headers_of(bytes@).1,
                token_uuid(decoded_view(r)),
            ),
            !lacks_uuid(headers_of(bytes@).0) ==> forall|fallback: u128|
                decoded_view(r) == #[trigger] message_of(
                    headers_of(bytes@).0,
                    headers_of(bytes@).1,
                    fallback,
                ),
    {
        let (headers, data) = Gateway::parse_headers(bytes);
        let lacking = match headers.get("TYPE") {
            Some(kind) => str_eq(kind.as_str(), "TOKEN") && parse_uuid(
                header_or(&headers, "ID", ""),
            ).is_none(),
            None => false,
        };
        let fallback: u128 = if lacking {
            random_uuid()
        } else {
            0
        };
        InputMessage::from_headers(&headers, data, fallback)
    }
}

impl OutputMessage {
    /// Writes the frame.
    pub fn parse_to(&self) -> (r: Vec<u8>)
        ensures
            r@ == frame_of(self@),
    {
        match self {
            OutputMessage::Challenge { nonce } => {
                let mut out = "TYPE CHALLENGE\nDATA\n".as_bytes_vec();
                let mut payload = nonce.clone();
                out.append(&mut payload);
                out
            },
            OutputMessage::Auth { ok } => {
                if *ok {
                    "TYPE AUTH\nOK 1\nDATA\n".as_bytes_vec()
                } else {
                    "TYPE AUTH\nOK 0\nDATA\n".as_bytes_vec()
                }
            },
            OutputMessage::TestSubmission { submission } => {
                let mut out = "TYPE START\nDATA\n".as_bytes_vec();
                let mut payload = submission.data.clone();
                out.append(&mut payload);
                out
            },
            OutputMessage::StopTesting => "TYPE STOP\nDATA\n".as_bytes_vec(),
            OutputMessage::CloseInvoker => "TYPE CLOSE\nDATA\n".as_bytes_vec(),
        }
    }
}

} // verus!
