//! Frames exchanged with the testing system.

use vstd::prelude::*;
use vstd::string::StrSliceExecFns;
use vstd::string::StringExecFns;
use vstd::utf8::encode_utf8;
use crate::identifier::{hyphenated, uuid_text};
use crate::invoker::gateway::{summary_view, Summary, SummaryView};
use crate::text::{decimal_string, decimal_text};
use crate::submission::{Submission, SubmissionView};
use crate::verdict::{results_view, TestResult, TestResultView, Verdict};

verus! {

/// The codec of the testing-system protocol.
pub struct Gateway;

/// A frame received from the testing system.
#[derive(Debug, PartialEq, Eq)]
pub enum InputMessage {
    SubmissionRun { submission: Submission },
}

/// An `InputMessage` as a mathematical value.
pub enum InputMessageView {
    SubmissionRun { submission: SubmissionView },
}

impl View for InputMessage {
    type V = InputMessageView;

    open spec fn view(&self) -> InputMessageView {
        match *self {
            InputMessage::SubmissionRun { submission } => InputMessageView::SubmissionRun {
                submission: submission@,
            },
        }
    }
}

/// A frame sent to the testing system.
#[derive(Debug, PartialEq, Eq)]
pub enum OutputMessage {
    TestVerdict { submission_uuid: u128, test: u16, result: TestResult, data: Vec<u8> },
    SubmissionVerdict {
        submission_uuid: u128,
        verdict: Verdict,
        tests_result: Vec<TestResult>,
        message: Summary,
    },
}

/// An `OutputMessage` as a mathematical value.
pub enum OutputMessageView {
    TestVerdict { submission_uuid: u128, test: u16, result: TestResultView, data: Seq<u8> },
    SubmissionVerdict {
        submission_uuid: u128,
        verdict: Verdict,
        tests_result: Seq<TestResultView>,
        message: SummaryView,
    },
}

impl View for OutputMessage {
    type V = OutputMessageView;

    open spec fn view(&self) -> OutputMessageView {
        match *self {
            OutputMessage::TestVerdict {
                submission_uuid,
                test,
                result,
                data,
            } => OutputMessageView::TestVerdict {
                submission_uuid,
                test,
                result: result@,
                data: data@,
            },
            OutputMessage::SubmissionVerdict {
                submission_uuid,
                verdict,
                tests_result,
                message,
            } => OutputMessageView::SubmissionVerdict {
                submission_uuid,
                verdict,
                tests_result: results_view(tests_result@),
                message: summary_view(message),
            },
        }
    }
}

/// The number that bytes denote, most significant byte first.
pub open spec fn be_value(bytes: Seq<u8>) -> nat
    decreases bytes.len(),
{
    if bytes.len() == 0 {
        0
    } else {
        be_value(bytes.drop_last()) * 256 + bytes.last() as nat
    }
}

/// 256 to the power of `n`.
pub open spec fn pow256(n: nat) -> nat
    decreases n,
{
    if n == 0 {
        1
    } else {
        256 * pow256((n - 1) as nat)
    }
}

/// `n` bytes denote a number below 256 to the power of `n`.
pub proof fn lemma_be_value_bound(bytes: Seq<u8>)
    ensures
        be_value(bytes) < pow256(bytes.len()),
    decreases bytes.len(),
{
    if bytes.len() > 0 {
        lemma_be_value_bound(bytes.drop_last());
    }
}

/// The submission that a frame from the testing system carries: bytes 0 to
/// 15 are its uuid, bytes 16 and 17 the number of its tests, most
/// significant byte first, and the rest is its data. A frame of fewer than
/// 18 bytes carries none.
pub open spec fn submission_of(bytes: Seq<u8>) -> Option<SubmissionView> {
    if bytes.len() < 18 {
        None
    } else {
        Some(
            SubmissionView {
                uuid: be_value(bytes.take(16)) as u128,
                tests_count: be_value(bytes.subrange(16, 18)) as u16,
                data: bytes.skip(18),
            },
        )
    }
}

/// What a frame that is too short is refused with.
pub open spec fn too_short() -> Seq<char> {
    "Frame is shorter than its fixed fields"@
}

fn read_be(bytes: &Vec<u8>, from: usize, count: usize) -> (r: u128)
    requires
        from + count <= bytes.len(),
        count <= 16,
    ensures
        r == be_value(bytes@.subrange(from as int, from + count)),
{
    let mut acc: u128 = 0;
    let mut i: usize = 0;
    proof {
        reveal_with_fuel(pow256, 17);
        assert(pow256(16) == 0x1_0000_0000_0000_0000_0000_0000_0000_0000);
    }
    while i < count
        invariant
            i <= count <= 16,
            from + count <= bytes.len(),
            acc == be_value(bytes@.subrange(from as int, from + i)),
            pow256(16) == 0x1_0000_0000_0000_0000_0000_0000_0000_0000,
        decreases count - i,
    {
        let ghost seen = bytes@.subrange(from as int, from + i);
        let ghost next = bytes@.subrange(from as int, from + i + 1);
        proof {
            assert(next.drop_last() =~= seen);
            lemma_be_value_bound(next);
            lemma_pow256_grows(next.len(), 16);
        }
        acc = acc * 256 + bytes[from + i] as u128;
        i += 1;
    }
    acc
}

/// Powers of 256 grow with the exponent.
pub proof fn lemma_pow256_grows(a: nat, b: nat)
    requires
        a <= b,
    ensures
        pow256(a) <= pow256(b),
    decreases b,
{
    if a < b {
        lemma_pow256_grows(a, (b - 1) as nat);
    }
}

impl InputMessage {
    /// Reads a frame from the testing system. A frame too short to hold the
    /// uuid and the number of tests is refused.
    pub fn try_from(bytes: Vec<u8>) -> (r: Result<InputMessage, String>)
        ensures
            match r {
                Ok(message) => submission_of(bytes@) == Some(message@->submission),
                Err(reason) => submission_of(bytes@).is_none() && reason@ == too_short(),
            },
    {
        if bytes.len() < 18 {
            return Err(String::from_str("Frame is shorter than its fixed fields"));
        }
        let uuid = read_be(&bytes, 0, 16);
        let count = read_be(&bytes, 16, 2);
        proof {
            lemma_be_value_bound(bytes@.subrange(16, 18));
            reveal_with_fuel(pow256, 3);
            assert(bytes@.take(16) =~= bytes@.subrange(0, 16));
        }
        let mut data: Vec<u8> = Vec::new();
        let mut i: usize = 18;
        while i < bytes.len()
            invariant
                18 <= i <= bytes.len(),
                data@ == bytes@.subrange(18, i as int),
            decreases bytes.len() - i,
        {
            data.push(bytes[i]);
            i += 1;
        }
        assert(data@ =~= bytes@.skip(18));
        Ok(
            InputMessage::SubmissionRun {
                submission: Submission { uuid, tests_count: count as u16, data },
            },
        )
    }
}

/// The points of the groups in decimal, with one space between them.
pub open spec fn joined(groups: Seq<u8>) -> Seq<char>
    decreases groups.len(),
{
    if groups.len() == 0 {
        Seq::empty()
    } else if groups.len() == 1 {
        decimal_text(groups[0] as nat)
    } else {
        joined(groups.drop_last()) + seq![' '] + decimal_text(groups.last() as nat)
    }
}

/// One line per result: its wire text and a line feed.
pub open spec fn result_lines(results: Seq<TestResultView>) -> Seq<char>
    decreases results.len(),
{
    if results.len() == 0 {
        Seq::empty()
    } else {
        result_lines(results.drop_last()) + results.last().text() + seq!['\n']
    }
}

/// The header lines that say how a verdict closes.
pub open spec fn summary_text(message: SummaryView) -> Seq<char> {
    match message {
        Ok((sum, groups)) => "SUM "@ + decimal_text(sum as nat) + "\nGROUPS "@ + joined(groups),
        Err(text) => "MESSAGE "@ + text,
    }
}

/// The text of a frame for the testing system, up to its payload.
pub open spec fn frame_text(message: OutputMessageView) -> Seq<char> {
    match message {
        OutputMessageView::TestVerdict { submission_uuid, test, result, data } =>
            "TYPE TEST\nSUBMISSION "@ + hyphenated(submission_uuid) + "\nTEST "@ + decimal_text(
            test as nat,
        ) + "\nVERDICT "@ + result.text() + "\nDATA\n"@,
        OutputMessageView::SubmissionVerdict { submission_uuid, verdict, tests_result, message } =>
            "TYPE VERDICT\nSUBMISSION "@ + hyphenated(submission_uuid) + "\nVERDICT "@
            + verdict.mnemonic() + "\n"@ + summary_text(message) + "\nDATA\n"@ + result_lines(
            tests_result,
        ),
    }
}

/// The bytes of a frame for the testing system: its text, and for the
/// report on one test the output of the test behind it.
pub open spec fn frame_of(message: OutputMessageView) -> Seq<u8> {
    match message {
        OutputMessageView::TestVerdict { data, .. } => encode_utf8(frame_text(message)) + data,
        OutputMessageView::SubmissionVerdict { .. } => encode_utf8(frame_text(message)),
    }
}

fn join_groups(groups: &Vec<u8>) -> (r: String)
    ensures
        r@ == joined(groups@),
{
    let mut out = String::new();
    let mut i: usize = 0;
    assert(groups@.take(0) =~= Seq::<u8>::empty());
    while i < groups.len()
        invariant
            i <= groups.len(),
            out@ == joined(groups@.take(i as int)),
        decreases groups.len() - i,
    {
        proof {
            reveal_strlit(" ");
            assert(groups@.take(i + 1).drop_last() =~= groups@.take(i as int));
            assert(" "@ =~= seq![' ']);
        }
        if i > 0 {
            out.append(" ");
        }
        out.append(decimal_string(groups[i] as u64).as_str());
        proof {
            if i == 0 {
                assert(out@ =~= decimal_text(groups@[0] as nat));
            }
        }
        i += 1;
    }
    assert(groups@.take(i as int) =~= groups@);
    out
}

impl OutputMessage {
    /// Writes the frame.
    pub fn to_bytes(&self) -> (r: Vec<u8>)
        ensures
            r@ == frame_of(self@),
    {
        proof {
            reveal_strlit("\n");
        }
        match self {
            OutputMessage::TestVerdict { submission_uuid, test, result, data } => {
                let mut text = String::from_str("TYPE TEST\nSUBMISSION ");
                text.append(uuid_text(*submission_uuid).as_str());
                text.append("\nTEST ");
                text.append(decimal_string(*test as u64).as_str());
                text.append("\nVERDICT ");
                text.append(result.to_text().as_str());
                text.append("\nDATA\n");
                let mut out = text.as_str().as_bytes_vec();
                let mut payload = data.clone();
                out.append(&mut payload);
                out
            },
            OutputMessage::SubmissionVerdict {
                submission_uuid,
                verdict,
                tests_result,
                message,
            } => {
                let mut text = String::from_str("TYPE VERDICT\nSUBMISSION ");
                text.append(uuid_text(*submission_uuid).as_str());
                text.append("\nVERDICT ");
                text.append(verdict.name());
                text.append("\n");
                match message {
                    Ok((sum, groups)) => {
                        text.append("SUM ");
                        text.append(decimal_string(*sum as u64).as_str());
                        text.append("\nGROUPS ");
                        text.append(join_groups(groups).as_str());
                    },
                    Err(reason) => {
                        text.append("MESSAGE ");
                        text.append(reason.as_str());
                    },
                }
                text.append("\nDATA\n");
                let ghost head = text@;
                assert(head =~= "TYPE VERDICT\nSUBMISSION "@ + hyphenated(*submission_uuid)
                    + "\nVERDICT "@ + verdict.mnemonic() + "\n"@ + summary_text(
                    summary_view(*message),
                ) + "\nDATA\n"@);
                let mut i: usize = 0;
                assert(tests_result@.take(0) =~= Seq::<TestResult>::empty());
                assert(text@ =~= head + result_lines(results_view(tests_result@.take(0))));
                while i < tests_result.len()
                    invariant
                        i <= tests_result.len(),
                        text@ == head + result_lines(results_view(tests_result@.take(i as int))),
                        "\n"@ == seq!['\n'],
                    decreases tests_result.len() - i,
                {
                    proof {
                        assert(results_view(tests_result@.take(i + 1)).drop_last() =~= results_view(
                            tests_result@.take(i as int),
                        ));
                    }
                    text.append(tests_result[i].to_text().as_str());
                    text.append("\n");
                    i += 1;
                }
                assert(tests_result@.take(i as int) =~= tests_result@);
                text.as_str().as_bytes_vec()
            },
        }
    }
}

impl Gateway {
    /// Reads the message that a frame received from the testing system
    /// carries.
    pub fn read_message_from(data: Vec<u8>) -> (r: Result<InputMessage, String>)
        ensures
            match r {
                Ok(message) => submission_of(data@) == Some(message@->submission),
                Err(reason) => submission_of(data@).is_none() && reason@ == too_short(),
            },
    {
        InputMessage::try_from(data)
    }

    /// Writes the frame that carries `message` to the testing system.
    pub fn send_message_to(message: &OutputMessage) -> (r: Vec<u8>)
        ensures
            r@ == frame_of(message@),
    {
        message.to_bytes()
    }
}

} // verus!
