//! Verdicts and per-test results.

use vstd::prelude::*;
use vstd::string::StringExecFns;
use crate::seconds::Seconds;
use crate::text::{decimal_string, decimal_text, str_eq};

verus! {

/// The outcome of a test or of a whole submission.
#[derive(Debug, Clone, Copy, PartialEq, Eq, Structural)]
pub enum Verdict {
    OK,
    WA,
    TL,
    RE,
    ML,
    /// Testing error.
    TE,
    CE,
    SL,
    /// Skipped.
    SK,
    PE,
    /// Unknown: what an unrecognised mnemonic reads as.
    UV,
}

impl Verdict {
    /// The two-letter wire spelling.
    pub open spec fn mnemonic(self) -> Seq<char> {
        match self {
            Verdict::OK => seq!['O', 'K'],
            Verdict::WA => seq!['W', 'A'],
            Verdict::TL => seq!['T', 'L'],
            Verdict::RE => seq!['R', 'E'],
            Verdict::ML => seq!['M', 'L'],
            Verdict::TE => seq!['T', 'E'],
            Verdict::CE => seq!['C', 'E'],
            Verdict::SL => seq!['S', 'L'],
            Verdict::SK => seq!['S', 'K'],
            Verdict::PE => seq!['P', 'E'],
            Verdict::UV => seq!['U', 'V'],
        }
    }

    /// The verdict that `text` spells; `UV` where it spells none.
    pub open spec fn of_text(text: Seq<char>) -> Verdict {
        if text == Verdict::OK.mnemonic() {
            Verdict::OK
        } else if text == Verdict::CE.mnemonic() {
            Verdict::CE
        } else if text == Verdict::TE.mnemonic() {
            Verdict::TE
        } else if text == Verdict::WA.mnemonic() {
            Verdict::WA
        } else if text == Verdict::TL.mnemonic() {
            Verdict::TL
        } else if text == Verdict::RE.mnemonic() {
            Verdict::RE
        } else if text == Verdict::ML.mnemonic() {
            Verdict::ML
        } else if text == Verdict::SL.mnemonic() {
            Verdict::SL
        } else if text == Verdict::SK.mnemonic() {
            Verdict::SK
        } else if text == Verdict::PE.mnemonic() {
            Verdict::PE
        } else {
            Verdict::UV
        }
    }

    /// The wire spelling of the verdict.
    pub fn name(&self) -> (r: &'static str)
        ensures
            r@ == self.mnemonic(),
    {
        proof {
            reveal_strlit("OK");
            reveal_strlit("WA");
            reveal_strlit("TL");
            reveal_strlit("RE");
            reveal_strlit("ML");
            reveal_strlit("TE");
            reveal_strlit("CE");
            reveal_strlit("SL");
            reveal_strlit("SK");
            reveal_strlit("PE");
            reveal_strlit("UV");
        }
        let r = match self {
            Verdict::OK => "OK",
            Verdict::WA => "WA",
            Verdict::TL => "TL",
            Verdict::RE => "RE",
            Verdict::ML => "ML",
            Verdict::TE => "TE",
            Verdict::CE => "CE",
            Verdict::SL => "SL",
            Verdict::SK => "SK",
            Verdict::PE => "PE",
            Verdict::UV => "UV",
        };
        assert(r@ =~= self.mnemonic());
        r
    }

    /// Reads a verdict. Total: whatever is no mnemonic reads as `UV`.
    pub fn parse(text: &str) -> (v: Verdict)
        ensures
            v == Verdict::of_text(text@),
    {
        if str_eq(text, Verdict::OK.name()) {
            Verdict::OK
        } else if str_eq(text, Verdict::CE.name()) {
            Verdict::CE
        } else if str_eq(text, Verdict::TE.name()) {
            Verdict::TE
        } else if str_eq(text, Verdict::WA.name()) {
            Verdict::WA
        } else if str_eq(text, Verdict::TL.name()) {
            Verdict::TL
        } else if str_eq(text, Verdict::RE.name()) {
            Verdict::RE
        } else if str_eq(text, Verdict::ML.name()) {
            Verdict::ML
        } else if str_eq(text, Verdict::SL.name()) {
            Verdict::SL
        } else if str_eq(text, Verdict::SK.name()) {
            Verdict::SK
        } else if str_eq(text, Verdict::PE.name()) {
            Verdict::PE
        } else {
            Verdict::UV
        }
    }

    /// Spelling a verdict and reading it back gives the verdict again, `UV`
    /// included.
    pub proof fn lemma_round_trip(v: Verdict)
        ensures
            Verdict::of_text(v.mnemonic()) == v,
    {
        let t = v.mnemonic();
        assert(t.len() == 2);
        assert(Verdict::OK.mnemonic()[0] == 'O' && Verdict::OK.mnemonic()[1] == 'K');
        assert(Verdict::CE.mnemonic()[0] == 'C' && Verdict::CE.mnemonic()[1] == 'E');
        assert(Verdict::TE.mnemonic()[0] == 'T' && Verdict::TE.mnemonic()[1] == 'E');
        assert(Verdict::WA.mnemonic()[0] == 'W' && Verdict::WA.mnemonic()[1] == 'A');
        assert(Verdict::TL.mnemonic()[0] == 'T' && Verdict::TL.mnemonic()[1] == 'L');
        assert(Verdict::RE.mnemonic()[0] == 'R' && Verdict::RE.mnemonic()[1] == 'E');
        assert(Verdict::ML.mnemonic()[0] == 'M' && Verdict::ML.mnemonic()[1] == 'L');
        assert(Verdict::SL.mnemonic()[0] == 'S' && Verdict::SL.mnemonic()[1] == 'L');
        assert(Verdict::SK.mnemonic()[0] == 'S' && Verdict::SK.mnemonic()[1] == 'K');
        assert(Verdict::PE.mnemonic()[0] == 'P' && Verdict::PE.mnemonic()[1] == 'E');
        assert(Verdict::UV.mnemonic()[0] == 'U' && Verdict::UV.mnemonic()[1] == 'V');
    }
}

impl From<&String> for Verdict {
    fn from(value: &String) -> (v: Verdict) {
        Verdict::parse(value.as_str())
    }
}

impl vstd::std_specs::convert::FromSpecImpl<&String> for Verdict {
    open spec fn obeys_from_spec() -> bool {
        true
    }

    open spec fn from_spec(value: &String) -> Verdict {
        Verdict::of_text(value@)
    }
}

/// What one test gave: its verdict, the time it ran and the memory it used.
#[derive(Debug, PartialEq, Eq)]
pub struct TestResult {
    pub verdict: Verdict,
    /// Seconds.
    pub time: Seconds,
    /// KiB.
    pub memory: u32,
}

/// A `TestResult` as a mathematical value.
pub struct TestResultView {
    pub verdict: Verdict,
    pub time: Seq<char>,
    pub memory: u32,
}

impl View for TestResult {
    type V = TestResultView;

    open spec fn view(&self) -> TestResultView {
        TestResultView { verdict: self.verdict, time: self.time@, memory: self.memory }
    }
}

impl TestResultView {
    /// The result of a test that has not run: skipped, zero seconds, no memory.
    pub open spec fn skipped() -> TestResultView {
        TestResultView { verdict: Verdict::SK, time: Seconds::zero_text(), memory: 0 }
    }

    /// The wire text: verdict, time and memory, with one space between them.
    pub open spec fn text(self) -> Seq<char> {
        self.verdict.mnemonic() + seq![' '] + self.time + seq![' '] + decimal_text(
            self.memory as nat,
        )
    }
}

/// The views of a run of results.
pub open spec fn results_view(results: Seq<TestResult>) -> Seq<TestResultView> {
    results.map_values(|r: TestResult| r@)
}

impl TestResult {
    /// The result of a test that has not run.
    pub fn new() -> (r: TestResult)
        ensures
            r@ == TestResultView::skipped(),
    {
        TestResult { verdict: Verdict::SK, time: Seconds::zero(), memory: 0 }
    }

    /// The wire text of the result.
    pub fn to_text(&self) -> (r: String)
        ensures
            r@ == self@.text(),
    {
        proof {
            reveal_strlit(" ");
        }
        let mut out = String::from_str(self.verdict.name());
        out.append(" ");
        out.append(self.time.as_str());
        out.append(" ");
        out.append(decimal_string(self.memory as u64).as_str());
        assert(" "@ =~= seq![' ']);
        assert(out@ =~= self@.text());
        out
    }
}

impl Clone for TestResult {
    fn clone(&self) -> (r: TestResult)
        ensures
            r@ == self@,
    {
        TestResult { verdict: self.verdict, time: self.time.clone(), memory: self.memory }
    }
}

/// `count` results of tests that have not run.
pub fn skipped_results(count: u16) -> (r: Vec<TestResult>)
    ensures
        results_view(r@) == Seq::new(count as nat, |i: int| TestResultView::skipped()),
{
    let mut out: Vec<TestResult> = Vec::new();
    let mut i: u16 = 0;
    while i < count
        invariant
            i <= count,
            out.len() == i,
            forall|k: int| 0 <= k < i ==> (#[trigger] out@[k])@ == TestResultView::skipped(),
        decreases count - i,
    {
        out.push(TestResult::new());
        i += 1;
    }
    assert(results_view(out@) =~= Seq::new(count as nat, |i: int| TestResultView::skipped()));
    out
}

/// A copy of `results`.
pub fn clone_results(results: &Vec<TestResult>) -> (r: Vec<TestResult>)
    ensures
        results_view(r@) == results_view(results@),
{
    let mut out: Vec<TestResult> = Vec::new();
    let mut i: usize = 0;
    while i < results.len()
        invariant
            i <= results.len(),
            out.len() == i,
            forall|k: int| 0 <= k < i ==> (#[trigger] out@[k])@ == results@[k]@,
        decreases results.len() - i,
    {
        out.push(results[i].clone());
        i += 1;
    }
    assert(results_view(out@) =~= results_view(results@));
    out
}

} // verus!
