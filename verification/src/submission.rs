//! A unit of gradable work.

use vstd::prelude::*;

verus! {

/// One submission: an opaque blob and the number of tests it is run against.
/// `uuid` is the 128-bit value of its identifier.
#[derive(Debug, PartialEq, Eq)]
pub struct Submission {
    pub uuid: u128,
    pub tests_count: u16,
    pub data: Vec<u8>,
}

/// A `Submission` as a mathematical value.
pub struct SubmissionView {
    pub uuid: u128,
    pub tests_count: u16,
    pub data: Seq<u8>,
}

impl View for Submission {
    type V = SubmissionView;

    open spec fn view(&self) -> SubmissionView {
        SubmissionView { uuid: self.uuid, tests_count: self.tests_count, data: self.data@ }
    }
}

impl Submission {
    /// A submission of `data` to be run against `tests_count` tests.
    pub fn new(uuid: u128, data: Vec<u8>, tests_count: u16) -> (r: Submission)
        ensures
            r@ == (SubmissionView { uuid, tests_count, data: data@ }),
    {
        Submission { uuid, data, tests_count }
    }
}

impl Clone for Submission {
    fn clone(&self) -> (r: Submission)
        ensures
            r@ == self@,
    {
        Submission { uuid: self.uuid, tests_count: self.tests_count, data: self.data.clone() }
    }
}

} // verus!
