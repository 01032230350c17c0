use vstd::prelude::*;

verus! {

/// A failure to parse a coordinate, with a description of the rule that failed.
#[derive(Clone, Debug, PartialEq, Eq)]
pub struct ISO6709Error {
    message: String,
}

impl View for ISO6709Error {
    type V = Seq<char>;

    /// The description of the failure.
    closed spec fn view(&self) -> Seq<char> {
        self.message@
    }
}

impl ISO6709Error {
    /// An error that describes the failed rule as `rule`.
    pub fn new(rule: &str) -> (e: ISO6709Error)
        ensures
            e@ == rule@,
    {
        ISO6709Error { message: rule.to_string() }
    }

    /// The description of the failure.
    pub fn message(&self) -> (m: String)
        ensures
            m@ == self@,
    {
        self.message.clone()
    }
}

} // verus!
