//! The record extracted from one `<testsuite>` element.

use vstd::prelude::*;

verus! {

/// The facts read out of a single `<testsuite>` start tag: the suite's name
/// and its `tests`, `failures` and `errors` counters. Missing or unreadable
/// attributes degrade to `"Untitled"` and `0` rather than failing the parse.
pub struct SuiteResult {
    pub name: String,
    pub tests: u32,
    pub failures: u32,
    pub errors: u32,
}

/// The mathematical shadow of a [`SuiteResult`]: the name as a character
/// sequence and the counters as unbounded naturals.
pub struct SuiteView {
    pub name: Seq<char>,
    pub tests: nat,
    pub failures: nat,
    pub errors: nat,
}

impl View for SuiteResult {
    type V = SuiteView;

    open spec fn view(&self) -> SuiteView {
        SuiteView {
            name: self.name@,
            tests: self.tests as nat,
            failures: self.failures as nat,
            errors: self.errors as nat,
        }
    }
}

impl DeepView for SuiteResult {
    type V = SuiteView;

    open spec fn deep_view(&self) -> SuiteView {
        self.view()
    }
}

} // verus!
