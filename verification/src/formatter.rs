//! The summary formatter: combined totals, a status indicator, and the
//! display string a notifier should show.

use vstd::prelude::*;

use crate::digits::spec_dec;
use crate::digits::u32_to_string;
use crate::suite::SuiteResult;
use crate::suite::SuiteView;

verus! {

/// Addition that saturates at the `u32` ceiling, so that totals over
/// arbitrarily many suites stay well-defined.
pub open spec fn sat_add_u32(a: nat, b: nat) -> nat {
    if a + b > u32::MAX {
        u32::MAX as nat
    } else {
        a + b
    }
}

/// The combined test count of the given suites.
pub open spec fn spec_total_tests(ss: Seq<SuiteView>) -> nat
    decreases ss.len(),
{
    if ss.len() == 0 {
        0
    } else {
        sat_add_u32(spec_total_tests(ss.drop_last()), ss.last().tests)
    }
}

/// The combined failure count of the given suites.
pub open spec fn spec_total_failures(ss: Seq<SuiteView>) -> nat
    decreases ss.len(),
{
    if ss.len() == 0 {
        0
    } else {
        sat_add_u32(spec_total_failures(ss.drop_last()), ss.last().failures)
    }
}

/// The combined error count of the given suites.
pub open spec fn spec_total_errors(ss: Seq<SuiteView>) -> nat
    decreases ss.len(),
{
    if ss.len() == 0 {
        0
    } else {
        sat_add_u32(spec_total_errors(ss.drop_last()), ss.last().errors)
    }
}

/// The status indicator: any failure selects the failure icon, whatever the
/// error count; errors alone select the warning icon; otherwise success.
pub open spec fn spec_icon(failures: nat, errors: nat) -> Seq<char> {
    if failures > 0 {
        "\u{274c}"@
    } else if errors > 0 {
        "\u{26a0}\u{fe0f}"@
    } else {
        "\u{2705}"@
    }
}

/// The summary line for the given suites:
/// `<indicator> <tests> tests, <failures> failures, <errors> errors`.
pub open spec fn spec_message(ss: Seq<SuiteView>) -> Seq<char> {
    spec_icon(spec_total_failures(ss), spec_total_errors(ss)) + " "@ + spec_dec(
        spec_total_tests(ss),
    ) + " tests, "@ + spec_dec(spec_total_failures(ss)) + " failures, "@ + spec_dec(
        spec_total_errors(ss),
    ) + " errors"@
}

/// Selects the status icon. Failures strictly dominate errors in the
/// selection, regardless of their relative magnitude.
pub fn icon(failures: u32, errors: u32) -> (r: &'static str)
    ensures
        r@ == spec_icon(failures as nat, errors as nat),
{
    if failures > 0 {
        "\u{274c}"
    } else if errors > 0 {
        "\u{26a0}\u{fe0f}"
    } else {
        "\u{2705}"
    }
}

/// Sums the `tests` counters, saturating at the `u32` ceiling.
pub fn total_tests(suites: &Vec<SuiteResult>) -> (r: u32)
    ensures
        r as nat == spec_total_tests(suites.deep_view()),
{
    let mut acc: u32 = 0;
    let mut i: usize = 0;
    while i < suites.len()
        invariant
            0 <= i <= suites@.len(),
            acc as nat == spec_total_tests(suites.deep_view().take(i as int)),
        decreases suites@.len() - i,
    {
        proof {
            assert(suites.deep_view().take(i + 1).drop_last() =~= suites.deep_view().take(i as int));
            assert(suites.deep_view().take(i + 1).last() == suites@[i as int]@);
        }
        let t = suites[i].tests;
        if t > u32::MAX - acc {
            acc = u32::MAX;
        } else {
            acc = acc + t;
        }
        i = i + 1;
    }
    proof {
        assert(suites.deep_view().take(suites@.len() as int) =~= suites.deep_view());
    }
    acc
}

/// Sums the `failures` counters, saturating at the `u32` ceiling.
pub fn total_failures(suites: &Vec<SuiteResult>) -> (r: u32)
    ensures
        r as nat == spec_total_failures(suites.deep_view()),
{
    let mut acc: u32 = 0;
    let mut i: usize = 0;
    while i < suites.len()
        invariant
            0 <= i <= suites@.len(),
            acc as nat == spec_total_failures(suites.deep_view().take(i as int)),
        decreases suites@.len() - i,
    {
        proof {
            assert(suites.deep_view().take(i + 1).drop_last() =~= suites.deep_view().take(i as int));
            assert(suites.deep_view().take(i + 1).last() == suites@[i as int]@);
        }
        let t = suites[i].failures;
        if t > u32::MAX - acc {
            acc = u32::MAX;
        } else {
            acc = acc + t;
        }
        i = i + 1;
    }
    proof {
        assert(suites.deep_view().take(suites@.len() as int) =~= suites.deep_view());
    }
    acc
}

/// Sums the `errors` counters, saturating at the `u32` ceiling.
pub fn total_errors(suites: &Vec<SuiteResult>) -> (r: u32)
    ensures
        r as nat == spec_total_errors(suites.deep_view()),
{
    let mut acc: u32 = 0;
    let mut i: usize = 0;
    while i < suites.len()
        invariant
            0 <= i <= suites@.len(),
            acc as nat == spec_total_errors(suites.deep_view().take(i as int)),
        decreases suites@.len() - i,
    {
        proof {
            assert(suites.deep_view().take(i + 1).drop_last() =~= suites.deep_view().take(i as int));
            assert(suites.deep_view().take(i + 1).last() == suites@[i as int]@);
        }
        let t = suites[i].errors;
        if t > u32::MAX - acc {
            acc = u32::MAX;
        } else {
            acc = acc + t;
        }
        i = i + 1;
    }
    proof {
        assert(suites.deep_view().take(suites@.len() as int) =~= suites.deep_view());
    }
    acc
}

/// Renders the summary line for the given suites.
pub fn test_report_message(suites: &Vec<SuiteResult>) -> (r: String)
    ensures
        r@ == spec_message(suites.deep_view()),
{
    let tests = total_tests(suites);
    let failures = total_failures(suites);
    let errors = total_errors(suites);
    let mut r: String = icon(failures, errors).to_owned();
    r.append(" ");
    r.append(u32_to_string(tests).as_str());
    r.append(" tests, ");
    r.append(u32_to_string(failures).as_str());
    r.append(" failures, ");
    r.append(u32_to_string(errors).as_str());
    r.append(" errors");
    proof {
        assert(r@ =~= spec_message(suites.deep_view()));
    }
    r
}

/// The list body of the extended summary: one line per suite whose failure
/// count is positive, in order, each prefixed by `" - "`.
pub open spec fn spec_failed_list(ss: Seq<SuiteView>) -> Seq<char>
    decreases ss.len(),
{
    if ss.len() == 0 {
        Seq::empty()
    } else {
        spec_failed_list(ss.drop_last()) + (if ss.last().failures > 0 {
            "\n - "@ + ss.last().name
        } else {
            Seq::<char>::empty()
        })
    }
}

/// The extended summary: the summary line, then the names of the suites
/// currently failing under the literal header `Failed Suites:`. When no
/// suite fails the list body is empty but the header still stands.
pub open spec fn spec_extended_message(ss: Seq<SuiteView>) -> Seq<char> {
    spec_message(ss) + "\nFailed Suites:"@ + spec_failed_list(ss)
}

/// Renders the extended summary. A caller that wants the list fully
/// suppressed must check that the combined failure total is zero before
/// choosing this mode.
pub fn test_report_message_extended(suites: &Vec<SuiteResult>) -> (r: String)
    ensures
        r@ == spec_extended_message(suites.deep_view()),
{
    let mut r = test_report_message(suites);
    r.append("\nFailed Suites:");
    let ghost head = r@;
    let mut i: usize = 0;
    proof {
        assert(suites.deep_view().take(0) =~= Seq::<SuiteView>::empty());
        assert(r@ =~= head + spec_failed_list(suites.deep_view().take(0)));
    }
    while i < suites.len()
        invariant
            0 <= i <= suites@.len(),
            r@ == head + spec_failed_list(suites.deep_view().take(i as int)),
        decreases suites@.len() - i,
    {
        proof {
            assert(suites.deep_view().take(i + 1).drop_last() =~= suites.deep_view().take(i as int));
            assert(suites.deep_view().take(i + 1).last() == suites@[i as int]@);
        }
        if suites[i].failures > 0 {
            r.append("\n - ");
            r.append(suites[i].name.as_str());
        }
        proof {
            assert(r@ =~= head + spec_failed_list(suites.deep_view().take(i + 1)));
        }
        i = i + 1;
    }
    proof {
        assert(suites.deep_view().take(suites@.len() as int) =~= suites.deep_view());
        assert(r@ =~= spec_extended_message(suites.deep_view()));
    }
    r
}

} // verus!
