//! Rendering of the per-run report: one line per test case, in schedule
//! order, of the shape `Routing Test {n} [{label}] : PASSED ` or
//! `Routing Test {n} [{label}] : FAILED '{message}'`, each ended by a
//! newline.  The text is a pure function of the labels and outcomes, so
//! two runs with the same schedule and the same worker replies render
//! byte-for-byte identical reports.

use vstd::prelude::*;

verus! {

/// The character for one decimal digit.
pub open spec fn spec_digit_char(d: nat) -> char {
    if d == 0 {
        '0'
    } else if d == 1 {
        '1'
    } else if d == 2 {
        '2'
    } else if d == 3 {
        '3'
    } else if d == 4 {
        '4'
    } else if d == 5 {
        '5'
    } else if d == 6 {
        '6'
    } else if d == 7 {
        '7'
    } else if d == 8 {
        '8'
    } else {
        '9'
    }
}

/// The decimal digits of a number, most significant first.
pub open spec fn spec_decimal(n: nat) -> Seq<char>
    decreases n,
{
    if n < 10 {
        seq![spec_digit_char(n)]
    } else {
        spec_decimal(n / 10) + seq![spec_digit_char(n % 10)]
    }
}

/// One decimal digit as text.
fn digit_str(d: usize) -> (r: &'static str)
    requires
        d < 10,
    ensures
        r@ == seq![spec_digit_char(d as nat)],
{
    let r: &'static str = if d == 0 {
        "0"
    } else if d == 1 {
        "1"
    } else if d == 2 {
        "2"
    } else if d == 3 {
        "3"
    } else if d == 4 {
        "4"
    } else if d == 5 {
        "5"
    } else if d == 6 {
        "6"
    } else if d == 7 {
        "7"
    } else if d == 8 {
        "8"
    } else {
        "9"
    };
    proof {
        reveal_strlit("0");
        reveal_strlit("1");
        reveal_strlit("2");
        reveal_strlit("3");
        reveal_strlit("4");
        reveal_strlit("5");
        reveal_strlit("6");
        reveal_strlit("7");
        reveal_strlit("8");
        reveal_strlit("9");
        assert(r@ =~= seq![spec_digit_char(d as nat)]);
    }
    r
}

/// Renders a number in decimal.
pub fn decimal_string(n: usize) -> (r: String)
    ensures
        r@ == spec_decimal(n as nat),
    decreases n,
{
    if n < 10 {
        digit_str(n).to_owned()
    } else {
        let mut s = decimal_string(n / 10);
        s.append(digit_str(n % 10));
        proof {
            assert(s@ =~= spec_decimal(n as nat));
        }
        s
    }
}

/// The report line for test number `idx + 1` (numbering is one-based):
/// its label and either `PASSED ` or `FAILED '{message}'`.
pub open spec fn spec_report_line(idx: nat, label: Seq<char>, outcome: Option<Seq<char>>) -> Seq<
    char,
> {
    "Routing Test "@ + spec_decimal(idx + 1) + " ["@ + label + "] : "@ + (match outcome {
        None => "PASSED "@,
        Some(m) => "FAILED '"@ + m + "'"@,
    }) + "\n"@
}

/// The report text for the first `k` test cases, one line each.
pub open spec fn spec_report_upto(
    labels: Seq<Seq<char>>,
    outcomes: Seq<Option<Seq<char>>>,
    k: nat,
) -> Seq<char>
    decreases k,
{
    if k == 0 {
        Seq::empty()
    } else {
        spec_report_upto(labels, outcomes, (k - 1) as nat) + spec_report_line(
            (k - 1) as nat,
            labels[k - 1],
            outcomes[k - 1],
        )
    }
}

/// The whole report text: one line per test case, in order.
pub open spec fn spec_report(labels: Seq<Seq<char>>, outcomes: Seq<Option<Seq<char>>>) -> Seq<
    char,
> {
    spec_report_upto(labels, outcomes, labels.len())
}

/// Cycle determinism: the report text is a function of the recorded
/// labels and outcomes alone, so two runs that record the same schedule
/// and the same per-case outcomes render byte-for-byte identical
/// reports.  [`crate::cycle::CycleEngine::report`] returns exactly
/// [`spec_report`] of its record, and
/// [`crate::cycle::CycleEngine::record`] computes that record as a
/// function of the schedule and the replies alone, so the law carries
/// over to the executable engine.
pub proof fn lemma_report_deterministic(
    labels_a: Seq<Seq<char>>,
    outcomes_a: Seq<Option<Seq<char>>>,
    labels_b: Seq<Seq<char>>,
    outcomes_b: Seq<Option<Seq<char>>>,
)
    requires
        labels_a == labels_b,
        outcomes_a == outcomes_b,
    ensures
        spec_report(labels_a, outcomes_a) == spec_report(labels_b, outcomes_b),
{
}

} // verus!
