//! The text of a failure report.

use vstd::prelude::*;
use vstd::string::StringExecFns;
use crate::runner::RunError;

verus! {

/// What is known of the failure beyond its kind.
#[derive(Clone, Debug)]
pub enum Diagnostic {
    /// The captured standard error of a process that failed, or the
    /// underlying cause of an I/O error.
    Text(String),
    /// The captured standard error could not be read, for this reason.
    Unreadable(String),
}

pub open spec fn digit_text(d: int) -> Seq<char> {
    if d == 0 {
        "0"@
    } else if d == 1 {
        "1"@
    } else if d == 2 {
        "2"@
    } else if d == 3 {
        "3"@
    } else if d == 4 {
        "4"@
    } else if d == 5 {
        "5"@
    } else if d == 6 {
        "6"@
    } else if d == 7 {
        "7"@
    } else if d == 8 {
        "8"@
    } else {
        "9"@
    }
}

/// The decimal digits of a natural number, most significant first.
pub open spec fn digits_text(n: int) -> Seq<char>
    decreases n,
{
    if n < 10 {
        digit_text(n)
    } else {
        digits_text(n / 10) + digit_text(n % 10)
    }
}

/// A number in decimal, with a minus sign if it is negative.
pub open spec fn decimal_text(n: int) -> Seq<char> {
    if n < 0 {
        "-"@ + digits_text(-n)
    } else {
        digits_text(n)
    }
}

/// The part of a report that renders the diagnostic.
pub open spec fn diagnostic_text(d: Diagnostic) -> Seq<char> {
    match d {
        Diagnostic::Text(s) => "Stderr: "@ + s@ + "\n"@,
        Diagnostic::Unreadable(e) => "Stderr could not be obtained: "@ + e@,
    }
}

/// The text that the diagnostic carries, as it is.
pub open spec fn cause_text(d: Diagnostic) -> Seq<char> {
    match d {
        Diagnostic::Text(s) => s@,
        Diagnostic::Unreadable(e) => e@,
    }
}

/// The report of a failure, for a reader.
pub open spec fn message_text(e: RunError, d: Diagnostic) -> Seq<char> {
    match e {
        RunError::EmptyArguments => "Arguments are empty"@,
        RunError::ExitCode(c) => "Program exit with exit code "@ + decimal_text(c as int) + "\n"@
            + diagnostic_text(d),
        RunError::Signal => "Program terminated by signal\n"@ + diagnostic_text(d),
        RunError::OutputNotFound(i) => "Output "@ + decimal_text(i as int) + " not found"@,
        RunError::OutputCountMismatch => "Declared output paths do not match the task's outputs"@,
        RunError::Io => "I/O error: "@ + cause_text(d),
        RunError::Unexpected => "Unexpected event"@,
    }
}

fn digit_str(d: u64) -> (r: &'static str)
    requires
        d < 10,
    ensures
        r@ == digit_text(d as int),
{
    if d == 0 {
        "0"
    } else if d == 1 {
        "1"
    } else if d == 2 {
        "2"
    } else if d == 3 {
        "3"
    } else if d == 4 {
        "4"
    } else if d == 5 {
        "5"
    } else if d == 6 {
        "6"
    } else if d == 7 {
        "7"
    } else if d == 8 {
        "8"
    } else {
        "9"
    }
}

fn digits(n: u64) -> (r: String)
    ensures
        r@ == digits_text(n as int),
{
    let mut acc = String::from_str(digit_str(n % 10));
    let mut m: u64 = n / 10;
    while m > 0
        invariant
            digits_text(n as int) == if m > 0 {
                digits_text(m as int) + acc@
            } else {
                acc@
            },
        decreases m,
    {
        let d: u64 = m % 10;
        let ghost before = acc@;
        acc = String::from_str(digit_str(d)).concat(acc.as_str());
        proof {
            if m >= 10 {
                assert((digits_text(m as int / 10) + digit_text(d as int)) + before
                    =~= digits_text(m as int / 10) + (digit_text(d as int) + before));
            }
        }
        m = m / 10;
    }
    acc
}

/// A signed number in decimal.
pub fn decimal(n: i64) -> (r: String)
    ensures
        r@ == decimal_text(n as int),
{
    if n < 0 {
        let m: u64 = if n == i64::MIN {
            9223372036854775808u64
        } else {
            (-n) as u64
        };
        let d = digits(m);
        String::from_str("-").concat(d.as_str())
    } else {
        digits(n as u64)
    }
}

fn diagnostic_part(d: &Diagnostic) -> (r: String)
    ensures
        r@ == diagnostic_text(*d),
{
    match d {
        Diagnostic::Text(s) => {
            let mut r = String::from_str("Stderr: ");
            r.append(s.as_str());
            r.append("\n");
            r
        },
        Diagnostic::Unreadable(e) => {
            let mut r = String::from_str("Stderr could not be obtained: ");
            r.append(e.as_str());
            r
        },
    }
}

/// The human-readable report of a failed run: the exit status together with
/// the captured diagnostic, or the name of what was wrong.
pub fn failure_message(error: RunError, diagnostic: &Diagnostic) -> (r: String)
    ensures
        r@ == message_text(error, *diagnostic),
{
    match error {
        RunError::EmptyArguments => String::from_str("Arguments are empty"),
        RunError::ExitCode(c) => {
            let mut r = String::from_str("Program exit with exit code ");
            let n = decimal(c as i64);
            r.append(n.as_str());
            r.append("\n");
            let d = diagnostic_part(diagnostic);
            r.append(d.as_str());
            r
        },
        RunError::Signal => {
            let mut r = String::from_str("Program terminated by signal\n");
            let d = diagnostic_part(diagnostic);
            r.append(d.as_str());
            r
        },
        RunError::OutputNotFound(i) => {
            let mut r = String::from_str("Output ");
            let n = digits(i as u64);
            r.append(n.as_str());
            r.append(" not found");
            r
        },
        RunError::OutputCountMismatch => String::from_str(
            "Declared output paths do not match the task's outputs",
        ),
        RunError::Io => {
            let mut r = String::from_str("I/O error: ");
            match diagnostic {
                Diagnostic::Text(s) => r.append(s.as_str()),
                Diagnostic::Unreadable(e) => r.append(e.as_str()),
            }
            r
        },
        RunError::Unexpected => String::from_str("Unexpected event"),
    }
}

} // verus!
