//! The probe: one reachability check per target.
//!
//! Each probe runs the platform scripting shell's connection test once, with
//! the target as its destination. The captured output, after trimming
//! trailing line endings, must read exactly `True` or `False`; anything else
//! — including a process that could not be launched at all — is a
//! `ProbeExecutionError` for that one target, never for its siblings. The
//! library builds the command text and interprets the output; the
//! surrounding binary runs the process.

use vstd::prelude::*;
use vstd::string::*;

use crate::errors::{error_text, SweepError};

verus! {

/// The result of probing one target.
pub enum ProbeOutcome {
    /// The check reported the target reachable.
    Reachable,
    /// The check reported the target unreachable.
    Unreachable,
    /// The check could not be launched or its output could not be read;
    /// holds the diagnostic.
    ProbeFailed(String),
}

/// The command handed to the scripting shell for one target.
pub open spec fn probe_command_text(target: Seq<char>) -> Seq<char> {
    "Test-NetConnection "@ + target + " | Select -ExpandProperty \"PingSucceeded\"| echo"@
}

/// Builds the connection-test command for one target.
pub fn build_probe_command(target: &str) -> (r: String)
    ensures
        r@ == probe_command_text(target@),
{
    let mut r = "Test-NetConnection ".to_owned();
    r.append(target);
    r.append(" | Select -ExpandProperty \"PingSucceeded\"| echo");
    r
}

/// Whether `c` is a line-ending character.
pub open spec fn is_eol(c: char) -> bool {
    c == '\n' || c == '\r'
}

/// The text with its trailing line-ending characters removed.
pub open spec fn trim_eol(s: Seq<char>) -> Seq<char>
    decreases s.len(),
{
    if s.len() > 0 && is_eol(s.last()) {
        trim_eol(s.drop_last())
    } else {
        s
    }
}

/// Interprets the captured output of one check: after trimming trailing line
/// endings it must read exactly `True` or `False`; any other output is a
/// `ProbeExecutionError`.
pub fn interpret_probe_output(out: &str) -> (r: Result<bool, SweepError>)
    ensures
        r == Ok::<bool, SweepError>(true) <==> trim_eol(out@) == "True"@,
        r == Ok::<bool, SweepError>(false) <==> trim_eol(out@) == "False"@,
        r matches Err(e) ==> e == SweepError::ProbeExecutionError,
{
    proof {
        reveal_strlit("True");
        reveal_strlit("False");
    }
    let n = out.unicode_len();
    let mut i: usize = n;
    proof {
        assert(out@.subrange(0, n as int) =~= out@);
    }
    loop
        invariant_except_break
            i <= n,
            n == out@.len(),
            trim_eol(out@) == trim_eol(out@.subrange(0, i as int)),
        ensures
            i <= n,
            n == out@.len(),
            trim_eol(out@) == trim_eol(out@.subrange(0, i as int)),
            i == 0 || !is_eol(out@[i - 1]),
        decreases i,
    {
        if i == 0 {
            break ;
        }
        let c = out.get_char(i - 1);
        if !(c == '\n' || c == '\r') {
            break ;
        }
        proof {
            let cut = out@.subrange(0, i as int);
            assert(cut.len() > 0 && cut.last() == c);
            assert(cut.drop_last() =~= out@.subrange(0, i - 1));
        }
        i = i - 1;
    }
    let ghost cut = out@.subrange(0, i as int);
    proof {
        if i > 0 {
            assert(cut.last() == out@[i - 1]);
        }
        assert(trim_eol(cut) == cut);
    }
    let t = out.substring_char(0, i);
    let ts = t.to_owned();
    if ts == "True".to_owned() {
        Ok(true)
    } else if ts == "False".to_owned() {
        Ok(false)
    } else {
        Err(SweepError::ProbeExecutionError)
    }
}

/// Turns the boolean verdict of one check — or the error that kept it from
/// producing one — into the target's outcome.
pub fn probe_outcome(check: Result<bool, SweepError>) -> (r: ProbeOutcome)
    ensures
        check == Ok::<bool, SweepError>(true) <==> r is Reachable,
        check == Ok::<bool, SweepError>(false) <==> r is Unreachable,
        check matches Err(e) ==> (r matches ProbeOutcome::ProbeFailed(m) && m@ == error_text(e)),
{
    match check {
        Ok(true) => ProbeOutcome::Reachable,
        Ok(false) => ProbeOutcome::Unreachable,
        Err(e) => ProbeOutcome::ProbeFailed(e.message()),
    }
}

} // verus!
