//! Process control: the decision core of a termination request, and the
//! error taxonomy the adapters report in.

use vstd::prelude::*;
use vstd::string::*;

use crate::text::{dec_seq, u64_to_string};

verus! {

/// Why a termination request failed.
#[derive(Debug, Clone, Copy, PartialEq, Eq, Structural)]
pub enum TerminationError {
    /// The pid was absent from a fresh process snapshot: the process
    /// already exited, or never existed.
    ProcessNotFound,
    /// The operating system rejected the signal for lack of authority.
    PermissionDenied,
}

/// The report text of a failed termination of `pid`.
pub open spec fn spec_termination_message(e: TerminationError, pid: u32) -> Seq<char> {
    match e {
        TerminationError::ProcessNotFound => "Process with PID "@ + dec_seq(pid as int)
            + " not found"@,
        TerminationError::PermissionDenied => "Failed to kill PID "@ + dec_seq(pid as int)
            + ". Try running with sudo."@,
    }
}

impl TerminationError {
    /// Human-readable report, with an escalation hint where it helps.
    pub fn message(self, pid: u32) -> (r: String)
        ensures
            r@ == spec_termination_message(self, pid),
    {
        let digits = u64_to_string(pid as u64);
        match self {
            TerminationError::ProcessNotFound => {
                let mut r = String::from_str("Process with PID ");
                r.append(digits.as_str());
                r.append(" not found");
                r
            },
            TerminationError::PermissionDenied => {
                let mut r = String::from_str("Failed to kill PID ");
                r.append(digits.as_str());
                r.append(". Try running with sudo.");
                r
            },
        }
    }
}

/// The signal a termination request sends.
#[derive(Debug, Clone, Copy, PartialEq, Eq, Structural)]
pub enum TermSignal {
    /// A graceful termination request.
    Term,
    /// An unconditional termination.
    Kill,
}

/// Graceful unless forced.
pub fn signal_for(forced: bool) -> (r: TermSignal)
    ensures
        r is Kill <==> forced,
{
    if forced {
        TermSignal::Kill
    } else {
        TermSignal::Term
    }
}

/// Decides the outcome of a termination request from what the adapter
/// observed: whether the pid stood in a fresh snapshot, and whether the
/// operating system accepted the signal.
pub fn terminate_outcome(process_found: bool, signal_accepted: bool) -> (r: Result<
    (),
    TerminationError,
>)
    ensures
        !process_found ==> r == Err::<(), TerminationError>(TerminationError::ProcessNotFound),
        process_found && signal_accepted ==> r is Ok,
        process_found && !signal_accepted ==> r == Err::<(), TerminationError>(
            TerminationError::PermissionDenied,
        ),
{
    if !process_found {
        Err(TerminationError::ProcessNotFound)
    } else if signal_accepted {
        Ok(())
    } else {
        Err(TerminationError::PermissionDenied)
    }
}

/// An operating-system enumeration failure, as an adapter reported it.
/// A scan that hits one is abandoned whole; prior state is kept.
#[derive(Debug)]
pub struct AdapterError {
    pub message: String,
}

impl Clone for AdapterError {
    fn clone(&self) -> (r: Self)
        ensures
            r == *self,
    {
        AdapterError { message: self.message.clone() }
    }
}

} // verus!
