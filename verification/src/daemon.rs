//! The background refresher's single-instance rules. Its liveness authority
//! is a process-id file: starting claims it unless the recorded process is
//! still alive, stopping signals that process and removes the file without
//! waiting for it to die. Reading, writing, signalling and sleeping happen
//! outside; the decisions stand here.

use vstd::prelude::*;
use crate::text::{all_digits, dec_val, parse_u32, trim, trim_spec};

verus! {

/// The process id a pid file's contents name, if they are a plain decimal
/// number (surrounding whitespace ignored) that fits the type.
pub open spec fn pid_of(contents: Seq<char>) -> Option<u32> {
    let t = trim_spec(contents);
    if t.len() > 0 && all_digits(t) && dec_val(t) <= u32::MAX {
        Some(dec_val(t) as u32)
    } else {
        None
    }
}

/// Reads the recorded process id; `None` for a missing or garbled file.
pub fn read_pid(contents: Option<&str>) -> (r: Option<u32>)
    ensures
        contents is None ==> r is None,
        contents matches Some(c) ==> r == pid_of(c@),
{
    match contents {
        None => None,
        Some(c) => parse_u32(trim(c)),
    }
}

/// What starting the refresher does first.
#[derive(Debug, PartialEq, Eq, Structural)]
pub enum StartDecision {
    /// A live instance already runs under this process id: report it and
    /// exit without side effects.
    AlreadyRunning { pid: u32 },
    /// No live instance: record the own process id, install the shutdown
    /// handler, and refresh every period.
    Claim,
}

/// Decides startup from the recorded process id and the liveness probe
/// (whether a harmless signal to that process succeeded).
pub fn start_decision(recorded: Option<u32>, alive: bool) -> (r: StartDecision)
    ensures
        r == (if recorded matches Some(pid) && alive {
            StartDecision::AlreadyRunning { pid: recorded->0 }
        } else {
            StartDecision::Claim
        }),
{
    match recorded {
        Some(pid) => {
            if alive {
                StartDecision::AlreadyRunning { pid }
            } else {
                StartDecision::Claim
            }
        },
        None => StartDecision::Claim,
    }
}

/// What stopping the refresher does.
#[derive(Debug, PartialEq, Eq, Structural)]
pub enum StopDecision {
    /// No pid file: nothing runs.
    NotRunning,
    /// The file exists but names no process id: report the error.
    Unreadable,
    /// Send the graceful-termination signal to this process and delete the
    /// file; deleting it completes the stop, not the process's death.
    Terminate { pid: u32 },
}

/// Decides shutdown from whether the pid file exists and what it records.
pub fn stop_decision(file_exists: bool, recorded: Option<u32>) -> (r: StopDecision)
    ensures
        !file_exists ==> r == StopDecision::NotRunning,
        file_exists && recorded is None ==> r == StopDecision::Unreadable,
        (file_exists && recorded is Some) ==> r == (StopDecision::Terminate { pid: recorded->0 }),
{
    if !file_exists {
        StopDecision::NotRunning
    } else {
        match recorded {
            None => StopDecision::Unreadable,
            Some(pid) => StopDecision::Terminate { pid },
        }
    }
}

} // verus!
