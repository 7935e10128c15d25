//! `bash`: run a shell command in the repository.
use vstd::prelude::*;

use crate::exec::{tail, tail_text};
use crate::text::{decimal, owned, push_decimal_u64, push_signed, push_str, signed_decimal};

verus! {

/// Seconds a command may run when the call names no limit.
pub const DEFAULT_TIMEOUT_SECS: u64 = 60;

/// Seconds a command may run at most.
pub const MAX_TIMEOUT_SECS: u64 = 600;

/// Bytes of each output stream shown at most, from its end.
pub const STREAM_TAIL_BYTES: usize = 4000;

/// The time limit of a call: the one asked for, or the default, and at
/// most `MAX_TIMEOUT_SECS`.
pub fn timeout_secs(asked: Option<u64>) -> (r: u64)
    ensures
        r == (match asked {
            Some(t) => if t <= MAX_TIMEOUT_SECS { t } else { MAX_TIMEOUT_SECS },
            None => DEFAULT_TIMEOUT_SECS,
        }),
{
    match asked {
        Some(t) => if t <= MAX_TIMEOUT_SECS { t } else { MAX_TIMEOUT_SECS },
        None => DEFAULT_TIMEOUT_SECS,
    }
}

/// What a finished command reports: its exit code and the end of each
/// stream.
pub open spec fn report_text(exit: int, stdout: Seq<char>, stderr: Seq<char>) -> Seq<char> {
    "exit: "@ + signed_decimal(exit) + "\n--- stdout ---\n"@ + tail_text(stdout, STREAM_TAIL_BYTES as int)
        + "\n--- stderr ---\n"@ + tail_text(stderr, STREAM_TAIL_BYTES as int)
}

/// The report of a finished command: its exit code (-1 when it was ended
/// by a signal) and the last `STREAM_TAIL_BYTES` of each stream.
pub fn report(exit: i32, stdout: &str, stderr: &str) -> (r: String)
    ensures
        r@ == report_text(exit as int, stdout@, stderr@),
{
    let mut s = owned("exit: ");
    push_signed(&mut s, exit);
    push_str(&mut s, "\n--- stdout ---\n");
    let o = tail(stdout, STREAM_TAIL_BYTES);
    push_str(&mut s, o.as_str());
    push_str(&mut s, "\n--- stderr ---\n");
    let e = tail(stderr, STREAM_TAIL_BYTES);
    push_str(&mut s, e.as_str());
    s
}

/// The reply when the user turns the command down.
pub fn rejected_message(cmd: &str) -> (r: String)
    ensures
        r@ == "user rejected command: "@ + cmd@,
{
    let mut s = owned("user rejected command: ");
    push_str(&mut s, cmd);
    s
}

/// The reply when the command ran out of time.
pub fn timed_out_message(secs: u64) -> (r: String)
    ensures
        r@ == "ERROR: command timed out after "@ + decimal(secs as nat) + "s"@,
{
    let mut s = owned("ERROR: command timed out after ");
    push_decimal_u64(&mut s, secs);
    push_str(&mut s, "s");
    s
}

} // verus!
