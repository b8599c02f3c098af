//! The error value that the command-line shims report, and the shared
//! argument dispatch.

use vstd::prelude::*;
use vstd::string::StringExecFns;

verus! {

/// The exit code reporting that the command line was used wrongly.
pub const EX_USAGE: i32 = 64;

/// A process-level failure: an exit code, and possibly a message to print.
#[derive(Debug)]
pub struct SmolError(pub i32, pub Option<String>);

pub type SmolResult<T> = Result<T, SmolError>;

impl SmolError {
    /// Wraps an error's text under a leading message, keeping the code.
    pub fn from_err(code: i32, message: &str, error: &str) -> (r: SmolError)
        ensures
            r.0 == code,
            r.1 matches Some(m) && m@ == message@ + ": "@ + error@,
    {
        let mut s = String::new();
        s.append(message);
        s.append(": ");
        s.append(error);
        SmolError(code, Some(s))
    }
}

/// Decides what a one-argument invocation asks for: the argument itself
/// when exactly one was given beside the program name, else a usage error
/// that tells the caller to print its help text.
pub fn run(args: &Vec<String>) -> (r: Result<String, SmolError>)
    ensures
        args@.len() == 2 ==> (r matches Ok(name) && name@ == args@[1]@),
        args@.len() != 2 ==> (r matches Err(e) && e.0 == EX_USAGE && e.1 is None),
{
    if args.len() == 2 {
        Ok(args[1].clone())
    } else {
        Err(SmolError(EX_USAGE, None))
    }
}

} // verus!
