//! How child processes end.
use vstd::prelude::*;

use crate::text::{decimal_i64, signed_decimal};

verus! {

/// How a process ended. A process that a signal ended has no exit code.
#[derive(Clone, Copy, Debug, PartialEq, Eq, Structural)]
pub struct Exit {
    pub success: bool,
    pub code: Option<i32>,
}

impl Exit {
    /// The exit code as it is reported: -1 if there is none.
    pub open spec fn reported_code(self) -> int {
        match self.code {
            Some(c) => c as int,
            None => -1,
        }
    }

    /// The exit code as text.
    pub fn code_text(&self) -> (text: String)
        ensures
            text@ == signed_decimal(self.reported_code()),
    {
        let code: i32 = match self.code {
            Some(c) => c,
            None => -1,
        };
        decimal_i64(code as i64)
    }
}

/// The exit code of a process is reported as its numeral, and as that of -1 if a
/// signal ended the process.
pub proof fn law_exit_code_is_reported(exit: Exit, text: String)
    requires
        call_ensures(Exit::code_text, (&exit,), text),
    ensures
        exit.code matches Some(code) ==> text@ == signed_decimal(code as int),
        exit.code is None ==> text@ == signed_decimal(-1),
{
}

} // verus!
