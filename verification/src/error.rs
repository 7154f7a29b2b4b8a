//! What can go wrong between a script and its blocks.

use vstd::prelude::*;

use crate::text;
use crate::text::decimal_string;

verus! {

/// The error type of the `sed_rs` crate. Its values are only carried.
#[verifier::external_type_specification]
#[verifier::external_body]
pub struct ExSedError(sed_rs::Error);

/// Why a session has no blocks, or not the block asked for.
#[derive(Debug)]
pub enum SessionError {
    /// The script is no sed script.
    ParseScript(sed_rs::Error),
    /// The script failed while it ran.
    RunScript(sed_rs::Error),
    /// A cycle reports a line number that is not beyond that of the cycle
    /// before it.
    LineNotAdvanced { prev_end: usize, end_line: usize },
    /// The cycles do not end on the last input line.
    EarlyExit { consumed: usize, total: usize },
    /// There is no block of that index.
    NoSuchBlock { index: usize, count: usize },
}

impl SessionError {
    /// The message for a reader.
    pub open spec fn text(&self) -> Seq<char> {
        match *self {
            SessionError::ParseScript(_) => "failed to parse sed script"@,
            SessionError::RunScript(_) => "sed script failed"@,
            SessionError::LineNotAdvanced { prev_end, end_line } => {
                "sed's reported line number didn't advance ("@ + text::decimal(prev_end as nat) + " -> "@
                    + text::decimal(end_line as nat) + ") — malformed instrumentation"@
            },
            SessionError::EarlyExit { consumed, total } => {
                "script only consumed "@ + text::decimal(consumed as nat) + " of "@ + text::decimal(total as nat)
                    + " input lines — early exit (q/Q) isn't supported yet"@
            },
            SessionError::NoSuchBlock { index, count } => {
                "no block "@ + text::decimal(index as nat) + " among "@ + text::decimal(count as nat)
            },
        }
    }

    /// The message for a reader. For a failure of sed itself it says only
    /// where the failure happened; the cause is in the variant.
    pub fn message(&self) -> (message: String)
        ensures
            message@ == self.text(),
    {
        match self {
            SessionError::ParseScript(_) => "failed to parse sed script".to_owned(),
            SessionError::RunScript(_) => "sed script failed".to_owned(),
            SessionError::LineNotAdvanced { prev_end, end_line } => {
                let mut message = "sed's reported line number didn't advance (".to_owned();
                message.append(decimal_string(*prev_end).as_str());
                message.append(" -> ");
                message.append(decimal_string(*end_line).as_str());
                message.append(") — malformed instrumentation");
                message
            },
            SessionError::EarlyExit { consumed, total } => {
                let mut message = "script only consumed ".to_owned();
                message.append(decimal_string(*consumed).as_str());
                message.append(" of ");
                message.append(decimal_string(*total).as_str());
                message.append(" input lines — early exit (q/Q) isn't supported yet");
                message
            },
            SessionError::NoSuchBlock { index, count } => {
                let mut message = "no block ".to_owned();
                message.append(decimal_string(*index).as_str());
                message.append(" among ");
                message.append(decimal_string(*count).as_str());
                message
            },
        }
    }
}

} // verus!
