//! The ways a conversion can fail, and what the user is told.

use vstd::prelude::*;
use vstd::string::*;
use crate::text::{append_decimal, decimal};

verus! {

/// Why a conversion ended without a converted file. Each is final: nothing
/// is retried.
#[derive(Debug)]
pub enum ConvertError {
    /// The input path does not exist.
    InputNotFound { path: String },
    /// The encoder did not answer when asked for its version.
    EncoderUnavailable,
    /// The output path exists and may not be replaced.
    OutputExists { path: String },
    /// The encoder could not be started; `reason` is what the system said.
    LaunchFailure { reason: String },
    /// The encoder ran and did not end with status zero; `code` is its exit
    /// code, where it had one.
    EncodingFailure { code: Option<i32> },
}

/// A failure as mathematical values.
pub ghost enum ErrorView {
    InputNotFound { path: Seq<char> },
    EncoderUnavailable,
    OutputExists { path: Seq<char> },
    LaunchFailure { reason: Seq<char> },
    EncodingFailure { code: Option<int> },
}

/// An exit code as a mathematical value.
pub open spec fn code_view(code: Option<i32>) -> Option<int> {
    match code {
        Some(c) => Some(c as int),
        None => None,
    }
}

impl View for ConvertError {
    type V = ErrorView;

    open spec fn view(&self) -> ErrorView {
        match self {
            ConvertError::InputNotFound { path } => ErrorView::InputNotFound { path: path@ },
            ConvertError::EncoderUnavailable => ErrorView::EncoderUnavailable,
            ConvertError::OutputExists { path } => ErrorView::OutputExists { path: path@ },
            ConvertError::LaunchFailure { reason } => ErrorView::LaunchFailure { reason: reason@ },
            ConvertError::EncodingFailure { code } => ErrorView::EncodingFailure {
                code: code_view(*code),
            },
        }
    }
}

/// An integer in base ten, with a minus sign where it is negative.
pub open spec fn signed_decimal(n: int) -> Seq<char> {
    if n < 0 {
        seq!['-'] + decimal((-n) as nat)
    } else {
        decimal(n as nat)
    }
}

/// An exit code as it is shown: `Some(..)` around the number, or `None`.
pub open spec fn exit_code_text(code: Option<int>) -> Seq<char> {
    match code {
        Some(c) => "Some("@ + signed_decimal(c) + ")"@,
        None => "None"@,
    }
}

impl ErrorView {
    /// The one line that tells the user what went wrong.
    pub open spec fn message(self) -> Seq<char> {
        match self {
            ErrorView::InputNotFound { path } => "Error: File '"@ + path + "' not found"@,
            ErrorView::EncoderUnavailable => "Error: ffmpeg is not installed or not in PATH"@,
            ErrorView::OutputExists { path } => "Error: Output file '"@ + path
                + "' already exists. Use -y to overwrite."@,
            ErrorView::LaunchFailure { reason } => "✗ Failed to execute ffmpeg: "@ + reason,
            ErrorView::EncodingFailure { code } => "✗ Conversion failed with exit code: "@
                + exit_code_text(code),
        }
    }
}

/// The status the process ends with after any failure.
pub const FAILURE_EXIT_CODE: i32 = 1;

impl ConvertError {
    /// The one line that tells the user what went wrong.
    pub fn message(&self) -> (line: String)
        ensures
            line@ == self@.message(),
    {
        match self {
            ConvertError::InputNotFound { path } => {
                let mut line = String::from_str("Error: File '");
                line.append(path.as_str());
                line.append("' not found");
                line
            },
            ConvertError::EncoderUnavailable => String::from_str(
                "Error: ffmpeg is not installed or not in PATH",
            ),
            ConvertError::OutputExists { path } => {
                let mut line = String::from_str("Error: Output file '");
                line.append(path.as_str());
                line.append("' already exists. Use -y to overwrite.");
                line
            },
            ConvertError::LaunchFailure { reason } => {
                let mut line = String::from_str("✗ Failed to execute ffmpeg: ");
                line.append(reason.as_str());
                line
            },
            ConvertError::EncodingFailure { code } => {
                let mut line = String::from_str("✗ Conversion failed with exit code: ");
                match code {
                    Some(c) => {
                        line.append("Some(");
                        if *c < 0 {
                            line.append("-");
                            append_decimal(&mut line, (-(*c as i64)) as u128);
                        } else {
                            append_decimal(&mut line, *c as u128);
                        }
                        line.append(")");
                        proof {
                            reveal_strlit("-");
                        }
                        assert(line@ =~= self@.message());
                    },
                    None => {
                        line.append("None");
                    },
                }
                line
            },
        }
    }

    /// The status the process ends with after this failure: always 1.
    pub fn exit_code(&self) -> (code: i32)
        ensures
            code == 1,
    {
        FAILURE_EXIT_CODE
    }

    /// A copy of this failure.
    pub fn duplicate(&self) -> (copy: ConvertError)
        ensures
            copy@ == self@,
    {
        match self {
            ConvertError::InputNotFound { path } => ConvertError::InputNotFound {
                path: path.clone(),
            },
            ConvertError::EncoderUnavailable => ConvertError::EncoderUnavailable,
            ConvertError::OutputExists { path } => ConvertError::OutputExists {
                path: path.clone(),
            },
            ConvertError::LaunchFailure { reason } => ConvertError::LaunchFailure {
                reason: reason.clone(),
            },
            ConvertError::EncodingFailure { code } => ConvertError::EncodingFailure { code: *code },
        }
    }
}

} // verus!
