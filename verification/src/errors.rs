//! The error taxonomy of the persistence layer: filesystem failures with the
//! operation that failed, platform failures, and text-encoding failures.
//! Every error carries a cause string, and `message` renders the
//! human-readable form that callers show to the end user.

use vstd::prelude::*;
use vstd::string::*;

verus! {

/// The filesystem operation that an `FsError::Io` failure came from.
#[derive(Clone, Copy, Debug, PartialEq, Eq)]
pub enum IoOp {
    CreateDirectory,
    CreateFile,
    WriteFile,
    ReadFile,
}

/// A failure of one persistence operation. `Io` wraps a failed filesystem
/// operation together with its cause, `Platform` a platform resource that
/// the host could not supply, and `Encoding` a path or content that is not
/// valid text.
#[derive(Debug, PartialEq, Eq)]
pub enum FsError {
    Io(IoOp, String),
    Platform(String),
    Encoding(String),
}

impl IoOp {
    /// The message prefix that names the failed operation.
    pub open spec fn prefix_spec(self) -> Seq<char> {
        match self {
            IoOp::CreateDirectory => "Failed to create directory: "@,
            IoOp::CreateFile => "Failed to create file: "@,
            IoOp::WriteFile => "Failed to write file: "@,
            IoOp::ReadFile => "Failed to read file: "@,
        }
    }
}

impl FsError {
    /// The full human-readable message: a prefix naming what failed,
    /// followed by the cause.
    pub open spec fn message_spec(self) -> Seq<char> {
        match self {
            FsError::Io(op, cause) => op.prefix_spec() + cause@,
            FsError::Platform(cause) => "Failed to get platform resource: "@ + cause@,
            FsError::Encoding(cause) => "Failed to decode text: "@ + cause@,
        }
    }

    /// Renders the error as the message string surfaced to the caller.
    pub fn message(&self) -> (r: String)
        ensures
            r@ == self.message_spec(),
    {
        match self {
            FsError::Io(op, cause) => {
                let mut s = match op {
                    IoOp::CreateDirectory => String::from_str("Failed to create directory: "),
                    IoOp::CreateFile => String::from_str("Failed to create file: "),
                    IoOp::WriteFile => String::from_str("Failed to write file: "),
                    IoOp::ReadFile => String::from_str("Failed to read file: "),
                };
                s.append(cause.as_str());
                s
            }
            FsError::Platform(cause) => {
                let mut s = String::from_str("Failed to get platform resource: ");
                s.append(cause.as_str());
                s
            }
            FsError::Encoding(cause) => {
                let mut s = String::from_str("Failed to decode text: ");
                s.append(cause.as_str());
                s
            }
        }
    }
}

} // verus!
