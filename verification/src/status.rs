//! The status with which a remote call is refused.
use vstd::prelude::*;

verus! {

/// Status codes of a remote call.
#[derive(Clone, Copy, Debug, PartialEq, Eq, Structural)]
pub enum Code {
    Success,
    Cancelled,
    Unknown,
    InvalidArgument,
    DeadlineExceeded,
    NotFound,
    AlreadyExists,
    PermissionDenied,
    ResourceExhausted,
    FailedPrecondition,
    Aborted,
    OutOfRange,
    Unimplemented,
    Internal,
    Unavailable,
    DataLoss,
    Unauthenticated,
}

/// A code with its message.
#[derive(Debug)]
pub struct Status {
    pub code: Code,
    pub message: String,
}

impl Status {
    /// A status with this code and message.
    pub open spec fn says(self, code: Code, message: Seq<char>) -> bool {
        self.code == code && self.message@ == message
    }

    /// The caller sent something it should not have.
    pub fn invalid_argument(message: &str) -> (status: Status)
        ensures
            status.says(Code::InvalidArgument, message@),
    {
        Status { code: Code::InvalidArgument, message: message.to_owned() }
    }

    /// What the caller asked for does not exist.
    pub fn not_found(message: &str) -> (status: Status)
        ensures
            status.says(Code::NotFound, message@),
    {
        Status { code: Code::NotFound, message: message.to_owned() }
    }

    /// The work failed on this side.
    pub fn internal(message: String) -> (status: Status)
        ensures
            status == (Status { code: Code::Internal, message }),
    {
        Status { code: Code::Internal, message }
    }

    /// The service does not take the call now.
    pub fn unavailable(message: &str) -> (status: Status)
        ensures
            status.says(Code::Unavailable, message@),
    {
        Status { code: Code::Unavailable, message: message.to_owned() }
    }
}

/// A status says one code and one message: those that it holds.
pub proof fn law_status_says_what_it_holds(status: Status, code: Code, message: Seq<char>)
    ensures
        status.says(code, message) <==> status.code == code && status.message@ == message,
{
}

} // verus!
