//! What the HTTP interface answers.
use crate::run_manager::RunStatus;
use vstd::prelude::*;

verus! {

/// The status of a created resource.
pub const CREATED: u16 = 201;

/// The status of something that does not exist.
pub const NOT_FOUND: u16 = 404;

/// The status of a method that a route does not have.
pub const METHOD_NOT_ALLOWED: u16 = 405;

/// The status of a failure on this side.
pub const INTERNAL_SERVER_ERROR: u16 = 500;

/// An error answer: a status and a message.
pub struct ErrorReply {
    pub status: u16,
    pub message: String,
}

/// A request that asks for something that is not there, or that failed.
pub enum Refusal {
    /// No route has this path.
    UnknownRoute,
    /// The route does not have this method.
    UnknownMethod,
    /// There is no such run.
    UnknownRun,
    /// The request could not be read: the status and the message say why.
    Unreadable { status: u16, message: String },
    /// The work failed.
    Failed(String),
}

/// The answer to a request that is refused.
pub fn refuse(refusal: Refusal) -> (reply: ErrorReply)
    ensures
        match refusal {
            Refusal::UnknownRoute => reply.status == NOT_FOUND && reply.message@
                == "Route not found"@,
            Refusal::UnknownMethod => reply.status == METHOD_NOT_ALLOWED && reply.message@
                == "Method not allowed"@,
            Refusal::UnknownRun => reply.status == NOT_FOUND && reply.message@ == "Run not found"@,
            Refusal::Unreadable { status, message } => reply == (ErrorReply { status, message }),
            Refusal::Failed(message) => reply == (ErrorReply {
                status: INTERNAL_SERVER_ERROR,
                message,
            }),
        },
        refusal is UnknownRoute || refusal is UnknownRun ==> reply.status == 404,
        refusal is UnknownMethod ==> reply.status == 405,
        refusal is Failed ==> reply.status == 500,
{
    match refusal {
        Refusal::UnknownRoute => ErrorReply {
            status: NOT_FOUND,
            message: "Route not found".to_owned(),
        },
        Refusal::UnknownMethod => ErrorReply {
            status: METHOD_NOT_ALLOWED,
            message: "Method not allowed".to_owned(),
        },
        Refusal::UnknownRun => ErrorReply {
            status: NOT_FOUND,
            message: "Run not found".to_owned(),
        },
        Refusal::Unreadable { status, message } => ErrorReply { status, message },
        Refusal::Failed(message) => ErrorReply { status: INTERNAL_SERVER_ERROR, message },
    }
}

/// An error answer is logged where the failure is on this side.
pub fn is_logged(reply: &ErrorReply) -> (logged: bool)
    ensures
        logged == (500 <= reply.status < 600),
{
    reply.status >= 500 && reply.status < 600
}

/// The answer to a run that was created: it is queued.
pub struct CreateRunResponse {
    pub run_id: u128,
    pub status: RunStatus,
}

/// The answer to a request to create a run.
pub fn create_run(created: Result<u128, String>) -> (reply: Result<
    (u16, CreateRunResponse),
    ErrorReply,
>)
    ensures
        match created {
            Ok(run_id) => {
                &&& reply matches Ok(answer)
                &&& answer.0 == CREATED && answer.0 == 201
                &&& answer.1 == (CreateRunResponse { run_id, status: RunStatus::Queued })
            },
            Err(message) => reply == Err::<(u16, CreateRunResponse), ErrorReply>(
                (ErrorReply { status: INTERNAL_SERVER_ERROR, message }),
            ),
        },
{
    match created {
        Ok(run_id) => Ok((CREATED, CreateRunResponse { run_id, status: RunStatus::Queued })),
        Err(message) => Err(refuse(Refusal::Failed(message))),
    }
}

/// The answer to a request for a run.
pub fn get_run<T>(found: Result<Option<T>, String>) -> (reply: Result<T, ErrorReply>)
    ensures
        match found {
            Ok(Some(run)) => reply == Ok::<T, ErrorReply>(run),
            Ok(None) => reply matches Err(error) && error.status == NOT_FOUND && error.status == 404
                && error.message@ == "Run not found"@,
            Err(message) => reply == Err::<T, ErrorReply>(
                (ErrorReply { status: INTERNAL_SERVER_ERROR, message }),
            ),
        },
{
    match found {
        Ok(Some(run)) => Ok(run),
        Ok(None) => Err(refuse(Refusal::UnknownRun)),
        Err(message) => Err(refuse(Refusal::Failed(message))),
    }
}

} // verus!
