//! The status of a run and how it is recorded.
use crate::text::{concat2, signed_decimal, signed_decimal_spec};
use vstd::prelude::*;

verus! {

/// The status of a run.
#[derive(Clone, Copy, Debug, PartialEq, Eq, Structural)]
pub enum RunStatus {
    Running,
    Succeeded,
    Failed,
    Cancelled,
    Queued,
}

impl RunStatus {
    /// The number under which a status is recorded.
    pub open spec fn number(self) -> i8 {
        match self {
            RunStatus::Running => 1,
            RunStatus::Succeeded => 2,
            RunStatus::Failed => 3,
            RunStatus::Cancelled => 4,
            RunStatus::Queued => 5,
        }
    }

    /// The word with which a status is shown.
    pub open spec fn word(self) -> Seq<char> {
        match self {
            RunStatus::Running => "running"@,
            RunStatus::Succeeded => "succeeded"@,
            RunStatus::Failed => "failed"@,
            RunStatus::Cancelled => "cancelled"@,
            RunStatus::Queued => "queued"@,
        }
    }

    /// The number under which a status is recorded.
    pub fn code(self) -> (code: i8)
        ensures
            code == self.number(),
            self is Running ==> code == 1,
            self is Succeeded ==> code == 2,
            self is Failed ==> code == 3,
            self is Cancelled ==> code == 4,
            self is Queued ==> code == 5,
    {
        match self {
            RunStatus::Running => 1,
            RunStatus::Succeeded => 2,
            RunStatus::Failed => 3,
            RunStatus::Cancelled => 4,
            RunStatus::Queued => 5,
        }
    }

    /// The word with which a status is shown.
    pub fn name(self) -> (name: &'static str)
        ensures
            name@ == self.word(),
            self is Running ==> name@ == "running"@,
            self is Succeeded ==> name@ == "succeeded"@,
            self is Failed ==> name@ == "failed"@,
            self is Cancelled ==> name@ == "cancelled"@,
            self is Queued ==> name@ == "queued"@,
    {
        match self {
            RunStatus::Running => "running",
            RunStatus::Succeeded => "succeeded",
            RunStatus::Failed => "failed",
            RunStatus::Cancelled => "cancelled",
            RunStatus::Queued => "queued",
        }
    }

    /// The status that was recorded under a number.
    pub fn try_from(value: i8) -> (status: Result<RunStatus, String>)
        ensures
            match status {
                Ok(status) => 1 <= value <= 5 && status.number() == value,
                Err(message) => !(1 <= value <= 5) && message@ == "unknown run status "@
                    + signed_decimal_spec(value as int),
            },
    {
        match value {
            1 => Ok(RunStatus::Running),
            2 => Ok(RunStatus::Succeeded),
            3 => Ok(RunStatus::Failed),
            4 => Ok(RunStatus::Cancelled),
            5 => Ok(RunStatus::Queued),
            _ => Err(concat2("unknown run status ", signed_decimal(value as i64).as_str())),
        }
    }
}

/// The status of a recorded run: none where none was recorded.
pub fn recorded_status(value: Option<i8>) -> (status: Result<Option<RunStatus>, String>)
    ensures
        match (value, status) {
            (None, Ok(status)) => status is None,
            (Some(code), Ok(status)) => status matches Some(status) && status.number() == code,
            (Some(code), Err(message)) => !(1 <= code <= 5) && message@ == "unknown run status "@
                + signed_decimal_spec(code as int),
            (None, Err(_)) => false,
        },
{
    match value {
        None => Ok(None),
        Some(code) => match RunStatus::try_from(code) {
            Ok(status) => Ok(Some(status)),
            Err(message) => Err(message),
        },
    }
}

/// What creating a run does next.
#[derive(Clone, Copy, Debug, PartialEq, Eq, Structural)]
pub enum CreateStep {
    InsertRun,
    AppendStatus(RunStatus),
    Complete,
}

/// A run is recorded first and queued then.
pub fn create_next(step: CreateStep) -> (next: CreateStep)
    ensures
        next == match step {
            CreateStep::InsertRun => CreateStep::AppendStatus(RunStatus::Queued),
            _ => CreateStep::Complete,
        },
{
    match step {
        CreateStep::InsertRun => CreateStep::AppendStatus(RunStatus::Queued),
        _ => CreateStep::Complete,
    }
}

/// A status reads back from its number, and no two share one.
pub proof fn law_status_reads_back(a: RunStatus, b: RunStatus)
    ensures
        a.number() == b.number() ==> a == b,
        1 <= a.number() <= 5,
{
}

/// The numbers and the words of the statuses.
pub proof fn law_status_numbers(status: RunStatus)
    ensures
        status is Running <==> status.number() == 1,
        status is Succeeded <==> status.number() == 2,
        status is Failed <==> status.number() == 3,
        status is Cancelled <==> status.number() == 4,
        status is Queued <==> status.number() == 5,
        status is Running ==> status.word() == "running"@,
        status is Succeeded ==> status.word() == "succeeded"@,
        status is Failed ==> status.word() == "failed"@,
        status is Cancelled ==> status.word() == "cancelled"@,
        status is Queued ==> status.word() == "queued"@,
{
}

} // verus!
