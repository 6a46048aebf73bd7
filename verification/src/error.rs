//! Errors that the library's operations report.
use vstd::prelude::*;

verus! {

/// An error of an operation of the library.
#[derive(Clone, Copy, Debug, PartialEq, Eq, Structural)]
pub enum Error {
    StreamingTimedOut,
    TunerUnavailable,
    ChannelNotFound,
    ServiceNotFound,
    ClockNotSynced,
    ProgramNotFound,
    RecordNotFound,
    SessionNotFound,
    ScheduleNotFound,
    RecorderNotFound,
    OutOfRange,
    NoContent,
    NoLogoData,
    AccessDenied,
    AlreadyExists,
    ProgramEnded,
    InvalidPath,
    TimeshiftConfigInconsistent,
}

} // verus!
