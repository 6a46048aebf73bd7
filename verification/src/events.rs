//! Events sent to the clients of the web API.
use vstd::prelude::*;

use crate::models::{ProgramId, ServiceId, TimeshiftRecordId};
use crate::recording::RecordingFailedReason;

verus! {

/// The status of a tuner changed.
pub struct TunerStatusChanged {
    pub tuner_index: usize,
}

/// The programs of a service were updated.
pub struct EpgProgramsUpdated {
    pub service_id: ServiceId,
}

/// The recording of a program started.
pub struct RecordingStarted {
    pub program_id: ProgramId,
}

/// The recording of a program stopped.
pub struct RecordingStopped {
    pub program_id: ProgramId,
}

/// The recording of a program failed.
pub struct RecordingFailed {
    pub program_id: ProgramId,
    pub reason: RecordingFailedReason,
}

/// The recording of a program was rescheduled.
pub struct RecordingRescheduled {
    pub program_id: ProgramId,
}

/// The timeline of a timeshift recorder.
pub struct TimeshiftTimeline {
    pub recorder: String,
    /// UNIX time in milliseconds.
    pub start_time: Option<i64>,
    /// UNIX time in milliseconds.
    pub end_time: Option<i64>,
    /// In milliseconds.
    pub duration: i64,
}

/// A timeshift recorder started.
pub struct TimeshiftStarted {
    pub recorder: String,
}

/// A timeshift recorder stopped.
pub struct TimeshiftStopped {
    pub recorder: String,
}

/// A timeshift recorder started a record.
pub struct TimeshiftRecordStarted {
    pub recorder: String,
    pub record_id: TimeshiftRecordId,
}

/// A timeshift recorder updated a record.
pub struct TimeshiftRecordUpdated {
    pub recorder: String,
    pub record_id: TimeshiftRecordId,
}

/// A timeshift recorder ended a record.
pub struct TimeshiftRecordEnded {
    pub recorder: String,
    pub record_id: TimeshiftRecordId,
}

/// The on-air program of a service changed.
pub struct OnairProgramChanged {
    pub service_id: ServiceId,
}

} // verus!
