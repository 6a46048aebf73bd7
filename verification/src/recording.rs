//! Recording schedules, records and the messages of the recording manager.
use std::sync::Arc;
use vstd::prelude::*;

use crate::epg::{
    program_view, AudioComponentDescriptor, ComponentDescriptor, EpgProgram, EpgService,
    EventGroupEvent, SeriesDescriptor,
};
use crate::models::EpgGenre;
use crate::config::{join_path, path_join};
use crate::file_util::{path_dedotted, path_stripped, strip_path_prefix, without_dots};
use crate::models::ProgramId;
use crate::config::Config;
use crate::filter::{
    has_tag_open, mustache_rendered, plain_added, plain_fold, post_files_free, post_plain, post_steps,
    pre_files_free, pre_plain, pre_render_safe, post_render_safe, pre_steps, reads_files, rendered_fold, texts, FilterError, FilterPipelineBuilder,
    FilterStep, TemplateData,
};
use crate::models::{channel_type_label, Clock};
use crate::text::{
    decimal, hex_fixed, lemma_hex_fixed_injective, lemma_hex_fixed_len, signed_decimal, to_decimal,
    to_hex_fixed, to_signed_decimal,
};

verus! {

/// The exit code by which a post-process command asks to retry.
pub const EXIT_RETRY: i32 = 222;

/// The identifier of a record.
#[derive(Clone, Debug, PartialEq, Eq)]
pub struct RecordId(pub String);

/// The identifier of a record that started at a UNIX time (in
/// milliseconds) for a program: both in 16 upper-case hexadecimal digits,
/// the time as its 64 bits.
pub open spec fn record_id_text(timestamp: i64, program_id: u64) -> Seq<char> {
    hex_fixed(timestamp as u64 as nat, 16) + hex_fixed(program_id as nat, 16)
}

impl RecordId {
    pub fn new(timestamp: i64, program_id: u64) -> (r: Self)
        ensures
            r.0@ == record_id_text(timestamp, program_id),
    {
        let mut s = to_hex_fixed(timestamp as u64, 16);
        let t = to_hex_fixed(program_id, 16);
        s.append(t.as_str());
        RecordId(s)
    }

    /// The identifier of the record of a program that started at a UNIX
    /// time (in milliseconds).
    pub fn from_start(timestamp: i64, program_id: ProgramId) -> (r: Self)
        ensures
            r.0@ == record_id_text(timestamp, program_id@),
    {
        Self::new(timestamp, program_id.value())
    }

    pub fn value(&self) -> (r: &str)
        ensures
            r@ == self.0@,
    {
        self.0.as_str()
    }

    /// "record#" and the identifier.
    pub fn to_string(&self) -> (r: String)
        ensures
            r@ == "record#"@ + self.0@,
    {
        let mut s = String::from_str("record#");
        s.append(self.0.as_str());
        s
    }
}

impl From<String> for RecordId {
    fn from(value: String) -> (r: Self)
        ensures
            r.0 == value,
    {
        RecordId(value)
    }
}

impl vstd::std_specs::convert::FromSpecImpl<String> for RecordId {
    open spec fn obeys_from_spec() -> bool {
        true
    }

    open spec fn from_spec(value: String) -> Self {
        RecordId(value)
    }
}

/// The name of the content file of a record: the identifier and ".content".
pub fn make_content_filename(record_id: &RecordId) -> (r: String)
    ensures
        r@ == record_id.0@ + ".content"@,
{
    let mut s = String::from_str(record_id.value());
    s.append(".content");
    s
}

/// The name of the file that keeps a record: the identifier and
/// ".record.json".
pub fn make_record_filename(record_id: &RecordId) -> (r: String)
    ensures
        r@ == record_id.0@ + ".record.json"@,
{
    let mut s = String::from_str(record_id.value());
    s.append(".record.json");
    s
}

/// The path of the content of a record under the base directory of the
/// records, when there is one.
pub fn make_content_path(basedir: &Option<String>, content_path: &str) -> (r: Option<String>)
    ensures
        match *basedir {
            Some(b) => r matches Some(p) && p@ == path_join(b@, content_path@),
            None => r is None,
        },
{
    match basedir {
        Some(b) => Some(join_path(b.as_str(), content_path)),
        None => None,
    }
}

/// The path of the content of a recording about to start: the content
/// path of its options under the base directory (an absolute path, as a
/// valid configuration has it), without `.` and `..` components (`None`
/// where the current directory cannot be read); or, without one, the
/// content file name of the record under the base directory.
pub fn make_content_path_from_schedule(
    basedir: &str,
    record_id: &RecordId,
    content_path: &Option<String>,
) -> (r: Option<String>)
    requires
        crate::config::is_absolute(basedir@),
    ensures
        content_path is None ==> (r matches Some(p) && p@ == path_join(basedir@, record_id.0@ + ".content"@)),
        content_path matches Some(c) ==> (r matches Some(p) ==> p@ == path_dedotted(path_join(basedir@, c@))),
{
    match content_path {
        Some(c) => {
            let joined = join_path(basedir, c.as_str());
            assert(joined@[0] == '/');
            without_dots(joined.as_str())
        },
        None => Some(join_path(basedir, make_content_filename(record_id).as_str())),
    }
}

/// The path of a content relative to the base directory, or `None` where
/// the content is not under it.
pub fn make_relative_content_path(basedir: &str, content_path: &str) -> (r: Option<String>)
    ensures
        match (r, path_stripped(content_path@, basedir@)) {
            (Some(s), Some(t)) => s@ == t,
            (None, None) => true,
            _ => false,
        },
{
    strip_path_prefix(content_path, basedir)
}

/// Whether a post-process command asked to retry: one of the exit codes
/// (`None` for a process that could not be waited for or that a signal
/// ended) is the retry code.
pub fn check_retry(codes: &[Option<i32>]) -> (r: bool)
    ensures
        r == exists|i: int| 0 <= i < codes@.len() && codes@[i] == Some(EXIT_RETRY),
{
    let mut i: usize = 0;
    while i < codes.len()
        invariant
            i <= codes@.len(),
            forall|j: int| 0 <= j < i ==> codes@[j] != Some(EXIT_RETRY),
        decreases codes@.len() - i,
    {
        if codes[i] == Some(EXIT_RETRY) {
            return true;
        }
        i = i + 1;
    }
    false
}

/// The position of the first non-zero exit code, or the length.
pub open spec fn first_error_position(codes: Seq<Option<i32>>, i: int) -> int
    decreases codes.len() - i,
{
    if i < 0 || i >= codes.len() {
        codes.len() as int
    } else if codes[i] matches Some(c) && c != 0 {
        i
    } else {
        first_error_position(codes, i + 1)
    }
}

/// The first non-zero exit code.
pub fn get_first_error(codes: &[Option<i32>]) -> (r: Option<i32>)
    ensures
        ({
            let p = first_error_position(codes@, 0);
            if p < codes@.len() {
                r == codes@[p]
            } else {
                r is None
            }
        }),
{
    let mut i: usize = 0;
    while i < codes.len()
        invariant
            i <= codes@.len(),
            first_error_position(codes@, 0) == first_error_position(codes@, i as int),
        decreases codes@.len() - i,
    {
        match codes[i] {
            Some(c) => {
                if c != 0 {
                    return Some(c);
                }
            },
            None => {},
        }
        i = i + 1;
    }
    None
}

/// A message that opens the content of a record, with an optional range of
/// it.
pub struct OpenContent<R> {
    pub id: RecordId,
    pub range: Option<R>,
    /// In milliseconds.
    pub time_limit: u64,
}

/// The time limit (in milliseconds) for opening a content: the interval at
/// which the command that follows a growing file reads it.
pub const DEFAULT_TIME_LIMIT: u64 = 1500;

impl<R> OpenContent<R> {
    pub fn new(id: RecordId, range: Option<R>) -> (r: Self)
        ensures
            r.id == id,
            r.range == range,
            r.time_limit == DEFAULT_TIME_LIMIT,
    {
        OpenContent { id, range, time_limit: DEFAULT_TIME_LIMIT }
    }
}

/// The state of a recording schedule.
#[derive(Clone, Copy, Debug, PartialEq, Eq, Structural)]
pub enum RecordingScheduleState {
    Scheduled,
    /// The schedule follows the on-air program tracker before recording.
    Tracking,
    Recording,
    /// The recording failed; the schedule may be rescheduled.
    Rescheduling,
    Finished,
    Failed,
}

/// The reason why a recording failed.
#[derive(Debug)]
pub enum RecordingFailedReason {
    StartRecordingFailed { message: String },
    IoError { message: String, os_error: Option<i32> },
    PipelineError { exit_code: i32 },
    NeedRescheduling,
    ScheduleExpired,
    RemovedFromEpg,
}

impl Clone for RecordingFailedReason {
    fn clone(&self) -> (r: Self)
        ensures
            r == *self,
    {
        match self {
            RecordingFailedReason::StartRecordingFailed { message } => {
                RecordingFailedReason::StartRecordingFailed { message: message.clone() }
            },
            RecordingFailedReason::IoError { message, os_error } => {
                RecordingFailedReason::IoError { message: message.clone(), os_error: *os_error }
            },
            RecordingFailedReason::PipelineError { exit_code } => {
                RecordingFailedReason::PipelineError { exit_code: *exit_code }
            },
            RecordingFailedReason::NeedRescheduling => RecordingFailedReason::NeedRescheduling,
            RecordingFailedReason::ScheduleExpired => RecordingFailedReason::ScheduleExpired,
            RecordingFailedReason::RemovedFromEpg => RecordingFailedReason::RemovedFromEpg,
        }
    }
}

/// Recording options.
#[derive(Debug)]
pub struct RecordingOptions {
    /// The path of the content file relative to the base directory.
    pub content_path: Option<String>,
    /// The priority of the tuner use.
    pub priority: i32,
    pub pre_filters: Vec<String>,
    pub post_filters: Vec<String>,
}

/// A copy of a list of strings.
fn clone_strings(v: &Vec<String>) -> (r: Vec<String>)
    ensures
        r@ == v@,
{
    let mut r: Vec<String> = Vec::new();
    let mut i: usize = 0;
    while i < v.len()
        invariant
            i <= v@.len(),
            r@ == v@.take(i as int),
        decreases v@.len() - i,
    {
        r.push(v[i].clone());
        i = i + 1;
        assert(r@ =~= v@.take(i as int));
    }
    assert(v@.take(v@.len() as int) =~= v@);
    r
}

/// Whether two options hold the same content path, priority and filters.
pub open spec fn same_options(a: RecordingOptions, b: RecordingOptions) -> bool {
    &&& a.content_path == b.content_path
    &&& a.priority == b.priority
    &&& a.pre_filters@ == b.pre_filters@
    &&& a.post_filters@ == b.post_filters@
}

impl Clone for RecordingOptions {
    fn clone(&self) -> (r: Self)
        ensures
            same_options(r, *self),
    {
        RecordingOptions {
            content_path: match &self.content_path {
                Some(p) => Some(p.clone()),
                None => None,
            },
            priority: self.priority,
            pre_filters: clone_strings(&self.pre_filters),
            post_filters: clone_strings(&self.post_filters),
        }
    }
}

/// A recording schedule of a program.
pub struct RecordingSchedule {
    pub state: RecordingScheduleState,
    pub program: Arc<EpgProgram>,
    pub options: RecordingOptions,
    /// Tags, each once.
    pub tags: Vec<String>,
    pub failed_reason: Option<RecordingFailedReason>,
}

impl RecordingSchedule {
    /// A new schedule, in the scheduled state.
    pub fn new(program: Arc<EpgProgram>, options: RecordingOptions, tags: Vec<String>) -> (r: Self)
        ensures
            r.state == RecordingScheduleState::Scheduled,
            r.program == program,
            r.options == options,
            r.tags == tags,
            r.failed_reason is None,
    {
        RecordingSchedule {
            state: RecordingScheduleState::Scheduled,
            program,
            options,
            tags,
            failed_reason: None,
        }
    }

    /// EPG updates apply to a schedule that is scheduled or being
    /// rescheduled.
    pub fn can_be_updated_by_epg(&self) -> (r: bool)
        ensures
            r == (self.state == RecordingScheduleState::Scheduled || self.state
                == RecordingScheduleState::Rescheduling),
    {
        match self.state {
            RecordingScheduleState::Scheduled | RecordingScheduleState::Rescheduling => true,
            _ => false,
        }
    }

    /// A schedule that is scheduled or tracked is ready for recording.
    pub fn is_ready_for_recording(&self) -> (r: bool)
        ensures
            r == (self.state == RecordingScheduleState::Scheduled || self.state
                == RecordingScheduleState::Tracking),
    {
        match self.state {
            RecordingScheduleState::Scheduled | RecordingScheduleState::Tracking => true,
            _ => false,
        }
    }

    pub fn is_recording(&self) -> (r: bool)
        ensures
            r == (self.state == RecordingScheduleState::Recording),
    {
        match self.state {
            RecordingScheduleState::Recording => true,
            _ => false,
        }
    }
}

/// A second pointer to the value that `a` points to.
///
/// Trusted: `Arc::clone` of std makes another pointer to the same
/// allocation, so the value behind it is the same.
#[verifier::external_body]
pub(crate) fn share<T>(a: &Arc<T>) -> (r: Arc<T>)
    ensures
        r == *a,
{
    a.clone()
}

/// What a schedule holds: its state, its program, its options, its tags and
/// the reason of its failure; lists taken by their views.
pub open spec fn schedule_view(s: RecordingSchedule) -> (
    RecordingScheduleState,
    (
        (ProgramId, Option<i64>, Option<i64>, bool),
        (Option<String>, Option<String>, Option<Seq<(String, String)>>),
        (Option<ComponentDescriptor>, Seq<(u8, AudioComponentDescriptor)>, Option<Seq<EpgGenre>>),
        (Option<SeriesDescriptor>, Option<(u8, Seq<EventGroupEvent>)>),
    ),
    (Option<String>, i32, Seq<String>, Seq<String>),
    Seq<String>,
    Option<RecordingFailedReason>,
) {
    (
        s.state,
        program_view(*s.program),
        (s.options.content_path, s.options.priority, s.options.pre_filters@, s.options.post_filters@),
        s.tags@,
        s.failed_reason,
    )
}

impl Clone for RecordingSchedule {
    fn clone(&self) -> (r: Self)
        ensures
            schedule_view(r) == schedule_view(*self),
            r.program == self.program,
    {
        RecordingSchedule {
            state: self.state,
            program: share(&self.program),
            options: self.options.clone(),
            tags: clone_strings(&self.tags),
            failed_reason: match &self.failed_reason {
                Some(reason) => Some(reason.clone()),
                None => None,
            },
        }
    }
}

/// The status of a record.
#[derive(Clone, Debug)]
pub enum RecordingStatus {
    Recording,
    Finished,
    Canceled,
    Failed { reason: RecordingFailedReason },
}

/// What is removed by a removal of recording schedules.
#[derive(Debug)]
pub enum RemovalTarget {
    All,
    Tag(String),
}

/// Queries all recording schedules.
pub struct QueryRecordingSchedules;

/// Queries the recording schedule of a program.
pub struct QueryRecordingSchedule {
    pub program_id: ProgramId,
}

/// Adds a recording schedule.
pub struct AddRecordingSchedule {
    pub schedule: RecordingSchedule,
}

/// Removes the recording schedule of a program.
pub struct RemoveRecordingSchedule {
    pub program_id: ProgramId,
}

/// Removes recording schedules.
pub struct RemoveRecordingSchedules {
    pub target: RemovalTarget,
}

/// Queries all recorders.
pub struct QueryRecordingRecorders;

/// Queries the recorder of a program.
pub struct QueryRecordingRecorder {
    pub program_id: ProgramId,
}

/// Starts recording by a schedule.
pub struct StartRecording {
    pub schedule: RecordingSchedule,
}

/// Stops the recording of a program.
pub struct StopRecording {
    pub program_id: ProgramId,
}

/// Queries all records.
pub struct QueryRecords;

/// Queries a record.
pub struct QueryRecord {
    pub id: RecordId,
}

/// Removes a record, and its content when purged.
pub struct RemoveRecord {
    pub id: RecordId,
    pub purge: bool,
}

/// After an emitter of started recordings was registered: tells it of the
/// recordings that run already.
pub struct RegisterEmitterPostProcess<E>(pub E);

/// Unregisters an emitter of a kind of event by its identifier.
#[derive(Clone, Copy, Debug)]
pub enum UnregisterEmitter {
    RecordingStarted(usize),
    RecordingStopped(usize),
    RecordingFailed(usize),
    RecordingRescheduled(usize),
    RecordSaved(usize),
    RecordRemoved(usize),
    ContentRemoved(usize),
    RecordBroken(usize),
}

/// The recording of a program started.
#[derive(Clone, Copy, Debug)]
pub struct RecordingStarted {
    pub program_id: ProgramId,
}

/// The recording of a program stopped.
#[derive(Clone, Copy, Debug)]
pub struct RecordingStopped {
    pub program_id: ProgramId,
}

/// The recording of a program failed.
#[derive(Clone, Debug)]
pub struct RecordingFailed {
    pub program_id: ProgramId,
    pub reason: RecordingFailedReason,
}

/// The recording of a program was rescheduled.
#[derive(Clone, Copy, Debug)]
pub struct RecordingRescheduled {
    pub program_id: ProgramId,
}

/// A record was saved.
#[derive(Clone, Debug)]
pub struct RecordSaved {
    pub record_id: RecordId,
    pub recording_status: RecordingStatus,
}

/// A record is broken.
#[derive(Clone, Debug)]
pub struct RecordBroken {
    pub record_id: RecordId,
    pub reason: &'static str,
}

/// A record was removed.
#[derive(Clone, Debug)]
pub struct RecordRemoved {
    pub record_id: RecordId,
}

/// The content of a record was removed.
#[derive(Clone, Debug)]
pub struct ContentRemoved {
    pub record_id: RecordId,
}

/// A record of a recording.
pub struct Record {
    pub id: RecordId,
    pub program: Arc<EpgProgram>,
    pub service: EpgService,
    pub options: RecordingOptions,
    pub tags: Vec<String>,
    pub recording_status: RecordingStatus,
    /// UNIX time in milliseconds.
    pub recording_start_time: i64,
    /// UNIX time in milliseconds.
    pub recording_end_time: Option<i64>,
    /// In milliseconds.
    pub recording_duration: Option<i64>,
    /// Relative to the base directory.
    pub content_path: String,
    pub content_type: String,
}

/// Whether `new` is the status of a record whose schedule is in the state:
/// a scheduled or tracked schedule leaves the status `old` as it is.
pub open spec fn status_follows(
    state: RecordingScheduleState,
    failed_reason: Option<RecordingFailedReason>,
    old: RecordingStatus,
    new: RecordingStatus,
) -> bool {
    match state {
        RecordingScheduleState::Scheduled | RecordingScheduleState::Tracking => new == old,
        RecordingScheduleState::Recording => new == RecordingStatus::Recording,
        RecordingScheduleState::Rescheduling => new == RecordingStatus::Failed {
            reason: RecordingFailedReason::NeedRescheduling,
        },
        RecordingScheduleState::Finished => new == RecordingStatus::Finished,
        RecordingScheduleState::Failed => new == RecordingStatus::Failed { reason: failed_reason->0 },
    }
}

impl Record {
    /// A record of a recording that started at a UNIX time (in
    /// milliseconds) by a schedule.
    pub fn new(
        id: RecordId,
        start_time: i64,
        service: EpgService,
        schedule: &RecordingSchedule,
        content_path: String,
        content_type: String,
    ) -> (r: Self)
        ensures
            r.id == id,
            r.program == schedule.program,
            r.service == service,
            same_options(r.options, schedule.options),
            r.tags@ == schedule.tags@,
            r.recording_status == RecordingStatus::Recording,
            r.recording_start_time == start_time,
            r.recording_end_time is None,
            r.recording_duration is None,
            r.content_path == content_path,
            r.content_type == content_type,
    {
        Record {
            id,
            program: schedule.program.clone(),
            service,
            options: schedule.options.clone(),
            tags: clone_strings(&schedule.tags),
            recording_status: RecordingStatus::Recording,
            recording_start_time: start_time,
            recording_end_time: None,
            recording_duration: None,
            content_path,
            content_type,
        }
    }

    /// Takes the program, the options and the tags of the schedule, ends
    /// the record at `now` (UNIX time in milliseconds) and sets the status
    /// by the state of the schedule; a recording record has no end.
    pub fn update_by_schedule(&mut self, schedule: &RecordingSchedule, now: i64)
        requires
            schedule.state == RecordingScheduleState::Failed ==> schedule.failed_reason is Some,
            i64::MIN <= now - old(self).recording_start_time <= i64::MAX,
        ensures
            final(self).id == old(self).id,
            final(self).program == schedule.program,
            final(self).service == old(self).service,
            same_options(final(self).options, schedule.options),
            final(self).tags@ == schedule.tags@,
            final(self).recording_start_time == old(self).recording_start_time,
            final(self).content_path == old(self).content_path,
            final(self).content_type == old(self).content_type,
            status_follows(schedule.state, schedule.failed_reason, old(self).recording_status, final(self).recording_status),
            schedule.state == RecordingScheduleState::Recording ==> final(self).recording_end_time is None
                && final(self).recording_duration is None,
            schedule.state != RecordingScheduleState::Recording ==> final(self).recording_end_time == Some(now)
                && final(self).recording_duration == Some((now - old(self).recording_start_time) as i64),
    {
        self.program = schedule.program.clone();
        self.options = schedule.options.clone();
        self.tags = clone_strings(&schedule.tags);
        self.recording_end_time = Some(now);
        self.recording_duration = Some(now - self.recording_start_time);
        match schedule.state {
            RecordingScheduleState::Scheduled | RecordingScheduleState::Tracking => {},
            RecordingScheduleState::Recording => {
                self.recording_status = RecordingStatus::Recording;
                self.recording_end_time = None;
                self.recording_duration = None;
            },
            RecordingScheduleState::Rescheduling => {
                self.recording_status = RecordingStatus::Failed {
                    reason: RecordingFailedReason::NeedRescheduling,
                };
            },
            RecordingScheduleState::Finished => {
                self.recording_status = RecordingStatus::Finished;
            },
            RecordingScheduleState::Failed => {
                match &schedule.failed_reason {
                    Some(reason) => {
                        self.recording_status = RecordingStatus::Failed { reason: reason.clone() };
                    },
                    None => {},
                }
            },
        }
    }
}

/// A record identifier has 32 digits, and records started at different
/// times or for different programs have different identifiers.
pub proof fn lemma_record_id_unique(t1: i64, p1: u64, t2: i64, p2: u64)
    ensures
        record_id_text(t1, p1).len() == 32,
        record_id_text(t1, p1) == record_id_text(t2, p2) ==> t1 == t2 && p1 == p2,
{
    lemma_hex_fixed_len(t1 as u64 as nat, 16);
    lemma_hex_fixed_len(p1 as nat, 16);
    lemma_hex_fixed_len(t2 as u64 as nat, 16);
    lemma_hex_fixed_len(p2 as nat, 16);
    if record_id_text(t1, p1) == record_id_text(t2, p2) {
        let a1 = hex_fixed(t1 as u64 as nat, 16);
        let b1 = hex_fixed(p1 as nat, 16);
        let a2 = hex_fixed(t2 as u64 as nat, 16);
        let b2 = hex_fixed(p2 as nat, 16);
        assert(a1 =~= (a1 + b1).subrange(0, 16));
        assert(a2 =~= (a2 + b2).subrange(0, 16));
        assert(b1 =~= (a1 + b1).subrange(16, 32));
        assert(b2 =~= (a2 + b2).subrange(16, 32));
        assert(vstd::arithmetic::power::pow(16, 16) == 0x1_0000_0000_0000_0000) by {
            reveal_with_fuel(vstd::arithmetic::power::pow, 17);
        }
        lemma_hex_fixed_injective(t1 as u64 as nat, t2 as u64 as nat, 16);
        lemma_hex_fixed_injective(p1 as nat, p2 as nat, 16);
        assert(t1 as u64 == t2 as u64 ==> t1 == t2) by (bit_vector);
    }
}


/// Whether `d` is the text `s`.
pub open spec fn text_is(d: TemplateData, s: Seq<char>) -> bool {
    d matches TemplateData::Str(x) && x@ == s
}

/// Whether `d` is the list of the tags in decimal.
pub open spec fn tag_list(d: TemplateData, tags: Seq<u8>) -> bool {
    d matches TemplateData::List(items) && items@.len() == tags.len() && forall|i: int|
        0 <= i < tags.len() ==> text_is(#[trigger] items@[i], decimal(tags[i] as nat))
}

/// The component tag of the video of a program, if it has one.
pub open spec fn video_tags(p: EpgProgram) -> Seq<u8> {
    match p.video {
        Some(v) => seq![v.component_tag],
        None => Seq::empty(),
    }
}

/// The component tags of the audios of a program, in their order.
pub open spec fn audio_tags(p: EpgProgram) -> Seq<u8> {
    p.audios@.map_values(|a: (u8, AudioComponentDescriptor)| a.1.component_tag)
}

fn tags_data(tags: &Vec<u8>) -> (r: TemplateData)
    ensures
        tag_list(r, tags@),
{
    let mut items: Vec<TemplateData> = Vec::new();
    let mut i: usize = 0;
    while i < tags.len()
        invariant
            i <= tags@.len(),
            items@.len() == i,
            forall|j: int| 0 <= j < i ==> text_is(#[trigger] items@[j], decimal(tags@[j] as nat)),
        decreases tags@.len() - i,
    {
        items.push(TemplateData::Str(to_decimal(tags[i] as u64)));
        i = i + 1;
    }
    TemplateData::List(items)
}

/// The data that the filters of a recording are rendered with: the name,
/// the type and the channel of the service's channel; the service and
/// event identifiers of the program; the PID, the PCR and the time of the
/// clock of the service; and the component tags of the video and the
/// audios of the program.  Numbers are in decimal.
pub fn recording_filter_data(
    service: &EpgService,
    program_id: ProgramId,
    clock: &Clock,
    program: &EpgProgram,
) -> (r: TemplateData)
    ensures
        r matches TemplateData::Fields(f) && f@.len() == 10 && {
            &&& f@[0].0@ == "channel_name"@ && text_is(f@[0].1, service.channel.name@)
            &&& f@[1].0@ == "channel_type"@ && text_is(f@[1].1, channel_type_label(service.channel.channel_type))
            &&& f@[2].0@ == "channel"@ && text_is(f@[2].1, service.channel.channel@)
            &&& f@[3].0@ == "sid"@ && text_is(f@[3].1, decimal(((program_id@ / 100_000) % 100_000) as u16 as nat))
            &&& f@[4].0@ == "eid"@ && text_is(f@[4].1, decimal((program_id@ % 100_000) as u16 as nat))
            &&& f@[5].0@ == "clock_pid"@ && text_is(f@[5].1, decimal(clock.pid as nat))
            &&& f@[6].0@ == "clock_pcr"@ && text_is(f@[6].1, signed_decimal(clock.pcr as int))
            &&& f@[7].0@ == "clock_time"@ && text_is(f@[7].1, signed_decimal(clock.time as int))
            &&& f@[8].0@ == "video_tags"@ && tag_list(f@[8].1, video_tags(*program))
            &&& f@[9].0@ == "audio_tags"@ && tag_list(f@[9].1, audio_tags(*program))
        },
{
    let mut video: Vec<u8> = Vec::new();
    if let Some(v) = &program.video {
        video.push(v.component_tag);
    }
    assert(video@ =~= video_tags(*program));
    let mut audio: Vec<u8> = Vec::new();
    let mut i: usize = 0;
    while i < program.audios.len()
        invariant
            i <= program.audios@.len(),
            audio@ =~= audio_tags(*program).take(i as int),
        decreases program.audios@.len() - i,
    {
        audio.push(program.audios[i].1.component_tag);
        i = i + 1;
    }
    assert(audio_tags(*program).take(program.audios@.len() as int) =~= audio_tags(*program));
    let sid = program_id.sid();
    let eid = program_id.eid();
    let mut f: Vec<(String, TemplateData)> = Vec::new();
    f.push((String::from_str("channel_name"), TemplateData::Str(service.channel.name.clone())));
    f.push((String::from_str("channel_type"), TemplateData::Str(service.channel.channel_type.to_string())));
    f.push((String::from_str("channel"), TemplateData::Str(service.channel.channel.clone())));
    f.push((String::from_str("sid"), TemplateData::Str(to_decimal(sid.value() as u64))));
    f.push((String::from_str("eid"), TemplateData::Str(to_decimal(eid.value() as u64))));
    f.push((String::from_str("clock_pid"), TemplateData::Str(to_decimal(clock.pid as u64))));
    f.push((String::from_str("clock_pcr"), TemplateData::Str(to_signed_decimal(clock.pcr))));
    f.push((String::from_str("clock_time"), TemplateData::Str(to_signed_decimal(clock.time))));
    f.push((String::from_str("video_tags"), tags_data(&video)));
    f.push((String::from_str("audio_tags"), tags_data(&audio)));
    TemplateData::Fields(f)
}


/// The steps of the filters of a recording: the pre-filters of its options,
/// the decode filter unless the stream is decoded, the program filter, and
/// the post-filters of its options.
pub open spec fn recording_steps(config: Config, options: RecordingOptions, decoded: bool) -> Seq<FilterStep> {
    pre_steps(config.pre_filters@, options.pre_filters@) + (if decoded {
        Seq::<FilterStep>::empty()
    } else {
        seq![(config.filters.decode_filter.command@, None::<Seq<char>>)]
    }) + seq![(config.filters.program_filter.command@, None::<Seq<char>>)] + post_steps(
        config.post_filters@,
        options.post_filters@,
    )
}

/// Whether no command of the filters of a recording has a tag.
pub open spec fn recording_plain(config: Config, options: RecordingOptions, decoded: bool) -> bool {
    &&& pre_plain(config.pre_filters@, options.pre_filters@)
    &&& (!decoded ==> !has_tag_open(config.filters.decode_filter.command@))
    &&& !has_tag_open(config.filters.program_filter.command@)
    &&& post_plain(config.post_filters@, options.post_filters@)
}

/// A built-in filter added to a builder is one step of the fold.
proof fn lemma_builtin_step(before: Seq<String>, ct: Seq<char>, cmd: Seq<char>, after: Seq<String>)
    requires
        cmd.len() == 0 ==> after == before,
        cmd.len() > 0 ==> plain_added(before, cmd, after),
    ensures
        (texts(after), ct) == plain_fold(texts(before), ct, seq![(cmd, None::<Seq<char>>)]),
{
    let steps = seq![(cmd, None::<Seq<char>>)];
    assert(steps.drop_last() =~= Seq::<FilterStep>::empty());
    assert(steps.last() == (cmd, None::<Seq<char>>));
    assert(plain_fold(texts(before), ct, Seq::<FilterStep>::empty()) == (texts(before), ct));
    if cmd.len() > 0 && crate::filter::str_trimmed(cmd).len() > 0 {
        assert(texts(after) =~= texts(before).push(crate::filter::str_trimmed(cmd)));
    } else {
        assert(after == before);
    }
}

/// Whether no command of the filters of a recording may read a file.
pub open spec fn recording_files_free(config: Config, options: RecordingOptions, decoded: bool) -> bool {
    &&& pre_files_free(config.pre_filters@, options.pre_filters@)
    &&& (!decoded ==> !reads_files(config.filters.decode_filter.command@))
    &&& !reads_files(config.filters.program_filter.command@)
    &&& post_files_free(config.post_filters@, options.post_filters@)
}

/// Whether every command of the filters of a recording renders safely with
/// the data.
pub open spec fn recording_render_safe(
    config: Config,
    options: RecordingOptions,
    data: TemplateData,
    decoded: bool,
) -> bool {
    &&& pre_render_safe(config.pre_filters@, options.pre_filters@, data)
    &&& (!decoded ==> crate::render_safety::render_safe(config.filters.decode_filter.command@, data))
    &&& crate::render_safety::render_safe(config.filters.program_filter.command@, data)
    &&& post_render_safe(config.post_filters@, options.post_filters@, data)
}

/// A built-in filter added to a builder is one step of the rendered fold.
proof fn lemma_builtin_rendered(
    before: Seq<String>,
    ct: Seq<char>,
    cmd: Seq<char>,
    data: TemplateData,
    r: Result<usize, FilterError>,
    after: Seq<String>,
)
    requires
        cmd.len() == 0 ==> r is Ok && after == before,
        cmd.len() > 0 ==> match mustache_rendered(cmd, data) {
            None => r is Err && after == before,
            Some(t) => r is Ok && plain_added(before, t, after),
        },
    ensures
        match rendered_fold(texts(before), ct, seq![(cmd, None::<Seq<char>>)], data) {
            None => r is Err,
            Some(res) => r is Ok && res == (texts(after), ct),
        },
{
    let steps = seq![(cmd, None::<Seq<char>>)];
    assert(steps.drop_last() =~= Seq::<FilterStep>::empty());
    assert(steps.last() == (cmd, None::<Seq<char>>));
    assert(rendered_fold(texts(before), ct, Seq::<FilterStep>::empty(), data) == Some((texts(before), ct)));
    if cmd.len() > 0 {
        match mustache_rendered(cmd, data) {
            Some(t) => {
                if crate::filter::str_trimmed(t).len() > 0 {
                    assert(texts(after) =~= texts(before).push(crate::filter::str_trimmed(t)));
                }
            },
            None => {},
        }
    }
}

/// Rendering the four runs of steps of a recording is rendering each from
/// where the one before ends.
proof fn lemma_fold_chain(
    f: Seq<Seq<char>>,
    c: Seq<char>,
    a: Seq<FilterStep>,
    d: Seq<FilterStep>,
    p: Seq<FilterStep>,
    b: Seq<FilterStep>,
    data: TemplateData,
)
    ensures
        rendered_fold(f, c, a + d + p + b, data) == match rendered_fold(f, c, a, data) {
            None => None,
            Some(x) => match rendered_fold(x.0, x.1, d, data) {
                None => None,
                Some(y) => match rendered_fold(y.0, y.1, p, data) {
                    None => None,
                    Some(z) => rendered_fold(z.0, z.1, b, data),
                },
            },
        },
{
    crate::filter::lemma_rendered_fold_append(f, c, a + d + p, b, data);
    crate::filter::lemma_rendered_fold_append(f, c, a + d, p, data);
    crate::filter::lemma_rendered_fold_append(f, c, a, d, data);
}

/// The commands of the filter pipeline of a recording, rendered with the
/// data of the recording, and the content type of its output: the
/// pre-filters of the options, the decode filter unless the stream is
/// decoded already, the program filter, then the post-filters of the
/// options.  Stops at the first command that does not render.
pub fn recording_filters(config: &Config, options: &RecordingOptions, data: TemplateData, decoded: bool) -> (r: Result<
    (Vec<String>, String),
    FilterError,
>)
    requires
        options.pre_filters@.len() + options.post_filters@.len() + 2 < usize::MAX,
        recording_render_safe(*config, *options, data, decoded),
    ensures
        recording_plain(*config, *options, decoded) ==> r is Ok && (texts(r->Ok_0.0@), r->Ok_0.1@) == plain_fold(
            Seq::empty(),
            "video/MP2T"@,
            recording_steps(*config, *options, decoded),
        ),
        recording_files_free(*config, *options, decoded) ==> match rendered_fold(
            Seq::empty(),
            "video/MP2T"@,
            recording_steps(*config, *options, decoded),
            data,
        ) {
            Some(res) => r is Ok && (texts(r->Ok_0.0@), r->Ok_0.1@) == res,
            None => r is Err,
        },
        r matches Ok((filters, _)) ==> filters@.len() <= options.pre_filters@.len() + options.post_filters@.len() + 2,
{
    let ghost a = pre_steps(config.pre_filters@, options.pre_filters@);
    let ghost d = if decoded {
        Seq::<FilterStep>::empty()
    } else {
        seq![(config.filters.decode_filter.command@, None::<Seq<char>>)]
    };
    let ghost p = seq![(config.filters.program_filter.command@, None::<Seq<char>>)];
    let ghost b = post_steps(config.post_filters@, options.post_filters@);
    let ghost e = Seq::<Seq<char>>::empty();
    let ghost t = "video/MP2T"@;
    let ghost g = data;
    proof {
        lemma_fold_chain(e, t, a, d, p, b, data);
    }
    let mut builder = FilterPipelineBuilder::new(data);
    proof {
        assert(texts(builder.filters@) =~= Seq::<Seq<char>>::empty());
    }
    match builder.add_pre_filters(&config.pre_filters, options.pre_filters.as_slice()) {
        Err(e) => return Err(e),
        Ok(_) => {},
    }
    let ghost after_pre = (texts(builder.filters@), builder.content_type@);
    let ghost f1 = builder.filters@;
    if !decoded {
        let r1 = builder.add_decode_filter(&config.filters.decode_filter);
        proof {
            if recording_plain(*config, *options, decoded) {
                lemma_builtin_step(f1, after_pre.1, config.filters.decode_filter.command@, builder.filters@);
            }
            if recording_files_free(*config, *options, decoded) {
                lemma_builtin_rendered(f1, after_pre.1, config.filters.decode_filter.command@, g, r1, builder.filters@);
            }
        }
        match r1 {
            Err(e) => return Err(e),
            Ok(_) => {},
        }
    } else {
        proof {
            assert(rendered_fold(after_pre.0, after_pre.1, d, g) == Some(after_pre));
            assert(plain_fold(after_pre.0, after_pre.1, d) == after_pre);
        }
    }
    let ghost after_decode = (texts(builder.filters@), builder.content_type@);
    let ghost f2 = builder.filters@;
    let r2 = builder.add_program_filter(&config.filters.program_filter);
    proof {
        if recording_plain(*config, *options, decoded) {
            lemma_builtin_step(f2, after_decode.1, config.filters.program_filter.command@, builder.filters@);
        }
        if recording_files_free(*config, *options, decoded) {
            lemma_builtin_rendered(f2, after_decode.1, config.filters.program_filter.command@, g, r2, builder.filters@);
        }
    }
    match r2 {
        Err(e) => return Err(e),
        Ok(_) => {},
    }
    match builder.add_post_filters(&config.post_filters, options.post_filters.as_slice()) {
        Err(e) => return Err(e),
        Ok(_) => {},
    }
    proof {
        if recording_plain(*config, *options, decoded) {
            crate::filter::lemma_plain_fold_append(e, t, a, d);
            crate::filter::lemma_plain_fold_append(e, t, a + d, p);
            crate::filter::lemma_plain_fold_append(e, t, a + d + p, b);
        }
    }
    Ok(builder.build())
}

} // verus!
