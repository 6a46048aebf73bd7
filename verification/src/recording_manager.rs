//! The recording schedules that the recording manager keeps, and the
//! decisions it takes on them: which schedules to keep, which to record
//! next, and how updates of the EPG and of on-air programs change them.
//!
//! Times are UNIX times in milliseconds.
use std::sync::Arc;
use vstd::prelude::*;

use crate::epg::{
    program_view, AudioComponentDescriptor, ComponentDescriptor, EpgProgram, EpgService,
    EventGroupEvent, SeriesDescriptor,
};
use crate::error::Error;
use crate::models::{lemma_eid_view_injective, Eid, EpgGenre, ProgramId, ServiceId};
use crate::recording::{
    check_retry, first_error_position, get_first_error, schedule_view, RecordingFailedReason,
    RecordingSchedule, RecordingScheduleState, RemovalTarget, EXIT_RETRY,
};

verus! {

/// Seconds before its start in which the recording of a program is started.
pub const PREP_SECS: i64 = 15;

/// Hours after its start after which a schedule is dropped.
pub const MAX_DELAY_HOURS: i64 = 15;

/// `PREP_SECS` in milliseconds.
pub const PREP_MILLIS: i64 = 15_000;

/// `MAX_DELAY_HOURS` in milliseconds.
pub const MAX_DELAY_MILLIS: i64 = 54_000_000;

/// An entry of the queue of schedules to record.
#[derive(Clone, Copy, Debug)]
pub struct QueueItem {
    pub program_id: ProgramId,
    pub start_at: i64,
    pub priority: i32,
}

/// Whether `a` comes before `b` in the queue: it starts earlier, or at the
/// same time with a higher priority.
pub open spec fn ranks_above(a: QueueItem, b: QueueItem) -> bool {
    a.start_at < b.start_at || (a.start_at == b.start_at && a.priority > b.priority)
}

/// The queue entry of a schedule.
pub open spec fn item_of(s: RecordingSchedule) -> QueueItem {
    QueueItem {
        program_id: s.program.id,
        start_at: s.program.start_at.unwrap(),
        priority: s.options.priority,
    }
}

/// Whether a schedule waits for its recording to start.
pub open spec fn is_ready(s: RecordingSchedule) -> bool {
    s.state == RecordingScheduleState::Scheduled || s.state == RecordingScheduleState::Tracking
}

/// Schedules by program identifier: each identifier once, each program with
/// a start time.
pub open spec fn schedules_wf(s: Seq<(ProgramId, RecordingSchedule)>) -> bool {
    &&& forall|i: int| 0 <= i < s.len() ==> (#[trigger] s[i]).1.program.start_at is Some
    &&& forall|i: int, j: int| 0 <= i < j < s.len() ==> (#[trigger] s[i]).0 != (#[trigger] s[j]).0
}

/// The position of the schedule of a program identifier, or -1.
pub open spec fn position_of(s: Seq<(ProgramId, RecordingSchedule)>, id: ProgramId) -> int
    decreases s.len(),
{
    if s.len() == 0 {
        -1
    } else if s.last().0 == id {
        s.len() - 1
    } else {
        position_of(s.drop_last(), id)
    }
}

pub proof fn lemma_position_of(s: Seq<(ProgramId, RecordingSchedule)>, id: ProgramId)
    ensures
        -1 <= position_of(s, id) < s.len(),
        position_of(s, id) >= 0 ==> s[position_of(s, id)].0 == id,
        position_of(s, id) < 0 ==> forall|i: int| 0 <= i < s.len() ==> s[i].0 != id,
        schedules_wf(s) ==> forall|i: int| 0 <= i < s.len() && s[i].0 == id ==> i == position_of(s, id),
    decreases s.len(),
{
    if s.len() > 0 {
        let d = s.drop_last();
        lemma_position_of(d, id);
        assert forall|i: int| 0 <= i < d.len() implies d[i] == s[i] by {}
    }
}

/// The schedules after adding one: unchanged where its program has one
/// already, else with it appended.
pub open spec fn with_added(s: Seq<(ProgramId, RecordingSchedule)>, schedule: RecordingSchedule) -> Seq<
    (ProgramId, RecordingSchedule),
> {
    if position_of(s, schedule.program.id) >= 0 {
        s
    } else {
        s.push((schedule.program.id, schedule))
    }
}

/// Loading a list of schedules keeps every schedule there was, in its place,
/// and leaves every program of the list with a schedule.
pub proof fn lemma_loaded_contains(s: Seq<(ProgramId, RecordingSchedule)>, list: Seq<RecordingSchedule>)
    ensures
        s.len() <= with_loaded(s, list).len(),
        with_loaded(s, list).take(s.len() as int) == s,
        forall|i: int| 0 <= i < list.len() ==> position_of(with_loaded(s, list), (#[trigger] list[i]).program.id) >= 0,
    decreases list.len(),
{
    if list.len() > 0 {
        let d = list.drop_last();
        lemma_loaded_contains(s, d);
        let before = with_loaded(s, d);
        let after = with_loaded(s, list);
        let x = list.last();
        lemma_position_of(before, x.program.id);
        lemma_position_of(after, x.program.id);
        assert(after.take(s.len() as int) =~= before.take(s.len() as int));
        assert forall|i: int| 0 <= i < list.len() implies position_of(after, (#[trigger] list[i]).program.id) >= 0 by {
            let id = list[i].program.id;
            lemma_position_of(before, id);
            lemma_position_of(after, id);
            if i < d.len() {
                assert(d[i] == list[i]);
                let p = position_of(before, id);
                assert(after[p] == before[p]);
            }
        }
    }
}

/// The schedules after adding each of a list in turn.
pub open spec fn with_loaded(s: Seq<(ProgramId, RecordingSchedule)>, list: Seq<RecordingSchedule>) -> Seq<
    (ProgramId, RecordingSchedule),
>
    decreases list.len(),
{
    if list.len() == 0 {
        s
    } else {
        with_added(with_loaded(s, list.drop_last()), list.last())
    }
}

/// The entries of the schedules waiting for their recordings, in the order
/// of the schedules.
pub open spec fn ready_items(s: Seq<(ProgramId, RecordingSchedule)>) -> Seq<QueueItem>
    decreases s.len(),
{
    if s.len() == 0 {
        Seq::empty()
    } else if is_ready(s.last().1) {
        ready_items(s.drop_last()).push(item_of(s.last().1))
    } else {
        ready_items(s.drop_last())
    }
}

/// What the schedules hold, in their order.
pub open spec fn schedule_views(s: Seq<(ProgramId, RecordingSchedule)>) -> Seq<
    (
        RecordingScheduleState,
        (
            (ProgramId, Option<i64>, Option<i64>, bool),
            (Option<String>, Option<String>, Option<Seq<(String, String)>>),
            (Option<ComponentDescriptor>, Seq<(u8, AudioComponentDescriptor)>, Option<Seq<EpgGenre>>),
            (Option<SeriesDescriptor>, Option<(u8, Seq<EventGroupEvent>)>),
        ),
        (Option<String>, i32, Seq<String>, Seq<String>),
        Seq<String>,
        Option<RecordingFailedReason>,
    ),
> {
    s.map_values(|e: (ProgramId, RecordingSchedule)| schedule_view(e.1))
}

/// Whether the queue has the next schedule to record last.
pub open spec fn queue_sorted(q: Seq<QueueItem>) -> bool {
    forall|i: int, j: int| 0 <= i < j < q.len() ==> !ranks_above(#[trigger] q[i], #[trigger] q[j])
}

/// Whether the schedules start with the next one to record.
pub open spec fn schedules_sorted(s: Seq<RecordingSchedule>) -> bool {
    forall|i: int, j: int| 0 <= i < j < s.len() ==> !ranks_above(item_of(#[trigger] s[j]), item_of(#[trigger] s[i]))
}

/// Whether a queued schedule is due: it starts within the preparation time
/// (or has started).
pub open spec fn is_due(item: QueueItem, now: i64) -> bool {
    item.start_at - now <= PREP_MILLIS
}

/// The queue entry of a schedule.
fn item(s: &RecordingSchedule) -> (r: QueueItem)
    requires
        s.program.start_at is Some,
    ensures
        r == item_of(*s),
{
    QueueItem { program_id: s.program.id, start_at: s.program.start_at.unwrap(), priority: s.options.priority }
}

fn same_time(a: Option<i64>, b: Option<i64>) -> (r: bool)
    ensures
        r == (a == b),
{
    match (a, b) {
        (Some(x), Some(y)) => x == y,
        (None, None) => true,
        _ => false,
    }
}

fn ranks_above_exec(a: &QueueItem, b: &QueueItem) -> (r: bool)
    ensures
        r == ranks_above(*a, *b),
{
    a.start_at < b.start_at || (a.start_at == b.start_at && a.priority > b.priority)
}

/// The entries that `keep` keeps, in their order.
pub open spec fn kept(
    s: Seq<(ProgramId, RecordingSchedule)>,
    keep: spec_fn((ProgramId, RecordingSchedule)) -> bool,
) -> Seq<(ProgramId, RecordingSchedule)>
    decreases s.len(),
{
    if s.len() == 0 {
        Seq::empty()
    } else if keep(s.last()) {
        kept(s.drop_last(), keep).push(s.last())
    } else {
        kept(s.drop_last(), keep)
    }
}

/// The program identifiers of the entries that `pick` picks, in their
/// order.
pub open spec fn picked_ids(
    s: Seq<(ProgramId, RecordingSchedule)>,
    pick: spec_fn((ProgramId, RecordingSchedule)) -> bool,
) -> Seq<ProgramId> {
    kept(s, pick).map_values(|e: (ProgramId, RecordingSchedule)| e.0)
}

proof fn lemma_kept_step(
    s: Seq<(ProgramId, RecordingSchedule)>,
    keep: spec_fn((ProgramId, RecordingSchedule)) -> bool,
    k: int,
)
    requires
        0 <= k < s.len(),
    ensures
        kept(s.take(k + 1), keep) == if keep(s[k]) {
            kept(s.take(k), keep).push(s[k])
        } else {
            kept(s.take(k), keep)
        },
        picked_ids(s.take(k + 1), keep) == if keep(s[k]) {
            picked_ids(s.take(k), keep).push(s[k].0)
        } else {
            picked_ids(s.take(k), keep)
        },
{
    assert(s.take(k + 1).drop_last() =~= s.take(k));
    assert(s.take(k + 1).last() == s[k]);
    if keep(s[k]) {
        assert(picked_ids(s.take(k + 1), keep) =~= picked_ids(s.take(k), keep).push(s[k].0));
    }
}

/// What `keep` keeps of schedules by program identifier are schedules by
/// program identifier, taken from them.
pub proof fn lemma_kept(
    s: Seq<(ProgramId, RecordingSchedule)>,
    keep: spec_fn((ProgramId, RecordingSchedule)) -> bool,
)
    ensures
        kept(s, keep).len() <= s.len(),
        forall|j: int| 0 <= j < kept(s, keep).len() ==> s.contains(#[trigger] kept(s, keep)[j]) && keep(
            kept(s, keep)[j],
        ),
        schedules_wf(s) ==> schedules_wf(kept(s, keep)),
    decreases s.len(),
{
    if s.len() > 0 {
        let d = s.drop_last();
        lemma_kept(d, keep);
        let kd = kept(d, keep);
        assert forall|j: int| 0 <= j < kd.len() implies s.contains(#[trigger] kd[j]) by {
            let m = choose|m: int| 0 <= m < d.len() && d[m] == kd[j];
            assert(s[m] == kd[j]);
        }
        if keep(s.last()) {
            let k = kd.push(s.last());
            assert forall|j: int| 0 <= j < k.len() implies s.contains(#[trigger] k[j]) && keep(k[j]) by {
                if j < kd.len() {
                    assert(k[j] == kd[j]);
                } else {
                    assert(s[s.len() - 1] == k[j]);
                }
            }
            if schedules_wf(s) {
                assert forall|a: int, b: int| 0 <= a < b < k.len() implies (#[trigger] k[a]).0 != (
                #[trigger] k[b]).0 by {
                    if b == kd.len() {
                        let m = choose|m: int| 0 <= m < d.len() && d[m] == kd[a];
                        assert(s[m] == k[a]);
                        assert(s[s.len() - 1] == k[b]);
                    } else {
                        assert(k[a] == kd[a]);
                        assert(k[b] == kd[b]);
                    }
                }
                assert forall|a: int| 0 <= a < k.len() implies (#[trigger] k[a]).1.program.start_at is Some by {
                    if a < kd.len() {
                        assert(k[a] == kd[a]);
                    } else {
                        assert(s[s.len() - 1] == k[a]);
                    }
                }
            }
        }
    }
}

/// Whether a schedule stays after a removal by tag at a time: one without
/// the tag stays; one with it stays while it is being tracked or recorded,
/// or, when scheduled, if it starts within the preparation time (or has
/// started).
pub open spec fn keeps_for_tag(e: (ProgramId, RecordingSchedule), tag: Seq<char>, now: i64) -> bool {
    let s = e.1;
    if !(exists|i: int| 0 <= i < s.tags@.len() && (#[trigger] s.tags@[i])@ == tag) {
        true
    } else {
        match s.state {
            RecordingScheduleState::Scheduled => s.program.start_at.unwrap() - now <= PREP_MILLIS,
            RecordingScheduleState::Tracking | RecordingScheduleState::Recording => true,
            _ => false,
        }
    }
}

/// Whether a schedule stays after a maintenance at a time: it is being
/// recorded, or it started less than the maximum delay ago.
pub open spec fn keeps_on_maintenance(e: (ProgramId, RecordingSchedule), now: i64) -> bool {
    e.1.state == RecordingScheduleState::Recording || e.1.program.start_at.unwrap()
        + MAX_DELAY_MILLIS > now
}

/// Whether a schedule that a maintenance drops had not been recorded: it
/// was scheduled, tracked or being rescheduled.
pub open spec fn expires_on_maintenance(e: (ProgramId, RecordingSchedule), now: i64) -> bool {
    !keeps_on_maintenance(e, now) && (e.1.state == RecordingScheduleState::Scheduled || e.1.state
        == RecordingScheduleState::Tracking || e.1.state == RecordingScheduleState::Rescheduling)
}

/// Whether the service of a schedule is among the services.
pub open spec fn service_listed(e: (ProgramId, RecordingSchedule), services: Seq<(ServiceId, EpgService)>) -> bool {
    exists|k: int| 0 <= k < services.len() && (#[trigger] services[k]).0 == ServiceId::spec_from_program(e.0)
}

/// Whether a schedule is being recorded.
pub open spec fn is_recording_entry(e: (ProgramId, RecordingSchedule)) -> bool {
    e.1.state == RecordingScheduleState::Recording
}

/// The position of the first program of an event, or -1.
pub open spec fn event_position(programs: Seq<(Eid, EpgProgram)>, eid: u16) -> int
    decreases programs.len(),
{
    if programs.len() == 0 {
        -1
    } else if event_position(programs.drop_last(), eid) >= 0 {
        event_position(programs.drop_last(), eid)
    } else if programs.last().0@ == eid {
        programs.len() - 1
    } else {
        -1
    }
}

proof fn lemma_event_position(programs: Seq<(Eid, EpgProgram)>, eid: u16)
    ensures
        -1 <= event_position(programs, eid) < programs.len(),
        event_position(programs, eid) >= 0 ==> programs[event_position(programs, eid)].0@ == eid,
        event_position(programs, eid) >= 0 ==> forall|i: int| 0 <= i < event_position(programs, eid) ==> programs[i].0@ != eid,
        event_position(programs, eid) < 0 ==> forall|i: int| 0 <= i < programs.len() ==> programs[i].0@ != eid,
    decreases programs.len(),
{
    if programs.len() > 0 {
        let d = programs.drop_last();
        lemma_event_position(d, eid);
        assert forall|i: int| 0 <= i < d.len() implies d[i] == programs[i] by {}
    }
}

/// The event identifier in a program identifier.
pub open spec fn eid_of(id: ProgramId) -> u16 {
    (id@ % 100_000) as u16
}

/// Whether a program ends after a time.
pub open spec fn ends_after(p: EpgProgram, now: i64) -> bool {
    p.start_at is Some && p.duration is Some && p.start_at.unwrap() + p.duration.unwrap() > now
}

/// Whether the EPG programs of a service update a schedule: its program is
/// of the service, and it is scheduled or being rescheduled.
pub open spec fn epg_target(e: (ProgramId, RecordingSchedule), service_id: ServiceId) -> bool {
    ServiceId::spec_from_program(e.0) == service_id && (e.1.state == RecordingScheduleState::Scheduled
        || e.1.state == RecordingScheduleState::Rescheduling)
}

/// Whether the EPG programs of a service drop a schedule: it is a target
/// and its event is not among them.
pub open spec fn gone_from_epg(
    e: (ProgramId, RecordingSchedule),
    service_id: ServiceId,
    programs: Seq<(Eid, EpgProgram)>,
) -> bool {
    epg_target(e, service_id) && event_position(programs, eid_of(e.0)) < 0
}

/// Whether the EPG programs of a service give a schedule its program anew:
/// it is a target, and the program of its event ends after the time.
pub open spec fn refreshed_by_epg(
    e: (ProgramId, RecordingSchedule),
    service_id: ServiceId,
    programs: Seq<(Eid, EpgProgram)>,
    now: i64,
) -> bool {
    let pos = event_position(programs, eid_of(e.0));
    epg_target(e, service_id) && pos >= 0 && ends_after(programs[pos].1, now)
}

/// Whether the EPG programs of a service move the start of a schedule.
pub open spec fn rescheduled_by_epg(
    e: (ProgramId, RecordingSchedule),
    service_id: ServiceId,
    programs: Seq<(Eid, EpgProgram)>,
    now: i64,
) -> bool {
    let pos = event_position(programs, eid_of(e.0));
    refreshed_by_epg(e, service_id, programs, now) && programs[pos].1.start_at != e.1.program.start_at
}

/// The schedule `b` after the EPG programs of a service update `a`: a
/// schedule that they refresh takes (a copy of) the program of its event,
/// and is scheduled again if the start moved; any other stays as it was.
pub open spec fn epg_updated(
    a: (ProgramId, RecordingSchedule),
    b: (ProgramId, RecordingSchedule),
    service_id: ServiceId,
    programs: Seq<(Eid, EpgProgram)>,
    now: i64,
) -> bool {
    if refreshed_by_epg(a, service_id, programs, now) {
        let p = programs[event_position(programs, eid_of(a.0))].1;
        &&& b.0 == a.0
        &&& program_view(*b.1.program) == program_view(p)
        &&& b.1.state == if p.start_at != a.1.program.start_at {
            RecordingScheduleState::Scheduled
        } else {
            a.1.state
        }
        &&& b.1.options == a.1.options
        &&& b.1.tags == a.1.tags
        &&& b.1.failed_reason == a.1.failed_reason
    } else {
        b == a
    }
}

/// The schedules after an on-air program of a start time, with whether the
/// start of its schedule moved and whether the record of its recording is
/// to be updated.  A scheduled schedule, or one being rescheduled, takes
/// the program and is tracked; a tracked one takes the program; one being
/// recorded takes the program and has its record updated; any other stays.
pub open spec fn onair_step(s: Seq<(ProgramId, RecordingSchedule)>, program: Arc<EpgProgram>) -> (
    Seq<(ProgramId, RecordingSchedule)>,
    bool,
    bool,
) {
    let p = position_of(s, program.id);
    if p < 0 {
        (s, false, false)
    } else {
        let e = s[p];
        let moved = e.1.program.start_at != program.start_at;
        match e.1.state {
            RecordingScheduleState::Scheduled | RecordingScheduleState::Rescheduling => (
                s.update(
                    p,
                    (e.0, RecordingSchedule { state: RecordingScheduleState::Tracking, program, ..e.1 }),
                ),
                moved,
                false,
            ),
            RecordingScheduleState::Tracking => (
                s.update(p, (e.0, RecordingSchedule { program, ..e.1 })),
                moved,
                false,
            ),
            RecordingScheduleState::Recording => (
                s.update(p, (e.0, RecordingSchedule { program, ..e.1 })),
                false,
                true,
            ),
            _ => (s, false, false),
        }
    }
}

/// Whether an on-air program is one with a start time.
pub open spec fn onair_applies(program: Option<Arc<EpgProgram>>) -> bool {
    program matches Some(p) && p.start_at is Some
}

/// The identifier of a present program as a list of at most one.
pub open spec fn id_if(program: Option<Arc<EpgProgram>>, cond: bool) -> Seq<ProgramId> {
    if cond {
        seq![program.unwrap().id]
    } else {
        Seq::empty()
    }
}

proof fn lemma_update_wf(s: Seq<(ProgramId, RecordingSchedule)>, i: int, e: (ProgramId, RecordingSchedule))
    requires
        schedules_wf(s),
        0 <= i < s.len(),
        e.0 == s[i].0,
        e.1.program.start_at is Some,
    ensures
        schedules_wf(s.update(i, e)),
{
    let u = s.update(i, e);
    assert forall|a: int, b: int| 0 <= a < b < u.len() implies (#[trigger] u[a]).0 != (#[trigger] u[b]).0 by {
        assert(u[a].0 == s[a].0);
        assert(u[b].0 == s[b].0);
    }
}

proof fn lemma_first_error_position(codes: Seq<Option<i32>>, i: int)
    requires
        0 <= i,
    ensures
        first_error_position(codes, i) <= codes.len(),
        first_error_position(codes, i) < codes.len() ==> (codes[first_error_position(codes, i)] matches Some(c)
            && c != 0),
    decreases codes.len() - i,
{
    if i < codes.len() {
        lemma_first_error_position(codes, i + 1);
    }
}

proof fn lemma_remove_wf(s: Seq<(ProgramId, RecordingSchedule)>, i: int)
    requires
        schedules_wf(s),
        0 <= i < s.len(),
    ensures
        schedules_wf(s.remove(i)),
{
    let r = s.remove(i);
    assert forall|a: int, b: int| 0 <= a < b < r.len() implies (#[trigger] r[a]).0 != (#[trigger] r[b]).0 by {
        let a2 = if a < i { a } else { a + 1 };
        let b2 = if b < i { b } else { b + 1 };
        assert(r[a] == s[a2]);
        assert(r[b] == s[b2]);
    }
    assert forall|a: int| 0 <= a < r.len() implies (#[trigger] r[a]).1.program.start_at is Some by {
        let a2 = if a < i { a } else { a + 1 };
        assert(r[a] == s[a2]);
    }
}

/// The recording schedules and the queue of those to record.
pub struct RecordingManager {
    /// The schedules to record, the next last.
    pub queue: Vec<QueueItem>,
    /// The schedules by program identifier, in the order they were added.
    pub schedules: Vec<(ProgramId, RecordingSchedule)>,
}

impl View for RecordingManager {
    type V = Seq<(ProgramId, RecordingSchedule)>;

    open spec fn view(&self) -> Seq<(ProgramId, RecordingSchedule)> {
        self.schedules@
    }
}

impl RecordingManager {
    pub open spec fn wf(&self) -> bool {
        schedules_wf(self@)
    }

    /// No schedules, and an empty queue.
    pub fn new() -> (r: Self)
        ensures
            r.wf(),
            r@.len() == 0,
            r.queue@.len() == 0,
    {
        RecordingManager { queue: Vec::new(), schedules: Vec::new() }
    }

    /// The number of schedules.
    pub fn len(&self) -> (r: usize)
        ensures
            r == self@.len(),
    {
        self.schedules.len()
    }

    fn find(&self, id: ProgramId) -> (r: Option<usize>)
        requires
            self.wf(),
        ensures
            match r {
                Some(i) => i == position_of(self@, id),
                None => position_of(self@, id) < 0,
            },
    {
        proof { lemma_position_of(self@, id); }
        let mut i: usize = 0;
        while i < self.schedules.len()
            invariant
                i <= self@.len(),
                self.wf(),
                -1 <= position_of(self@, id) < self@.len(),
                position_of(self@, id) >= 0 ==> self@[position_of(self@, id)].0 == id,
                forall|j: int| 0 <= j < self@.len() && self@[j].0 == id ==> j == position_of(self@, id),
                forall|j: int| 0 <= j < i ==> self@[j].0 != id,
            decreases self@.len() - i,
        {
            if self.schedules[i].0 == id {
                return Some(i);
            }
            i = i + 1;
        }
        None
    }

    /// Whether there is a schedule for the program.
    pub fn contains(&self, id: ProgramId) -> (r: bool)
        requires
            self.wf(),
        ensures
            r == (position_of(self@, id) >= 0),
    {
        self.find(id).is_some()
    }

    /// Adds a schedule for its program, unless there is one already.  The
    /// times of the program are not checked.
    pub fn add_schedule(&mut self, schedule: RecordingSchedule) -> (r: Result<(), Error>)
        requires
            old(self).wf(),
            schedule.program.start_at is Some,
        ensures
            final(self).wf(),
            final(self).queue == old(self).queue,
            position_of(old(self)@, schedule.program.id) >= 0 ==> r == Err::<(), Error>(
                Error::AlreadyExists,
            ) && final(self)@ == old(self)@,
            position_of(old(self)@, schedule.program.id) < 0 ==> r is Ok && final(self)@ == old(
                self,
            )@.push((schedule.program.id, schedule)),
    {
        let id = schedule.program.id;
        if self.find(id).is_some() {
            return Err(Error::AlreadyExists);
        }
        proof { lemma_position_of(self@, id); }
        self.schedules.push((id, schedule));
        Ok(())
    }

    /// Adds the schedules of a saved list in turn; one whose program has a
    /// schedule already is left out.
    pub fn load_schedules(&mut self, schedules: Vec<RecordingSchedule>)
        requires
            old(self).wf(),
            forall|i: int| 0 <= i < schedules@.len() ==> (#[trigger] schedules@[i]).program.start_at is Some,
        ensures
            final(self).wf(),
            final(self).queue == old(self).queue,
            final(self)@ == with_loaded(old(self)@, schedules@),
    {
        let ghost list = schedules@;
        for schedule in it: schedules
            invariant
                self.wf(),
                self.queue == old(self).queue,
                list == it.seq(),
                forall|k: int| 0 <= k < list.len() ==> (#[trigger] list[k]).program.start_at is Some,
                self@ == with_loaded(old(self)@, list.take(it.index() as int)),
        {
            proof {
                let n = it.index() as int;
                assert(list.take(n + 1).drop_last() =~= list.take(n));
                assert(list.take(n + 1).last() == list[n]);
            }
            let _ = self.add_schedule(schedule);
        }
        proof {
            assert(list.take(list.len() as int) =~= list);
        }
    }

    /// A copy of the schedule of a program.
    pub fn query_schedule(&self, id: ProgramId) -> (r: Result<RecordingSchedule, Error>)
        requires
            self.wf(),
        ensures
            position_of(self@, id) >= 0 ==> r is Ok && schedule_view(r->Ok_0) == schedule_view(
                self@[position_of(self@, id)].1,
            ),
            position_of(self@, id) < 0 ==> r == Err::<RecordingSchedule, Error>(
                Error::ScheduleNotFound,
            ),
    {
        proof { lemma_position_of(self@, id); }
        match self.find(id) {
            Some(i) => Ok(self.schedules[i].1.clone()),
            None => Err(Error::ScheduleNotFound),
        }
    }

    /// Takes out the schedule of a program.
    pub fn remove_schedule(&mut self, id: ProgramId) -> (r: Result<RecordingSchedule, Error>)
        requires
            old(self).wf(),
        ensures
            final(self).wf(),
            final(self).queue == old(self).queue,
            ({
                let p = position_of(old(self)@, id);
                if p >= 0 {
                    r == Ok::<RecordingSchedule, Error>(old(self)@[p].1) && final(self)@ == old(
                        self,
                    )@.remove(p)
                } else {
                    r == Err::<RecordingSchedule, Error>(Error::ScheduleNotFound) && final(self)@
                        == old(self)@
                }
            }),
    {
        proof { lemma_position_of(self@, id); }
        match self.find(id) {
            Some(i) => {
                let (_, schedule) = self.schedules.remove(i);
                proof { lemma_remove_wf(old(self)@, i as int); }
                Ok(schedule)
            },
            None => Err(Error::ScheduleNotFound),
        }
    }

    /// Marks the schedule of a program, if any, as being recorded.
    pub fn mark_recording(&mut self, id: ProgramId)
        requires
            old(self).wf(),
        ensures
            final(self).wf(),
            final(self).queue == old(self).queue,
            ({
                let p = position_of(old(self)@, id);
                if p >= 0 {
                    final(self)@ == old(self)@.update(
                        p,
                        (id, RecordingSchedule { state: RecordingScheduleState::Recording, ..old(self)@[p].1 }),
                    )
                } else {
                    final(self)@ == old(self)@
                }
            }),
    {
        proof { lemma_position_of(self@, id); }
        if let Some(i) = self.find(id) {
            self.schedules[i].1.state = RecordingScheduleState::Recording;
        }
    }

    /// Marks the schedule of a program, if any, as failed for a reason.
    pub fn mark_failed(&mut self, id: ProgramId, reason: RecordingFailedReason)
        requires
            old(self).wf(),
        ensures
            final(self).wf(),
            final(self).queue == old(self).queue,
            ({
                let p = position_of(old(self)@, id);
                if p >= 0 {
                    final(self)@ == old(self)@.update(
                        p,
                        (
                            id,
                            RecordingSchedule {
                                state: RecordingScheduleState::Failed,
                                failed_reason: Some(reason),
                                ..old(self)@[p].1
                            },
                        ),
                    )
                } else {
                    final(self)@ == old(self)@
                }
            }),
    {
        proof { lemma_position_of(self@, id); }
        if let Some(i) = self.find(id) {
            self.schedules[i].1.state = RecordingScheduleState::Failed;
            self.schedules[i].1.failed_reason = Some(reason);
        }
    }

    /// Copies of the schedules, the next to record first: by start time, and
    /// at the same start by priority, the higher first.
    pub fn query_schedules(&self) -> (r: Vec<RecordingSchedule>)
        requires
            self.wf(),
        ensures
            r@.map_values(|s: RecordingSchedule| schedule_view(s)).to_multiset() == schedule_views(
                self@,
            ).to_multiset(),
            schedules_sorted(r@),
            forall|i: int| 0 <= i < r@.len() ==> (#[trigger] r@[i]).program.start_at is Some,
    {
        let ghost src = schedule_views(self@);
        let mut out: Vec<RecordingSchedule> = Vec::new();
        proof {
            assert(out@.map_values(|s: RecordingSchedule| schedule_view(s)) =~= Seq::empty());
            assert(src.take(0) =~= Seq::empty());
        }
        let mut i: usize = 0;
        while i < self.schedules.len()
            invariant
                i <= self@.len(),
                self.wf(),
                src == schedule_views(self@),
                out@.map_values(|s: RecordingSchedule| schedule_view(s)).to_multiset() == src.take(
                    i as int,
                ).to_multiset(),
                schedules_sorted(out@),
                forall|k: int| 0 <= k < out@.len() ==> (#[trigger] out@[k]).program.start_at is Some,
            decreases self@.len() - i,
        {
            let c = self.schedules[i].1.clone();
            assert(self@[i as int].1.program.start_at is Some);
            let x = item(&c);
            let mut p: usize = 0;
            while p < out.len()
                invariant
                    p <= out@.len(),
                    forall|k: int| 0 <= k < out@.len() ==> (#[trigger] out@[k]).program.start_at is Some,
                    forall|k: int| 0 <= k < p ==> !ranks_above(x, item_of(#[trigger] out@[k])),
                ensures
                    p <= out@.len(),
                    forall|k: int| 0 <= k < p ==> !ranks_above(x, item_of(#[trigger] out@[k])),
                    p < out@.len() ==> ranks_above(x, item_of(out@[p as int])),
                decreases out@.len() - p,
            {
                let y = item(&out[p]);
                if ranks_above_exec(&x, &y) {
                    break;
                }
                p = p + 1;
            }
            let ghost before = out@;
            out.insert(p, c);
            proof {
                let f = |s: RecordingSchedule| schedule_view(s);
                assert(out@.map_values(f) =~= before.map_values(f).insert(p as int, f(c)));
                vstd::seq_lib::to_multiset_insert(before.map_values(f), p as int, f(c));
                assert(src.take(i as int + 1) =~= src.take(i as int).push(src[i as int]));
                vstd::seq_lib::to_multiset_build(src.take(i as int), src[i as int]);
                assert(f(c) == src[i as int]);
                assert forall|a: int, b: int| 0 <= a < b < out@.len() implies !ranks_above(
                    item_of(#[trigger] out@[b]),
                    item_of(#[trigger] out@[a]),
                ) by {
                    let a2 = if a < p { a } else { a - 1 };
                    let b2 = if b < p { b } else { b - 1 };
                    if a != p && b != p {
                        assert(out@[a] == before[a2]);
                        assert(out@[b] == before[b2]);
                    } else if a == p {
                        assert(out@[b] == before[b2]);
                        assert(ranks_above(x, item_of(before[p as int])));
                        assert(b2 == p || !ranks_above(item_of(before[b2]), item_of(before[p as int])));
                    } else {
                        assert(out@[a] == before[a2]);
                    }
                }
            }
            i = i + 1;
        }
        proof {
            assert(src.take(self@.len() as int) =~= src);
        }
        out
    }

    /// Fills the queue with the entries of the schedules waiting for their
    /// recordings, the next to record last.
    pub fn rebuild_queue(&mut self)
        requires
            old(self).wf(),
        ensures
            final(self)@ == old(self)@,
            final(self).queue@.to_multiset() == ready_items(old(self)@).to_multiset(),
            queue_sorted(final(self).queue@),
    {
        let mut queue: Vec<QueueItem> = Vec::new();
        let mut i: usize = 0;
        while i < self.schedules.len()
            invariant
                i <= self@.len(),
                self.wf(),
                queue@.to_multiset() == ready_items(self@.take(i as int)).to_multiset(),
                queue_sorted(queue@),
            decreases self@.len() - i,
        {
            proof {
                assert(self@.take(i as int + 1).drop_last() =~= self@.take(i as int));
                assert(self@.take(i as int + 1).last() == self@[i as int]);
            }
            let s = &self.schedules[i].1;
            if s.is_ready_for_recording() {
                assert(self@[i as int].1.program.start_at is Some);
                let x = item(s);
                let mut p: usize = 0;
                while p < queue.len()
                    invariant
                        p <= queue@.len(),
                        forall|k: int| 0 <= k < p ==> !ranks_above(#[trigger] queue@[k], x),
                    ensures
                        p <= queue@.len(),
                        forall|k: int| 0 <= k < p ==> !ranks_above(#[trigger] queue@[k], x),
                        p < queue@.len() ==> ranks_above(queue@[p as int], x),
                    decreases queue@.len() - p,
                {
                    if ranks_above_exec(&queue[p], &x) {
                        break;
                    }
                    p = p + 1;
                }
                let ghost before = queue@;
                queue.insert(p, x);
                proof {
                    vstd::seq_lib::to_multiset_insert(before, p as int, x);
                    vstd::seq_lib::to_multiset_build(ready_items(self@.take(i as int)), x);
                    assert forall|a: int, b: int| 0 <= a < b < queue@.len() implies !ranks_above(
                        #[trigger] queue@[a],
                        #[trigger] queue@[b],
                    ) by {
                        let a2 = if a < p { a } else { a - 1 };
                        let b2 = if b < p { b } else { b - 1 };
                        if a != p && b != p {
                            assert(queue@[a] == before[a2]);
                            assert(queue@[b] == before[b2]);
                        } else if a == p {
                            assert(queue@[b] == before[b2]);
                            assert(ranks_above(before[p as int], x));
                            assert(b2 == p || !ranks_above(before[p as int], before[b2]));
                        } else {
                            assert(queue@[a] == before[a2]);
                        }
                    }
                }
            }
            i = i + 1;
        }
        proof {
            assert(self@.take(self@.len() as int) =~= self@);
        }
        self.queue = queue;
    }

    /// Takes from the queue the schedules that are due, the next first, and
    /// gives their program identifiers.
    pub fn dequeue_next_schedules(&mut self, now: i64) -> (r: Vec<ProgramId>)
        ensures
            final(self)@ == old(self)@,
            final(self).queue@.len() <= old(self).queue@.len(),
            final(self).queue@ == old(self).queue@.take(final(self).queue@.len() as int),
            r@.len() == old(self).queue@.len() - final(self).queue@.len(),
            forall|i: int| 0 <= i < r@.len() ==> {
                let item = old(self).queue@[old(self).queue@.len() - 1 - i];
                #[trigger] r@[i] == item.program_id && is_due(item, now)
            },
            final(self).queue@.len() > 0 ==> !is_due(final(self).queue@.last(), now),
    {
        let mut r: Vec<ProgramId> = Vec::new();
        while self.queue.len() > 0
            invariant
                self@ == old(self)@,
                self.queue@.len() <= old(self).queue@.len(),
                self.queue@ == old(self).queue@.take(self.queue@.len() as int),
                r@.len() == old(self).queue@.len() - self.queue@.len(),
                forall|i: int| 0 <= i < r@.len() ==> {
                    let item = old(self).queue@[old(self).queue@.len() - 1 - i];
                    #[trigger] r@[i] == item.program_id && is_due(item, now)
                },
            ensures
                self.queue@.len() > 0 ==> !is_due(self.queue@.last(), now),
            decreases self.queue@.len(),
        {
            let last = self.queue.len() - 1;
            let top = self.queue[last];
            if (top.start_at as i128) - (now as i128) <= (PREP_MILLIS as i128) {
                let ghost before = self.queue@;
                let ghost r0 = r@;
                self.queue.pop();
                assert(before[last as int] == old(self).queue@[last as int]);
                r.push(top.program_id);
                assert(self.queue@ =~= old(self).queue@.take(self.queue@.len() as int));
                assert forall|i: int| 0 <= i < r@.len() implies {
                    let item = old(self).queue@[old(self).queue@.len() - 1 - i];
                    #[trigger] r@[i] == item.program_id && is_due(item, now)
                } by {
                    if i < r0.len() {
                        assert(r@[i] == r0[i]);
                    } else {
                        assert(old(self).queue@.len() - 1 - i == last);
                    }
                }
            } else {
                break;
            }
        }
        r
    }

    /// Drops every schedule and gives the programs of those being recorded,
    /// whose recorders are to be stopped.
    pub fn clear_schedules(&mut self) -> (r: Vec<ProgramId>)
        requires
            old(self).wf(),
        ensures
            final(self).wf(),
            final(self)@.len() == 0,
            final(self).queue == old(self).queue,
            r@ == picked_ids(old(self)@, |e: (ProgramId, RecordingSchedule)| is_recording_entry(e)),
    {
        let ghost pick = |e: (ProgramId, RecordingSchedule)| is_recording_entry(e);
        let mut r: Vec<ProgramId> = Vec::new();
        let mut i: usize = 0;
        proof {
            assert(picked_ids(self@.take(0), pick) =~= Seq::empty());
        }
        while i < self.schedules.len()
            invariant
                i <= self@.len(),
                self@ == old(self)@,
                pick == (|e: (ProgramId, RecordingSchedule)| is_recording_entry(e)),
                r@ == picked_ids(self@.take(i as int), pick),
            decreases self@.len() - i,
        {
            proof {
                lemma_kept_step(self@, pick, i as int);
                assert(pick(self@[i as int]) == (self@[i as int].1.state == RecordingScheduleState::Recording));
            }
            if self.schedules[i].1.is_recording() {
                r.push(self.schedules[i].0);
            }
            i = i + 1;
        }
        proof {
            assert(self@.take(self@.len() as int) =~= self@);
        }
        self.schedules = Vec::new();
        r
    }

    /// Drops the schedules with a tag, but for those being tracked or
    /// recorded and those that are scheduled to start within the
    /// preparation time (or have started).
    pub fn remove_schedules_by_tag(&mut self, tag: &str, now: i64)
        requires
            old(self).wf(),
        ensures
            final(self).wf(),
            final(self).queue == old(self).queue,
            final(self)@ == kept(old(self)@, |e: (ProgramId, RecordingSchedule)| keeps_for_tag(e, tag@, now)),
    {
        let ghost keep = |e: (ProgramId, RecordingSchedule)| keeps_for_tag(e, tag@, now);
        let ghost orig = self@;
        let tag_s = String::from_str(tag);
        let n = self.schedules.len();
        assert(orig.len() == n);
        let mut j: usize = 0;
        let mut k: usize = 0;
        proof {
            assert(kept(orig.take(0), keep) =~= Seq::empty());
            assert(orig.skip(0) =~= orig);
        }
        while j < self.schedules.len()
            invariant
                self.queue == old(self).queue,
                orig == old(self)@,
                keep == (|e: (ProgramId, RecordingSchedule)| keeps_for_tag(e, tag@, now)),
                tag_s@ == tag@,
                schedules_wf(orig),
                orig.len() <= usize::MAX,
                k <= orig.len(),
                j == kept(orig.take(k as int), keep).len(),
                self@ == kept(orig.take(k as int), keep) + orig.skip(k as int),
            decreases self@.len() - j,
        {
            proof {
                lemma_kept_step(orig, keep, k as int);
                assert(self@[j as int] == orig[k as int]);
                assert(k < orig.len());
                assert(keep(orig[k as int]) == keeps_for_tag(orig[k as int], tag@, now));
            }
            let s = &self.schedules[j].1;
            let mut tagged = false;
            let mut t: usize = 0;
            while t < s.tags.len()
                invariant
                    t <= s.tags@.len(),
                    tag_s@ == tag@,
                    tagged == exists|m: int| 0 <= m < t && (#[trigger] s.tags@[m])@ == tag@,
                decreases s.tags@.len() - t,
            {
                if s.tags[t] == tag_s {
                    tagged = true;
                }
                t = t + 1;
            }
            proof { lemma_kept(orig, keep); }
            let keep_it = if !tagged {
                true
            } else {
                match s.state {
                    RecordingScheduleState::Scheduled => {
                        assert(orig[k as int].1.program.start_at is Some);
                        (s.program.start_at.unwrap() as i128) - (now as i128) <= (PREP_MILLIS as i128)
                    },
                    RecordingScheduleState::Tracking | RecordingScheduleState::Recording => true,
                    _ => false,
                }
            };
            assert(keep_it == keep(orig[k as int]));
            if keep_it {
                j = j + 1;
                proof {
                    assert(self@ =~= kept(orig.take(k as int + 1), keep) + orig.skip(k as int + 1));
                }
            } else {
                self.schedules.remove(j);
                proof {
                    assert(self@ =~= kept(orig.take(k as int + 1), keep) + orig.skip(k as int + 1));
                }
            }
            k = k + 1;
        }
        proof {
            assert(k == orig.len()) by {
                if k < orig.len() {
                    assert(self@.len() > j);
                }
            }
            assert(orig.take(orig.len() as int) =~= orig);
            assert(self@ =~= kept(orig, keep));
            lemma_kept(orig, keep);
        }
    }

    /// Drops all schedules (giving the programs of those being recorded),
    /// or those with a tag, as `remove_schedules_by_tag` does (giving none).
    pub fn remove_schedules(&mut self, target: RemovalTarget, now: i64) -> (r: Vec<ProgramId>)
        requires
            old(self).wf(),
        ensures
            final(self).wf(),
            final(self).queue == old(self).queue,
            match target {
                RemovalTarget::All => final(self)@.len() == 0 && r@ == picked_ids(
                    old(self)@,
                    |e: (ProgramId, RecordingSchedule)| is_recording_entry(e),
                ),
                RemovalTarget::Tag(tag) => final(self)@ == kept(
                    old(self)@,
                    |e: (ProgramId, RecordingSchedule)| keeps_for_tag(e, tag@, now),
                ) && r@.len() == 0,
            },
    {
        match target {
            RemovalTarget::All => self.clear_schedules(),
            RemovalTarget::Tag(tag) => {
                self.remove_schedules_by_tag(tag.as_str(), now);
                Vec::new()
            },
        }
    }

    /// Drops the schedules that are not being recorded and started at least
    /// the maximum delay ago; gives whether any was dropped, and the
    /// programs of the dropped ones that had not been recorded, whose
    /// schedules expired.
    pub fn maintain_schedules(&mut self, now: i64) -> (r: (bool, Vec<ProgramId>))
        requires
            old(self).wf(),
        ensures
            final(self).wf(),
            final(self).queue == old(self).queue,
            final(self)@ == kept(old(self)@, |e: (ProgramId, RecordingSchedule)| keeps_on_maintenance(e, now)),
            r.1@ == picked_ids(old(self)@, |e: (ProgramId, RecordingSchedule)| expires_on_maintenance(e, now)),
            r.0 == (final(self)@.len() != old(self)@.len()),
    {
        let ghost keep = |e: (ProgramId, RecordingSchedule)| keeps_on_maintenance(e, now);
        let ghost expire = |e: (ProgramId, RecordingSchedule)| expires_on_maintenance(e, now);
        let ghost orig = self@;
        let n = self.schedules.len();
        assert(orig.len() == n);
        let mut expired: Vec<ProgramId> = Vec::new();
        let mut j: usize = 0;
        let mut k: usize = 0;
        proof {
            assert(kept(orig.take(0), keep) =~= Seq::empty());
            assert(picked_ids(orig.take(0), expire) =~= Seq::empty());
            assert(orig.skip(0) =~= orig);
        }
        while j < self.schedules.len()
            invariant
                self.queue == old(self).queue,
                orig == old(self)@,
                keep == (|e: (ProgramId, RecordingSchedule)| keeps_on_maintenance(e, now)),
                expire == (|e: (ProgramId, RecordingSchedule)| expires_on_maintenance(e, now)),
                schedules_wf(orig),
                orig.len() <= usize::MAX,
                k <= orig.len(),
                j == kept(orig.take(k as int), keep).len(),
                self@ == kept(orig.take(k as int), keep) + orig.skip(k as int),
                expired@ == picked_ids(orig.take(k as int), expire),
            decreases self@.len() - j,
        {
            proof {
                lemma_kept_step(orig, keep, k as int);
                lemma_kept_step(orig, expire, k as int);
                assert(self@[j as int] == orig[k as int]);
                assert(k < orig.len());
                assert(orig[k as int].1.program.start_at is Some);
            }
            let s = &self.schedules[j].1;
            let keep_it = s.is_recording() || (s.program.start_at.unwrap() as i128) + (
            MAX_DELAY_MILLIS as i128) > (now as i128);
            assert(keep_it == keep(orig[k as int]));
            if keep_it {
                j = j + 1;
                proof {
                    assert(self@ =~= kept(orig.take(k as int + 1), keep) + orig.skip(k as int + 1));
                }
            } else {
                let (id, removed) = self.schedules.remove(j);
                match removed.state {
                    RecordingScheduleState::Scheduled | RecordingScheduleState::Tracking
                    | RecordingScheduleState::Rescheduling => {
                        expired.push(id);
                    },
                    _ => {},
                }
                proof {
                    assert(self@ =~= kept(orig.take(k as int + 1), keep) + orig.skip(k as int + 1));
                }
            }
            k = k + 1;
        }
        proof {
            assert(k == orig.len()) by {
                if k < orig.len() {
                    assert(self@.len() > j);
                }
            }
            assert(orig.take(orig.len() as int) =~= orig);
            assert(self@ =~= kept(orig, keep));
            lemma_kept(orig, keep);
        }
        (self.schedules.len() != n, expired)
    }

    /// Drops the schedules of programs whose services are not among the
    /// services, and gives their programs.
    pub fn update_schedules_by_epg_services(&mut self, services: &[(ServiceId, EpgService)]) -> (r: Vec<ProgramId>)
        requires
            old(self).wf(),
        ensures
            final(self).wf(),
            final(self).queue == old(self).queue,
            final(self)@ == kept(old(self)@, |e: (ProgramId, RecordingSchedule)| service_listed(e, services@)),
            r@ == picked_ids(old(self)@, |e: (ProgramId, RecordingSchedule)| !service_listed(e, services@)),
    {
        let ghost keep = |e: (ProgramId, RecordingSchedule)| service_listed(e, services@);
        let ghost drop = |e: (ProgramId, RecordingSchedule)| !service_listed(e, services@);
        let ghost orig = self@;
        let n = self.schedules.len();
        assert(orig.len() == n);
        let mut removed: Vec<ProgramId> = Vec::new();
        let mut j: usize = 0;
        let mut k: usize = 0;
        proof {
            assert(kept(orig.take(0), keep) =~= Seq::empty());
            assert(picked_ids(orig.take(0), drop) =~= Seq::empty());
            assert(orig.skip(0) =~= orig);
        }
        while j < self.schedules.len()
            invariant
                self.queue == old(self).queue,
                orig == old(self)@,
                keep == (|e: (ProgramId, RecordingSchedule)| service_listed(e, services@)),
                drop == (|e: (ProgramId, RecordingSchedule)| !service_listed(e, services@)),
                schedules_wf(orig),
                orig.len() <= usize::MAX,
                k <= orig.len(),
                j == kept(orig.take(k as int), keep).len(),
                self@ == kept(orig.take(k as int), keep) + orig.skip(k as int),
                removed@ == picked_ids(orig.take(k as int), drop),
            decreases self@.len() - j,
        {
            proof {
                lemma_kept_step(orig, keep, k as int);
                lemma_kept_step(orig, drop, k as int);
                assert(self@[j as int] == orig[k as int]);
                assert(k < orig.len());
            }
            let service_id = ServiceId::from_program_id(self.schedules[j].0);
            let mut listed = false;
            let mut m: usize = 0;
            while m < services.len()
                invariant
                    m <= services@.len(),
                    listed == exists|x: int| 0 <= x < m && (#[trigger] services@[x]).0 == service_id,
                decreases services@.len() - m,
            {
                if services[m].0 == service_id {
                    listed = true;
                }
                m = m + 1;
            }
            assert(listed == keep(orig[k as int]));
            if listed {
                j = j + 1;
                proof {
                    assert(self@ =~= kept(orig.take(k as int + 1), keep) + orig.skip(k as int + 1));
                }
            } else {
                let (id, _) = self.schedules.remove(j);
                removed.push(id);
                proof {
                    assert(self@ =~= kept(orig.take(k as int + 1), keep) + orig.skip(k as int + 1));
                }
            }
            k = k + 1;
        }
        proof {
            assert(k == orig.len()) by {
                if k < orig.len() {
                    assert(self@.len() > j);
                }
            }
            assert(orig.take(orig.len() as int) =~= orig);
            assert(self@ =~= kept(orig, keep));
            lemma_kept(orig, keep);
        }
        removed
    }

    /// Takes the programs of a service from the EPG: a schedule of the
    /// service that is scheduled or being rescheduled is dropped when its
    /// event is not among them, and takes the program of its event anew when
    /// that ends after `now` (being scheduled again if its start moved).
    /// Gives whether anything changed, the dropped programs and the
    /// rescheduled ones.
    pub fn update_schedules_by_epg_programs(
        &mut self,
        now: i64,
        service_id: ServiceId,
        programs: &[(Eid, EpgProgram)],
    ) -> (r: (bool, Vec<ProgramId>, Vec<ProgramId>))
        requires
            old(self).wf(),
        ensures
            final(self).wf(),
            final(self).queue == old(self).queue,
            ({
                let k = kept(
                    old(self)@,
                    |e: (ProgramId, RecordingSchedule)| !gone_from_epg(e, service_id, programs@),
                );
                &&& final(self)@.len() == k.len()
                &&& forall|i: int| 0 <= i < k.len() ==> epg_updated(
                    #[trigger] k[i],
                    final(self)@[i],
                    service_id,
                    programs@,
                    now,
                )
            }),
            r.1@ == picked_ids(old(self)@, |e: (ProgramId, RecordingSchedule)| gone_from_epg(e, service_id, programs@)),
            r.2@ == picked_ids(
                old(self)@,
                |e: (ProgramId, RecordingSchedule)| rescheduled_by_epg(e, service_id, programs@, now),
            ),
            r.0 == (picked_ids(
                old(self)@,
                |e: (ProgramId, RecordingSchedule)| gone_from_epg(e, service_id, programs@) || refreshed_by_epg(
                    e,
                    service_id,
                    programs@,
                    now,
                ),
            ).len() > 0),
    {
        let ghost keep = |e: (ProgramId, RecordingSchedule)| !gone_from_epg(e, service_id, programs@);
        let ghost gone = |e: (ProgramId, RecordingSchedule)| gone_from_epg(e, service_id, programs@);
        let ghost moved = |e: (ProgramId, RecordingSchedule)| rescheduled_by_epg(e, service_id, programs@, now);
        let ghost touched = |e: (ProgramId, RecordingSchedule)| gone_from_epg(e, service_id, programs@)
            || refreshed_by_epg(e, service_id, programs@, now);
        let ghost orig = self@;
        let n = self.schedules.len();
        assert(orig.len() == n);
        let mut changed = false;
        let mut removed: Vec<ProgramId> = Vec::new();
        let mut rescheduled: Vec<ProgramId> = Vec::new();
        let mut j: usize = 0;
        let mut k: usize = 0;
        proof {
            assert(kept(orig.take(0), keep) =~= Seq::empty());
            assert(picked_ids(orig.take(0), gone) =~= Seq::empty());
            assert(picked_ids(orig.take(0), moved) =~= Seq::empty());
            assert(picked_ids(orig.take(0), touched) =~= Seq::empty());
        }
        while j < self.schedules.len()
            invariant
                self.queue == old(self).queue,
                orig == old(self)@,
                keep == (|e: (ProgramId, RecordingSchedule)| !gone_from_epg(e, service_id, programs@)),
                gone == (|e: (ProgramId, RecordingSchedule)| gone_from_epg(e, service_id, programs@)),
                moved == (|e: (ProgramId, RecordingSchedule)| rescheduled_by_epg(e, service_id, programs@, now)),
                touched == (|e: (ProgramId, RecordingSchedule)| gone_from_epg(e, service_id, programs@)
                    || refreshed_by_epg(e, service_id, programs@, now)),
                schedules_wf(orig),
                orig.len() <= usize::MAX,
                k <= orig.len(),
                j == kept(orig.take(k as int), keep).len(),
                self@.len() == j + (orig.len() - k),
                forall|m: int| 0 <= m < j ==> epg_updated(
                    #[trigger] kept(orig.take(k as int), keep)[m],
                    self@[m],
                    service_id,
                    programs@,
                    now,
                ),
                forall|m: int| j <= m < self@.len() ==> #[trigger] self@[m] == orig[k + m - j],
                removed@ == picked_ids(orig.take(k as int), gone),
                rescheduled@ == picked_ids(orig.take(k as int), moved),
                changed == (picked_ids(orig.take(k as int), touched).len() > 0),
            decreases self@.len() - j,
        {
            let ghost kk = kept(orig.take(k as int), keep);
            proof {
                lemma_kept_step(orig, keep, k as int);
                lemma_kept_step(orig, gone, k as int);
                lemma_kept_step(orig, moved, k as int);
                lemma_kept_step(orig, touched, k as int);
                assert(self@[j as int] == orig[k as int]);
                lemma_event_position(programs@, eid_of(orig[k as int].0));
                assert(keep(orig[k as int]) == !gone_from_epg(orig[k as int], service_id, programs@));
                assert(gone(orig[k as int]) == gone_from_epg(orig[k as int], service_id, programs@));
                assert(moved(orig[k as int]) == rescheduled_by_epg(orig[k as int], service_id, programs@, now));
                assert(touched(orig[k as int]) == (gone_from_epg(orig[k as int], service_id, programs@)
                    || refreshed_by_epg(orig[k as int], service_id, programs@, now)));
                ServiceId::lemma_of_value(service_id);
            }
            let id = self.schedules[j].0;
            let target = ServiceId::from_program_id(id) == service_id
                && self.schedules[j].1.can_be_updated_by_epg();
            if !target {
                j = j + 1;
                proof {
                    assert forall|m: int| 0 <= m < j implies epg_updated(
                        #[trigger] kept(orig.take(k as int + 1), keep)[m],
                        self@[m],
                        service_id,
                        programs@,
                        now,
                    ) by {
                        if m < j - 1 {
                            assert(kept(orig.take(k as int + 1), keep)[m] == kk[m]);
                        }
                    }
                }
            } else {
                let eid = id.eid();
                let mut x: usize = 0;
                while x < programs.len()
                    invariant
                        x <= programs@.len(),
                        forall|y: int| 0 <= y < x ==> programs@[y].0@ != eid@,
                    ensures
                        x <= programs@.len(),
                        forall|y: int| 0 <= y < x ==> programs@[y].0@ != eid@,
                        x < programs@.len() ==> programs@[x as int].0@ == eid@,
                    decreases programs@.len() - x,
                {
                    proof { lemma_eid_view_injective(programs@[x as int].0, eid); }
                    if programs[x].0 == eid {
                        break;
                    }
                    x = x + 1;
                }
                if x == programs.len() {
                    assert(event_position(programs@, eid_of(id)) < 0);
                    let ghost before = self@;
                    self.schedules.remove(j);
                    removed.push(id);
                    changed = true;
                    proof {
                        assert forall|m: int| 0 <= m < j implies epg_updated(
                            #[trigger] kept(orig.take(k as int + 1), keep)[m],
                            self@[m],
                            service_id,
                            programs@,
                            now,
                        ) by {
                            assert(kept(orig.take(k as int + 1), keep)[m] == kk[m]);
                        }
                        assert forall|m: int| j <= m < self@.len() implies #[trigger] self@[m] == orig[k + 1 + m - j] by {
                            assert(self@[m] == before[m + 1]);
                        }
                    }
                } else {
                    assert(event_position(programs@, eid_of(id)) == x as int);
                    let program = &programs[x].1;
                    let ends = match (program.start_at, program.duration) {
                        (Some(st), Some(d)) => (st as i128) + (d as i128) > (now as i128),
                        _ => false,
                    };
                    if ends {
                        let moves = !same_time(program.start_at, self.schedules[j].1.program.start_at);
                        if moves {
                            self.schedules[j].1.state = RecordingScheduleState::Scheduled;
                            rescheduled.push(id);
                        }
                        self.schedules[j].1.program = Arc::new(program.clone());
                        changed = true;
                    }
                    j = j + 1;
                    proof {
                        assert forall|m: int| 0 <= m < j implies epg_updated(
                            #[trigger] kept(orig.take(k as int + 1), keep)[m],
                            self@[m],
                            service_id,
                            programs@,
                            now,
                        ) by {
                            if m < j - 1 {
                                assert(kept(orig.take(k as int + 1), keep)[m] == kk[m]);
                            }
                        }
                    }
                }
            }
            k = k + 1;
        }
        proof {
            assert(k == orig.len());
            assert(orig.take(orig.len() as int) =~= orig);
            lemma_kept(orig, keep);
            let kf = kept(orig, keep);
            assert forall|i: int| 0 <= i < self@.len() implies (#[trigger] self@[i]).1.program.start_at is Some by {
                assert(epg_updated(kf[i], self@[i], service_id, programs@, now));
            }
            assert forall|a: int, b: int| 0 <= a < b < self@.len() implies (#[trigger] self@[a]).0 != (#[trigger] self@[b]).0 by {
                assert(epg_updated(kf[a], self@[a], service_id, programs@, now));
                assert(epg_updated(kf[b], self@[b], service_id, programs@, now));
            }
        }
        (changed, removed, rescheduled)
    }

    /// Takes an on-air program with a start time, as `onair_step` says;
    /// gives whether the start of its schedule moved and whether the record
    /// of its recording is to be updated.
    pub fn update_schedule_by_onair_program(&mut self, program: Arc<EpgProgram>) -> (r: (bool, bool))
        requires
            old(self).wf(),
            program.start_at is Some,
        ensures
            final(self).wf(),
            final(self).queue == old(self).queue,
            (final(self)@, r.0, r.1) == onair_step(old(self)@, program),
    {
        proof { lemma_position_of(self@, program.id); }
        let i = match self.find(program.id) {
            Some(i) => i,
            None => return (false, false),
        };
        let moved = !same_time(self.schedules[i].1.program.start_at, program.start_at);
        let ghost e = self@[i as int];
        match self.schedules[i].1.state {
            RecordingScheduleState::Scheduled | RecordingScheduleState::Rescheduling => {
                self.schedules[i].1.program = program;
                self.schedules[i].1.state = RecordingScheduleState::Tracking;
                proof { lemma_update_wf(old(self)@, i as int, self@[i as int]); }
                (moved, false)
            },
            RecordingScheduleState::Tracking => {
                self.schedules[i].1.program = program;
                proof { lemma_update_wf(old(self)@, i as int, self@[i as int]); }
                (moved, false)
            },
            RecordingScheduleState::Recording => {
                self.schedules[i].1.program = program;
                proof { lemma_update_wf(old(self)@, i as int, self@[i as int]); }
                (false, true)
            },
            _ => (false, false),
        }
    }

    /// Takes the current and the next on-air programs of a service, those
    /// with a start time, in that order.  Gives whether the schedules
    /// changed (by what the last program taken says), the programs whose
    /// starts moved and those whose records are to be updated.
    pub fn on_onair_program_changed(
        &mut self,
        current: Option<Arc<EpgProgram>>,
        next: Option<Arc<EpgProgram>>,
    ) -> (r: (bool, Vec<ProgramId>, Vec<ProgramId>))
        requires
            old(self).wf(),
        ensures
            final(self).wf(),
            final(self).queue == old(self).queue,
            ({
                let s1 = if onair_applies(current) {
                    onair_step(old(self)@, current.unwrap())
                } else {
                    (old(self)@, false, false)
                };
                let s2 = if onair_applies(next) {
                    onair_step(s1.0, next.unwrap())
                } else {
                    (s1.0, false, false)
                };
                &&& final(self)@ == s2.0
                &&& r.0 == if onair_applies(next) {
                    s2.1
                } else {
                    s1.1
                }
                &&& r.1@ == id_if(current, s1.1) + id_if(next, s2.1)
                &&& r.2@ == id_if(current, s1.2) + id_if(next, s2.2)
            }),
    {
        let mut changed = false;
        let mut rescheduled: Vec<ProgramId> = Vec::new();
        let mut records: Vec<ProgramId> = Vec::new();
        if let Some(program) = current {
            if program.start_at.is_some() {
                let id = program.id;
                let (moved, record) = self.update_schedule_by_onair_program(program);
                changed = moved;
                if moved {
                    rescheduled.push(id);
                }
                if record {
                    records.push(id);
                }
            }
        }
        let ghost r1 = rescheduled@;
        let ghost c1 = records@;
        if let Some(program) = next {
            if program.start_at.is_some() {
                let id = program.id;
                let (moved, record) = self.update_schedule_by_onair_program(program);
                changed = moved;
                if moved {
                    rescheduled.push(id);
                }
                if record {
                    records.push(id);
                }
            }
        }
        proof {
            assert(rescheduled@ =~= id_if(current, if onair_applies(current) {
                onair_step(old(self)@, current.unwrap()).1
            } else {
                false
            }) + id_if(next, if onair_applies(next) {
                onair_step(if onair_applies(current) {
                    onair_step(old(self)@, current.unwrap()).0
                } else {
                    old(self)@
                }, next.unwrap()).1
            } else {
                false
            }));
            assert(records@ =~= id_if(current, if onair_applies(current) {
                onair_step(old(self)@, current.unwrap()).2
            } else {
                false
            }) + id_if(next, if onair_applies(next) {
                onair_step(if onair_applies(current) {
                    onair_step(old(self)@, current.unwrap()).0
                } else {
                    old(self)@
                }, next.unwrap()).2
            } else {
                false
            }));
        }
        (changed, rescheduled, records)
    }

    /// Takes the exit codes of the recording pipeline of a program that
    /// stopped: when a command asked to retry, its schedule (if any) is to
    /// be rescheduled; else on the first error its schedule (if any) failed;
    /// else its schedule (if any) finished.  Gives whether the schedules
    /// changed and the failure to report, if any.
    pub fn on_recording_stopped(&mut self, id: ProgramId, codes: &[Option<i32>]) -> (r: (
        bool,
        Option<RecordingFailedReason>,
    ))
        requires
            old(self).wf(),
        ensures
            final(self).wf(),
            final(self).queue == old(self).queue,
            ({
                let p = position_of(old(self)@, id);
                let retry = exists|i: int| 0 <= i < codes@.len() && codes@[i] == Some(EXIT_RETRY);
                let fp = first_error_position(codes@, 0);
                if retry {
                    if p >= 0 {
                        &&& final(self)@ == old(self)@.update(
                            p,
                            (id, RecordingSchedule { state: RecordingScheduleState::Rescheduling, ..old(self)@[p].1 }),
                        )
                        &&& r == (true, Some(RecordingFailedReason::NeedRescheduling))
                    } else {
                        final(self)@ == old(self)@ && r == (false, None::<RecordingFailedReason>)
                    }
                } else if fp < codes@.len() {
                    let reason = RecordingFailedReason::PipelineError { exit_code: codes@[fp].unwrap() };
                    if p >= 0 {
                        &&& final(self)@ == old(self)@.update(
                            p,
                            (
                                id,
                                RecordingSchedule {
                                    state: RecordingScheduleState::Failed,
                                    failed_reason: Some(reason),
                                    ..old(self)@[p].1
                                },
                            ),
                        )
                        &&& r == (true, Some(reason))
                    } else {
                        final(self)@ == old(self)@ && r == (false, Some(reason))
                    }
                } else {
                    if p >= 0 {
                        &&& final(self)@ == old(self)@.update(
                            p,
                            (id, RecordingSchedule { state: RecordingScheduleState::Finished, ..old(self)@[p].1 }),
                        )
                        &&& r == (true, None::<RecordingFailedReason>)
                    } else {
                        final(self)@ == old(self)@ && r == (false, None::<RecordingFailedReason>)
                    }
                }
            }),
    {
        proof {
            lemma_position_of(self@, id);
            lemma_first_error_position(codes@, 0);
        }
        let found = self.find(id);
        if check_retry(codes) {
            match found {
                Some(i) => {
                    self.schedules[i].1.state = RecordingScheduleState::Rescheduling;
                    proof { lemma_update_wf(old(self)@, i as int, self@[i as int]); }
                    (true, Some(RecordingFailedReason::NeedRescheduling))
                },
                None => (false, None),
            }
        } else {
            match get_first_error(codes) {
                Some(exit_code) => {
                    let reason = RecordingFailedReason::PipelineError { exit_code };
                    match found {
                        Some(i) => {
                            self.schedules[i].1.state = RecordingScheduleState::Failed;
                            self.schedules[i].1.failed_reason = Some(reason.clone());
                            proof { lemma_update_wf(old(self)@, i as int, self@[i as int]); }
                            (true, Some(reason))
                        },
                        None => (false, Some(reason)),
                    }
                },
                None => {
                    match found {
                        Some(i) => {
                            self.schedules[i].1.state = RecordingScheduleState::Finished;
                            proof { lemma_update_wf(old(self)@, i as int, self@[i as int]); }
                            (true, None)
                        },
                        None => (false, None),
                    }
                },
            }
        }
    }
}


/// An entry that `keep` keeps stays among the kept entries.
pub proof fn lemma_kept_contains(
    s: Seq<(ProgramId, RecordingSchedule)>,
    keep: spec_fn((ProgramId, RecordingSchedule)) -> bool,
    e: (ProgramId, RecordingSchedule),
)
    requires
        s.contains(e),
        keep(e),
    ensures
        kept(s, keep).contains(e),
    decreases s.len(),
{
    let d = s.drop_last();
    if s.last() == e {
        assert(kept(s, keep).last() == e);
    } else {
        let m = choose|m: int| 0 <= m < s.len() && s[m] == e;
        assert(d[m] == e);
        lemma_kept_contains(d, keep, e);
        let kd = kept(d, keep);
        let x = choose|x: int| 0 <= x < kd.len() && kd[x] == e;
        if keep(s.last()) {
            assert(kept(s, keep)[x] == e);
        }
    }
}

/// Once a schedule is added for a program that had none, the schedule of
/// that program is the one added, and taking it out again gives back the
/// schedules as they were.
pub proof fn lemma_add_then_query(s: Seq<(ProgramId, RecordingSchedule)>, schedule: RecordingSchedule)
    requires
        schedules_wf(s),
        schedule.program.start_at is Some,
        position_of(s, schedule.program.id) < 0,
    ensures
        schedules_wf(s.push((schedule.program.id, schedule))),
        position_of(s.push((schedule.program.id, schedule)), schedule.program.id) == s.len(),
        s.push((schedule.program.id, schedule))[s.len() as int].1 == schedule,
        s.push((schedule.program.id, schedule)).remove(s.len() as int) == s,
{
    let t = s.push((schedule.program.id, schedule));
    lemma_position_of(s, schedule.program.id);
    assert(t.drop_last() =~= s);
    assert(t.remove(s.len() as int) =~= s);
}

/// A maintenance never drops a schedule that is being recorded.
pub proof fn lemma_maintenance_keeps_recordings(s: Seq<(ProgramId, RecordingSchedule)>, now: i64, i: int)
    requires
        0 <= i < s.len(),
        s[i].1.state == RecordingScheduleState::Recording,
    ensures
        kept(s, |e: (ProgramId, RecordingSchedule)| keeps_on_maintenance(e, now)).contains(s[i]),
{
    lemma_kept_contains(s, |e: (ProgramId, RecordingSchedule)| keeps_on_maintenance(e, now), s[i]);
}

/// A removal by tag never drops a schedule without the tag, nor one that is
/// being tracked or recorded.
pub proof fn lemma_tag_removal_keeps(s: Seq<(ProgramId, RecordingSchedule)>, tag: Seq<char>, now: i64, i: int)
    requires
        0 <= i < s.len(),
        s[i].1.state == RecordingScheduleState::Tracking || s[i].1.state == RecordingScheduleState::Recording
            || !(exists|t: int| 0 <= t < s[i].1.tags@.len() && (#[trigger] s[i].1.tags@[t])@ == tag),
    ensures
        kept(s, |e: (ProgramId, RecordingSchedule)| keeps_for_tag(e, tag, now)).contains(s[i]),
{
    lemma_kept_contains(s, |e: (ProgramId, RecordingSchedule)| keeps_for_tag(e, tag, now), s[i]);
}

/// The queue after a rebuild holds an entry for a schedule exactly when
/// the schedule waits for its recording.
pub proof fn lemma_ready_items(s: Seq<(ProgramId, RecordingSchedule)>, x: QueueItem)
    ensures
        ready_items(s).contains(x) <==> exists|i: int| 0 <= i < s.len() && is_ready(s[i].1) && item_of(
            #[trigger] s[i].1,
        ) == x,
    decreases s.len(),
{
    if s.len() > 0 {
        let d = s.drop_last();
        lemma_ready_items(d, x);
        if ready_items(s).contains(x) {
            let r = ready_items(s);
            let k = choose|k: int| 0 <= k < r.len() && r[k] == x;
            if is_ready(s.last().1) && k == r.len() - 1 {
                assert(item_of(s[s.len() - 1].1) == x);
            } else {
                assert(ready_items(d)[k] == x);
                let i = choose|i: int| 0 <= i < d.len() && is_ready(d[i].1) && item_of(#[trigger] d[i].1) == x;
                assert(s[i] == d[i]);
            }
        }
        if exists|i: int| 0 <= i < s.len() && is_ready(s[i].1) && item_of(#[trigger] s[i].1) == x {
            let i = choose|i: int| 0 <= i < s.len() && is_ready(s[i].1) && item_of(#[trigger] s[i].1) == x;
            if i == s.len() - 1 {
                assert(ready_items(s).last() == x);
            } else {
                assert(d[i] == s[i]);
                let r = ready_items(d);
                let k = choose|k: int| 0 <= k < r.len() && r[k] == x;
                if is_ready(s.last().1) {
                    assert(ready_items(s)[k] == x);
                }
            }
        }
    }
}

} // verus!
