use std::sync::Arc;

use mirakc_core::epg::{EpgProgram, EpgService};
use mirakc_core::error::Error;
use mirakc_core::models::{Eid, Nid, ProgramId, ServiceId, Sid};
use mirakc_core::recording::{
    RecordingFailedReason, RecordingOptions, RecordingSchedule, RecordingScheduleState, RemovalTarget, EXIT_RETRY,
};
use mirakc_core::recording_manager::{RecordingManager, MAX_DELAY_MILLIS, PREP_MILLIS, PREP_SECS};

const NOW: i64 = 1_700_000_000_000;
const MINUTE: i64 = 60_000;
const HOUR: i64 = 3_600_000;

fn pid(id: (u16, u16, u16)) -> ProgramId {
    ProgramId::new(Nid::from(id.0), Sid::from(id.1), Eid::from(id.2))
}

fn program(id: (u16, u16, u16), start_at: i64, duration: i64) -> EpgProgram {
    let mut p = EpgProgram::new(pid(id));
    p.start_at = Some(start_at);
    p.duration = Some(duration);
    p
}

fn options(content_path: &str, priority: i32) -> RecordingOptions {
    RecordingOptions {
        content_path: Some(content_path.to_string()),
        priority,
        pre_filters: vec![],
        post_filters: vec![],
    }
}

fn schedule(
    state: RecordingScheduleState,
    program: EpgProgram,
    options: RecordingOptions,
    tags: &[&str],
) -> RecordingSchedule {
    let mut s = RecordingSchedule::new(Arc::new(program), options, tags.iter().map(|t| t.to_string()).collect());
    s.state = state;
    s
}

fn state_of(manager: &RecordingManager, id: (u16, u16, u16)) -> Option<RecordingScheduleState> {
    manager.query_schedule(pid(id)).ok().map(|s| s.state)
}

#[test]
fn test_rebuild_queue() {
    let now = NOW;
    let mut manager = RecordingManager::new();

    let result = manager.add_schedule(schedule(
        RecordingScheduleState::Scheduled,
        program((0, 1, 1), now + HOUR, 30 * MINUTE),
        options("1.m2ts", 0),
        &[],
    ));
    assert!(matches!(result, Ok(())));
    let result = manager.add_schedule(schedule(
        RecordingScheduleState::Scheduled,
        program((0, 1, 2), now, 30 * MINUTE),
        options("2.m2ts", 0),
        &[],
    ));
    assert!(matches!(result, Ok(())));
    let result = manager.add_schedule(schedule(
        RecordingScheduleState::Tracking,
        program((0, 1, 3), now, 30 * MINUTE),
        options("3.m2ts", 1),
        &[],
    ));
    assert!(matches!(result, Ok(())));
    let result = manager.add_schedule(schedule(
        RecordingScheduleState::Recording,
        program((0, 1, 4), now - 30 * MINUTE, 30 * MINUTE),
        options("4.m2ts", 0),
        &[],
    ));
    assert!(matches!(result, Ok(())));

    manager.rebuild_queue();
    assert_eq!(manager.queue.pop().map(|item| item.program_id), Some(pid((0, 1, 3))));
    assert_eq!(manager.queue.pop().map(|item| item.program_id), Some(pid((0, 1, 2))));
    assert_eq!(manager.queue.pop().map(|item| item.program_id), Some(pid((0, 1, 1))));
    assert!(manager.queue.pop().is_none());
}

#[test]
fn test_query_schedules() {
    let now = NOW;
    let mut manager = RecordingManager::new();

    let result = manager.add_schedule(schedule(
        RecordingScheduleState::Scheduled,
        program((0, 1, 1), now + HOUR, 30 * MINUTE),
        options("1.m2ts", 0),
        &[],
    ));
    assert!(matches!(result, Ok(())));
    let result = manager.add_schedule(schedule(
        RecordingScheduleState::Scheduled,
        program((0, 1, 2), now, 30 * MINUTE),
        options("2.m2ts", 0),
        &[],
    ));
    assert!(matches!(result, Ok(())));
    let result = manager.add_schedule(schedule(
        RecordingScheduleState::Tracking,
        program((0, 1, 3), now, 30 * MINUTE),
        options("3.m2ts", 1),
        &[],
    ));
    assert!(matches!(result, Ok(())));
    let result = manager.add_schedule(schedule(
        RecordingScheduleState::Recording,
        program((0, 1, 4), now - 30 * MINUTE, 30 * MINUTE),
        options("4.m2ts", 0),
        &[],
    ));
    assert!(matches!(result, Ok(())));

    assert_eq!(manager.len(), 4);

    let schedules = manager.query_schedules();
    assert_eq!(schedules.len(), 4);
    assert_eq!(schedules.get(0).map(|s| s.program.id), Some(pid((0, 1, 4))));
    assert_eq!(schedules.get(1).map(|s| s.program.id), Some(pid((0, 1, 3))));
    assert_eq!(schedules.get(2).map(|s| s.program.id), Some(pid((0, 1, 2))));
    assert_eq!(schedules.get(3).map(|s| s.program.id), Some(pid((0, 1, 1))));
}

#[test]
fn test_query_schedule() {
    let now = NOW;
    let mut manager = RecordingManager::new();

    let result = manager.add_schedule(schedule(
        RecordingScheduleState::Scheduled,
        program((0, 1, 1), now, 30 * MINUTE),
        options("1.m2ts", 0),
        &[],
    ));
    assert!(matches!(result, Ok(())));

    match manager.query_schedule(pid((0, 1, 1))) {
        Ok(schedule) => assert_eq!(schedule.program.id, pid((0, 1, 1))),
        Err(_) => panic!("the schedule must be found"),
    }
    assert!(matches!(manager.query_schedule(pid((0, 1, 2))), Err(Error::ScheduleNotFound)));
}

#[test]
fn test_add_schedule() {
    let now = NOW;
    let mut manager = RecordingManager::new();

    let result = manager.add_schedule(schedule(
        RecordingScheduleState::Scheduled,
        program((0, 1, 1), now, HOUR),
        options("1.m2ts", 0),
        &[],
    ));
    assert!(matches!(result, Ok(())));
    assert_eq!(manager.len(), 1);

    // Schedule already exists.
    let result = manager.add_schedule(schedule(
        RecordingScheduleState::Scheduled,
        program((0, 1, 1), now, HOUR),
        options("1.m2ts", 0),
        &[],
    ));
    assert!(matches!(result, Err(Error::AlreadyExists)));
    assert_eq!(manager.len(), 1);

    // Adding a schedule for an ended program is allowed.
    let result = manager.add_schedule(schedule(
        RecordingScheduleState::Scheduled,
        program((0, 1, 2), now - HOUR, 3 * HOUR),
        options("2.m2ts", 0),
        &[],
    ));
    assert!(matches!(result, Ok(())));
    assert_eq!(manager.len(), 2);

    // Adding a schedule for a program already started is allowed.
    let result = manager.add_schedule(schedule(
        RecordingScheduleState::Scheduled,
        program((0, 1, 3), now - HOUR, 30 * MINUTE),
        options("3.m2ts", 0),
        &[],
    ));
    assert!(matches!(result, Ok(())));
    assert_eq!(manager.len(), 3);
}

#[test]
fn test_remove_schedules() {
    let now = NOW;
    let mut manager = RecordingManager::new();

    let result = manager.add_schedule(schedule(
        RecordingScheduleState::Scheduled,
        program((0, 1, 1), now + (PREP_SECS + 1) * 1000, HOUR),
        options("1.m2ts", 0),
        &["tag1"],
    ));
    assert!(matches!(result, Ok(())));
    let result = manager.add_schedule(schedule(
        RecordingScheduleState::Scheduled,
        program((0, 1, 2), now + (PREP_SECS + 1) * 1000, HOUR),
        options("2.m2ts", 0),
        &["tag2"],
    ));
    assert!(matches!(result, Ok(())));
    // Schedules which will start soon are always retained.
    let result = manager.add_schedule(schedule(
        RecordingScheduleState::Scheduled,
        program((0, 1, 3), now + (PREP_SECS - 1) * 1000, HOUR),
        options("3.m2ts", 0),
        &["tag1"],
    ));
    assert!(matches!(result, Ok(())));
    // Schedules in "Tracking" are always retained.
    let result = manager.add_schedule(schedule(
        RecordingScheduleState::Tracking,
        program((0, 1, 4), now, HOUR),
        options("4.m2ts", 0),
        &["tag2"],
    ));
    assert!(matches!(result, Ok(())));
    // Schedules in "Recording" are always retained.
    let result = manager.add_schedule(schedule(
        RecordingScheduleState::Recording,
        program((0, 1, 5), now, HOUR),
        options("5.m2ts", 0),
        &["tag2"],
    ));
    assert!(matches!(result, Ok(())));
    // Schedules in "Rescheduling" are always removed.
    let result = manager.add_schedule(schedule(
        RecordingScheduleState::Rescheduling,
        program((0, 1, 6), now, HOUR),
        options("6.m2ts", 0),
        &["tag2"],
    ));
    assert!(matches!(result, Ok(())));
    assert_eq!(manager.len(), 6);

    manager.remove_schedules(RemovalTarget::Tag("tag2".to_string()), now);
    assert_eq!(manager.len(), 4);
    assert!(manager.contains(pid((0, 1, 1))));
    assert!(manager.contains(pid((0, 1, 3))));
    assert!(manager.contains(pid((0, 1, 4))));
    assert!(manager.contains(pid((0, 1, 5))));

    manager.remove_schedules(RemovalTarget::All, now);
    assert_eq!(manager.len(), 0);
}

#[test]
fn test_clear_schedules_reports_recordings() {
    let mut manager = RecordingManager::new();
    let _ = manager.add_schedule(schedule(
        RecordingScheduleState::Recording,
        program((0, 1, 1), NOW, HOUR),
        options("1.m2ts", 0),
        &[],
    ));
    let _ = manager.add_schedule(schedule(
        RecordingScheduleState::Scheduled,
        program((0, 1, 2), NOW, HOUR),
        options("2.m2ts", 0),
        &[],
    ));
    let stopped = manager.remove_schedules(RemovalTarget::All, NOW);
    assert_eq!(stopped, vec![pid((0, 1, 1))]);
    assert_eq!(manager.len(), 0);
}

#[test]
fn test_remove_schedule() {
    let mut manager = RecordingManager::new();
    let _ = manager.add_schedule(schedule(
        RecordingScheduleState::Scheduled,
        program((0, 1, 1), NOW, HOUR),
        options("1.m2ts", 3),
        &[],
    ));
    match manager.remove_schedule(pid((0, 1, 1))) {
        Ok(s) => assert_eq!(s.options.priority, 3),
        Err(_) => panic!("the schedule must be removed"),
    }
    assert_eq!(manager.len(), 0);
    assert!(matches!(manager.remove_schedule(pid((0, 1, 1))), Err(Error::ScheduleNotFound)));
}

#[test]
fn test_dequeue_next_schedules() {
    let mut manager = RecordingManager::new();
    let _ = manager.add_schedule(schedule(
        RecordingScheduleState::Scheduled,
        program((0, 1, 1), NOW + PREP_MILLIS, HOUR),
        options("1.m2ts", 0),
        &[],
    ));
    let _ = manager.add_schedule(schedule(
        RecordingScheduleState::Scheduled,
        program((0, 1, 2), NOW + PREP_MILLIS + 1, HOUR),
        options("2.m2ts", 0),
        &[],
    ));
    let _ = manager.add_schedule(schedule(
        RecordingScheduleState::Scheduled,
        program((0, 1, 3), NOW - MINUTE, HOUR),
        options("3.m2ts", 0),
        &[],
    ));
    manager.rebuild_queue();
    let ids = manager.dequeue_next_schedules(NOW);
    assert_eq!(ids, vec![pid((0, 1, 3)), pid((0, 1, 1))]);
    assert_eq!(manager.queue.len(), 1);
    assert_eq!(manager.queue[0].program_id, pid((0, 1, 2)));
    // The schedules stay.
    assert_eq!(manager.len(), 3);
}

#[test]
fn test_maintain_schedules() {
    let mut manager = RecordingManager::new();
    // Started long ago, not recorded: expired.
    let _ = manager.add_schedule(schedule(
        RecordingScheduleState::Scheduled,
        program((0, 1, 1), NOW - MAX_DELAY_MILLIS, HOUR),
        options("1.m2ts", 0),
        &[],
    ));
    // Started long ago, finished: dropped silently.
    let _ = manager.add_schedule(schedule(
        RecordingScheduleState::Finished,
        program((0, 1, 2), NOW - MAX_DELAY_MILLIS - 1, HOUR),
        options("2.m2ts", 0),
        &[],
    ));
    // Being recorded: kept.
    let _ = manager.add_schedule(schedule(
        RecordingScheduleState::Recording,
        program((0, 1, 3), NOW - 2 * MAX_DELAY_MILLIS, HOUR),
        options("3.m2ts", 0),
        &[],
    ));
    // Recent: kept.
    let _ = manager.add_schedule(schedule(
        RecordingScheduleState::Failed,
        program((0, 1, 4), NOW - MAX_DELAY_MILLIS + 1, HOUR),
        options("4.m2ts", 0),
        &[],
    ));
    let (changed, expired) = manager.maintain_schedules(NOW);
    assert!(changed);
    assert_eq!(expired, vec![pid((0, 1, 1))]);
    assert_eq!(manager.len(), 2);
    assert!(manager.contains(pid((0, 1, 3))));
    assert!(manager.contains(pid((0, 1, 4))));

    let (changed, expired) = manager.maintain_schedules(NOW);
    assert!(!changed);
    assert!(expired.is_empty());
}

#[test]
fn test_update_schedules_by_epg_services() {
    let mut manager = RecordingManager::new();
    let _ = manager.add_schedule(schedule(
        RecordingScheduleState::Recording,
        program((0, 1, 1), NOW, HOUR),
        options("1.m2ts", 0),
        &[],
    ));
    let _ = manager.add_schedule(schedule(
        RecordingScheduleState::Scheduled,
        program((0, 2, 1), NOW, HOUR),
        options("2.m2ts", 0),
        &[],
    ));
    let service = EpgService {
        id: ServiceId::new(Nid::from(0), Sid::from(2)),
        service_type: 1,
        logo_id: 0,
        remote_control_key_id: 0,
        name: "sv".to_string(),
        channel: mirakc_core::epg::EpgChannel {
            name: "ch".to_string(),
            channel_type: mirakc_core::models::ChannelType::GR,
            channel: "1".to_string(),
            extra_args: String::new(),
            services: vec![],
            excluded_services: vec![],
        },
    };
    let removed = manager.update_schedules_by_epg_services(&[(service.id, service)]);
    assert_eq!(removed, vec![pid((0, 1, 1))]);
    assert_eq!(manager.len(), 1);
    assert!(manager.contains(pid((0, 2, 1))));
}

#[test]
fn test_update_schedules_by_epg_programs() {
    let mut manager = RecordingManager::new();
    let service_id = ServiceId::new(Nid::from(0), Sid::from(1));
    let _ = manager.add_schedule(schedule(
        RecordingScheduleState::Scheduled,
        program((0, 1, 1), NOW + HOUR, HOUR),
        options("1.m2ts", 0),
        &[],
    ));
    let _ = manager.add_schedule(schedule(
        RecordingScheduleState::Scheduled,
        program((0, 1, 2), NOW + HOUR, HOUR),
        options("2.m2ts", 0),
        &[],
    ));
    let _ = manager.add_schedule(schedule(
        RecordingScheduleState::Rescheduling,
        program((0, 1, 3), NOW + HOUR, HOUR),
        options("3.m2ts", 0),
        &[],
    ));
    // Not updated: tracked.
    let _ = manager.add_schedule(schedule(
        RecordingScheduleState::Tracking,
        program((0, 1, 4), NOW + HOUR, HOUR),
        options("4.m2ts", 0),
        &[],
    ));
    // Not updated: another service.
    let _ = manager.add_schedule(schedule(
        RecordingScheduleState::Scheduled,
        program((0, 2, 1), NOW + HOUR, HOUR),
        options("5.m2ts", 0),
        &[],
    ));

    let mut renamed = program((0, 1, 1), NOW + HOUR, HOUR);
    renamed.name = Some("renamed".to_string());
    let programs = vec![
        (Eid::from(1), renamed),
        // The start moved.
        (Eid::from(3), program((0, 1, 3), NOW + 2 * HOUR, HOUR)),
        (Eid::from(4), program((0, 1, 4), NOW + 3 * HOUR, HOUR)),
    ];
    let (changed, removed, rescheduled) = manager.update_schedules_by_epg_programs(NOW, service_id, &programs);
    assert!(changed);
    assert_eq!(removed, vec![pid((0, 1, 2))]);
    assert_eq!(rescheduled, vec![pid((0, 1, 3))]);
    assert_eq!(manager.len(), 4);
    let s = manager.query_schedule(pid((0, 1, 1))).ok().unwrap();
    assert_eq!(s.program.name.as_deref(), Some("renamed"));
    assert_eq!(s.state, RecordingScheduleState::Scheduled);
    let s = manager.query_schedule(pid((0, 1, 3))).ok().unwrap();
    assert_eq!(s.program.start_at, Some(NOW + 2 * HOUR));
    assert_eq!(s.state, RecordingScheduleState::Scheduled);
    let s = manager.query_schedule(pid((0, 1, 4))).ok().unwrap();
    assert_eq!(s.program.start_at, Some(NOW + HOUR));

    // A program that already ended does not replace the one of its
    // schedule; the schedule whose event is gone is dropped.
    let programs = vec![(Eid::from(1), program((0, 1, 1), NOW - 2 * HOUR, HOUR))];
    let (changed, removed, rescheduled) = manager.update_schedules_by_epg_programs(NOW, service_id, &programs[..]);
    assert!(changed);
    assert_eq!(removed, vec![pid((0, 1, 3))]);
    assert!(rescheduled.is_empty());
    assert_eq!(manager.len(), 3);
    let s = manager.query_schedule(pid((0, 1, 1))).ok().unwrap();
    assert_eq!(s.program.start_at, Some(NOW + HOUR));
}

#[test]
fn test_on_onair_program_changed() {
    let mut manager = RecordingManager::new();
    let _ = manager.add_schedule(schedule(
        RecordingScheduleState::Scheduled,
        program((0, 1, 1), NOW, HOUR),
        options("1.m2ts", 0),
        &[],
    ));
    let _ = manager.add_schedule(schedule(
        RecordingScheduleState::Recording,
        program((0, 1, 2), NOW - HOUR, HOUR),
        options("2.m2ts", 0),
        &[],
    ));
    let current = Arc::new(program((0, 1, 2), NOW - HOUR, 2 * HOUR));
    let next = Arc::new(program((0, 1, 1), NOW + MINUTE, HOUR));
    let (changed, rescheduled, records) = manager.on_onair_program_changed(Some(current), Some(next));
    assert!(changed);
    assert_eq!(rescheduled, vec![pid((0, 1, 1))]);
    assert_eq!(records, vec![pid((0, 1, 2))]);
    assert_eq!(state_of(&manager, (0, 1, 1)), Some(RecordingScheduleState::Tracking));
    assert_eq!(state_of(&manager, (0, 1, 2)), Some(RecordingScheduleState::Recording));
    let s = manager.query_schedule(pid((0, 1, 2))).ok().unwrap();
    assert_eq!(s.program.duration, Some(2 * HOUR));

    // A program without a start time is not taken.
    let mut unknown = EpgProgram::new(pid((0, 1, 1)));
    unknown.duration = Some(HOUR);
    let (changed, rescheduled, _) = manager.on_onair_program_changed(Some(Arc::new(unknown)), None);
    assert!(!changed);
    assert!(rescheduled.is_empty());
    let s = manager.query_schedule(pid((0, 1, 1))).ok().unwrap();
    assert_eq!(s.program.start_at, Some(NOW + MINUTE));
}

#[test]
fn test_on_recording_stopped() {
    let mut manager = RecordingManager::new();
    for eid in 1..=3 {
        let _ = manager.add_schedule(schedule(
            RecordingScheduleState::Recording,
            program((0, 1, eid), NOW, HOUR),
            options("x.m2ts", 0),
            &[],
        ));
    }

    let (changed, failure) = manager.on_recording_stopped(pid((0, 1, 1)), &[Some(0), Some(0)]);
    assert!(changed);
    assert!(failure.is_none());
    assert_eq!(state_of(&manager, (0, 1, 1)), Some(RecordingScheduleState::Finished));

    let (changed, failure) = manager.on_recording_stopped(pid((0, 1, 2)), &[Some(0), Some(EXIT_RETRY)]);
    assert!(changed);
    assert!(matches!(failure, Some(RecordingFailedReason::NeedRescheduling)));
    assert_eq!(state_of(&manager, (0, 1, 2)), Some(RecordingScheduleState::Rescheduling));

    let (changed, failure) = manager.on_recording_stopped(pid((0, 1, 3)), &[None, Some(1), Some(2)]);
    assert!(changed);
    assert!(matches!(failure, Some(RecordingFailedReason::PipelineError { exit_code: 1 })));
    let s = manager.query_schedule(pid((0, 1, 3))).ok().unwrap();
    assert_eq!(s.state, RecordingScheduleState::Failed);
    assert!(matches!(s.failed_reason, Some(RecordingFailedReason::PipelineError { exit_code: 1 })));

    // Without a schedule, only a pipeline error is reported.
    let (changed, failure) = manager.on_recording_stopped(pid((0, 1, 9)), &[Some(EXIT_RETRY)]);
    assert!(!changed);
    assert!(failure.is_none());
    let (changed, failure) = manager.on_recording_stopped(pid((0, 1, 9)), &[Some(3)]);
    assert!(!changed);
    assert!(matches!(failure, Some(RecordingFailedReason::PipelineError { exit_code: 3 })));
}

#[test]
fn test_mark_recording_and_failed() {
    let mut manager = RecordingManager::new();
    let _ = manager.add_schedule(schedule(
        RecordingScheduleState::Scheduled,
        program((0, 1, 1), NOW, HOUR),
        options("1.m2ts", 0),
        &[],
    ));
    manager.mark_recording(pid((0, 1, 1)));
    assert_eq!(state_of(&manager, (0, 1, 1)), Some(RecordingScheduleState::Recording));
    manager.mark_failed(
        pid((0, 1, 1)),
        RecordingFailedReason::StartRecordingFailed { message: "no tuner".to_string() },
    );
    let s = manager.query_schedule(pid((0, 1, 1))).ok().unwrap();
    assert_eq!(s.state, RecordingScheduleState::Failed);
    assert!(matches!(s.failed_reason, Some(RecordingFailedReason::StartRecordingFailed { .. })));
}

#[test]
fn test_load_schedules_skips_known_programs() {
    let now = NOW;
    let mut manager = RecordingManager::new();
    let result = manager.add_schedule(schedule(
        RecordingScheduleState::Scheduled,
        program((0, 1, 1), now, HOUR),
        options("kept.m2ts", 0),
        &[],
    ));
    assert!(matches!(result, Ok(())));

    manager.load_schedules(vec![
        schedule(
            RecordingScheduleState::Scheduled,
            program((0, 1, 1), now, HOUR),
            options("dup.m2ts", 5),
            &[],
        ),
        schedule(
            RecordingScheduleState::Tracking,
            program((0, 1, 2), now, HOUR),
            options("2.m2ts", 0),
            &[],
        ),
        schedule(
            RecordingScheduleState::Recording,
            program((0, 1, 3), now - HOUR, 2 * HOUR),
            options("3.m2ts", 0),
            &[],
        ),
        schedule(
            RecordingScheduleState::Scheduled,
            program((0, 1, 2), now, HOUR),
            options("dup2.m2ts", 0),
            &[],
        ),
    ]);

    assert_eq!(manager.len(), 3);
    let kept = manager.query_schedule(pid((0, 1, 1))).unwrap();
    assert_eq!(kept.options.content_path.as_deref(), Some("kept.m2ts"));
    assert_eq!(kept.options.priority, 0);
    let second = manager.query_schedule(pid((0, 1, 2))).unwrap();
    assert_eq!(second.options.content_path.as_deref(), Some("2.m2ts"));
    assert_eq!(second.state, RecordingScheduleState::Tracking);
    assert_eq!(state_of(&manager, (0, 1, 3)), Some(RecordingScheduleState::Recording));
}
