use mirakc_core::config::{LocalOnairProgramTrackerConfig, LocalOnairProgramTrackerUses};
use mirakc_core::epg::{EitEvent, EitSection, EpgChannel, EpgService};
use mirakc_core::models::{ChannelType, Eid, Nid, ProgramId, ServiceId, Sid, Tsid};
use mirakc_core::onair::{OnairProgramChanged, OnairProgramManager};
use mirakc_core::epg::EpgProgram;
use mirakc_core::error::Error;
use std::sync::Arc;

fn service(nid: u16, sid: u16, channel_type: ChannelType) -> EpgService {
    EpgService {
        id: ServiceId::new(Nid::from(nid), Sid::from(sid)),
        service_type: 1,
        logo_id: 0,
        remote_control_key_id: 0,
        name: "Service".to_string(),
        channel: EpgChannel {
            name: "Ch".to_string(),
            channel_type,
            channel: "ch".to_string(),
            extra_args: "".to_string(),
            services: vec![],
            excluded_services: vec![],
        },
    }
}

fn config(types: Vec<ChannelType>, services: Vec<(u16, u16)>, excluded: Vec<(u16, u16)>) -> LocalOnairProgramTrackerConfig {
    let id = |(nid, sid): (u16, u16)| ServiceId::new(Nid::from(nid), Sid::from(sid));
    LocalOnairProgramTrackerConfig {
        channel_types: types,
        services: services.into_iter().map(id).collect(),
        excluded_services: excluded.into_iter().map(id).collect(),
        command: "".to_string(),
        uses: LocalOnairProgramTrackerUses { tuner: "".to_string() },
    }
}

#[test]
fn test_config_matches() {
    let gr12 = service(1, 2, ChannelType::GR);
    let gr13 = service(1, 3, ChannelType::GR);
    let bs12 = service(1, 2, ChannelType::BS);
    let bs13 = service(1, 3, ChannelType::BS);
    let gr = vec![ChannelType::GR];
    let grbs = vec![ChannelType::GR, ChannelType::BS];

    let c = config(gr.clone(), vec![], vec![]);
    assert!(c.matches(&gr12));
    assert!(c.matches(&gr13));
    assert!(!c.matches(&bs12));
    assert!(!c.matches(&bs13));

    let c = config(grbs.clone(), vec![], vec![]);
    assert!(c.matches(&gr12));
    assert!(c.matches(&gr13));
    assert!(c.matches(&bs12));
    assert!(c.matches(&bs13));

    let c = config(gr.clone(), vec![(1, 2)], vec![]);
    assert!(c.matches(&gr12));
    assert!(!c.matches(&gr13));
    assert!(!c.matches(&bs12));
    assert!(!c.matches(&bs13));

    let c = config(grbs.clone(), vec![(1, 2)], vec![]);
    assert!(c.matches(&gr12));
    assert!(!c.matches(&gr13));
    assert!(c.matches(&bs12));
    assert!(!c.matches(&bs13));

    let c = config(gr.clone(), vec![], vec![(1, 2)]);
    assert!(!c.matches(&gr12));
    assert!(c.matches(&gr13));
    assert!(!c.matches(&bs12));
    assert!(!c.matches(&bs13));

    let c = config(grbs.clone(), vec![], vec![(1, 2)]);
    assert!(!c.matches(&gr12));
    assert!(c.matches(&gr13));
    assert!(!c.matches(&bs12));
    assert!(c.matches(&bs13));

    let c = config(gr.clone(), vec![(1, 2)], vec![(1, 2)]);
    assert!(!c.matches(&gr12));
    assert!(!c.matches(&gr13));
    assert!(!c.matches(&bs12));
    assert!(!c.matches(&bs13));

    let c = config(grbs.clone(), vec![(1, 2)], vec![(1, 2)]);
    assert!(!c.matches(&gr12));
    assert!(!c.matches(&gr13));
    assert!(!c.matches(&bs12));
    assert!(!c.matches(&bs13));
}

fn section(version_number: u8, events: Vec<EitEvent>) -> EitSection {
    EitSection {
        original_network_id: Nid::from(1),
        transport_stream_id: Tsid::from(2),
        service_id: Sid::from(3),
        table_id: 0,
        section_number: 0,
        last_section_number: 1,
        segment_last_section_number: 0,
        version_number,
        events,
    }
}

fn now_millis() -> i64 {
    std::time::SystemTime::now().duration_since(std::time::UNIX_EPOCH).unwrap().as_millis() as i64
}

#[test]
fn test_section_extract_program() {
    let s = section(
        0,
        vec![EitEvent {
            event_id: Eid::from(4),
            start_time: Some(now_millis()),
            duration: Some(60000),
            scrambled: false,
            descriptors: vec![],
        }],
    );
    match s.extract_program() {
        Some(program) => assert_eq!(program.id, ProgramId::new(Nid::from(1), Sid::from(3), Eid::from(4))),
        None => panic!("a program is expected"),
    }

    let s = section(0, vec![]);
    assert!(s.extract_program().is_none());
}

#[test]
fn test_section_is_updated() {
    let s = section(1, vec![]);
    assert!(s.is_updated(&None));
    assert!(s.is_updated(&Some(section(0, vec![]))));
    assert!(!s.is_updated(&Some(section(1, vec![]))));
}

fn onair_program(nid: u16, sid: u16, eid: u16) -> Arc<EpgProgram> {
    Arc::new(EpgProgram::new(ProgramId::new(Nid::from(nid), Sid::from(sid), Eid::from(eid))))
}

#[test]
fn test_onair_program_manager_cache() {
    let mut manager = OnairProgramManager::new();
    let sv = ServiceId::new(Nid::from(1), Sid::from(2));
    assert!(matches!(manager.query_onair_program(sv), Err(Error::ServiceNotFound)));

    manager.on_onair_program_changed(&OnairProgramChanged {
        service_id: sv,
        current: Some(onair_program(1, 2, 10)),
        next: Some(onair_program(1, 2, 11)),
    });
    let programs = manager.query_onair_program(sv).ok().unwrap();
    assert_eq!(programs.current.map(|p| p.id.value()), Some(100002_00010));
    assert_eq!(programs.next.map(|p| p.id.value()), Some(100002_00011));

    // Only the next program changes.
    manager.on_onair_program_changed(&OnairProgramChanged { service_id: sv, current: None, next: Some(onair_program(1, 2, 12)) });
    let programs = manager.query_onair_program(sv).ok().unwrap();
    assert_eq!(programs.current.map(|p| p.id.eid().value()), Some(10));
    assert_eq!(programs.next.map(|p| p.id.eid().value()), Some(12));
    assert_eq!(manager.query_onair_programs().len(), 1);

    // Services that are gone lose their programs.
    manager.on_services_updated(&[(ServiceId::new(Nid::from(1), Sid::from(3)), service(1, 3, ChannelType::GR))]);
    assert!(manager.query_onair_programs().is_empty());
}

#[test]
fn test_onair_program_manager_temporal_trackers() {
    let mut manager = OnairProgramManager::new();
    let sv = ServiceId::new(Nid::from(1), Sid::from(2));
    manager.add_tracker("tracker".to_string());
    assert_eq!(manager.add_temporal_tracker(sv, "7"), Some(".7".to_string()));
    // The same stream does not get a second tracker.
    assert_eq!(manager.add_temporal_tracker(sv, "7"), None);
    assert_eq!(manager.add_temporal_tracker(sv, "8"), Some(".8".to_string()));
    manager.update_current_program(onair_program(1, 2, 10));

    // Another temporal tracker still follows the service.
    assert!(manager.on_tracker_stopped(".7"));
    assert!(manager.query_onair_program(sv).is_ok());
    assert!(!manager.has_tracker(".7"));
    assert!(manager.has_tracker("tracker"));

    // The last temporal tracker of the service stops.
    assert!(manager.on_tracker_stopped(".8"));
    assert!(matches!(manager.query_onair_program(sv), Err(Error::ServiceNotFound)));

    // An unknown tracker.
    assert!(!manager.on_tracker_stopped(".9"));
}

use mirakc_core::onair::LocalTracker;

fn pf_section(section_number: u8, version_number: u8, eid: u16) -> EitSection {
    let mut s = section(
        version_number,
        vec![EitEvent {
            event_id: Eid::from(eid),
            start_time: None,
            duration: Some(60_000),
            scrambled: false,
            descriptors: vec![],
        }],
    );
    s.section_number = section_number;
    s
}

#[test]
fn test_local_tracker_take_section() {
    let mut tracker = LocalTracker::new();
    let sv = ServiceId::new(Nid::from(1), Sid::from(3));
    assert!(tracker.take_section(sv, pf_section(0, 1, 10)));
    assert!(!tracker.take_section(sv, pf_section(0, 1, 10)));
    assert!(tracker.take_section(sv, pf_section(0, 2, 11)));
    assert!(tracker.take_section(sv, pf_section(1, 2, 12)));
    assert!(!tracker.take_section(sv, pf_section(1, 2, 12)));
    // Sections other than the current and the next one are ignored.
    assert!(!tracker.take_section(sv, pf_section(2, 9, 13)));
    assert_eq!(tracker.entries.len(), 1);

    let msg = tracker.changed_message(sv);
    assert_eq!(msg.service_id, sv);
    let current = msg.current.unwrap();
    assert_eq!(current.id, ProgramId::new(Nid::from(1), Sid::from(3), Eid::from(11)));
    // The start time of an EIT[p/f] event may be undefined.
    assert_eq!(current.start_at, None);
    assert_eq!(current.duration, Some(60_000));
    assert_eq!(msg.next.unwrap().id.eid().value(), 12);
}
