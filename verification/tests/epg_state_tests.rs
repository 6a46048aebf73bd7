use mirakc_core::config::ChannelConfig;
use mirakc_core::epg::{EitEvent, EitSection, EpgChannel, EpgService};
use mirakc_core::epg_jobs::{clocks_of_channel, EitCollection, EitFeed, SyncClock, TsService};
use mirakc_core::epg_state::EpgState;
use mirakc_core::models::{ChannelType, Clock, Eid, Nid, ProgramId, ServiceId, Sid, Tsid};
use mirakc_core::schedule::{DAY_MS, JST_OFFSET_MS};

fn channel(ch: &str) -> EpgChannel {
    EpgChannel {
        name: "Ch".to_string(),
        channel_type: ChannelType::GR,
        channel: ch.to_string(),
        extra_args: "".to_string(),
        services: vec![],
        excluded_services: vec![],
    }
}

fn service(sid: u16, name: &str, ch: &str) -> (ServiceId, EpgService) {
    let id = ServiceId::new(Nid::from(1), Sid::from(sid));
    (
        id,
        EpgService {
            id,
            service_type: 1,
            logo_id: 0,
            remote_control_key_id: 0,
            name: name.to_string(),
            channel: channel(ch),
        },
    )
}

fn names(state: &EpgState) -> Vec<String> {
    state.services.iter().map(|(_, sv)| sv.name.clone()).collect()
}

#[test]
fn test_update_services() {
    let mut state = EpgState::new();
    state.update_services(&vec![
        (channel("1"), Some(vec![service(1, "sv1", "1"), service(2, "sv2", "1")])),
        (channel("2"), Some(vec![service(3, "sv3", "2")])),
    ]);
    assert_eq!(names(&state), vec!["sv1", "sv2", "sv3"]);

    // The scan of channel 2 fails: its services are kept.
    state.update_services(&vec![
        (channel("1"), Some(vec![service(1, "sv1.new", "1")])),
        (channel("2"), None),
        (channel("3"), Some(vec![service(4, "sv4", "3")])),
    ]);
    assert_eq!(names(&state), vec!["sv1.new", "sv3", "sv4"]);
}

#[test]
fn test_update_services_purge_garbage_schedules() {
    let mut state = EpgState::new();
    let id = ServiceId::new(Nid::from(1), Sid::from(2));
    state.prepare_schedule(id, 18_182);
    assert_eq!(state.schedules.len(), 1);
    state.update_services(&vec![(channel("1"), Some(vec![service(1, "sv1", "1")]))]);
    assert!(state.schedules.is_empty());
}

fn clock(time: i64) -> Clock {
    Clock { pid: 0x100, pcr: 0, time }
}

#[test]
fn test_update_clocks() {
    let mut state = EpgState::new();
    state.update_services(&vec![
        (channel("1"), Some(vec![service(1, "sv1", "1")])),
        (channel("2"), Some(vec![service(3, "sv3", "2")])),
    ]);
    let id1 = ServiceId::new(Nid::from(1), Sid::from(1));
    let id3 = ServiceId::new(Nid::from(1), Sid::from(3));
    state.update_clocks(&vec![
        (channel("1"), Some(vec![(id1, clock(1))])),
        (channel("2"), Some(vec![(id3, clock(3))])),
    ]);
    assert_eq!(state.query_clock(id1).map(|c| c.time), Some(1));
    // Synchronization on channel 2 fails: its clock is kept.
    state.update_clocks(&vec![(channel("1"), Some(vec![(id1, clock(10))])), (channel("2"), None)]);
    assert_eq!(state.query_clock(id1).map(|c| c.time), Some(10));
    assert_eq!(state.query_clock(id3).map(|c| c.time), Some(3));
    // Synchronization on channel 1 fails and channel 2 is gone.
    state.update_clocks(&vec![(channel("1"), None)]);
    assert_eq!(state.query_clock(id1).map(|c| c.time), Some(10));
    assert!(state.query_clock(id3).is_none());
}

fn eit_section(sid: u16, table_id: u16, events: Vec<EitEvent>) -> EitSection {
    EitSection {
        original_network_id: Nid::from(1),
        transport_stream_id: Tsid::from(0),
        service_id: Sid::from(sid),
        table_id,
        section_number: 0,
        last_section_number: 0xF8,
        segment_last_section_number: 0,
        version_number: 1,
        events,
    }
}

fn event(eid: u16, start_time: Option<i64>, duration: Option<i64>) -> EitEvent {
    EitEvent { event_id: Eid::from(eid), start_time, duration, scrambled: false, descriptors: vec![] }
}

#[test]
fn test_schedule_flow() {
    let mut state = EpgState::new();
    state.update_services(&vec![(channel("1"), Some(vec![service(2, "sv2", "1")]))]);
    let id = ServiceId::new(Nid::from(1), Sid::from(2));
    let today = 18_182;
    let base = today * DAY_MS - JST_OFFSET_MS;
    assert!(state.schedule_dates_readable(id));
    state.prepare_schedule(id, today);
    state.update_schedule(eit_section(2, 0x50, vec![event(7, Some(base), Some(60000))]));
    // A section of a service without a schedule is dropped.
    state.update_schedule(eit_section(3, 0x50, vec![event(8, Some(base), Some(60000))]));
    assert_eq!(state.flush_schedule(id), 1);
    assert_eq!(state.query_programs(id).len(), 1);
    let pid = ProgramId::new(Nid::from(1), Sid::from(2), Eid::from(7));
    assert_eq!(state.query_program(pid).map(|p| p.start_at), Some(Some(base)));
    let missing = ProgramId::new(Nid::from(1), Sid::from(2), Eid::from(8));
    assert!(state.query_program(missing).is_none());
    assert!(state.query_programs(ServiceId::new(Nid::from(1), Sid::from(3))).is_empty());
    assert_eq!(state.query_service(id).map(|s| s.name), Some("sv2".to_string()));
    assert!(state.query_service(ServiceId::new(Nid::from(9), Sid::from(9))).is_none());

    // The next day the schedule starts one unit later.
    state.prepare_schedule(id, today + 1);
    assert_eq!(state.schedules[0].start_index, 1);
}

#[test]
fn test_eit_collection() {
    let mut collection = EitCollection::new();
    match collection.feed(eit_section(2, 0x52, vec![])) {
        EitFeed::Ignore => {},
        _ => panic!("a section of another table is ignored"),
    }
    match collection.feed(eit_section(
        2,
        0x50,
        vec![event(1, Some(0), Some(1)), event(2, None, Some(1)), event(3, Some(0), None)],
    )) {
        EitFeed::Feed { prepare, section } => {
            assert_eq!(prepare, Some(ServiceId::new(Nid::from(1), Sid::from(2))));
            assert_eq!(section.events.len(), 1);
            assert_eq!(section.events[0].event_id, Eid::from(1));
        },
        EitFeed::Ignore => panic!("a schedule section is fed"),
    }
    match collection.feed(eit_section(2, 0x58, vec![])) {
        EitFeed::Feed { prepare, .. } => assert_eq!(prepare, None),
        EitFeed::Ignore => panic!("a schedule section is fed"),
    }
    assert_eq!(collection.num_sections, 2);
}

#[test]
fn test_clocks_of_channel() {
    let clocks = vec![
        SyncClock { nid: Nid::from(1), tsid: Tsid::from(0), sid: Sid::from(1), clock: clock(1) },
        SyncClock { nid: Nid::from(1), tsid: Tsid::from(0), sid: Sid::from(2), clock: clock(2) },
        SyncClock { nid: Nid::from(1), tsid: Tsid::from(0), sid: Sid::from(1), clock: clock(3) },
    ];
    let map = clocks_of_channel(&clocks);
    assert_eq!(map.len(), 2);
    assert_eq!(map[0].0, ServiceId::new(Nid::from(1), Sid::from(1)));
    assert_eq!(map[0].1.time, 3);
    assert_eq!(map[1].1.time, 2);
}

#[test]
fn test_epg_service_from_scan() {
    let config = ChannelConfig {
        name: "ch".to_string(),
        channel_type: ChannelType::BS,
        channel: "BS1_0".to_string(),
        extra_args: "".to_string(),
        services: vec![Sid::from(101)],
        excluded_services: vec![],
        disabled: false,
    };
    let sv = TsService {
        nid: Nid::from(4),
        tsid: Tsid::from(16625),
        sid: Sid::from(101),
        service_type: 1,
        logo_id: 0,
        remote_control_key_id: 1,
        name: "NHK BS1".to_string(),
    };
    let service = EpgService::from_scan(&config, &sv);
    assert_eq!(service.id, ServiceId::new(Nid::from(4), Sid::from(101)));
    assert_eq!(service.name, "NHK BS1");
    assert_eq!(service.channel.channel, "BS1_0");
    assert_eq!(service.channel.services, vec![Sid::from(101)]);
    assert_eq!(service.channel.to_string(), "BS/BS1_0");
}

fn channel_config(ch: &str, name: &str) -> ChannelConfig {
    ChannelConfig {
        name: name.to_string(),
        channel_type: ChannelType::GR,
        channel: ch.to_string(),
        extra_args: "--x".to_string(),
        services: vec![Sid::from(7)],
        excluded_services: vec![],
        disabled: false,
    }
}

#[test]
fn test_query_channels() {
    let mut state = EpgState::new();
    state.update_services(&vec![
        (channel("1"), Some(vec![service(1, "sv1", "1"), service(2, "sv2", "1")])),
        (channel("2"), Some(vec![service(3, "sv3", "2")])),
    ]);
    let configs = vec![channel_config("2", "Two"), channel_config("1", "One"), channel_config("9", "Nine")];
    let channels = state.query_channels(&configs);
    assert_eq!(channels.len(), 3);
    assert_eq!(channels[0].name, "Two");
    assert_eq!(channels[0].services.len(), 1);
    assert_eq!(channels[0].services[0].name, "sv3");
    assert_eq!(channels[0].services[0].service_id, Sid::from(3));
    assert_eq!(channels[0].services[0].network_id, Nid::from(1));
    assert_eq!(channels[1].services.iter().map(|s| s.name.clone()).collect::<Vec<_>>(), vec!["sv1", "sv2"]);
    assert!(channels[2].services.is_empty());
}

#[test]
fn test_query_channel() {
    let configs = vec![channel_config("1", "One"), channel_config("1", "Again")];
    match EpgState::query_channel(&configs, ChannelType::GR, &"1".to_string()) {
        Ok(ch) => {
            assert_eq!(ch.name, "One");
            assert_eq!(ch.extra_args, "--x");
            assert_eq!(ch.services, vec![Sid::from(7)]);
        }
        Err(_) => panic!("the channel is configured"),
    }
    assert!(matches!(
        EpgState::query_channel(&configs, ChannelType::BS, &"1".to_string()),
        Err(mirakc_core::error::Error::ChannelNotFound)
    ));
}
