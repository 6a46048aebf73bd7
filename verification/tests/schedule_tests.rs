use chrono::Datelike;
use mirakc_core::epg::{EitEvent, EitSection};
use mirakc_core::models::{Eid, Nid, ServiceId, Sid, Tsid};
use mirakc_core::schedule::{jst_date, EpgSchedule, EpgSection, EpgSegment, DAY_MS, JST_OFFSET_MS};

const MAX_DAYS: usize = 9;

fn jst_today() -> i64 {
    let now = std::time::SystemTime::now()
        .duration_since(std::time::UNIX_EPOCH)
        .unwrap()
        .as_millis() as i64;
    jst_date(now)
}

fn day_of_month(date: i64) -> u16 {
    chrono::NaiveDate::from_num_days_from_ce_opt((date + 719_163) as i32).unwrap().day() as u16
}

fn create_epg_section(date: i64) -> EpgSection {
    let start_time = date * DAY_MS - JST_OFFSET_MS;
    EpgSection {
        version: 1,
        events: vec![EitEvent {
            event_id: Eid::from(day_of_month(date)),
            start_time: Some(start_time),
            duration: Some(30 * 60000),
            scrambled: false,
            descriptors: Vec::new(),
        }],
    }
}

#[test]
fn test_epg_schedule_update_start_index() {
    let id = ServiceId::new(Nid::from(1), Sid::from(2));
    let mut sched = EpgSchedule::new(id);
    assert_eq!(sched.start_index, 0);
    assert!(sched.units.iter().all(|unit| unit.date().is_none()));

    sched.update_start_index(jst_today());
    assert_eq!(sched.start_index, 0);

    let mut date = jst_today();
    for i in 0..MAX_DAYS {
        sched.units[i].segments[0].basic_sections[0] = Some(create_epg_section(date));
        assert_eq!(sched.units[i].date(), Some(date));
        date += 1;
    }

    sched.update_start_index(jst_today());
    assert_eq!(sched.start_index, 0);

    sched.update_start_index(jst_today() + 1);
    assert_eq!(sched.start_index, 1);

    sched.update_start_index(jst_today() - 1);
    assert_eq!(sched.start_index, 8);

    sched.update_start_index(date); // today + 9 days
    assert_eq!(sched.start_index, 0);
}

fn section(id: ServiceId, table_id: u16) -> EitSection {
    EitSection {
        original_network_id: id.nid(),
        transport_stream_id: Tsid::from(0),
        service_id: id.sid(),
        table_id,
        section_number: 0x00,
        last_section_number: 0xF8,
        segment_last_section_number: 0x00,
        version_number: 1,
        events: Vec::new(),
    }
}

#[test]
fn mod_test_epg_schedule_update() {
    let id = ServiceId::new(Nid::from(1), Sid::from(2));

    let mut sched = EpgSchedule::new(id);
    sched.update(section(id, 0x50)); // unit-index(0)
    assert!(sched.units[0].segments[0].basic_sections[0].is_some());

    let mut sched = EpgSchedule::new(id);
    sched.update(section(id, 0x51)); // unit-index(4)
    assert!(sched.units[4].segments[0].basic_sections[0].is_some());

    let mut sched = EpgSchedule::new(id);
    sched.start_index = 5;
    sched.update(section(id, 0x51)); // unit-index(4)
    // The unit-index of the section must wrap around to 0.
    assert!(sched.units[0].segments[0].basic_sections[0].is_some());
}

fn segment_section(table_id: u16, section_number: u8, segment_last_section_number: u8) -> EitSection {
    EitSection {
        original_network_id: Nid::from(1),
        transport_stream_id: Tsid::from(0),
        service_id: Sid::from(2),
        table_id,
        section_number,
        last_section_number: 0xF8,
        segment_last_section_number,
        version_number: 1,
        events: Vec::new(),
    }
}

#[test]
fn mod_test_epg_segment_update() {
    let mut segment = EpgSegment::new();

    segment.update(segment_section(0x50, 0x01, 0x01));
    assert!(segment.basic_sections[0].is_none());
    assert!(segment.basic_sections[1].is_some());

    segment.update(segment_section(0x50, 0x00, 0x00));
    assert!(segment.basic_sections[0].is_some());
    assert!(segment.basic_sections[1].is_none());
}

#[test]
fn test_epg_segment_update_extended() {
    let mut segment = EpgSegment::new();
    segment.update(segment_section(0x58, 0x02, 0x02));
    assert!(segment.extended_sections[2].is_some());
    assert!(segment.basic_sections.iter().all(|s| s.is_none()));
}

#[test]
fn test_jst_date() {
    assert_eq!(jst_date(0), 0);
    assert_eq!(jst_date(-JST_OFFSET_MS), 0);
    assert_eq!(jst_date(-JST_OFFSET_MS - 1), -1);
    assert_eq!(jst_date(DAY_MS - JST_OFFSET_MS), 1);
    // 2019-10-13 00:00 JST
    assert_eq!(jst_date(1_570_892_400_000), 18_182);
}

fn event(eid: u16, start_time: Option<i64>, duration: Option<i64>) -> EitEvent {
    EitEvent {
        event_id: Eid::from(eid),
        start_time,
        duration,
        scrambled: false,
        descriptors: Vec::new(),
    }
}

#[test]
fn test_epg_schedule_collect_programs() {
    let id = ServiceId::new(Nid::from(1), Sid::from(2));
    let mut sched = EpgSchedule::new(id);
    let today = 18_182;
    let base = today * DAY_MS - JST_OFFSET_MS;
    // The day before today comes first.
    sched.units[8].segments[0].basic_sections[0] = Some(EpgSection {
        version: 1,
        events: vec![event(10, Some(base - DAY_MS), Some(60000))],
    });
    sched.units[0].segments[0].basic_sections[0] = Some(EpgSection {
        version: 1,
        events: vec![
            event(20, Some(base), Some(60000)),
            event(21, None, Some(60000)),
            event(10, Some(base + 60000), Some(120000)),
        ],
    });
    sched.collect_programs();
    let programs: Vec<u16> = sched.programs.iter().map(|(eid, _)| eid.value()).collect();
    assert_eq!(programs, vec![10, 20]);
    let (_, p10) = &sched.programs[0];
    assert_eq!(p10.id.value(), 1_00002_00010);
    // The last event of an identifier wins.
    assert_eq!(p10.start_at, Some(base + 60000));
    assert_eq!(p10.duration, Some(120000));
}

#[test]
fn test_epg_schedule_dates_readable() {
    let id = ServiceId::new(Nid::from(1), Sid::from(2));
    let mut sched = EpgSchedule::new(id);
    assert!(sched.dates_readable());
    sched.units[3].segments[0].basic_sections[0] =
        Some(EpgSection { version: 1, events: vec![event(1, None, Some(1))] });
    assert!(!sched.dates_readable());
}
