use mirakc_core::epg::{
    AudioComponentDescriptor, ComponentDescriptor, EitDescriptor, EitEvent, EpgProgram, EventGroupDescriptor,
    EventGroupEvent, SeriesDescriptor,
};
use mirakc_core::models::{
    ChannelType, Eid, MirakurunLangCode, MirakurunProgram, MirakurunProgramAudio, MirakurunProgramRelatedItem,
    MirakurunProgramVideo, Nid, ProgramId, Sid, TunerUser, TunerUserInfo, TunerUserPriority,
};

fn program_id() -> ProgramId {
    ProgramId::new(Nid::from(1), Sid::from(2), Eid::from(3))
}

fn audio(tag: u8, main: bool, sampling_rate: u8) -> AudioComponentDescriptor {
    AudioComponentDescriptor {
        stream_content: 2,
        component_type: 3,
        component_tag: tag,
        simulcast_group_tag: 0xFF,
        es_multi_lingual_flag: false,
        main_component_flag: main,
        quality_indicator: 1,
        sampling_rate,
        language_code: 0x6A706E, // "jpn"
        language_code2: None,
        text: None,
    }
}

fn event(descriptors: Vec<EitDescriptor>) -> EitEvent {
    EitEvent {
        event_id: Eid::from(3),
        start_time: Some(1_000),
        duration: Some(2_000),
        scrambled: true,
        descriptors,
    }
}

#[test]
fn test_epg_program_new() {
    let program = EpgProgram::new(program_id());
    assert_eq!(program.id, program_id());
    assert_eq!(program.name(), "NO TITLE");
    assert_eq!(program.end_at(), None);
    assert_eq!(program.eid(), Eid::from(3));
}

#[test]
fn test_epg_program_update_last_descriptor_wins() {
    let mut program = EpgProgram::new(program_id());
    program.update(&event(vec![
        EitDescriptor::ShortEvent { event_name: Some("first".to_string()), text: None },
        EitDescriptor::AudioComponent(audio(0x10, true, 7)),
        EitDescriptor::ShortEvent { event_name: Some("second".to_string()), text: Some("text".to_string()) },
        EitDescriptor::AudioComponent(audio(0x11, false, 3)),
        EitDescriptor::AudioComponent(audio(0x10, false, 5)),
        EitDescriptor::Content { nibbles: vec![(1, 2, 3, 4)] },
        EitDescriptor::ExtendedEvent {
            items: vec![
                ("a".to_string(), "1".to_string()),
                ("b".to_string(), "2".to_string()),
                ("a".to_string(), "3".to_string()),
            ],
        },
    ]));
    assert_eq!(program.name.as_deref(), Some("second"));
    assert_eq!(program.description.as_deref(), Some("text"));
    assert_eq!(program.start_at, Some(1_000));
    assert_eq!(program.duration, Some(2_000));
    assert_eq!(program.end_at(), Some(3_000));
    assert!(program.scrambled);
    // Audio components by tag: a later descriptor of a tag replaces an
    // earlier one in place.
    assert_eq!(program.audios.len(), 2);
    assert_eq!(program.audios[0].0, 0x10);
    assert_eq!(program.audios[0].1.sampling_rate, 5);
    assert_eq!(program.audios[1].0, 0x11);
    let genres = program.genres.as_ref().unwrap();
    assert_eq!(genres.len(), 1);
    assert_eq!((genres[0].lv1, genres[0].lv2, genres[0].un1, genres[0].un2), (1, 2, 3, 4));
    let extended = program.extended.as_ref().unwrap();
    assert_eq!(extended, &vec![("a".to_string(), "3".to_string()), ("b".to_string(), "2".to_string())]);

    // A later event keeps what its descriptors do not set.
    program.update(&EitEvent { scrambled: false, ..event(vec![]) });
    assert_eq!(program.name.as_deref(), Some("second"));
    assert!(!program.scrambled);
}

#[test]
fn test_mirakurun_program_from() {
    let mut program = EpgProgram::new(program_id());
    program.update(&event(vec![
        EitDescriptor::Component(ComponentDescriptor {
            stream_content: 0x01,
            component_type: 0xB3,
            component_tag: 0,
            language_code: 0,
            text: None,
        }),
        EitDescriptor::AudioComponent(audio(0x10, false, 7)),
        EitDescriptor::AudioComponent(audio(0x11, true, 3)),
        EitDescriptor::Series(SeriesDescriptor {
            series_id: 1,
            repeat_label: 2,
            program_pattern: 3,
            expire_date: None,
            episode_number: 4,
            last_episode_number: 5,
            series_name: Some("series".to_string()),
        }),
        EitDescriptor::EventGroup(EventGroupDescriptor {
            group_type: 1,
            events: vec![EventGroupEvent {
                original_network_id: None,
                transport_stream_id: None,
                service_id: Sid::from(2),
                event_id: Eid::from(4),
            }],
        }),
    ]));
    let m = MirakurunProgram::from_epg_program(program);
    assert_eq!(m.id, program_id());
    assert_eq!(m.network_id, Nid::from(1));
    assert_eq!(m.service_id, Sid::from(2));
    assert_eq!(m.event_id, Eid::from(3));
    assert!(!m.is_free);
    let video = m.video.unwrap();
    assert_eq!(video.video_type.as_deref(), Some("mpeg2"));
    assert_eq!(video.resolution.as_deref(), Some("1080i"));
    // The first main audio component.
    let main = m.audio.unwrap();
    assert!(main.is_main);
    assert_eq!(main.sampling_rate, 24_000);
    assert_eq!(m.audios.len(), 2);
    assert_eq!(m.audios[0].sampling_rate, 48_000);
    assert_eq!(m.audios[0].langs[0].0, "jpn");
    let series = m.series.unwrap();
    assert_eq!(series.expire_at, -1);
    assert_eq!(series.name, "series");
    assert_eq!(m.related_items.len(), 1);
    assert_eq!(m.related_items[0].group_type, "shared");
    assert_eq!(m.related_items[0].event_id, Eid::from(4));
}

#[test]
fn test_mirakurun_program_video() {
    assert_eq!(MirakurunProgramVideo::get_video_type(0x05).as_deref(), Some("h.264"));
    assert_eq!(MirakurunProgramVideo::get_video_type(0x09).as_deref(), Some("h.265"));
    assert_eq!(MirakurunProgramVideo::get_video_type(0x02), None);
    assert_eq!(MirakurunProgramVideo::get_resolution(0x01).as_deref(), Some("480i"));
    assert_eq!(MirakurunProgramVideo::get_resolution(0x83).as_deref(), Some("4320p"));
    assert_eq!(MirakurunProgramVideo::get_resolution(0x00), None);
}

#[test]
fn test_mirakurun_program_audio() {
    assert_eq!(MirakurunProgramAudio::convert_sampling_rate(1), 16_000);
    assert_eq!(MirakurunProgramAudio::convert_sampling_rate(2), 22_050);
    assert_eq!(MirakurunProgramAudio::convert_sampling_rate(5), 32_000);
    assert_eq!(MirakurunProgramAudio::convert_sampling_rate(6), 44_100);
    assert_eq!(MirakurunProgramAudio::convert_sampling_rate(4), -1);
    assert_eq!(MirakurunLangCode::from_code(0x656E67).0, "eng");
    // Not valid UTF-8.
    assert_eq!(MirakurunLangCode::from_code(0xFF0000).0, "und");
    let mut a = audio(0x10, true, 7);
    a.language_code2 = Some(0x656E67);
    let m = MirakurunProgramAudio::from_descriptor(&a);
    assert_eq!(m.langs.len(), 2);
    assert_eq!(m.langs[1].0, "eng");
}

#[test]
fn test_mirakurun_program_related_item_type() {
    assert_eq!(MirakurunProgramRelatedItem::get_type(1), "shared");
    assert_eq!(MirakurunProgramRelatedItem::get_type(2), "relay");
    assert_eq!(MirakurunProgramRelatedItem::get_type(4), "relay");
    assert_eq!(MirakurunProgramRelatedItem::get_type(3), "movement");
}

#[test]
fn test_tuner_user() {
    let user = TunerUser {
        info: TunerUserInfo::Web { id: "id".to_string(), agent: Some("agent".to_string()) },
        priority: TunerUserPriority::from(1),
    };
    assert!(!user.is_short_term_user());
    assert_eq!(user.max_stuck_time(), 1);
    assert_eq!(user.to_string(), "Web(id=\"id\" agent=\"agent\") (priority=1)");
    let model = user.get_mirakurun_model();
    assert_eq!(model.id, "id");
    assert_eq!(model.agent.as_deref(), Some("agent"));
    assert_eq!(model.priority, 1);

    let tracker = TunerUser {
        info: TunerUserInfo::OnairProgramTracker("tracker".to_string()),
        priority: TunerUserPriority::from(-1),
    };
    assert!(tracker.is_short_term_user());
    assert_eq!(tracker.max_stuck_time(), 5);
    assert_eq!(tracker.get_mirakurun_model().id, "onair-program-tracker:tracker");
    assert_eq!(tracker.to_string(), "OnairProgramTracker(tracker) (priority=-1)");
}

#[test]
fn test_identifier_strings() {
    assert_eq!(ChannelType::GR.to_string(), "GR");
    assert_eq!(ChannelType::SKY.to_string(), "SKY");
    assert_eq!(program_id().to_string(), "10000200003");
    assert_eq!(Nid::from(0x7FE0).to_string(), "NID#7FE0");
}
