use mirakc_core::actlet::{EmitterRegistry, DEFAULT_CAPACITY};
use mirakc_core::broadcaster::{usable_capacity, Broadcaster, SendOutcome, MAX_CHUNKS};
use mirakc_core::command_util::{CommandLogging, CommandPipelineBuilder};
use mirakc_core::file_util::append_extension;
use mirakc_core::mpeg_ts_stream::{MpegTsStream, MpegTsStreamTerminator};
use mirakc_core::recording::{
    check_retry, get_first_error, make_content_filename, make_record_filename, OpenContent, RecordId,
    DEFAULT_TIME_LIMIT, EXIT_RETRY,
};
use mirakc_core::models::{Eid, Nid, ProgramId, Sid};

#[test]
fn test_append_extension() {
    assert_eq!(append_extension("foobar", "baz"), "foobar.baz");
    assert_eq!(append_extension("foo.bar", "baz"), "foo.bar.baz");
}

#[test]
fn test_emitter_registry() {
    let mut registry: EmitterRegistry<&str> = EmitterRegistry::with_capacity(2);
    assert!(!registry.is_full());
    let id1 = registry.register("a");
    let id2 = registry.register("b");
    assert_eq!((id1, id2), (1, 2));
    assert!(registry.is_full());
    // A full registry registers nothing.
    assert_eq!(registry.register("c"), 0);
    registry.unregister(id1);
    assert!(!registry.is_full());
    // Identifiers are reused round-robin.
    assert_eq!(registry.register("d"), 1);
    assert_eq!(registry.emitters().get(&1), Some(&"d"));
    assert_eq!(registry.emitters().get(&2), Some(&"b"));
}

#[test]
fn test_emitter_registry_round_robin() {
    let mut registry: EmitterRegistry<u8> = EmitterRegistry::new();
    for expected in 1..=DEFAULT_CAPACITY {
        assert_eq!(registry.register(0), expected);
    }
    assert_eq!(registry.register(0), 0);
    registry.unregister(5);
    registry.unregister(2);
    // The next try wrapped round to 1: the first free identifier from there.
    assert_eq!(registry.register(0), 2);
    assert_eq!(registry.register(0), 5);
}

#[test]
fn test_emitter_registry_default() {
    let registry: EmitterRegistry<u8> = EmitterRegistry::default();
    assert_eq!(registry.capacity(), DEFAULT_CAPACITY);
    assert_eq!(DEFAULT_CAPACITY, 32);
    assert!(registry.emitters().is_empty());
}

#[test]
fn test_emitter_registry_zero_capacity() {
    let mut registry: EmitterRegistry<u8> = EmitterRegistry::with_capacity(0);
    assert!(registry.is_full());
    assert_eq!(registry.register(1), 0);
}

#[test]
fn test_broadcaster_broadcast() {
    let mut b = Broadcaster::new(1000, 0);
    b.bind_stream();
    b.subscribe(1, 5000);
    b.subscribe(2, 5000);
    b.subscribe(3, 5000);
    b.broadcast(&vec![Some(SendOutcome::Sent), Some(SendOutcome::Full), Some(SendOutcome::Closed)], 10, 100);
    assert_eq!(b.subscribers[0].dropped_bytes, None);
    assert_eq!(b.subscribers[1].dropped_bytes, Some(10));
    assert!(!b.subscribers[2].active);
    assert_eq!(b.last_received, 100);
    b.broadcast(&vec![Some(SendOutcome::Full), Some(SendOutcome::Full), None], 10, 200);
    assert_eq!(b.subscribers[0].dropped_bytes, Some(10));
    assert_eq!(b.subscribers[1].dropped_bytes, Some(20));
    b.broadcast(&vec![Some(SendOutcome::Sent), Some(SendOutcome::Sent), None], 10, 300);
    assert_eq!(b.subscribers[1].dropped_bytes, None);
}

#[test]
fn test_broadcaster_unsubscribe() {
    let mut b = Broadcaster::new(1000, 0);
    b.bind_stream();
    b.subscribe(1, 5000);
    b.subscribe(2, 5000);
    b.unsubscribe(1);
    assert_eq!(b.subscribers.len(), 1);
    assert_eq!(b.subscribers[0].id, 2);
    b.unbind_stream();
    assert!(!b.is_inactive());
    b.unsubscribe(2);
    assert!(b.is_inactive());
}

#[test]
fn test_broadcaster_min_capacity() {
    let mut b = Broadcaster::new(1000, 0);
    b.bind_stream();
    assert_eq!(b.min_capacity(&vec![], 0), MAX_CHUNKS);
    b.subscribe(1, 100);
    b.subscribe(2, 100);
    assert_eq!(b.min_capacity(&vec![Some(10), Some(20)], 0), 10);
    // A full queue counts as no room and starts its stuck time.
    assert_eq!(b.min_capacity(&vec![Some(0), Some(20)], 1000), 0);
    assert_eq!(b.subscribers[0].stuck_start_time, Some(1000));
    assert_eq!(b.min_capacity(&vec![Some(0), Some(20)], 1050), 0);
    // Stuck for too long: left out.
    assert_eq!(b.min_capacity(&vec![Some(0), Some(20)], 1100), 20);
    // Room again: the stuck time ends.
    assert_eq!(b.min_capacity(&vec![Some(5), Some(20)], 1200), 5);
    assert_eq!(b.subscribers[0].stuck_start_time, None);
}

#[test]
fn test_broadcaster_timeout() {
    let mut b = Broadcaster::new(1000, 0);
    b.bind_stream();
    b.subscribe(1, 100);
    assert!(!b.check_timeout(1000));
    assert!(b.stream_bounded);
    assert!(b.check_timeout(1001));
    assert!(!b.stream_bounded);
    assert!(!b.subscribers[0].active);
}

#[test]
fn test_usable_capacity() {
    assert_eq!(usable_capacity(MAX_CHUNKS / 8), None);
    assert_eq!(usable_capacity(MAX_CHUNKS / 8 + 1), Some(MAX_CHUNKS / 8 + 1));
    assert_eq!(usable_capacity(0), None);
}

#[test]
fn test_check_retry() {
    assert!(!check_retry(&[]));
    assert!(!check_retry(&[Some(0), None, Some(1)]));
    assert!(check_retry(&[Some(0), None, Some(EXIT_RETRY)]));
    assert_eq!(EXIT_RETRY, 222);
}

#[test]
fn test_get_first_error() {
    assert_eq!(get_first_error(&[]), None);
    assert_eq!(get_first_error(&[Some(0), None]), None);
    assert_eq!(get_first_error(&[Some(0), None, Some(2), Some(3)]), Some(2));
}

#[test]
fn test_record_id_strings() {
    let id = RecordId::from_start(0x0123, ProgramId::new(Nid::from(1), Sid::from(2), Eid::from(3)));
    assert_eq!(id.value(), "000000000000012300000002540EF143");
    assert_eq!(id.to_string(), "record#000000000000012300000002540EF143");
    assert_eq!(make_content_filename(&id), "000000000000012300000002540EF143.content");
    assert_eq!(make_record_filename(&id), "000000000000012300000002540EF143.record.json");
    assert_eq!(RecordId::new(-1, 0).value(), "FFFFFFFFFFFFFFFF0000000000000000");
    assert_eq!(RecordId::from("x".to_string()).value(), "x");
}

#[test]
fn test_open_content() {
    let msg: OpenContent<(u64, u64)> = OpenContent::new(RecordId::new(0, 0), Some((0, 1)));
    assert_eq!(msg.time_limit, DEFAULT_TIME_LIMIT);
    assert_eq!(DEFAULT_TIME_LIMIT, 1500);
    assert_eq!(msg.range, Some((0, 1)));
}

#[test]
fn test_command_pipeline_builder() {
    let mut builder = CommandPipelineBuilder::new(vec!["true".to_string()], 1u32, "test");
    assert!(builder.envs.is_empty());
    assert_eq!(builder.logging, CommandLogging::Default);
    builder.set_log_filter("debug");
    builder.set_log_file("/tmp/log");
    builder.set_logging(true);
    assert_eq!(
        builder.envs,
        vec![
            ("MIRAKC_ARIB_LOG", "debug".to_string()),
            ("MIRAKC_ARIB_LOG_NO_TIMESTAMP", "0".to_string()),
        ]
    );
    assert_eq!(builder.log_file.as_deref(), Some("/tmp/log"));
    assert_eq!(builder.logging, CommandLogging::Enabled);
    builder.set_logging(false);
    assert_eq!(builder.logging, CommandLogging::Disabled);
}

#[test]
fn test_command_logging_is_enabled() {
    assert!(CommandLogging::Default.is_enabled(true));
    assert!(!CommandLogging::Default.is_enabled(false));
    assert!(CommandLogging::Enabled.is_enabled(false));
    assert!(!CommandLogging::Disabled.is_enabled(true));
}

#[test]
fn test_mpeg_ts_stream() {
    let stream = MpegTsStream::new(7u32, vec![1u8, 2, 3]);
    assert!(!stream.is_decoded());
    assert_eq!(stream.id(), 7);
    let stream = stream.decoded();
    assert!(stream.is_decoded());
    assert_eq!(stream.into_parts(), (7, vec![1, 2, 3]));

    let terminator = MpegTsStreamTerminator::new("inner", 42u8);
    assert_eq!(terminator.into_parts(), ("inner", 42));
}

use mirakc_core::config::{FilterConfig, PostFilterConfig};
use mirakc_core::filter::{FilterPipelineBuilder, TemplateData};

fn text(s: &str) -> TemplateData {
    TemplateData::Str(s.to_string())
}

fn fields(entries: Vec<(&str, TemplateData)>) -> TemplateData {
    TemplateData::Fields(entries.into_iter().map(|(k, v)| (k.to_string(), v)).collect())
}

// The data of a GR channel "test" on "channel" and of a web user "user-id"
// of priority 0, as mustache encodes them.
fn filter_data() -> TemplateData {
    fields(vec![
        ("channel_name", text("test")),
        ("channel_type", text("GR")),
        ("channel", text("channel")),
        (
            "user",
            fields(vec![
                ("info", fields(vec![("Web", fields(vec![("id", text("user-id")), ("agent", TemplateData::Null)]))])),
                ("priority", text("0")),
            ]),
        ),
    ])
}

#[test]
fn test_make_filter() {
    let builder = FilterPipelineBuilder::new(filter_data());
    assert_eq!(builder.make_filter("{{channel_name}}").ok(), Some("test".to_string()));
    assert_eq!(builder.make_filter("{{channel_type}}").ok(), Some("GR".to_string()));
    assert_eq!(builder.make_filter("{{channel}}").ok(), Some("channel".to_string()));
    assert_eq!(builder.make_filter("{{#user}}{{priority}}{{/user}}").ok(), Some("0".to_string()));
    assert_eq!(builder.make_filter("{{user.priority}}").ok(), Some("0".to_string()));
    assert_eq!(builder.make_filter("{{user.info.Web.id}}").ok(), Some("user-id".to_string()));
    assert_eq!(
        builder.make_filter("{{^user.info.Job}}not job{{/user.info.Job}}").ok(),
        Some("not job".to_string())
    );
}

#[test]
fn test_filter_pipeline_builder() {
    let mut builder = FilterPipelineBuilder::new(filter_data());
    let pre = vec![
        ("pre".to_string(), FilterConfig { command: "  pre {{channel}}  ".to_string() }),
        ("blank".to_string(), FilterConfig { command: "{{missing}}".to_string() }),
        ("empty".to_string(), FilterConfig { command: "".to_string() }),
    ];
    let names = vec!["pre".to_string(), "unknown".to_string(), "blank".to_string(), "empty".to_string()];
    assert_eq!(builder.add_pre_filters(&pre, &names).ok(), Some(1));
    assert_eq!(builder.add_decode_filter(&FilterConfig { command: "".to_string() }).ok(), Some(1));
    assert_eq!(builder.add_program_filter(&FilterConfig { command: "program {{channel_name}}".to_string() }).ok(), Some(2));
    let post = vec![
        ("mp4".to_string(), PostFilterConfig { command: "to-mp4".to_string(), content_type: Some("video/mp4".to_string()) }),
        ("nop".to_string(), PostFilterConfig { command: "".to_string(), content_type: Some("text/plain".to_string()) }),
    ];
    let names = vec!["nop".to_string(), "mp4".to_string()];
    assert_eq!(builder.add_post_filters(&post, &names).ok(), Some(3));
    let (filters, content_type) = builder.build();
    assert_eq!(filters, vec!["pre channel".to_string(), "program test".to_string(), "to-mp4".to_string()]);
    assert_eq!(content_type, "video/mp4");
}

#[test]
fn test_filter_without_tags_is_kept_verbatim() {
    let mut builder = FilterPipelineBuilder::new(filter_data());
    assert_eq!(builder.make_filter("  cat {braces} }} {x  ").ok(), Some("cat {braces} }} {x".to_string()));
    assert_eq!(builder.add_service_filter(&FilterConfig { command: "  tee /dev/null ".to_string() }).ok(), Some(1));
    assert_eq!(builder.add_decode_filter(&FilterConfig { command: "   ".to_string() }).ok(), Some(1));
    let (filters, _) = builder.build();
    assert_eq!(filters, vec!["tee /dev/null".to_string()]);
    assert_eq!(render_command("echo {a} b}", &TemplateData::Null).ok(), Some("echo {a} b}".to_string()));
}

#[test]
fn test_commands_render_with_their_data() {
    let mut builder = FilterPipelineBuilder::new(filter_data());
    assert_eq!(
        builder.add_program_filter(&FilterConfig { command: "  prog {{channel_type}} {{channel}} ".to_string() }).ok(),
        Some(1)
    );
    let (filters, _) = builder.build();
    assert_eq!(filters, vec!["prog GR channel".to_string()]);
    let other = FilterPipelineBuilder::new(TemplateData::Null);
    assert_eq!(other.make_filter("x{{channel}}").ok(), Some("x".to_string()));
}

#[test]
fn test_filter_pipeline_builder_default_content_type() {
    let builder = FilterPipelineBuilder::new(TemplateData::Null);
    let (filters, content_type) = builder.build();
    assert!(filters.is_empty());
    assert_eq!(content_type, "video/MP2T");
}

#[test]
fn test_filter_pipeline_builder_render_error() {
    let mut builder = FilterPipelineBuilder::new(filter_data());
    assert!(builder.add_service_filter(&FilterConfig { command: "{{#unclosed}}".to_string() }).is_err());
    let (filters, _) = builder.build();
    assert!(filters.is_empty());
}

use mirakc_core::command_util::{program_and_args, split_command, Error as CommandError};

#[test]
fn test_split_command() {
    let words = split_command("timeout 5s mirakc-arib collect-eitpf --sids=1").ok().unwrap();
    assert_eq!(words, vec!["timeout", "5s", "mirakc-arib", "collect-eitpf", "--sids=1"]);
    let words = split_command("cat 'a file' \"b c\" d\\ e # comment").ok().unwrap();
    assert_eq!(words, vec!["cat", "a file", "b c", "d e"]);
    assert!(split_command("   ").ok().unwrap().is_empty());
    match split_command("echo 'unclosed") {
        Err(CommandError::UnableToParse(c)) => assert_eq!(c, "echo 'unclosed"),
        Ok(_) => panic!("an unclosed quote must not be split"),
    }
}

#[test]
fn test_program_and_args() {
    let words = vec!["dd".to_string(), "if=x".to_string(), "bs=1".to_string()];
    let (program, args) = program_and_args(&words);
    assert_eq!(program, "dd");
    assert_eq!(args, vec!["if=x".to_string(), "bs=1".to_string()]);
    let (program, args) = program_and_args(&words[..1]);
    assert_eq!(program, "dd");
    assert!(args.is_empty());
}

use mirakc_core::recording::{make_content_path, make_content_path_from_schedule, make_relative_content_path};

#[test]
fn test_content_paths() {
    assert_eq!(make_content_path(&Some("/rec".to_string()), "a.m2ts"), Some("/rec/a.m2ts".to_string()));
    assert_eq!(make_content_path(&None, "a.m2ts"), None);
    let id = RecordId::new(1, 2);
    assert_eq!(
        make_content_path_from_schedule("/rec", &id, &Some("x/../y.m2ts".to_string())),
        Some("/rec/y.m2ts".to_string())
    );
    assert_eq!(
        make_content_path_from_schedule("/rec", &id, &None),
        Some(format!("/rec/{}.content", id.value()))
    );
    assert_eq!(make_relative_content_path("/rec", "/rec/sub/a.m2ts"), Some("sub/a.m2ts".to_string()));
    assert_eq!(make_relative_content_path("/rec", "/other/a.m2ts"), None);
}

use mirakc_core::epg_jobs::{is_fresh, is_job_disabled_for_debug, runs_at_start, JobKind, JobManager};
use mirakc_core::filter::{channel_command_data, render_command, sid_command_data};

#[test]
fn test_job_manager_runs_each_job_once() {
    let mut jobs = JobManager::new();
    assert!(jobs.begin(JobKind::ScanServices));
    assert!(!jobs.begin(JobKind::ScanServices));
    assert!(jobs.begin(JobKind::SyncClocks));
    jobs.finish(JobKind::ScanServices);
    assert!(jobs.begin(JobKind::ScanServices));
    assert!(!jobs.begin(JobKind::SyncClocks));
    assert!(jobs.begin(JobKind::UpdateSchedules));
}

#[test]
fn test_job_start_decisions() {
    assert!(is_fresh(Some(60_000), Some(60_000)));
    assert!(!is_fresh(Some(60_000), Some(60_001)));
    assert!(!is_fresh(None, Some(0)));
    assert!(!is_fresh(Some(60_000), None));
    assert!(runs_at_start(false, false));
    assert!(!runs_at_start(true, false));
    assert!(!runs_at_start(false, true));
    assert!(is_job_disabled_for_debug(Some(" sync-clocks  scan-services\t"), JobKind::ScanServices.name()));
    assert!(!is_job_disabled_for_debug(Some("scan-services-x"), JobKind::ScanServices.name()));
    assert!(!is_job_disabled_for_debug(None, JobKind::UpdateSchedules.name()));
}

#[test]
fn test_job_command_rendering() {
    let channel = mirakc_core::epg::EpgChannel {
        name: "ch".to_string(),
        channel_type: mirakc_core::models::ChannelType::GR,
        channel: "27".to_string(),
        extra_args: String::new(),
        services: vec![Sid::from(1024), Sid::from(1025)],
        excluded_services: vec![Sid::from(1032)],
    };
    let cmd = render_command(
        "mirakc-arib scan-services{{#sids}} --sids={{{.}}}{{/sids}}{{#xsids}} --xsids={{{.}}}{{/xsids}}",
        &channel_command_data(&channel),
    );
    assert_eq!(cmd.ok(), Some("mirakc-arib scan-services --sids=1024 --sids=1025 --xsids=1032".to_string()));
    let cmd = render_command("timeout 5s mirakc-arib collect-eitpf --sids={{{sid}}}", &sid_command_data(Sid::from(3)));
    assert_eq!(cmd.ok(), Some("timeout 5s mirakc-arib collect-eitpf --sids=3".to_string()));
}

use mirakc_core::epg_jobs::channels_of_services;
use mirakc_core::models::ChannelType;

fn epg_service(nid: u16, sid: u16, channel_type: ChannelType, channel: &str, name: &str) -> mirakc_core::epg::EpgService {
    mirakc_core::epg::EpgService {
        id: mirakc_core::models::ServiceId::new(Nid::from(nid), Sid::from(sid)),
        service_type: 1,
        logo_id: 0,
        remote_control_key_id: 0,
        name: format!("sv{sid}"),
        channel: mirakc_core::epg::EpgChannel {
            name: name.to_string(),
            channel_type,
            channel: channel.to_string(),
            extra_args: String::new(),
            services: vec![Sid::from(99)],
            excluded_services: vec![Sid::from(98)],
        },
    }
}

#[test]
fn test_channels_of_services() {
    let services: Vec<_> = vec![
        epg_service(1, 1, ChannelType::GR, "27", "NHK"),
        epg_service(2, 2, ChannelType::BS, "101", "BS1"),
        epg_service(1, 3, ChannelType::GR, "27", "NHK2"),
        epg_service(3, 4, ChannelType::CS, "27", "CS"),
    ]
    .into_iter()
    .map(|sv| (sv.id, sv))
    .collect();
    let channels = channels_of_services(&services);
    assert_eq!(channels.len(), 3);
    assert_eq!(channels[0].name, "NHK");
    assert_eq!(channels[0].services, vec![Sid::from(1), Sid::from(3)]);
    assert!(channels[0].excluded_services.is_empty());
    assert_eq!(channels[1].channel, "101");
    assert_eq!(channels[1].services, vec![Sid::from(2)]);
    assert_eq!(channels[2].channel_type, ChannelType::CS);
    assert_eq!(channels[2].services, vec![Sid::from(4)]);
}

use mirakc_core::epg::{AudioComponentDescriptor, ComponentDescriptor, EpgProgram};
use mirakc_core::models::Clock;
use mirakc_core::recording::recording_filter_data;

#[test]
fn test_recording_filter_data() {
    let service = epg_service(1, 1024, ChannelType::GR, "27", "NHK");
    let program_id = ProgramId::new(Nid::from(1), Sid::from(1024), Eid::from(7));
    let clock = Clock { pid: 0x01FF, pcr: -5, time: 1_700_000_000_000 };
    let mut program = EpgProgram::new(program_id);
    program.video = Some(ComponentDescriptor {
        stream_content: 1,
        component_type: 0xB3,
        component_tag: 0,
        language_code: 0,
        text: None,
    });
    let audio = |tag: u8| AudioComponentDescriptor {
        stream_content: 2,
        component_type: 3,
        component_tag: tag,
        simulcast_group_tag: 0xFF,
        es_multi_lingual_flag: false,
        main_component_flag: tag == 0x10,
        quality_indicator: 1,
        sampling_rate: 7,
        language_code: 0,
        language_code2: None,
        text: None,
    };
    program.audios = vec![(0x10, audio(0x10)), (0x11, audio(0x11))];
    let data = recording_filter_data(&service, program_id, &clock, &program);
    let cmd = render_command(
        "rec {{channel_type}}/{{channel}} {{channel_name}} --sid={{sid}} --eid={{eid}} --pid={{clock_pid}} --pcr={{clock_pcr}} --time={{clock_time}}{{#video_tags}} -v{{.}}{{/video_tags}}{{#audio_tags}} -a{{.}}{{/audio_tags}}",
        &data,
    );
    assert_eq!(
        cmd.ok(),
        Some("rec GR/27 NHK --sid=1024 --eid=7 --pid=511 --pcr=-5 --time=1700000000000 -v0 -a16 -a17".to_string())
    );
}

use mirakc_core::config::Config;
use mirakc_core::recording::{recording_filters, RecordingOptions};

#[test]
fn test_recording_filters() {
    let mut config = Config::default();
    config.filters.decode_filter = FilterConfig { command: " decode ".to_string() };
    config.filters.program_filter = FilterConfig { command: "program {{channel}}".to_string() };
    config.pre_filters = vec![("pre".to_string(), FilterConfig { command: "pre".to_string() })];
    config.post_filters = vec![(
        "mp4".to_string(),
        PostFilterConfig { command: "to-mp4".to_string(), content_type: Some("video/mp4".to_string()) },
    )];
    let options = RecordingOptions {
        content_path: None,
        priority: 0,
        pre_filters: vec!["pre".to_string(), "none".to_string()],
        post_filters: vec!["mp4".to_string()],
    };
    let (filters, content_type) = recording_filters(&config, &options, filter_data(), false).ok().unwrap();
    assert_eq!(
        filters,
        vec!["pre".to_string(), "decode".to_string(), "program channel".to_string(), "to-mp4".to_string()]
    );
    assert_eq!(content_type, "video/mp4");
    let (filters, _) = recording_filters(&config, &options, filter_data(), true).ok().unwrap();
    assert_eq!(filters, vec!["pre".to_string(), "program channel".to_string(), "to-mp4".to_string()]);
    config.filters.program_filter = FilterConfig { command: "{{#open}}".to_string() };
    assert!(recording_filters(&config, &options, filter_data(), true).is_err());
}

use mirakc_core::render_safety::is_render_safe;

#[test]
fn test_render_safety() {
    let data = fields(vec![
        ("sids", TemplateData::List(vec![text("1"), text("2")])),
        ("xsids", TemplateData::List(vec![])),
        ("sid", text("3")),
    ]);
    assert!(is_render_safe(
        "mirakc-arib scan-services{{#sids}} --sids={{{.}}}{{/sids}}{{#xsids}} --xsids={{{.}}}{{/xsids}}",
        &data
    ));
    assert!(is_render_safe("timeout 5s mirakc-arib collect-eitpf --sids={{{sid}}}", &data));
    assert!(is_render_safe("plain text with { and }}", &data));
    // Variable tags that find a list, or the whole data.
    assert!(!is_render_safe("mirakc-arib scan-services {{sids}}", &data));
    assert!(!is_render_safe("{{.}}", &data));
    assert!(!is_render_safe("{{#sid}}{{#sids}}{{/sids}}{{/sid}}{{&sids}}", &data));
    // Forms the check does not read.
    assert!(!is_render_safe("{{> partial}}", &data));
    assert!(!is_render_safe("{{ sid }}", &data));
    let filter = filter_data();
    assert!(is_render_safe("{{#user}}{{priority}}{{/user}}", &filter));
    assert!(is_render_safe("{{user.info.Web.id}}", &filter));
    assert!(is_render_safe("{{^user.info.Job}}not job{{/user.info.Job}}", &filter));
    assert!(!is_render_safe("{{#user}}{{.}}{{/user}}", &filter));
    assert!(!is_render_safe("{{user.info}}", &filter));
    assert!(!is_render_safe("{{#user}}x{{/channel}}", &filter));
}
