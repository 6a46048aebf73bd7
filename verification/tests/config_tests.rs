use mirakc_core::config::{
    ChannelConfig, EnvFacts, EpgConfig, FilterConfig, JobConfig, MountConfig, PathFact, PathKind,
    PostFilterConfig, RecordingConfig, ResourceConfig, TunerConfig,
};
use mirakc_core::models::ChannelType;

const MANIFEST_DIR: &str = "/opt/mirakc/mirakc-core";

fn facts() -> EnvFacts {
    EnvFacts {
        paths: vec![
            PathFact { path: MANIFEST_DIR.to_string(), kind: PathKind::Dir },
            PathFact { path: "/tmp".to_string(), kind: PathKind::Dir },
            PathFact { path: "/bin/sh".to_string(), kind: PathKind::File { len: 125688 } },
        ],
        resolvable_addrs: vec![],
    }
}

#[test]
fn test_epg_config_validate() {
    let config = EpgConfig::default();
    assert!(config.validate(&facts()).is_ok());
}

#[test]
fn test_mount_config_validate() {
    let config = MountConfig { path: MANIFEST_DIR.to_string(), index: None, listing: false };
    assert!(config.validate("/test", &facts()).is_ok());
}

fn channel_config() -> ChannelConfig {
    ChannelConfig {
        name: "test".to_string(),
        channel_type: ChannelType::GR,
        channel: "test".to_string(),
        extra_args: "".to_string(),
        services: vec![],
        excluded_services: vec![],
        disabled: false,
    }
}

#[test]
fn test_channel_config_validate() {
    let config = channel_config();
    assert!(config.validate(0).is_ok());
}

fn tuner_config() -> TunerConfig {
    TunerConfig {
        name: "test".to_string(),
        channel_types: vec![ChannelType::GR],
        command: "test".to_string(),
        time_limit: TunerConfig::default_time_limit(),
        disabled: false,
        decoded: false,
    }
}

#[test]
fn test_tuner_config_validate() {
    let config = tuner_config();
    assert!(config.validate(0).is_ok());
}

#[test]
fn test_tuner_config_validate_disabled() {
    let mut config = tuner_config();
    config.name = "".to_string();
    config.channel_types = vec![];
    config.command = "".to_string();
    config.disabled = true;
    assert!(config.validate(0).is_ok());
}

#[test]
fn test_filter_config_validate() {
    let mut config = FilterConfig::default();
    config.command = "test".to_string();
    assert!(config.validate("filters", "test").is_ok());
}

#[test]
fn test_post_filter_config_validate() {
    let mut config = PostFilterConfig::default();
    config.command = "test".to_string();
    assert!(config.validate("test").is_ok());
}

fn job_config() -> JobConfig {
    JobConfig {
        command: "test".to_string(),
        schedule: "0 30 9,12,15 1,15 May-Aug Mon,Wed,Fri 2018/2".to_string(),
        disabled: false,
    }
}

#[test]
fn test_job_config_validate() {
    let config = job_config();
    assert!(config.validate("test").is_ok());
}

#[test]
fn test_job_config_validate_disabled() {
    let mut config = job_config();
    config.command = "".to_string();
    config.schedule = "".to_string();
    config.disabled = true;
    assert!(config.validate("test").is_ok());
}

#[test]
fn test_recording_config_validate_basedir() {
    let mut config = RecordingConfig::default();
    config.basedir = Some("/tmp".to_string());
    assert!(config.validate(&facts()).is_ok());
}

#[test]
fn test_resource_config_validate_existing_strings_yaml() {
    let mut config = ResourceConfig::default();
    config.strings_yaml = "/bin/sh".to_string();
    assert!(config.validate(&facts()).is_ok());
}

use mirakc_core::config::{
    Config, ConfigFault, JobsConfig, LocalOnairProgramTrackerConfig, LocalOnairProgramTrackerUses,
    OnairProgramTrackerConfig, RecorderFault, RemoteOnairProgramTrackerConfig, ServerAddr, ServerConfig,
    TimeshiftConfig, TimeshiftRecorderConfig, TimeshiftRecorderUses, TIMESHIFT_BUFSIZE,
};
use mirakc_core::models::{ServiceId, Sid};
use std::sync::Arc;

const DEFAULT_ADDR: &str = "localhost:40772";

fn facts_with(paths: Vec<(&str, PathKind)>) -> EnvFacts {
    let mut facts = facts();
    for (path, kind) in paths {
        facts.paths.push(PathFact { path: path.to_string(), kind });
    }
    facts.resolvable_addrs.push(DEFAULT_ADDR.to_string());
    facts
}

#[test]
fn test_config_has_onair_program_trackers() {
    assert!(!Config::default().has_onair_program_trackers());

    let mut config = Config::default();
    let mut remote = RemoteOnairProgramTrackerConfig::default();
    remote.url = "http://test/".to_string();
    config.onair_program_trackers.push(("test".to_string(), OnairProgramTrackerConfig::Remote(Arc::new(remote))));
    assert!(config.has_onair_program_trackers());
}

#[test]
fn test_config_validate() {
    let mut config = Config::default();
    config.resource.strings_yaml = "/bin/sh".to_string();
    assert!(config.validate(&facts_with(vec![])).is_ok());
}

#[test]
fn test_config_validate_channel_names() {
    let mut config = Config::default();
    let mut ch1 = channel_config();
    ch1.channel = "test".to_string();
    let mut ch2 = channel_config();
    ch2.channel = "test1".to_string();
    config.channels = vec![ch1, ch2];
    config.resource.strings_yaml = "/bin/sh".to_string();
    assert!(config.validate(&facts_with(vec![])).is_ok());
}

#[test]
fn test_config_validate_tuner_names_not_unique() {
    let mut config = Config::default();
    config.tuners = vec![tuner_config(), tuner_config()];
    config.resource.strings_yaml = "/bin/sh".to_string();
    assert_eq!(config.validate(&facts_with(vec![])), Err(ConfigFault::TunerNamesNotUnique));
}

fn local_tracker(channel_types: Vec<ChannelType>, tuner: &str) -> LocalOnairProgramTrackerConfig {
    LocalOnairProgramTrackerConfig {
        channel_types,
        services: vec![],
        excluded_services: vec![],
        command: LocalOnairProgramTrackerConfig::default_command(),
        uses: LocalOnairProgramTrackerUses { tuner: tuner.to_string() },
    }
}

#[test]
fn test_config_validate_tracker_uses_undefined_tuner() {
    let mut config = Config::default();
    config.tuners = vec![tuner_config()];
    config.onair_program_trackers = vec![(
        "tracker".to_string(),
        OnairProgramTrackerConfig::Local(Arc::new(local_tracker(vec![ChannelType::GR], "tuner"))),
    )];
    config.resource.strings_yaml = "/bin/sh".to_string();
    assert_eq!(
        config.validate(&facts_with(vec![])),
        Err(ConfigFault::TrackerUndefinedTuner { name: "tracker".to_string(), tuner: "tuner".to_string() })
    );
}

#[test]
fn test_config_validate_tuner_usage_conflict() {
    let mut config = Config::default();
    let mut tuner = tuner_config();
    tuner.channel_types = vec![ChannelType::GR, ChannelType::BS];
    config.tuners = vec![tuner];
    config.onair_program_trackers = vec![
        (
            "tracker1".to_string(),
            OnairProgramTrackerConfig::Local(Arc::new(local_tracker(vec![ChannelType::GR], "test"))),
        ),
        (
            "tracker2".to_string(),
            OnairProgramTrackerConfig::Local(Arc::new(local_tracker(vec![ChannelType::BS], "test"))),
        ),
    ];
    config.resource.strings_yaml = "/bin/sh".to_string();
    assert_eq!(
        config.validate(&facts_with(vec![])),
        Err(ConfigFault::TunerDedicated { tuner: "test".to_string(), tracker: "tracker1".to_string() })
    );
}

#[test]
fn test_config_validate_tuner_dedicated_for_onair_tracker() {
    let mut config = Config::default();
    config.tuners = vec![tuner_config()];
    config.onair_program_trackers = vec![(
        "tracker".to_string(),
        OnairProgramTrackerConfig::Local(Arc::new(local_tracker(vec![ChannelType::GR], "test"))),
    )];
    config.resource.strings_yaml = "/bin/sh".to_string();
    assert!(config.validate(&facts_with(vec![])).is_ok());
}

fn timeshift_recorder_config() -> TimeshiftRecorderConfig {
    TimeshiftRecorderConfig {
        service_id: 1u64.into(),
        ts_file: "/path/to/timeshift.m2ts".to_string(),
        data_file: "/path/to/timeshift.json".to_string(),
        chunk_size: TimeshiftRecorderConfig::default_chunk_size(),
        num_chunks: 10,
        num_reserves: TimeshiftRecorderConfig::default_num_reserves(),
        priority: TimeshiftRecorderConfig::default_priority(),
        uses: TimeshiftRecorderUses {
            tuner: "tuner".to_string(),
            channel_type: ChannelType::GR,
            channel: "ch".to_string(),
        },
    }
}

const TS_FILE: &str = "/tmp/timeshift.m2ts";
const DATA_FILE: &str = "/tmp/timeshift.json";

fn timeshift_facts(chunk_size: usize, num_chunks: usize) -> EnvFacts {
    facts_with(vec![
        (TS_FILE, PathKind::File { len: (chunk_size * num_chunks) as u64 }),
        (DATA_FILE, PathKind::File { len: 0 }),
    ])
}

#[test]
fn test_config_validate_tuner_dedicated_for_timeshift() {
    let chunk_size = TIMESHIFT_BUFSIZE;
    let num_chunks = 3;
    let mut config = Config::default();
    let mut channel = channel_config();
    channel.channel = "26".to_string();
    config.channels = vec![channel];
    config.tuners = vec![tuner_config()];
    let mut recorder = timeshift_recorder_config();
    recorder.service_id = 3273701032u64.into();
    recorder.ts_file = TS_FILE.to_string();
    recorder.data_file = DATA_FILE.to_string();
    recorder.chunk_size = chunk_size;
    recorder.num_chunks = num_chunks;
    recorder.uses = TimeshiftRecorderUses {
        tuner: "test".to_string(),
        channel_type: ChannelType::GR,
        channel: "26".to_string(),
    };
    config.timeshift.recorders = vec![("recorder".to_string(), recorder)];
    config.resource.strings_yaml = "/bin/sh".to_string();
    assert!(config.validate(&timeshift_facts(chunk_size, num_chunks)).is_ok());
}

#[test]
fn test_server_config_validate() {
    let config = ServerConfig::default();
    assert!(config.validate(&facts_with(vec![])).is_ok());
}

#[test]
fn test_server_config_validate_stream_time_limit() {
    let mut config = ServerConfig::default();
    config.stream_time_limit = 1;
    assert_eq!(config.validate(&facts_with(vec![])), Err(ConfigFault::ServerStreamTimeLimit));
}

#[test]
fn test_server_config_validate_max_start_delay() {
    let mut config = ServerConfig::default();
    config.program_stream_max_start_delay = Some(60 * 60 * 1000);
    assert!(config.validate(&facts_with(vec![])).is_ok());

    let mut config = ServerConfig::default();
    config.program_stream_max_start_delay = Some(((23 * 60 + 59) * 60 + 59) * 1000);
    assert!(config.validate(&facts_with(vec![])).is_ok());
}

#[test]
fn test_server_config_validate_max_start_delay_less_than_24h() {
    let mut config = ServerConfig::default();
    config.program_stream_max_start_delay = Some(24 * 60 * 60 * 1000);
    assert_eq!(config.validate(&facts_with(vec![])), Err(ConfigFault::ServerMaxStartDelay));
}

#[test]
fn test_server_config_validate_unresolvable_addr() {
    let mut config = ServerConfig::default();
    config.addrs.push(ServerAddr::Http("nowhere:1".to_string()));
    assert_eq!(
        config.validate(&facts_with(vec![])),
        Err(ConfigFault::ServerAddr { index: 1, addr: "nowhere:1".to_string() })
    );
}

#[test]
fn test_server_config_uds_paths() {
    let mut config = ServerConfig::default();
    config.addrs.push(ServerAddr::Unix("/run/mirakc.sock".to_string()));
    assert_eq!(config.uds_paths(), vec!["/run/mirakc.sock".to_string()]);
}

#[test]
fn test_server_config_http_addrs() {
    let mut config = ServerConfig::default();
    config.addrs.push(ServerAddr::Unix("/run/mirakc.sock".to_string()));
    config.addrs.push(ServerAddr::Http("0.0.0.0:40773".to_string()));
    assert_eq!(
        config.http_addrs(),
        vec!["localhost:40772".to_string(), "0.0.0.0:40773".to_string()]
    );
}

#[test]
fn test_mount_config_validate_errors() {
    let config = MountConfig { path: MANIFEST_DIR.to_string(), index: None, listing: false };
    assert_eq!(
        config.validate("/api", &facts()),
        Err(ConfigFault::MountBlocked { mount_point: "/api".to_string() })
    );
    assert_eq!(
        config.validate("test", &facts()),
        Err(ConfigFault::MountNoLeadingSlash { mount_point: "test".to_string() })
    );
    assert_eq!(
        config.validate("/test/", &facts()),
        Err(ConfigFault::MountTrailingSlash { mount_point: "/test/".to_string() })
    );
    let missing = MountConfig { path: "/path/to/missing".to_string(), index: None, listing: false };
    assert_eq!(
        missing.validate("/test", &facts()),
        Err(ConfigFault::MountPath { mount_point: "/test".to_string() })
    );
    let no_index = MountConfig {
        path: MANIFEST_DIR.to_string(),
        index: Some("index.html".to_string()),
        listing: false,
    };
    assert_eq!(
        no_index.validate("/test", &facts()),
        Err(ConfigFault::MountIndex { mount_point: "/test".to_string() })
    );
}

fn sids(v: &[u16]) -> Vec<Sid> {
    v.iter().map(|&x| Sid::from(x)).collect()
}

fn assert_channel(ch: &ChannelConfig, channel: &str, services: &[u16], excluded: &[u16]) {
    assert_eq!(ch.name, "ch");
    assert_eq!(ch.channel_type, ChannelType::GR);
    assert_eq!(ch.channel, channel);
    assert_eq!(ch.services, sids(services));
    assert_eq!(ch.excluded_services, sids(excluded));
}

fn ch(channel: &str, services: &[u16], excluded: &[u16]) -> ChannelConfig {
    ChannelConfig {
        name: "ch".to_string(),
        channel_type: ChannelType::GR,
        channel: channel.to_string(),
        extra_args: "".to_string(),
        services: sids(services),
        excluded_services: sids(excluded),
        disabled: false,
    }
}

#[test]
fn test_channel_config_normalize() {
    let result = ChannelConfig::normalize(vec![ch("1", &[], &[]), ch("2", &[], &[])]);
    assert_eq!(result.len(), 2);
    assert_channel(&result[0], "1", &[], &[]);
    assert_channel(&result[1], "2", &[], &[]);

    let result = ChannelConfig::normalize(vec![ch("1", &[1], &[3]), ch("1", &[2], &[4])]);
    assert_eq!(result.len(), 1);
    assert_channel(&result[0], "1", &[1, 2], &[3, 4]);

    let result = ChannelConfig::normalize(vec![ch("1", &[2], &[4]), ch("1", &[1], &[3])]);
    assert_eq!(result.len(), 1);
    assert_channel(&result[0], "1", &[1, 2], &[3, 4]);

    let result = ChannelConfig::normalize(vec![ch("1", &[1], &[3]), ch("1", &[1, 2], &[3, 4])]);
    assert_eq!(result.len(), 1);
    assert_channel(&result[0], "1", &[1, 2], &[3, 4]);

    let result = ChannelConfig::normalize(vec![ch("1", &[], &[]), ch("1", &[2], &[])]);
    assert_eq!(result.len(), 1);
    assert_channel(&result[0], "1", &[], &[]);

    let result = ChannelConfig::normalize(vec![ch("1", &[1], &[]), ch("1", &[], &[])]);
    assert_eq!(result.len(), 1);
    assert_channel(&result[0], "1", &[], &[]);
}

#[test]
fn test_channel_config_normalize_drops_disabled() {
    let mut disabled = ch("1", &[], &[]);
    disabled.disabled = true;
    let result = ChannelConfig::normalize(vec![disabled, ch("2", &[], &[])]);
    assert_eq!(result.len(), 1);
    assert_channel(&result[0], "2", &[], &[]);
}

#[test]
fn test_channel_config_validate_errors() {
    let mut config = channel_config();
    config.name = "".to_string();
    assert_eq!(config.validate(0), Err(ConfigFault::ChannelName { index: 0 }));
    let mut config = channel_config();
    config.channel = "".to_string();
    assert_eq!(config.validate(0), Err(ConfigFault::ChannelChannel { index: 0 }));
}

#[test]
fn test_tuner_config_validate_errors() {
    let mut config = tuner_config();
    config.name = "".to_string();
    assert_eq!(config.validate(0), Err(ConfigFault::TunerName { index: 0 }));
    let mut config = tuner_config();
    config.channel_types = vec![];
    assert_eq!(config.validate(0), Err(ConfigFault::TunerTypes { index: 0 }));
    let mut config = tuner_config();
    config.command = "".to_string();
    assert_eq!(config.validate(0), Err(ConfigFault::TunerCommand { index: 0 }));
}

#[test]
fn test_filter_config_validate_empty_command() {
    let config = FilterConfig::default();
    assert_eq!(
        config.validate("filters", "test"),
        Err(ConfigFault::FilterCommand { group: "filters".to_string(), name: "test".to_string() })
    );
}

#[test]
fn test_post_filter_config_validate_errors() {
    let config = PostFilterConfig::default();
    assert_eq!(config.validate("test"), Err(ConfigFault::PostFilterCommand { name: "test".to_string() }));
    let mut config = PostFilterConfig::default();
    config.command = "test".to_string();
    config.content_type = Some("".to_string());
    assert_eq!(config.validate("test"), Err(ConfigFault::PostFilterContentType { name: "test".to_string() }));
}

#[test]
fn test_jobs_config_normalize() {
    let mut config = JobsConfig::default();
    for job in [&mut config.scan_services, &mut config.sync_clocks, &mut config.update_schedules] {
        job.command = "".to_string();
        job.schedule = "".to_string();
    }
    let normalized = config.normalize();
    let default = JobsConfig::default();
    assert_eq!(normalized.scan_services.command, default.scan_services.command);
    assert_eq!(normalized.scan_services.schedule, default.scan_services.schedule);
    assert_eq!(normalized.sync_clocks.command, default.sync_clocks.command);
    assert_eq!(normalized.sync_clocks.schedule, default.sync_clocks.schedule);
    assert_eq!(normalized.update_schedules.command, default.update_schedules.command);
    assert_eq!(normalized.update_schedules.schedule, default.update_schedules.schedule);
}

#[test]
fn test_job_config_validate_errors() {
    let mut config = job_config();
    config.command = "".to_string();
    assert_eq!(config.validate("test"), Err(ConfigFault::JobCommand { name: "test".to_string() }));
    let mut config = job_config();
    config.schedule = "".to_string();
    assert_eq!(config.validate("test"), Err(ConfigFault::JobSchedule { name: "test".to_string() }));
}

#[test]
fn test_recording_is_enabled() {
    assert!(!RecordingConfig::default().is_enabled());
    let config = RecordingConfig { basedir: Some("/tmp".to_string()) };
    assert!(config.is_enabled());
}

#[test]
fn test_recording_config_validate_basedir_errors() {
    let config = RecordingConfig { basedir: Some("relative".to_string()) };
    assert_eq!(config.validate(&facts()), Err(ConfigFault::RecordingBasedirRelative));
    let config = RecordingConfig { basedir: Some("/bin/sh".to_string()) };
    assert_eq!(config.validate(&facts()), Err(ConfigFault::RecordingBasedirNotDir));
}

#[test]
fn test_epg_config_validate_cache_dir() {
    let config = EpgConfig { cache_dir: Some("/path/to/dir".to_string()) };
    assert_eq!(config.validate(&facts()), Err(ConfigFault::EpgCacheDir));
}

#[test]
fn test_timeshift_is_enabled() {
    assert!(!TimeshiftConfig::default().is_enabled());

    let mut config = TimeshiftConfig::default();
    config.command = "command".to_string();
    let mut recorder = timeshift_recorder_config();
    recorder.num_chunks = 100;
    config.recorders = vec![("test".to_string(), recorder)];
    assert!(config.is_enabled());

    config.command = "".to_string();
    assert!(!config.is_enabled());
}

#[test]
fn test_timeshift_config_validate() {
    let config = TimeshiftConfig::default();
    assert!(config.validate(&facts()).is_ok());
}

#[test]
fn test_timeshift_recorder_config_validate() {
    let chunk_size = TIMESHIFT_BUFSIZE;
    let num_chunks = 3;
    let mut config = timeshift_recorder_config();
    config.ts_file = TS_FILE.to_string();
    config.data_file = DATA_FILE.to_string();
    config.chunk_size = chunk_size;
    config.num_chunks = num_chunks;
    assert!(config.validate("test", &timeshift_facts(chunk_size, num_chunks)).is_ok());
}

fn recorder_fault(fault: RecorderFault) -> Result<(), ConfigFault<String>> {
    Err(ConfigFault::TimeshiftRecorder { name: "test".to_string(), fault })
}

#[test]
fn test_timeshift_recorder_config_validate_errors() {
    let facts = timeshift_facts(TIMESHIFT_BUFSIZE, 3);
    let mut config = timeshift_recorder_config();
    config.ts_file = "".to_string();
    assert_eq!(config.validate("test", &facts), recorder_fault(RecorderFault::TsFileRelative));

    let mut config = timeshift_recorder_config();
    config.ts_file = "/dev/null".to_string();
    assert_eq!(config.validate("test", &facts), recorder_fault(RecorderFault::TsFileNotFile));

    let mut config = timeshift_recorder_config();
    config.ts_file = TS_FILE.to_string();
    config.data_file = "".to_string();
    assert_eq!(config.validate("test", &facts), recorder_fault(RecorderFault::DataFileRelative));

    let mut config = timeshift_recorder_config();
    config.ts_file = TS_FILE.to_string();
    config.data_file = "/dev/null".to_string();
    assert_eq!(config.validate("test", &facts), recorder_fault(RecorderFault::DataFileNotFile));

    let mut config = timeshift_recorder_config();
    config.ts_file = TS_FILE.to_string();
    config.data_file = TS_FILE.to_string();
    assert_eq!(config.validate("test", &facts), recorder_fault(RecorderFault::DataFileNotJson));

    let mut config = timeshift_recorder_config();
    config.ts_file = TS_FILE.to_string();
    config.data_file = DATA_FILE.to_string();
    config.chunk_size = 0;
    assert_eq!(config.validate("test", &facts), recorder_fault(RecorderFault::ChunkSizeZero));

    let mut config = timeshift_recorder_config();
    config.ts_file = TS_FILE.to_string();
    config.data_file = DATA_FILE.to_string();
    config.chunk_size = TIMESHIFT_BUFSIZE + 1;
    assert_eq!(config.validate("test", &facts), recorder_fault(RecorderFault::ChunkSizeAlignment));

    let mut config = timeshift_recorder_config();
    config.ts_file = TS_FILE.to_string();
    config.data_file = DATA_FILE.to_string();
    config.num_chunks = 2;
    assert_eq!(config.validate("test", &facts), recorder_fault(RecorderFault::NumChunks));

    let mut config = timeshift_recorder_config();
    config.ts_file = TS_FILE.to_string();
    config.data_file = DATA_FILE.to_string();
    config.num_reserves = 0;
    assert_eq!(config.validate("test", &facts), recorder_fault(RecorderFault::NumReserves));

    let mut config = timeshift_recorder_config();
    config.ts_file = TS_FILE.to_string();
    config.data_file = DATA_FILE.to_string();
    config.num_chunks = 3;
    config.num_reserves = 2;
    assert_eq!(config.validate("test", &facts), recorder_fault(RecorderFault::AvailableChunks));

    let mut config = timeshift_recorder_config();
    config.ts_file = TS_FILE.to_string();
    config.data_file = DATA_FILE.to_string();
    config.chunk_size = TIMESHIFT_BUFSIZE;
    config.num_chunks = 4;
    assert_eq!(config.validate("test", &facts), recorder_fault(RecorderFault::TsFileSize));
}

#[test]
fn test_timeshift_recorder_config_max_values() {
    let mut config = timeshift_recorder_config();
    config.chunk_size = TIMESHIFT_BUFSIZE;
    config.num_chunks = 10;
    config.num_reserves = 1;
    assert_eq!(config.max_file_size(), (TIMESHIFT_BUFSIZE * 10) as u64);
    assert_eq!(config.max_chunks(), 9);
}

#[test]
fn test_local_onair_program_tracker_config_validate() {
    let config = local_tracker(vec![ChannelType::GR], "tuner");
    assert!(config.validate("test").is_ok());

    let mut config = local_tracker(vec![ChannelType::GR], "tuner");
    config.services = vec![ServiceId::from(1u64)];
    config.excluded_services = vec![ServiceId::from(2u64)];
    config.command = "true".to_string();
    assert!(config.validate("test").is_ok());
}

#[test]
fn test_local_onair_program_tracker_config_validate_errors() {
    let config = local_tracker(vec![], "tuner");
    assert_eq!(config.validate("test"), Err(ConfigFault::TrackerChannelTypes { name: "test".to_string() }));
    let mut config = local_tracker(vec![ChannelType::GR], "tuner");
    config.command = "".to_string();
    assert_eq!(config.validate("test"), Err(ConfigFault::TrackerCommand { name: "test".to_string() }));
    let config = local_tracker(vec![ChannelType::GR], "");
    assert_eq!(config.validate("test"), Err(ConfigFault::TrackerUsesTuner { name: "test".to_string() }));
}

#[test]
fn test_remote_onair_program_tracker_config_events_url() {
    let mut config = RemoteOnairProgramTrackerConfig::default();
    config.events_endpoint = "/test".to_string();
    assert_eq!(config.events_url(), "http://localhost:40772/test");
}

#[test]
fn test_remote_onair_program_tracker_config_onair_url() {
    let mut config = RemoteOnairProgramTrackerConfig::default();
    config.onair_endpoint = "/test".to_string();
    assert_eq!(config.onair_url(), "http://localhost:40772/test");
}

#[test]
fn test_remote_onair_program_tracker_config_onair_url_of() {
    let config = RemoteOnairProgramTrackerConfig::default();
    assert_eq!(config.onair_url_of(ServiceId::from(1u64)), "http://localhost:40772/api/onair/1");
}

#[test]
fn test_remote_onair_program_tracker_config_invalid_url() {
    let mut config = RemoteOnairProgramTrackerConfig::default();
    config.url = "not a url".to_string();
    assert_eq!(config.try_events_url(), None);
    assert_eq!(config.try_onair_url(), None);
    assert_eq!(config.try_onair_url_of(ServiceId::from(1u64)), None);
}

#[test]
fn test_resource_config_validate_existing_logos() {
    let mut config = ResourceConfig::default();
    config.strings_yaml = "/bin/sh".to_string();
    config.logos = vec![(ServiceId::from(1u64), "/bin/sh".to_string())];
    assert!(config.validate(&facts()).is_ok());
    assert!(config.has_logo(ServiceId::from(1u64)));
    assert!(!config.has_logo(ServiceId::from(2u64)));
}

#[test]
fn test_resource_config_validate_errors() {
    let config = ResourceConfig::default();
    assert_eq!(config.validate(&facts()), Err(ConfigFault::StringsYaml));

    let mut config = ResourceConfig::default();
    config.strings_yaml = "/bin/sh".to_string();
    config.logos = vec![(ServiceId::from(1u64), "/path/to/non-existing".to_string())];
    assert_eq!(config.validate(&facts()), Err(ConfigFault::Logo { service_id: ServiceId::from(1u64) }));
}

#[test]
fn test_has_json_extension() {
    assert!(mirakc_core::config::has_json_extension("/tmp/data.json"));
    assert!(!mirakc_core::config::has_json_extension("/tmp/data.yml"));
    assert!(!mirakc_core::config::has_json_extension("/tmp/json"));
}

#[test]
fn test_join_path() {
    assert_eq!(mirakc_core::config::join_path("/a", "b"), "/a/b");
    assert_eq!(mirakc_core::config::join_path("/a/", "b"), "/a/b");
    assert_eq!(mirakc_core::config::join_path("/a", "/b"), "/b");
}
