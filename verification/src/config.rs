//! The configuration model: defaults, normalization and validation.
//!
//! Reading the configuration file and probing the file system happen
//! outside the library; validation here works on the facts gathered about
//! the paths and addresses that the configuration names (see [`EnvFacts`]).
use std::sync::Arc;

use vstd::prelude::*;

use crate::faults::{check, first_fault, lemma_first_fault_prefix, lemma_first_fault_step, lemma_take_all, then};
use crate::models::{ChannelType, ServiceId, Sid, TunerUserPriority, TUNER_USER_PRIORITY_MAX};

verus! {

// environment facts

/// What a path names on the file system.
#[derive(Clone, Copy, Debug, PartialEq, Eq, Structural)]
pub enum PathKind {
    /// Nothing exists at the path.
    Missing,
    /// A regular file of `len` bytes.
    File { len: u64 },
    /// A directory.
    Dir,
    /// Something else (a device, a socket, ...).
    Other,
}

/// What a path was found to name.
#[derive(Clone, Debug)]
pub struct PathFact {
    pub path: String,
    pub kind: PathKind,
}

/// Facts about the environment that validation depends on: the kinds of the
/// paths named in the configuration and the socket addresses that resolve.
/// A path without a fact is taken as missing.
#[derive(Clone, Debug)]
pub struct EnvFacts {
    pub paths: Vec<PathFact>,
    pub resolvable_addrs: Vec<String>,
}

/// The kind recorded for `p` by the first fact from position `i` on.
pub open spec fn kind_from(facts: Seq<PathFact>, p: Seq<char>, i: int) -> PathKind
    decreases facts.len() - i,
{
    if i < 0 || i >= facts.len() {
        PathKind::Missing
    } else if facts[i].path@ == p {
        facts[i].kind
    } else {
        kind_from(facts, p, i + 1)
    }
}

impl EnvFacts {
    /// The kind of the path `p` (the first fact about it).
    pub open spec fn kind(&self, p: Seq<char>) -> PathKind {
        kind_from(self.paths@, p, 0)
    }

    pub open spec fn is_file(&self, p: Seq<char>) -> bool {
        self.kind(p) is File
    }

    pub open spec fn is_dir(&self, p: Seq<char>) -> bool {
        self.kind(p) is Dir
    }

    pub open spec fn path_exists(&self, p: Seq<char>) -> bool {
        !(self.kind(p) is Missing)
    }

    /// Whether the socket address `addr` resolves.
    pub open spec fn resolves(&self, addr: Seq<char>) -> bool {
        exists|i: int| 0 <= i < self.resolvable_addrs@.len() && #[trigger] self.resolvable_addrs@[i]@ == addr
    }

    /// The kind of the path `p`.
    pub fn kind_of(&self, p: &str) -> (k: PathKind)
        ensures
            k == self.kind(p@),
    {
        let key = String::from_str(p);
        let mut i: usize = 0;
        while i < self.paths.len()
            invariant
                i <= self.paths@.len(),
                key@ == p@,
                kind_from(self.paths@, p@, 0) == kind_from(self.paths@, p@, i as int),
            decreases self.paths@.len() - i,
        {
            if self.paths[i].path == key {
                return self.paths[i].kind;
            }
            i = i + 1;
        }
        PathKind::Missing
    }

    pub fn file_at(&self, p: &str) -> (r: bool)
        ensures
            r == self.is_file(p@),
    {
        match self.kind_of(p) {
            PathKind::File { .. } => true,
            _ => false,
        }
    }

    pub fn dir_at(&self, p: &str) -> (r: bool)
        ensures
            r == self.is_dir(p@),
    {
        match self.kind_of(p) {
            PathKind::Dir => true,
            _ => false,
        }
    }

    pub fn exists_at(&self, p: &str) -> (r: bool)
        ensures
            r == self.path_exists(p@),
    {
        match self.kind_of(p) {
            PathKind::Missing => false,
            _ => true,
        }
    }

    pub fn resolvable(&self, addr: &str) -> (r: bool)
        ensures
            r == self.resolves(addr@),
    {
        let key = String::from_str(addr);
        let mut i: usize = 0;
        while i < self.resolvable_addrs.len()
            invariant
                i <= self.resolvable_addrs@.len(),
                key@ == addr@,
                forall|j: int| 0 <= j < i ==> self.resolvable_addrs@[j]@ != addr@,
            decreases self.resolvable_addrs@.len() - i,
        {
            if self.resolvable_addrs[i] == key {
                return true;
            }
            i = i + 1;
        }
        false
    }
}

// path helpers

/// Whether `p` is an absolute path (it starts with '/').
pub open spec fn is_absolute(p: Seq<char>) -> bool {
    p.len() > 0 && p[0] == '/'
}

pub fn path_is_absolute(p: &str) -> (r: bool)
    ensures
        r == is_absolute(p@),
{
    let n = p.unicode_len();
    n > 0 && p.get_char(0) == '/'
}

fn ends_with_slash(p: &str) -> (r: bool)
    ensures
        r == (p@.len() > 0 && p@.last() == '/'),
{
    let n = p.unicode_len();
    n > 0 && p.get_char(n - 1) == '/'
}

/// `path` appended to `base` as `PathBuf::join` does on Unix: an absolute
/// `path` replaces `base`; otherwise a separator is put between them unless
/// `base` is empty or already ends with one.
pub open spec fn path_join(base: Seq<char>, path: Seq<char>) -> Seq<char> {
    if is_absolute(path) {
        path
    } else if base.len() == 0 || base.last() == '/' {
        base + path
    } else {
        base + seq!['/'] + path
    }
}

pub fn join_path(base: &str, path: &str) -> (r: String)
    ensures
        r@ == path_join(base@, path@),
{
    if path_is_absolute(path) {
        String::from_str(path)
    } else if base.unicode_len() == 0 || ends_with_slash(base) {
        let mut r = String::from_str(base);
        r.append(path);
        r
    } else {
        let mut r = String::from_str(base);
        proof { reveal_strlit("/"); }
        r.append("/");
        r.append(path);
        r
    }
}

/// The extension of the file name of a path, as `Path::extension` gives it.
pub uninterp spec fn path_extension(path: Seq<char>) -> Option<Seq<char>>;

/// Calls `std::path::Path::extension`; the contract claims that the result
/// is the one `path_extension` names for the path, and, as std documents
/// the extension as a part of the file name, that it holds no separator.
#[verifier::external_body]
pub(crate) fn extension_of(path: &str) -> (r: Option<String>)
    ensures
        match r {
            Some(e) => path_extension(path@) == Some(e@),
            None => path_extension(path@) is None,
        },
        r matches Some(e) ==> !e@.contains('/'),
{
    std::path::Path::new(path).extension().map(|e| e.to_string_lossy().into_owned())
}

/// Whether the extension of the file name of `path` is exactly "json".
pub fn has_json_extension(path: &str) -> (r: bool)
    ensures
        r == (path_extension(path@) == Some("json"@)),
{
    match extension_of(path) {
        Some(e) => e == String::from_str("json"),
        None => false,
    }
}

/// Whether `cron::Schedule::from_str` accepts the expression.
pub uninterp spec fn cron_accepts(expr: Seq<char>) -> bool;

/// Calls `cron::Schedule::from_str`; the contract claims only that the
/// result is the one `cron_accepts` names for the expression.
#[verifier::external_body]
fn cron_expression_is_valid(expr: &str) -> (r: bool)
    ensures
        r == cron_accepts(expr@),
{
    <cron::Schedule as std::str::FromStr>::from_str(expr).is_ok()
}

fn str_eq(a: &str, b: &str) -> (r: bool)
    ensures
        r == (a@ == b@),
{
    String::from_str(a) == String::from_str(b)
}

fn is_empty_string(s: &String) -> (r: bool)
    ensures
        r == (s@.len() == 0),
{
    s.as_str().unicode_len() == 0
}

// faults

/// What makes a timeshift recorder configuration invalid.
#[derive(Clone, Copy, Debug, PartialEq, Eq, Structural)]
pub enum RecorderFault {
    /// `ts-file` must be an absolute path.
    TsFileRelative,
    /// `ts-file` must be a path to a regular file.
    TsFileNotFile,
    /// `data-file` must be an absolute path.
    DataFileRelative,
    /// `data-file` must be a path to a regular file.
    DataFileNotFile,
    /// `data-file` must be a JSON file.
    DataFileNotJson,
    /// `chunk-size` must be larger than 0.
    ChunkSizeZero,
    /// `chunk-size` must be a multiple of 8192.
    ChunkSizeAlignment,
    /// `num-chunks` must be larger than 2.
    NumChunks,
    /// `num-reserves` must be larger than 0.
    NumReserves,
    /// `num-chunks` - `num-reserves` must be larger than 1.
    AvailableChunks,
    /// `uses.tuner` must be a non-empty string.
    UsesTuner,
    /// `uses.channel` must be a non-empty string.
    UsesChannel,
    /// `ts-file` must be allocated with `chunk-size` * `num-chunks` bytes.
    TsFileSize,
}

/// What makes a configuration invalid, with the names that locate it.
/// `S` is `String` for the values the library returns and `Seq<char>` for
/// their views.
#[derive(Clone, Debug, PartialEq, Eq)]
pub enum ConfigFault<S> {
    /// `epg.cache-dir` must be a path to an existing directory.
    EpgCacheDir,
    /// `server.stream-time-limit` must be at least 15000.
    ServerStreamTimeLimit,
    /// `server.program-stream-max-start-delay` must be less than 24h.
    ServerMaxStartDelay,
    /// `server.addrs[index]` is not a valid socket address.
    ServerAddr { index: usize, addr: S },
    /// A mount point cannot be "/", "/api" or "/events".
    MountBlocked { mount_point: S },
    /// A mount point must start with '/'.
    MountNoLeadingSlash { mount_point: S },
    /// A mount point must not end with '/'.
    MountTrailingSlash { mount_point: S },
    /// The path of a mount must exist.
    MountPath { mount_point: S },
    /// The index of a mount must be an existing file.
    MountIndex { mount_point: S },
    /// `server.folder-view-template-path` must be an existing file.
    ServerFolderViewTemplate,
    /// `channels[index].name` must be a non-empty string.
    ChannelName { index: usize },
    /// `channels[index].channel` must be a non-empty string.
    ChannelChannel { index: usize },
    /// `tuners[index].name` must be a non-empty string.
    TunerName { index: usize },
    /// `tuners[index].types` must be a non-empty list.
    TunerTypes { index: usize },
    /// `tuners[index].command` must be a non-empty string.
    TunerCommand { index: usize },
    /// `tuners[].name` must be unique.
    TunerNamesNotUnique,
    /// The command of a filter must be a non-empty string.
    FilterCommand { group: S, name: S },
    /// The command of a post-filter must be a non-empty string.
    PostFilterCommand { name: S },
    /// The content type of a post-filter must be a non-empty string.
    PostFilterContentType { name: S },
    /// The command of a job must be a non-empty string.
    JobCommand { name: S },
    /// The schedule of a job must be a valid cron expression.
    JobSchedule { name: S },
    /// `recording.basedir` must be an absolute path.
    RecordingBasedirRelative,
    /// `recording.basedir` must be an existing directory.
    RecordingBasedirNotDir,
    /// `timeshift.command` must be a non-empty string.
    TimeshiftCommand,
    /// A timeshift recorder is invalid.
    TimeshiftRecorder { name: S, fault: RecorderFault },
    /// The channel types of an on-air program tracker must be a non-empty list.
    TrackerChannelTypes { name: S },
    /// The command of an on-air program tracker must be a non-empty string.
    TrackerCommand { name: S },
    /// The tuner used by an on-air program tracker must be a non-empty string.
    TrackerUsesTuner { name: S },
    /// `resource.strings-yaml` must be an existing file.
    StringsYaml,
    /// A logo must be an existing file.
    Logo { service_id: ServiceId },
    /// A tuner is dedicated to an on-air program tracker.
    TunerDedicated { tuner: S, tracker: S },
    /// An on-air program tracker uses a tuner that is not defined (or disabled).
    TrackerUndefinedTuner { name: S, tuner: S },
    /// A timeshift recorder uses a channel that is not defined.
    RecorderUndefinedChannel { name: S, channel_type: ChannelType, channel: S },
    /// A timeshift recorder uses a tuner that does not support its channel type.
    RecorderTunerChannelType { name: S, tuner: S, channel_type: ChannelType },
    /// A timeshift recorder uses a tuner that is not defined (or disabled).
    RecorderUndefinedTuner { name: S, tuner: S },
}

/// The fault that validation reports.
pub type ConfigError = ConfigFault<String>;

/// The view of a fault: its names taken as character sequences.
pub type FaultView = ConfigFault<Seq<char>>;

impl View for ConfigFault<String> {
    type V = ConfigFault<Seq<char>>;

    open spec fn view(&self) -> ConfigFault<Seq<char>> {
        match self {
            ConfigFault::EpgCacheDir => ConfigFault::EpgCacheDir,
            ConfigFault::ServerStreamTimeLimit => ConfigFault::ServerStreamTimeLimit,
            ConfigFault::ServerMaxStartDelay => ConfigFault::ServerMaxStartDelay,
            ConfigFault::ServerAddr { index, addr } => ConfigFault::ServerAddr { index: *index, addr: addr@ },
            ConfigFault::MountBlocked { mount_point } => ConfigFault::MountBlocked { mount_point: mount_point@ },
            ConfigFault::MountNoLeadingSlash { mount_point } => ConfigFault::MountNoLeadingSlash { mount_point: mount_point@ },
            ConfigFault::MountTrailingSlash { mount_point } => ConfigFault::MountTrailingSlash { mount_point: mount_point@ },
            ConfigFault::MountPath { mount_point } => ConfigFault::MountPath { mount_point: mount_point@ },
            ConfigFault::MountIndex { mount_point } => ConfigFault::MountIndex { mount_point: mount_point@ },
            ConfigFault::ServerFolderViewTemplate => ConfigFault::ServerFolderViewTemplate,
            ConfigFault::ChannelName { index } => ConfigFault::ChannelName { index: *index },
            ConfigFault::ChannelChannel { index } => ConfigFault::ChannelChannel { index: *index },
            ConfigFault::TunerName { index } => ConfigFault::TunerName { index: *index },
            ConfigFault::TunerTypes { index } => ConfigFault::TunerTypes { index: *index },
            ConfigFault::TunerCommand { index } => ConfigFault::TunerCommand { index: *index },
            ConfigFault::TunerNamesNotUnique => ConfigFault::TunerNamesNotUnique,
            ConfigFault::FilterCommand { group, name } => ConfigFault::FilterCommand { group: group@, name: name@ },
            ConfigFault::PostFilterCommand { name } => ConfigFault::PostFilterCommand { name: name@ },
            ConfigFault::PostFilterContentType { name } => ConfigFault::PostFilterContentType { name: name@ },
            ConfigFault::JobCommand { name } => ConfigFault::JobCommand { name: name@ },
            ConfigFault::JobSchedule { name } => ConfigFault::JobSchedule { name: name@ },
            ConfigFault::RecordingBasedirRelative => ConfigFault::RecordingBasedirRelative,
            ConfigFault::RecordingBasedirNotDir => ConfigFault::RecordingBasedirNotDir,
            ConfigFault::TimeshiftCommand => ConfigFault::TimeshiftCommand,
            ConfigFault::TimeshiftRecorder { name, fault } => ConfigFault::TimeshiftRecorder { name: name@, fault: *fault },
            ConfigFault::TrackerChannelTypes { name } => ConfigFault::TrackerChannelTypes { name: name@ },
            ConfigFault::TrackerCommand { name } => ConfigFault::TrackerCommand { name: name@ },
            ConfigFault::TrackerUsesTuner { name } => ConfigFault::TrackerUsesTuner { name: name@ },
            ConfigFault::StringsYaml => ConfigFault::StringsYaml,
            ConfigFault::Logo { service_id } => ConfigFault::Logo { service_id: *service_id },
            ConfigFault::TunerDedicated { tuner, tracker } => ConfigFault::TunerDedicated { tuner: tuner@, tracker: tracker@ },
            ConfigFault::TrackerUndefinedTuner { name, tuner } => ConfigFault::TrackerUndefinedTuner { name: name@, tuner: tuner@ },
            ConfigFault::RecorderUndefinedChannel { name, channel_type, channel } => ConfigFault::RecorderUndefinedChannel { name: name@, channel_type: *channel_type, channel: channel@ },
            ConfigFault::RecorderTunerChannelType { name, tuner, channel_type } => ConfigFault::RecorderTunerChannelType { name: name@, tuner: tuner@, channel_type: *channel_type },
            ConfigFault::RecorderUndefinedTuner { name, tuner } => ConfigFault::RecorderUndefinedTuner { name: name@, tuner: tuner@ },
        }
    }
}

/// The fault reported by a validation result, if any.
pub open spec fn fault_of(r: Result<(), ConfigError>) -> Option<FaultView> {
    match r {
        Ok(_) => None,
        Err(e) => Some(e@),
    }
}

/// A name as a `String`.
fn owned(s: &str) -> (r: String)
    ensures
        r@ == s@,
{
    String::from_str(s)
}

// epg

/// Configuration of the EPG cache.
#[derive(Clone, Debug, Default)]
pub struct EpgConfig {
    pub cache_dir: Option<String>,
}

impl EpgConfig {
    pub open spec fn spec_validate(&self, facts: &EnvFacts) -> Option<FaultView> {
        match self.cache_dir {
            Some(dir) => check(facts.is_dir(dir@), ConfigFault::EpgCacheDir),
            None => None,
        }
    }

    /// `cache-dir`, when given, must be an existing directory.
    #[verifier::loop_isolation(false)]
    pub fn validate(&self, facts: &EnvFacts) -> (r: Result<(), ConfigError>)
        ensures
            fault_of(r) == self.spec_validate(facts),
    {
        match &self.cache_dir {
            Some(dir) => {
                if !facts.dir_at(dir.as_str()) {
                    return Err(ConfigFault::EpgCacheDir);
                }
            },
            None => {},
        }
        Ok(())
    }
}

// server

/// The smallest `server.stream-time-limit` (in milliseconds).
pub const SERVER_STREAM_TIME_LIMIT_MIN: u64 = 15_000;

/// The bound (exclusive, in milliseconds) of `server.program-stream-max-start-delay`: 24h.
pub const SERVER_MAX_START_DELAY_LIMIT: u64 = 86_400_000;

/// Configuration of the web server.
#[derive(Clone, Debug)]
pub struct ServerConfig {
    pub addrs: Vec<ServerAddr>,
    pub stream_max_chunks: usize,
    pub stream_chunk_size: usize,
    /// In milliseconds.
    pub stream_time_limit: u64,
    /// In milliseconds.
    pub program_stream_max_start_delay: Option<u64>,
    /// Mount points and their configurations, in the order of the file.
    pub mounts: Vec<(String, MountConfig)>,
    pub folder_view_template_path: Option<String>,
}

/// An address to listen on.
#[derive(Clone, Debug)]
pub enum ServerAddr {
    Http(String),
    Unix(String),
}

impl ServerAddr {
    pub open spec fn spec_validate(&self, index: int, facts: &EnvFacts) -> Option<FaultView> {
        match self {
            ServerAddr::Http(addr) => check(
                facts.resolves(addr@),
                ConfigFault::ServerAddr { index: index as usize, addr: addr@ },
            ),
            ServerAddr::Unix(_) => None,
        }
    }

    /// An HTTP address must resolve to a socket address.
    pub fn validate(&self, index: usize, facts: &EnvFacts) -> (r: Result<(), ConfigError>)
        ensures
            fault_of(r) == self.spec_validate(index as int, facts),
    {
        match self {
            ServerAddr::Http(addr) => {
                if !facts.resolvable(addr.as_str()) {
                    return Err(ConfigFault::ServerAddr { index, addr: addr.clone() });
                }
            },
            ServerAddr::Unix(_) => {},
        }
        Ok(())
    }

    /// `localhost:40772` over HTTP.
    pub fn default_addr() -> (r: ServerAddr)
        ensures
            r matches ServerAddr::Http(a) && a@ == "localhost:40772"@,
    {
        ServerAddr::Http(owned("localhost:40772"))
    }
}

impl ServerConfig {
    pub open spec fn spec_validate(&self, facts: &EnvFacts) -> Option<FaultView> {
        then(
            check(
                self.stream_time_limit >= SERVER_STREAM_TIME_LIMIT_MIN,
                ConfigFault::ServerStreamTimeLimit,
            ),
            then(
                match self.program_stream_max_start_delay {
                    Some(d) => check(d < SERVER_MAX_START_DELAY_LIMIT, ConfigFault::ServerMaxStartDelay),
                    None => None,
                },
                then(
                    first_fault(self.addrs@, |i: int, a: ServerAddr| a.spec_validate(i, facts)),
                    then(
                        first_fault(
                            self.mounts@,
                            |i: int, m: (String, MountConfig)| m.1.spec_validate(m.0@, facts),
                        ),
                        match self.folder_view_template_path {
                            Some(p) => check(facts.is_file(p@), ConfigFault::ServerFolderViewTemplate),
                            None => None,
                        },
                    ),
                ),
            ),
        )
    }

    /// Validates the stream time limit, the start delay limit, the addresses,
    /// the mounts and the folder view template, in this order.
    #[verifier::loop_isolation(false)]
    pub fn validate(&self, facts: &EnvFacts) -> (r: Result<(), ConfigError>)
        ensures
            fault_of(r) == self.spec_validate(facts),
    {
        if self.stream_time_limit < SERVER_STREAM_TIME_LIMIT_MIN {
            return Err(ConfigFault::ServerStreamTimeLimit);
        }
        match self.program_stream_max_start_delay {
            Some(d) => {
                if d >= SERVER_MAX_START_DELAY_LIMIT {
                    return Err(ConfigFault::ServerMaxStartDelay);
                }
            },
            None => {},
        }
        let ghost fa = |i: int, a: ServerAddr| a.spec_validate(i, facts);
        let mut i: usize = 0;
        while i < self.addrs.len()
            invariant
                i <= self.addrs@.len(),
                fa == (|i: int, a: ServerAddr| a.spec_validate(i, facts)),
                first_fault(self.addrs@.take(i as int), fa) is None,
            decreases self.addrs@.len() - i,
        {
            proof { lemma_first_fault_step(self.addrs@, fa, i as int); }
            let res = self.addrs[i].validate(i, facts);
            if res.is_err() {
                proof { lemma_first_fault_prefix(self.addrs@, fa, i as int + 1); }
                return res;
            }
            i = i + 1;
        }
        proof { lemma_take_all(self.addrs@); }
        let ghost fm = |i: int, m: (String, MountConfig)| m.1.spec_validate(m.0@, facts);
        let mut j: usize = 0;
        while j < self.mounts.len()
            invariant
                j <= self.mounts@.len(),
                fm == (|i: int, m: (String, MountConfig)| m.1.spec_validate(m.0@, facts)),
                first_fault(self.mounts@.take(j as int), fm) is None,
            decreases self.mounts@.len() - j,
        {
            proof { lemma_first_fault_step(self.mounts@, fm, j as int); }
            let entry = &self.mounts[j];
            let res = entry.1.validate(entry.0.as_str(), facts);
            if res.is_err() {
                proof { lemma_first_fault_prefix(self.mounts@, fm, j as int + 1); }
                return res;
            }
            j = j + 1;
        }
        proof { lemma_take_all(self.mounts@); }
        match &self.folder_view_template_path {
            Some(p) => {
                if !facts.file_at(p.as_str()) {
                    return Err(ConfigFault::ServerFolderViewTemplate);
                }
            },
            None => {},
        }
        Ok(())
    }

    /// The paths of the UNIX domain sockets to listen on, in order.
    pub fn uds_paths(&self) -> (r: Vec<String>)
        ensures
            r@.map_values(|p: String| p@) == self.addrs@.filter(|a: ServerAddr| a is Unix).map_values(
                |a: ServerAddr| unix_path(a),
            ),
    {
        let mut r: Vec<String> = Vec::new();
        let mut i: usize = 0;
        while i < self.addrs.len()
            invariant
                i <= self.addrs@.len(),
                r@.map_values(|p: String| p@) == self.addrs@.take(i as int).filter(|a: ServerAddr| a is Unix).map_values(
                    |a: ServerAddr| unix_path(a),
                ),
            decreases self.addrs@.len() - i,
        {
            let ghost before = r@;
            proof {
                let s = self.addrs@.take(i as int + 1);
                assert(s.drop_last() =~= self.addrs@.take(i as int));
                assert(s.last() == self.addrs@[i as int]);
                assert(s.filter(|a: ServerAddr| a is Unix) == if self.addrs@[i as int] is Unix {
                    self.addrs@.take(i as int).filter(|a: ServerAddr| a is Unix).push(self.addrs@[i as int])
                } else {
                    self.addrs@.take(i as int).filter(|a: ServerAddr| a is Unix)
                }) by {
                    reveal_with_fuel(Seq::filter, 1);
                }
            }
            match &self.addrs[i] {
                ServerAddr::Unix(p) => {
                    r.push(p.clone());
                    proof {
                        assert(r@.map_values(|p: String| p@) =~= before.map_values(|p: String| p@).push(p@));
                    }
                },
                ServerAddr::Http(_) => {},
            }
            i = i + 1;
            proof {
                let f = self.addrs@.take(i as int).filter(|a: ServerAddr| a is Unix);
                let g = self.addrs@.take(i as int - 1).filter(|a: ServerAddr| a is Unix);
                if self.addrs@[i as int - 1] is Unix {
                    assert(f.map_values(|a: ServerAddr| unix_path(a)) =~= g.map_values(|a: ServerAddr| unix_path(a)).push(unix_path(self.addrs@[i as int - 1])));
                }
            }
        }
        proof { lemma_take_all(self.addrs@); }
        r
    }

    /// The HTTP addresses to listen on, in order, each a host and a port to
    /// resolve.
    pub fn http_addrs(&self) -> (r: Vec<String>)
        ensures
            r@.map_values(|p: String| p@) == self.addrs@.filter(|a: ServerAddr| a is Http).map_values(
                |a: ServerAddr| http_addr(a),
            ),
    {
        let mut r: Vec<String> = Vec::new();
        let mut i: usize = 0;
        while i < self.addrs.len()
            invariant
                i <= self.addrs@.len(),
                r@.map_values(|p: String| p@) == self.addrs@.take(i as int).filter(|a: ServerAddr| a is Http).map_values(
                    |a: ServerAddr| http_addr(a),
                ),
            decreases self.addrs@.len() - i,
        {
            let ghost before = r@;
            proof {
                let s = self.addrs@.take(i as int + 1);
                assert(s.drop_last() =~= self.addrs@.take(i as int));
                assert(s.last() == self.addrs@[i as int]);
                assert(s.filter(|a: ServerAddr| a is Http) == if self.addrs@[i as int] is Http {
                    self.addrs@.take(i as int).filter(|a: ServerAddr| a is Http).push(self.addrs@[i as int])
                } else {
                    self.addrs@.take(i as int).filter(|a: ServerAddr| a is Http)
                }) by {
                    reveal_with_fuel(Seq::filter, 1);
                }
            }
            match &self.addrs[i] {
                ServerAddr::Http(p) => {
                    r.push(p.clone());
                    proof {
                        assert(r@.map_values(|p: String| p@) =~= before.map_values(|p: String| p@).push(p@));
                    }
                },
                ServerAddr::Unix(_) => {},
            }
            i = i + 1;
            proof {
                let f = self.addrs@.take(i as int).filter(|a: ServerAddr| a is Http);
                let g = self.addrs@.take(i as int - 1).filter(|a: ServerAddr| a is Http);
                if self.addrs@[i as int - 1] is Http {
                    assert(f.map_values(|a: ServerAddr| http_addr(a)) =~= g.map_values(|a: ServerAddr| http_addr(a)).push(http_addr(self.addrs@[i as int - 1])));
                }
            }
        }
        proof { lemma_take_all(self.addrs@); }
        r
    }

    /// The defaults: one HTTP address `localhost:40772`, 1000 chunks of
    /// 32KiB, a 16s time limit, no start delay limit, no mounts, no template.
    pub fn default_config() -> (r: ServerConfig)
        ensures
            r.addrs@.len() == 1,
            r.addrs@[0] matches ServerAddr::Http(a) && a@ == "localhost:40772"@,
            r.stream_max_chunks == 1000,
            r.stream_chunk_size == 4096 * 8,
            r.stream_time_limit == 16 * 1000,
            r.program_stream_max_start_delay is None,
            r.mounts@.len() == 0,
            r.folder_view_template_path is None,
    {
        let mut addrs = Vec::new();
        addrs.push(ServerAddr::default_addr());
        ServerConfig {
            addrs,
            stream_max_chunks: 1000,
            stream_chunk_size: 4096 * 8,
            stream_time_limit: 16 * 1000,
            program_stream_max_start_delay: None,
            mounts: Vec::new(),
            folder_view_template_path: None,
        }
    }
}

/// The host and port of an HTTP address.
pub open spec fn http_addr(a: ServerAddr) -> Seq<char> {
    match a {
        ServerAddr::Http(p) => p@,
        ServerAddr::Unix(_) => Seq::empty(),
    }
}

/// The path of a UNIX domain socket address.
pub open spec fn unix_path(a: ServerAddr) -> Seq<char> {
    match a {
        ServerAddr::Unix(p) => p@,
        ServerAddr::Http(_) => Seq::empty(),
    }
}

/// A directory or a file served on a mount point.
#[derive(Clone, Debug)]
pub struct MountConfig {
    pub path: String,
    pub index: Option<String>,
    pub listing: bool,
}

impl MountConfig {
    pub open spec fn spec_validate(&self, mount_point: Seq<char>, facts: &EnvFacts) -> Option<FaultView> {
        then(
            check(
                !(mount_point == "/"@ || mount_point == "/api"@ || mount_point == "/events"@),
                ConfigFault::MountBlocked { mount_point },
            ),
            then(
                check(
                    mount_point.len() > 0 && mount_point[0] == '/',
                    ConfigFault::MountNoLeadingSlash { mount_point },
                ),
                then(
                    check(
                        !(mount_point.len() > 0 && mount_point.last() == '/'),
                        ConfigFault::MountTrailingSlash { mount_point },
                    ),
                    then(
                        check(facts.path_exists(self.path@), ConfigFault::MountPath { mount_point }),
                        match self.index {
                            Some(index) => check(
                                facts.is_file(path_join(self.path@, index@)),
                                ConfigFault::MountIndex { mount_point },
                            ),
                            None => None,
                        },
                    ),
                ),
            ),
        )
    }

    /// A mount point must not be "/", "/api" or "/events", must start with
    /// '/' and must not end with '/'; the path must exist and the index, when
    /// given, must be an existing file under the path.
    pub fn validate(&self, mount_point: &str, facts: &EnvFacts) -> (r: Result<(), ConfigError>)
        ensures
            fault_of(r) == self.spec_validate(mount_point@, facts),
    {
        if str_eq(mount_point, "/") || str_eq(mount_point, "/api") || str_eq(mount_point, "/events") {
            return Err(ConfigFault::MountBlocked { mount_point: owned(mount_point) });
        }
        if !path_is_absolute(mount_point) {
            return Err(ConfigFault::MountNoLeadingSlash { mount_point: owned(mount_point) });
        }
        if ends_with_slash(mount_point) {
            return Err(ConfigFault::MountTrailingSlash { mount_point: owned(mount_point) });
        }
        if !facts.exists_at(self.path.as_str()) {
            return Err(ConfigFault::MountPath { mount_point: owned(mount_point) });
        }
        match &self.index {
            Some(index) => {
                let path = join_path(self.path.as_str(), index.as_str());
                if !facts.file_at(path.as_str()) {
                    return Err(ConfigFault::MountIndex { mount_point: owned(mount_point) });
                }
            },
            None => {},
        }
        Ok(())
    }
}

// channels

/// A broadcasting channel.
#[derive(Clone, Debug)]
pub struct ChannelConfig {
    pub name: String,
    pub channel_type: ChannelType,
    pub channel: String,
    pub extra_args: String,
    pub services: Vec<Sid>,
    pub excluded_services: Vec<Sid>,
    pub disabled: bool,
}

impl ChannelConfig {
    pub open spec fn spec_validate(&self, index: int) -> Option<FaultView> {
        then(
            check(self.name@.len() > 0, ConfigFault::ChannelName { index: index as usize }),
            check(self.channel@.len() > 0, ConfigFault::ChannelChannel { index: index as usize }),
        )
    }

    /// The name and the channel must be non-empty strings.
    pub fn validate(&self, index: usize) -> (r: Result<(), ConfigError>)
        requires
            !self.disabled,
        ensures
            fault_of(r) == self.spec_validate(index as int),
    {
        if is_empty_string(&self.name) {
            return Err(ConfigFault::ChannelName { index });
        }
        if is_empty_string(&self.channel) {
            return Err(ConfigFault::ChannelChannel { index });
        }
        Ok(())
    }

    /// Whether both name the same channel (the same type and channel).
    pub open spec fn same_channel(&self, other: &ChannelConfig) -> bool {
        self.channel_type == other.channel_type && self.channel@ == other.channel@
    }

    /// Whether both name the same channel (the same type and channel).
    pub fn is_same_channel(&self, other: &ChannelConfig) -> (r: bool)
        ensures
            r == self.same_channel(other),
    {
        self.channel_type == other.channel_type && self.channel == other.channel
    }
}

// tuners

/// A tuner.
#[derive(Clone, Debug)]
pub struct TunerConfig {
    pub name: String,
    pub channel_types: Vec<ChannelType>,
    pub command: String,
    /// In milliseconds.
    pub time_limit: u64,
    pub disabled: bool,
    pub decoded: bool,
}

impl TunerConfig {
    /// 30 seconds.
    pub fn default_time_limit() -> (r: u64)
        ensures
            r == 30 * 1000,
    {
        30 * 1000
    }

    pub open spec fn spec_validate(&self, index: int) -> Option<FaultView> {
        if self.disabled {
            None
        } else {
            then(
                check(self.name@.len() > 0, ConfigFault::TunerName { index: index as usize }),
                then(
                    check(self.channel_types@.len() > 0, ConfigFault::TunerTypes { index: index as usize }),
                    check(self.command@.len() > 0, ConfigFault::TunerCommand { index: index as usize }),
                ),
            )
        }
    }

    /// A tuner that is not disabled must have a name, channel types and a
    /// command.
    pub fn validate(&self, index: usize) -> (r: Result<(), ConfigError>)
        ensures
            fault_of(r) == self.spec_validate(index as int),
    {
        if self.disabled {
            return Ok(());
        }
        if is_empty_string(&self.name) {
            return Err(ConfigFault::TunerName { index });
        }
        if self.channel_types.len() == 0 {
            return Err(ConfigFault::TunerTypes { index });
        }
        if is_empty_string(&self.command) {
            return Err(ConfigFault::TunerCommand { index });
        }
        Ok(())
    }

    /// An unnamed, enabled tuner without channel types or a command, with
    /// the default time limit.
    pub fn default_config() -> (r: TunerConfig)
        ensures
            r.name@.len() == 0,
            r.channel_types@.len() == 0,
            r.command@.len() == 0,
            r.time_limit == 30 * 1000,
            !r.disabled,
            !r.decoded,
    {
        TunerConfig {
            name: String::new(),
            channel_types: Vec::new(),
            command: String::new(),
            time_limit: Self::default_time_limit(),
            disabled: false,
            decoded: false,
        }
    }
}

// filters

/// The built-in filters.
#[derive(Clone, Debug)]
pub struct FiltersConfig {
    pub tuner_filter: FilterConfig,
    pub service_filter: FilterConfig,
    pub program_filter: FilterConfig,
    pub decode_filter: FilterConfig,
}

/// The default command of the service filter.
pub open spec fn default_service_filter_command() -> Seq<char> {
    "mirakc-arib filter-service --sid={{{sid}}}"@
}

/// The default command of the program filter.
pub open spec fn default_program_filter_command() -> Seq<char> {
    "mirakc-arib filter-program --sid={{{sid}}} --eid={{{eid}}} --clock-pid={{{clock_pid}}} --clock-pcr={{{clock_pcr}}} --clock-time={{{clock_time}}} --end-margin=2000{{#video_tags}} --video-tag={{{.}}}{{/video_tags}}{{#audio_tags}} --audio-tag={{{.}}}{{/audio_tags}}{{#wait_until}} --wait-until={{{.}}}{{/wait_until}}"@
}

impl FiltersConfig {
    pub fn default_service_filter() -> (r: FilterConfig)
        ensures
            r.command@ == default_service_filter_command(),
    {
        FilterConfig { command: owned("mirakc-arib filter-service --sid={{{sid}}}") }
    }

    pub fn default_program_filter() -> (r: FilterConfig)
        ensures
            r.command@ == default_program_filter_command(),
    {
        FilterConfig {
            command: owned(
                "mirakc-arib filter-program --sid={{{sid}}} --eid={{{eid}}} --clock-pid={{{clock_pid}}} --clock-pcr={{{clock_pcr}}} --clock-time={{{clock_time}}} --end-margin=2000{{#video_tags}} --video-tag={{{.}}}{{/video_tags}}{{#audio_tags}} --audio-tag={{{.}}}{{/audio_tags}}{{#wait_until}} --wait-until={{{.}}}{{/wait_until}}",
            ),
        }
    }

    pub open spec fn spec_validate(&self) -> Option<FaultView> {
        then(
            self.service_filter.spec_validate("filters"@, "service-filter"@),
            self.program_filter.spec_validate("filters"@, "program-filter"@),
        )
    }

    /// The service filter and the program filter must have commands (the
    /// tuner filter and the decode filter may be empty).
    pub fn validate(&self) -> (r: Result<(), ConfigError>)
        ensures
            fault_of(r) == self.spec_validate(),
    {
        self.service_filter.validate("filters", "service-filter")?;
        self.program_filter.validate("filters", "program-filter")?;
        Ok(())
    }

    /// Empty tuner and decode filters and the default service and program
    /// filters.
    pub fn default_config() -> (r: FiltersConfig)
        ensures
            r.tuner_filter.command@.len() == 0,
            r.service_filter.command@ == default_service_filter_command(),
            r.program_filter.command@ == default_program_filter_command(),
            r.decode_filter.command@.len() == 0,
    {
        FiltersConfig {
            tuner_filter: FilterConfig { command: String::new() },
            service_filter: Self::default_service_filter(),
            program_filter: Self::default_program_filter(),
            decode_filter: FilterConfig { command: String::new() },
        }
    }
}

/// A filter command.
#[derive(Clone, Debug, Default)]
pub struct FilterConfig {
    pub command: String,
}

impl FilterConfig {
    pub open spec fn spec_validate(&self, group: Seq<char>, name: Seq<char>) -> Option<FaultView> {
        check(self.command@.len() > 0, ConfigFault::FilterCommand { group, name })
    }

    /// The command must be a non-empty string.
    pub fn validate(&self, group: &str, name: &str) -> (r: Result<(), ConfigError>)
        ensures
            fault_of(r) == self.spec_validate(group@, name@),
    {
        if is_empty_string(&self.command) {
            return Err(ConfigFault::FilterCommand { group: owned(group), name: owned(name) });
        }
        Ok(())
    }
}

/// A post-filter command and the content type of its output.
#[derive(Clone, Debug, Default)]
pub struct PostFilterConfig {
    pub command: String,
    pub content_type: Option<String>,
}

impl PostFilterConfig {
    pub open spec fn spec_validate(&self, name: Seq<char>) -> Option<FaultView> {
        then(
            check(self.command@.len() > 0, ConfigFault::PostFilterCommand { name }),
            match self.content_type {
                Some(t) => check(t@.len() > 0, ConfigFault::PostFilterContentType { name }),
                None => None,
            },
        )
    }

    /// The command must be a non-empty string, and so must the content type
    /// when given.
    pub fn validate(&self, name: &str) -> (r: Result<(), ConfigError>)
        ensures
            fault_of(r) == self.spec_validate(name@),
    {
        if is_empty_string(&self.command) {
            return Err(ConfigFault::PostFilterCommand { name: owned(name) });
        }
        match &self.content_type {
            Some(t) => {
                if is_empty_string(t) {
                    return Err(ConfigFault::PostFilterContentType { name: owned(name) });
                }
            },
            None => {},
        }
        Ok(())
    }
}

// jobs

/// The scheduled jobs.
#[derive(Clone, Debug)]
pub struct JobsConfig {
    pub scan_services: JobConfig,
    pub sync_clocks: JobConfig,
    pub update_schedules: JobConfig,
}

pub open spec fn default_scan_services_command() -> Seq<char> {
    "mirakc-arib scan-services{{#sids}} --sids={{{.}}}{{/sids}}{{#xsids}} --xsids={{{.}}}{{/xsids}}"@
}

pub open spec fn default_scan_services_schedule() -> Seq<char> {
    "0 1 8,20 * * * *"@
}

pub open spec fn default_sync_clocks_command() -> Seq<char> {
    "mirakc-arib sync-clocks{{#sids}} --sids={{{.}}}{{/sids}}{{#xsids}} --xsids={{{.}}}{{/xsids}}"@
}

pub open spec fn default_sync_clocks_schedule() -> Seq<char> {
    "0 11 8,20 * * * *"@
}

pub open spec fn default_update_schedules_command() -> Seq<char> {
    "mirakc-arib collect-eits{{#sids}} --sids={{{.}}}{{/sids}}{{#xsids}} --xsids={{{.}}}{{/xsids}}"@
}

pub open spec fn default_update_schedules_schedule() -> Seq<char> {
    "0 21 8,20 * * * *"@
}

/// A job after normalization: an enabled job with an empty command or
/// schedule takes the default one; a disabled job is kept as it is.
pub open spec fn normalized_job(job: JobConfig, command: Seq<char>, schedule: Seq<char>, out: JobConfig) -> bool {
    &&& out.disabled == job.disabled
    &&& out.command@ == if !job.disabled && job.command@.len() == 0 { command } else { job.command@ }
    &&& out.schedule@ == if !job.disabled && job.schedule@.len() == 0 { schedule } else { job.schedule@ }
}

impl JobsConfig {
    pub fn default_scan_services() -> (r: JobConfig)
        ensures
            r.command@ == default_scan_services_command(),
            r.schedule@ == default_scan_services_schedule(),
            !r.disabled,
    {
        JobConfig {
            command: owned(
                "mirakc-arib scan-services{{#sids}} --sids={{{.}}}{{/sids}}{{#xsids}} --xsids={{{.}}}{{/xsids}}",
            ),
            schedule: owned("0 1 8,20 * * * *"),
            disabled: false,
        }
    }

    pub fn default_sync_clocks() -> (r: JobConfig)
        ensures
            r.command@ == default_sync_clocks_command(),
            r.schedule@ == default_sync_clocks_schedule(),
            !r.disabled,
    {
        JobConfig {
            command: owned(
                "mirakc-arib sync-clocks{{#sids}} --sids={{{.}}}{{/sids}}{{#xsids}} --xsids={{{.}}}{{/xsids}}",
            ),
            schedule: owned("0 11 8,20 * * * *"),
            disabled: false,
        }
    }

    pub fn default_update_schedules() -> (r: JobConfig)
        ensures
            r.command@ == default_update_schedules_command(),
            r.schedule@ == default_update_schedules_schedule(),
            !r.disabled,
    {
        JobConfig {
            command: owned(
                "mirakc-arib collect-eits{{#sids}} --sids={{{.}}}{{/sids}}{{#xsids}} --xsids={{{.}}}{{/xsids}}",
            ),
            schedule: owned("0 21 8,20 * * * *"),
            disabled: false,
        }
    }

    /// The three default jobs.
    pub fn default_config() -> (r: JobsConfig)
        ensures
            r.scan_services.command@ == default_scan_services_command(),
            r.scan_services.schedule@ == default_scan_services_schedule(),
            !r.scan_services.disabled,
            r.sync_clocks.command@ == default_sync_clocks_command(),
            r.sync_clocks.schedule@ == default_sync_clocks_schedule(),
            !r.sync_clocks.disabled,
            r.update_schedules.command@ == default_update_schedules_command(),
            r.update_schedules.schedule@ == default_update_schedules_schedule(),
            !r.update_schedules.disabled,
    {
        JobsConfig {
            scan_services: Self::default_scan_services(),
            sync_clocks: Self::default_sync_clocks(),
            update_schedules: Self::default_update_schedules(),
        }
    }

    /// Fills an empty command or schedule of each enabled job with the
    /// default one.
    pub fn normalize(self) -> (r: JobsConfig)
        ensures
            normalized_job(self.scan_services, default_scan_services_command(), default_scan_services_schedule(), r.scan_services),
            normalized_job(self.sync_clocks, default_sync_clocks_command(), default_sync_clocks_schedule(), r.sync_clocks),
            normalized_job(self.update_schedules, default_update_schedules_command(), default_update_schedules_schedule(), r.update_schedules),
    {
        let mut jobs = self;
        if !jobs.scan_services.disabled {
            if is_empty_string(&jobs.scan_services.command) {
                jobs.scan_services.command = Self::default_scan_services().command;
            }
            if is_empty_string(&jobs.scan_services.schedule) {
                jobs.scan_services.schedule = Self::default_scan_services().schedule;
            }
        }
        if !jobs.sync_clocks.disabled {
            if is_empty_string(&jobs.sync_clocks.command) {
                jobs.sync_clocks.command = Self::default_sync_clocks().command;
            }
            if is_empty_string(&jobs.sync_clocks.schedule) {
                jobs.sync_clocks.schedule = Self::default_sync_clocks().schedule;
            }
        }
        if !jobs.update_schedules.disabled {
            if is_empty_string(&jobs.update_schedules.command) {
                jobs.update_schedules.command = Self::default_update_schedules().command;
            }
            if is_empty_string(&jobs.update_schedules.schedule) {
                jobs.update_schedules.schedule = Self::default_update_schedules().schedule;
            }
        }
        jobs
    }

    pub open spec fn spec_validate(&self) -> Option<FaultView> {
        then(
            self.scan_services.spec_validate("scan-services"@),
            then(
                self.sync_clocks.spec_validate("sync-clocks"@),
                self.update_schedules.spec_validate("update-schedules"@),
            ),
        )
    }

    /// Validates the jobs in the order scan-services, sync-clocks,
    /// update-schedules.
    pub fn validate(&self) -> (r: Result<(), ConfigError>)
        ensures
            fault_of(r) == self.spec_validate(),
    {
        self.scan_services.validate("scan-services")?;
        self.sync_clocks.validate("sync-clocks")?;
        self.update_schedules.validate("update-schedules")?;
        Ok(())
    }
}

/// A scheduled job.
#[derive(Clone, Debug)]
pub struct JobConfig {
    pub command: String,
    pub schedule: String,
    pub disabled: bool,
}

impl JobConfig {
    pub open spec fn spec_validate(&self, name: Seq<char>) -> Option<FaultView> {
        if self.disabled {
            None
        } else {
            then(
                check(self.command@.len() > 0, ConfigFault::JobCommand { name }),
                check(cron_accepts(self.schedule@), ConfigFault::JobSchedule { name }),
            )
        }
    }

    /// An enabled job must have a command and a valid cron schedule.
    pub fn validate(&self, name: &str) -> (r: Result<(), ConfigError>)
        ensures
            fault_of(r) == self.spec_validate(name@),
    {
        if self.disabled {
            return Ok(());
        }
        if is_empty_string(&self.command) {
            return Err(ConfigFault::JobCommand { name: owned(name) });
        }
        if !cron_expression_is_valid(self.schedule.as_str()) {
            return Err(ConfigFault::JobSchedule { name: owned(name) });
        }
        Ok(())
    }
}

// recording

/// Configuration of recording.
#[derive(Clone, Debug, Default)]
pub struct RecordingConfig {
    pub basedir: Option<String>,
}

impl RecordingConfig {
    /// Recording is enabled when the base directory is given.
    pub fn is_enabled(&self) -> (r: bool)
        ensures
            r == self.basedir is Some,
    {
        self.basedir.is_some()
    }

    pub open spec fn spec_validate(&self, facts: &EnvFacts) -> Option<FaultView> {
        match self.basedir {
            Some(dir) => then(
                check(is_absolute(dir@), ConfigFault::RecordingBasedirRelative),
                check(facts.is_dir(dir@), ConfigFault::RecordingBasedirNotDir),
            ),
            None => None,
        }
    }

    /// The base directory, when given, must be an absolute path to an
    /// existing directory.
    #[verifier::loop_isolation(false)]
    pub fn validate(&self, facts: &EnvFacts) -> (r: Result<(), ConfigError>)
        ensures
            fault_of(r) == self.spec_validate(facts),
    {
        match &self.basedir {
            Some(dir) => {
                if !path_is_absolute(dir.as_str()) {
                    return Err(ConfigFault::RecordingBasedirRelative);
                }
                if !facts.dir_at(dir.as_str()) {
                    return Err(ConfigFault::RecordingBasedirNotDir);
                }
            },
            None => {},
        }
        Ok(())
    }
}

// timeshift

/// Configuration of timeshift recording.
#[derive(Clone, Debug)]
pub struct TimeshiftConfig {
    pub command: String,
    /// Recorders by name, in the order of the file.
    pub recorders: Vec<(String, TimeshiftRecorderConfig)>,
}

pub open spec fn default_timeshift_command() -> Seq<char> {
    "mirakc-arib record-service --sid={{{sid}}} --file={{{file}}} --chunk-size={{{chunk_size}}} --num-chunks={{{num_chunks}}} --start-pos={{{start_pos}}}"@
}

impl TimeshiftConfig {
    /// Timeshift recording is enabled when there is a command and at least
    /// one recorder.
    pub fn is_enabled(&self) -> (r: bool)
        ensures
            r == (self.command@.len() > 0 && self.recorders@.len() > 0),
    {
        !is_empty_string(&self.command) && self.recorders.len() > 0
    }

    pub fn default_command() -> (r: String)
        ensures
            r@ == default_timeshift_command(),
    {
        owned(
            "mirakc-arib record-service --sid={{{sid}}} --file={{{file}}} --chunk-size={{{chunk_size}}} --num-chunks={{{num_chunks}}} --start-pos={{{start_pos}}}",
        )
    }

    /// The default command and no recorders.
    pub fn default_config() -> (r: TimeshiftConfig)
        ensures
            r.command@ == default_timeshift_command(),
            r.recorders@.len() == 0,
    {
        TimeshiftConfig { command: Self::default_command(), recorders: Vec::new() }
    }

    pub open spec fn spec_validate(&self, facts: &EnvFacts) -> Option<FaultView> {
        then(
            check(self.command@.len() > 0, ConfigFault::TimeshiftCommand),
            first_fault(
                self.recorders@,
                |i: int, e: (String, TimeshiftRecorderConfig)| e.1.spec_validate(e.0@, facts),
            ),
        )
    }

    /// The command must be a non-empty string and every recorder must be
    /// valid.
    #[verifier::loop_isolation(false)]
    pub fn validate(&self, facts: &EnvFacts) -> (r: Result<(), ConfigError>)
        ensures
            fault_of(r) == self.spec_validate(facts),
    {
        if is_empty_string(&self.command) {
            return Err(ConfigFault::TimeshiftCommand);
        }
        let ghost f = |i: int, e: (String, TimeshiftRecorderConfig)| e.1.spec_validate(e.0@, facts);
        let mut i: usize = 0;
        while i < self.recorders.len()
            invariant
                i <= self.recorders@.len(),
                f == (|i: int, e: (String, TimeshiftRecorderConfig)| e.1.spec_validate(e.0@, facts)),
                first_fault(self.recorders@.take(i as int), f) is None,
            decreases self.recorders@.len() - i,
        {
            proof { lemma_first_fault_step(self.recorders@, f, i as int); }
            let entry = &self.recorders[i];
            let res = entry.1.validate(entry.0.as_str(), facts);
            if res.is_err() {
                proof { lemma_first_fault_prefix(self.recorders@, f, i as int + 1); }
                return res;
            }
            i = i + 1;
        }
        proof { lemma_take_all(self.recorders@); }
        Ok(())
    }
}

/// The size of the buffer used for writing a timeshift file.
pub const TIMESHIFT_BUFSIZE: usize = 8192;

/// The size of a TS packet.
pub const TS_PACKET_SIZE: usize = 188;

/// A timeshift recorder for a service.
#[derive(Clone, Debug)]
pub struct TimeshiftRecorderConfig {
    pub service_id: ServiceId,
    pub ts_file: String,
    pub data_file: String,
    pub chunk_size: usize,
    pub num_chunks: usize,
    pub num_reserves: usize,
    pub priority: i32,
    pub uses: TimeshiftRecorderUses,
}

/// The size of a file of `path` in the facts, or -1 when it is not a file.
pub open spec fn file_len(facts: &EnvFacts, path: Seq<char>) -> int {
    match facts.kind(path) {
        PathKind::File { len } => len as int,
        _ => -1,
    }
}

impl TimeshiftRecorderConfig {
    /// The size of the timeshift file: `chunk_size * num_chunks`.
    pub fn max_file_size(&self) -> (r: u64)
        requires
            self.chunk_size * self.num_chunks <= u64::MAX,
        ensures
            r == self.chunk_size * self.num_chunks,
    {
        (self.chunk_size as u64) * (self.num_chunks as u64)
    }

    /// The number of chunks available for records: `num_chunks - num_reserves`.
    pub fn max_chunks(&self) -> (r: usize)
        requires
            self.num_chunks > self.num_reserves,
        ensures
            r == self.num_chunks - self.num_reserves,
    {
        self.num_chunks - self.num_reserves
    }

    /// 8192 * 188 * 100 bytes.
    pub fn default_chunk_size() -> (r: usize)
        ensures
            r == 8192 * 188 * 100,
    {
        TIMESHIFT_BUFSIZE * TS_PACKET_SIZE * 100
    }

    pub fn default_num_reserves() -> (r: usize)
        ensures
            r == 1,
    {
        1
    }

    /// The priority that grabs a tuner.
    pub fn default_priority() -> (r: i32)
        ensures
            r == TUNER_USER_PRIORITY_MAX,
    {
        TunerUserPriority::MAX
    }

    pub open spec fn spec_validate(&self, name: Seq<char>, facts: &EnvFacts) -> Option<FaultView> {
        let fault = |f: RecorderFault| ConfigFault::TimeshiftRecorder { name, fault: f };
        then(check(is_absolute(self.ts_file@), fault(RecorderFault::TsFileRelative)),
        then(check(facts.is_file(self.ts_file@), fault(RecorderFault::TsFileNotFile)),
        then(check(is_absolute(self.data_file@), fault(RecorderFault::DataFileRelative)),
        then(check(facts.is_file(self.data_file@), fault(RecorderFault::DataFileNotFile)),
        then(check(path_extension(self.data_file@) == Some("json"@), fault(RecorderFault::DataFileNotJson)),
        then(check(self.chunk_size > 0, fault(RecorderFault::ChunkSizeZero)),
        then(check(self.chunk_size % TIMESHIFT_BUFSIZE == 0, fault(RecorderFault::ChunkSizeAlignment)),
        then(check(self.num_chunks > 2, fault(RecorderFault::NumChunks)),
        then(check(self.num_reserves > 0, fault(RecorderFault::NumReserves)),
        then(check(self.num_chunks > self.num_reserves + 1, fault(RecorderFault::AvailableChunks)),
        then(self.uses.spec_validate(name),
        check(file_len(facts, self.ts_file@) == self.chunk_size * self.num_chunks, fault(RecorderFault::TsFileSize))
        )))))))))))
    }

    /// Checks, in this order: `ts-file` is an absolute path to a regular
    /// file; `data-file` is an absolute path to a regular JSON file;
    /// `chunk-size` is a positive multiple of 8192; `num-chunks` is larger
    /// than 2; `num-reserves` is positive and leaves more than one chunk;
    /// `uses` is valid; `ts-file` has `chunk-size * num-chunks` bytes.
    pub fn validate(&self, name: &str, facts: &EnvFacts) -> (r: Result<(), ConfigError>)
        ensures
            fault_of(r) == self.spec_validate(name@, facts),
    {
        if !path_is_absolute(self.ts_file.as_str()) {
            return Err(ConfigFault::TimeshiftRecorder { name: owned(name), fault: RecorderFault::TsFileRelative });
        }
        if !facts.file_at(self.ts_file.as_str()) {
            return Err(ConfigFault::TimeshiftRecorder { name: owned(name), fault: RecorderFault::TsFileNotFile });
        }
        if !path_is_absolute(self.data_file.as_str()) {
            return Err(ConfigFault::TimeshiftRecorder { name: owned(name), fault: RecorderFault::DataFileRelative });
        }
        if !facts.file_at(self.data_file.as_str()) {
            return Err(ConfigFault::TimeshiftRecorder { name: owned(name), fault: RecorderFault::DataFileNotFile });
        }
        if !has_json_extension(self.data_file.as_str()) {
            return Err(ConfigFault::TimeshiftRecorder { name: owned(name), fault: RecorderFault::DataFileNotJson });
        }
        if self.chunk_size == 0 {
            return Err(ConfigFault::TimeshiftRecorder { name: owned(name), fault: RecorderFault::ChunkSizeZero });
        }
        if self.chunk_size % TIMESHIFT_BUFSIZE != 0 {
            return Err(ConfigFault::TimeshiftRecorder { name: owned(name), fault: RecorderFault::ChunkSizeAlignment });
        }
        if self.num_chunks <= 2 {
            return Err(ConfigFault::TimeshiftRecorder { name: owned(name), fault: RecorderFault::NumChunks });
        }
        if self.num_reserves == 0 {
            return Err(ConfigFault::TimeshiftRecorder { name: owned(name), fault: RecorderFault::NumReserves });
        }
        if self.num_reserves >= self.num_chunks || self.num_chunks - self.num_reserves <= 1 {
            return Err(ConfigFault::TimeshiftRecorder { name: owned(name), fault: RecorderFault::AvailableChunks });
        }
        self.uses.validate(name)?;
        let chunk_size = self.chunk_size;
        let num_chunks = self.num_chunks;
        assert((chunk_size as u128) * (num_chunks as u128) <= u128::MAX) by (nonlinear_arith)
            requires
                chunk_size <= usize::MAX,
                num_chunks <= usize::MAX,
                usize::MAX < 0x1_0000_0000_0000_0000,
        ;
        let size_ok = match facts.kind_of(self.ts_file.as_str()) {
            PathKind::File { len } => (self.chunk_size as u128) * (self.num_chunks as u128) == len as u128,
            _ => false,
        };
        if !size_ok {
            return Err(ConfigFault::TimeshiftRecorder { name: owned(name), fault: RecorderFault::TsFileSize });
        }
        Ok(())
    }
}

/// The tuner and the channel a timeshift recorder uses.
#[derive(Clone, Debug)]
pub struct TimeshiftRecorderUses {
    /// The name of a tuner in `tuners`.
    pub tuner: String,
    pub channel_type: ChannelType,
    pub channel: String,
}

impl TimeshiftRecorderUses {
    pub open spec fn spec_validate(&self, name: Seq<char>) -> Option<FaultView> {
        then(
            check(self.tuner@.len() > 0, ConfigFault::TimeshiftRecorder { name, fault: RecorderFault::UsesTuner }),
            check(self.channel@.len() > 0, ConfigFault::TimeshiftRecorder { name, fault: RecorderFault::UsesChannel }),
        )
    }

    /// The tuner and the channel must be non-empty strings.
    pub fn validate(&self, name: &str) -> (r: Result<(), ConfigError>)
        ensures
            fault_of(r) == self.spec_validate(name@),
    {
        if is_empty_string(&self.tuner) {
            return Err(ConfigFault::TimeshiftRecorder { name: owned(name), fault: RecorderFault::UsesTuner });
        }
        if is_empty_string(&self.channel) {
            return Err(ConfigFault::TimeshiftRecorder { name: owned(name), fault: RecorderFault::UsesChannel });
        }
        Ok(())
    }
}

// on-air program trackers

/// An on-air program tracker.
#[derive(Clone, Debug)]
pub enum OnairProgramTrackerConfig {
    Local(Arc<LocalOnairProgramTrackerConfig>),
    Remote(Arc<RemoteOnairProgramTrackerConfig>),
}

impl OnairProgramTrackerConfig {
    pub open spec fn spec_validate(&self, name: Seq<char>) -> Option<FaultView> {
        match self {
            OnairProgramTrackerConfig::Local(config) => config.spec_validate(name),
            OnairProgramTrackerConfig::Remote(_) => None,
        }
    }

    /// A local tracker must be valid; a remote tracker is always valid.
    pub fn validate(&self, name: &str) -> (r: Result<(), ConfigError>)
        ensures
            fault_of(r) == self.spec_validate(name@),
    {
        match self {
            OnairProgramTrackerConfig::Local(config) => config.validate(name),
            OnairProgramTrackerConfig::Remote(_) => Ok(()),
        }
    }
}

/// A tracker that runs a command on a dedicated tuner.
#[derive(Clone, Debug)]
pub struct LocalOnairProgramTrackerConfig {
    pub channel_types: Vec<ChannelType>,
    pub services: Vec<ServiceId>,
    pub excluded_services: Vec<ServiceId>,
    pub command: String,
    pub uses: LocalOnairProgramTrackerUses,
}

pub open spec fn default_tracker_command() -> Seq<char> {
    "timeout 5s mirakc-arib collect-eitpf --sids={{{sid}}}"@
}

impl LocalOnairProgramTrackerConfig {
    pub fn default_command() -> (r: String)
        ensures
            r@ == default_tracker_command(),
    {
        owned("timeout 5s mirakc-arib collect-eitpf --sids={{{sid}}}")
    }

    pub open spec fn spec_validate(&self, name: Seq<char>) -> Option<FaultView> {
        then(
            check(self.channel_types@.len() > 0, ConfigFault::TrackerChannelTypes { name }),
            then(
                check(self.command@.len() > 0, ConfigFault::TrackerCommand { name }),
                self.uses.spec_validate(name),
            ),
        )
    }

    /// The channel types and the command must be non-empty, and the tracker
    /// must use a named tuner.
    pub fn validate(&self, name: &str) -> (r: Result<(), ConfigError>)
        ensures
            fault_of(r) == self.spec_validate(name@),
    {
        if self.channel_types.len() == 0 {
            return Err(ConfigFault::TrackerChannelTypes { name: owned(name) });
        }
        if is_empty_string(&self.command) {
            return Err(ConfigFault::TrackerCommand { name: owned(name) });
        }
        self.uses.validate(name)
    }
}

/// The tuner a local tracker uses.
#[derive(Clone, Debug)]
pub struct LocalOnairProgramTrackerUses {
    /// The name of a tuner in `tuners`.
    pub tuner: String,
}

impl LocalOnairProgramTrackerUses {
    pub open spec fn spec_validate(&self, name: Seq<char>) -> Option<FaultView> {
        check(self.tuner@.len() > 0, ConfigFault::TrackerUsesTuner { name })
    }

    /// The tuner must be a non-empty string.
    pub fn validate(&self, name: &str) -> (r: Result<(), ConfigError>)
        ensures
            fault_of(r) == self.spec_validate(name@),
    {
        if is_empty_string(&self.tuner) {
            return Err(ConfigFault::TrackerUsesTuner { name: owned(name) });
        }
        Ok(())
    }
}

/// A tracker that follows the on-air programs of another server.
#[derive(Clone, Debug)]
pub struct RemoteOnairProgramTrackerConfig {
    /// The base URL of the other server.
    pub url: String,
    pub services: Vec<ServiceId>,
    pub excluded_services: Vec<ServiceId>,
    pub events_endpoint: String,
    pub onair_endpoint: String,
}

/// The URL that resolving a reference against a base URL gives, in its
/// serialized form, as `url::Url::join` makes it; `None` where the base is
/// not a URL or the reference cannot be resolved.
pub uninterp spec fn url_joined(base: Seq<char>, reference: Seq<char>) -> Option<Seq<char>>;

/// Parses the base URL and calls `url::Url::join`; the contract claims only
/// that the serialized result is the one `url_joined` names.
#[verifier::external_body]
fn join_url(base: &str, reference: &str) -> (r: Option<String>)
    ensures
        match r {
            Some(u) => url_joined(base@, reference@) == Some(u@),
            None => url_joined(base@, reference@) is None,
        },
{
    url::Url::parse(base).and_then(|u| u.join(reference)).ok().map(|u| u.to_string())
}

/// The URL of the service's on-air programs: the on-air endpoint, then the
/// service identifier, resolved against the on-air URL.
pub open spec fn onair_url_of_spec(url: Seq<char>, onair_endpoint: Seq<char>, service_id: nat) -> Option<Seq<char>> {
    match url_joined(url, onair_endpoint) {
        Some(base) => url_joined(base, onair_endpoint + "/"@ + crate::text::decimal(service_id)),
        None => None,
    }
}

impl RemoteOnairProgramTrackerConfig {
    /// The events endpoint resolved against the URL.
    pub fn events_url(&self) -> (r: String)
        requires
            url_joined(self.url@, self.events_endpoint@) is Some,
        ensures
            Some(r@) == url_joined(self.url@, self.events_endpoint@),
    {
        match join_url(self.url.as_str(), self.events_endpoint.as_str()) {
            Some(u) => u,
            None => String::new(),
        }
    }

    /// The events URL, if the endpoint can be resolved against the URL.
    pub fn try_events_url(&self) -> (r: Option<String>)
        ensures
            match r {
                Some(u) => url_joined(self.url@, self.events_endpoint@) == Some(u@),
                None => url_joined(self.url@, self.events_endpoint@) is None,
            },
    {
        match join_url(self.url.as_str(), self.events_endpoint.as_str()) {
            Some(_) => Some(self.events_url()),
            None => None,
        }
    }

    /// The on-air endpoint resolved against the URL.
    pub fn onair_url(&self) -> (r: String)
        requires
            url_joined(self.url@, self.onair_endpoint@) is Some,
        ensures
            Some(r@) == url_joined(self.url@, self.onair_endpoint@),
    {
        match join_url(self.url.as_str(), self.onair_endpoint.as_str()) {
            Some(u) => u,
            None => String::new(),
        }
    }

    /// The on-air URL, if the endpoint can be resolved against the URL.
    pub fn try_onair_url(&self) -> (r: Option<String>)
        ensures
            match r {
                Some(u) => url_joined(self.url@, self.onair_endpoint@) == Some(u@),
                None => url_joined(self.url@, self.onair_endpoint@) is None,
            },
    {
        match join_url(self.url.as_str(), self.onair_endpoint.as_str()) {
            Some(_) => Some(self.onair_url()),
            None => None,
        }
    }

    /// The URL of the on-air programs of a service.
    pub fn onair_url_of(&self, service_id: ServiceId) -> (r: String)
        requires
            onair_url_of_spec(self.url@, self.onair_endpoint@, service_id@ as nat) is Some,
        ensures
            Some(r@) == onair_url_of_spec(self.url@, self.onair_endpoint@, service_id@ as nat),
    {
        let base = self.onair_url();
        let mut reference = self.onair_endpoint.clone();
        reference.append("/");
        let id = crate::text::to_decimal(service_id.value());
        reference.append(id.as_str());
        match join_url(base.as_str(), reference.as_str()) {
            Some(u) => u,
            None => String::new(),
        }
    }

    /// The URL of the on-air programs of a service, if it can be resolved.
    pub fn try_onair_url_of(&self, service_id: ServiceId) -> (r: Option<String>)
        ensures
            match r {
                Some(u) => onair_url_of_spec(self.url@, self.onair_endpoint@, service_id@ as nat) == Some(u@),
                None => onair_url_of_spec(self.url@, self.onair_endpoint@, service_id@ as nat) is None,
            },
    {
        match join_url(self.url.as_str(), self.onair_endpoint.as_str()) {
            Some(base) => {
                let mut reference = self.onair_endpoint.clone();
                reference.append("/");
                let id = crate::text::to_decimal(service_id.value());
                reference.append(id.as_str());
                match join_url(base.as_str(), reference.as_str()) {
                    Some(_) => Some(self.onair_url_of(service_id)),
                    None => None,
                }
            },
            None => None,
        }
    }

    pub fn default_events_endpoint() -> (r: String)
        ensures
            r@ == "/events"@,
    {
        owned("/events")
    }

    pub fn default_onair_endpoint() -> (r: String)
        ensures
            r@ == "/api/onair"@,
    {
        owned("/api/onair")
    }
}

/// The URL of a local mirakc server.
pub open spec fn default_remote_url() -> Seq<char> {
    "http://localhost:40772/"@
}

impl Default for RemoteOnairProgramTrackerConfig {
    /// A local mirakc server, all services, and the default endpoints.
    fn default() -> (r: Self)
        ensures
            r.url@ == default_remote_url(),
            r.services@.len() == 0,
            r.excluded_services@.len() == 0,
            r.events_endpoint@ == "/events"@,
            r.onair_endpoint@ == "/api/onair"@,
    {
        RemoteOnairProgramTrackerConfig {
            url: owned("http://localhost:40772/"),
            services: Vec::new(),
            excluded_services: Vec::new(),
            events_endpoint: Self::default_events_endpoint(),
            onair_endpoint: Self::default_onair_endpoint(),
        }
    }
}

// resources

/// Resources: the strings file and the service logos.
#[derive(Clone, Debug)]
pub struct ResourceConfig {
    pub strings_yaml: String,
    /// Logo images by service.
    pub logos: Vec<(ServiceId, String)>,
}

/// The logos by service of logos as written in the file (see
/// `ResourceConfig::logos_of`).
pub open spec fn logos_map(logos: Seq<LogoConfig>) -> Seq<(ServiceId, String)>
    decreases logos.len(),
{
    if logos.len() == 0 {
        Seq::empty()
    } else {
        crate::epg::keyed_insert(logos_map(logos.drop_last()), logos.last().service_id, logos.last().image)
    }
}

/// A logo image for a service, as written in the file.
#[derive(Clone, Debug)]
pub struct LogoConfig {
    pub service_id: ServiceId,
    pub image: String,
}

pub open spec fn default_strings_yaml() -> Seq<char> {
    "/etc/mirakc/strings.yml"@
}

impl ResourceConfig {
    pub fn default_strings_yaml() -> (r: String)
        ensures
            r@ == default_strings_yaml(),
    {
        owned("/etc/mirakc/strings.yml")
    }

    /// The logos by service of the logos as written in the file: a later
    /// logo of a service replaces the image of an earlier one, which keeps
    /// its position.
    pub fn logos_of(logos: Vec<LogoConfig>) -> (r: Vec<(ServiceId, String)>)
        ensures
            r@ == logos_map(logos@),
    {
        let mut r: Vec<(ServiceId, String)> = Vec::new();
        let ghost src = logos@;
        let mut rest = logos;
        let mut i: usize = 0;
        proof {
            assert(src.take(0) =~= Seq::<LogoConfig>::empty());
        }
        while i < rest.len()
            invariant
                i <= rest@.len(),
                rest@ == src,
                r@ == logos_map(src.take(i as int)),
            decreases rest@.len() - i,
        {
            let id = rest[i].service_id;
            let image = rest[i].image.clone();
            proof {
                crate::epg::lemma_key_position(r@, id);
                assert(src.take(i as int + 1).drop_last() =~= src.take(i as int));
            }
            let mut k: usize = 0;
            while k < r.len()
                invariant
                    k <= r@.len(),
                    forall|j: int| 0 <= j < k ==> r@[j].0 != id,
                ensures
                    k <= r@.len(),
                    forall|j: int| 0 <= j < k ==> r@[j].0 != id,
                    k < r@.len() ==> r@[k as int].0 == id,
                decreases r@.len() - k,
            {
                if r[k].0 == id {
                    break;
                }
                k = k + 1;
            }
            if k < r.len() {
                assert(crate::epg::key_position(r@, id) == k as int);
                r.set(k, (id, image));
            } else {
                r.push((id, image));
            }
            i = i + 1;
        }
        proof {
            assert(src.take(src.len() as int) =~= src);
        }
        r
    }

    /// The default strings file and no logos.
    pub fn default_config() -> (r: ResourceConfig)
        ensures
            r.strings_yaml@ == default_strings_yaml(),
            r.logos@.len() == 0,
    {
        ResourceConfig { strings_yaml: Self::default_strings_yaml(), logos: Vec::new() }
    }

    /// Whether a logo is configured for the service identified by `id`.
    pub open spec fn spec_has_logo(&self, id: int) -> bool {
        exists|i: int| 0 <= i < self.logos@.len() && #[trigger] self.logos@[i].0@ == id
    }

    /// Whether a logo is configured for the service.
    pub fn has_logo(&self, id: ServiceId) -> (r: bool)
        ensures
            r == self.spec_has_logo(id@ as int),
    {
        let mut i: usize = 0;
        while i < self.logos.len()
            invariant
                i <= self.logos@.len(),
                forall|j: int| 0 <= j < i ==> self.logos@[j].0@ != id@,
            decreases self.logos@.len() - i,
        {
            if self.logos[i].0.value() == id.value() {
                return true;
            }
            i = i + 1;
        }
        false
    }

    pub open spec fn spec_validate(&self, facts: &EnvFacts) -> Option<FaultView> {
        then(
            check(facts.is_file(self.strings_yaml@), ConfigFault::StringsYaml),
            first_fault(
                self.logos@,
                |i: int, e: (ServiceId, String)| check::<FaultView>(facts.is_file(e.1@), ConfigFault::Logo { service_id: e.0 }),
            ),
        )
    }

    /// The strings file and every logo image must be existing files.
    #[verifier::loop_isolation(false)]
    pub fn validate(&self, facts: &EnvFacts) -> (r: Result<(), ConfigError>)
        ensures
            fault_of(r) == self.spec_validate(facts),
    {
        if !facts.file_at(self.strings_yaml.as_str()) {
            return Err(ConfigFault::StringsYaml);
        }
        let ghost f = |i: int, e: (ServiceId, String)| check::<FaultView>(facts.is_file(e.1@), ConfigFault::Logo { service_id: e.0 });
        let mut i: usize = 0;
        while i < self.logos.len()
            invariant
                i <= self.logos@.len(),
                f == (|i: int, e: (ServiceId, String)| check::<FaultView>(facts.is_file(e.1@), ConfigFault::Logo { service_id: e.0 })),
                first_fault(self.logos@.take(i as int), f) is None,
            decreases self.logos@.len() - i,
        {
            proof { lemma_first_fault_step(self.logos@, f, i as int); }
            if !facts.file_at(self.logos[i].1.as_str()) {
                proof { lemma_first_fault_prefix(self.logos@, f, i as int + 1); }
                return Err(ConfigFault::Logo { service_id: self.logos[i].0 });
            }
            i = i + 1;
        }
        proof { lemma_take_all(self.logos@); }
        Ok(())
    }
}

// the whole configuration

/// The whole configuration.
#[derive(Clone, Debug)]
pub struct Config {
    pub epg: EpgConfig,
    pub server: ServerConfig,
    pub channels: Vec<ChannelConfig>,
    pub tuners: Vec<TunerConfig>,
    pub filters: FiltersConfig,
    /// Pre-filters by name.
    pub pre_filters: Vec<(String, FilterConfig)>,
    /// Post-filters by name.
    pub post_filters: Vec<(String, PostFilterConfig)>,
    pub jobs: JobsConfig,
    pub recording: RecordingConfig,
    pub timeshift: TimeshiftConfig,
    /// On-air program trackers by name, in the order of the file.
    pub onair_program_trackers: Vec<(String, OnairProgramTrackerConfig)>,
    pub resource: ResourceConfig,
}

/// Whether no two tuners have the same name.
pub open spec fn tuner_names_unique(tuners: Seq<TunerConfig>) -> bool {
    forall|i: int, j: int| 0 <= i < j < tuners.len() ==> tuners[i].name@ != tuners[j].name@
}

/// Whether an enabled tuner has the name.
pub open spec fn has_enabled_tuner(tuners: Seq<TunerConfig>, name: Seq<char>) -> bool {
    exists|i: int| 0 <= i < tuners.len() && !tuners[i].disabled && #[trigger] tuners[i].name@ == name
}

/// The position of the first enabled tuner with the name, from position `i` on.
pub open spec fn first_enabled_tuner(tuners: Seq<TunerConfig>, name: Seq<char>, i: int) -> Option<int>
    decreases tuners.len() - i,
{
    if i < 0 || i >= tuners.len() {
        None
    } else if !tuners[i].disabled && tuners[i].name@ == name {
        Some(i)
    } else {
        first_enabled_tuner(tuners, name, i + 1)
    }
}

/// Whether a channel of the type and channel is defined.
pub open spec fn has_channel(channels: Seq<ChannelConfig>, channel_type: ChannelType, channel: Seq<char>) -> bool {
    exists|i: int| 0 <= i < channels.len() && #[trigger] channels[i].channel_type == channel_type
        && channels[i].channel@ == channel
}

/// The name of the last local on-air program tracker before position `k`
/// that uses the tuner: the tracker the tuner is dedicated to.
pub open spec fn dedicated_tracker(trackers: Seq<(String, OnairProgramTrackerConfig)>, k: int, tuner: Seq<char>) -> Option<Seq<char>>
    decreases k,
{
    if k <= 0 || k > trackers.len() {
        None
    } else if trackers[k - 1].1 matches OnairProgramTrackerConfig::Local(c) && c.uses.tuner@ == tuner {
        Some(trackers[k - 1].0@)
    } else {
        dedicated_tracker(trackers, k - 1, tuner)
    }
}

/// The fault of a tuner dedicated to a tracker, if `d` names one.
pub open spec fn dedication_fault(tuner: Seq<char>, d: Option<Seq<char>>) -> Option<FaultView> {
    match d {
        Some(tracker) => Some(ConfigFault::TunerDedicated { tuner, tracker }),
        None => None,
    }
}

impl Config {
    /// A local tracker must use a tuner that is enabled and not dedicated to
    /// an earlier tracker.
    pub open spec fn tracker_usage_fault(&self, k: int, e: (String, OnairProgramTrackerConfig)) -> Option<FaultView> {
        match e.1 {
            OnairProgramTrackerConfig::Local(c) => then(
                dedication_fault(c.uses.tuner@, dedicated_tracker(self.onair_program_trackers@, k, c.uses.tuner@)),
                check(
                    has_enabled_tuner(self.tuners@, c.uses.tuner@),
                    ConfigFault::TrackerUndefinedTuner { name: e.0@, tuner: c.uses.tuner@ },
                ),
            ),
            OnairProgramTrackerConfig::Remote(_) => None,
        }
    }

    /// A timeshift recorder must use a tuner not dedicated to a tracker, a
    /// defined channel, and an enabled tuner that supports the channel type.
    pub open spec fn recorder_usage_fault(&self, e: (String, TimeshiftRecorderConfig)) -> Option<FaultView> {
        let uses = e.1.uses;
        then(
            dedication_fault(
                uses.tuner@,
                dedicated_tracker(self.onair_program_trackers@, self.onair_program_trackers@.len() as int, uses.tuner@),
            ),
            then(
                check(
                    has_channel(self.channels@, uses.channel_type, uses.channel@),
                    ConfigFault::RecorderUndefinedChannel { name: e.0@, channel_type: uses.channel_type, channel: uses.channel@ },
                ),
                match first_enabled_tuner(self.tuners@, uses.tuner@, 0) {
                    Some(t) => check(
                        self.tuners@[t].channel_types@.contains(uses.channel_type),
                        ConfigFault::RecorderTunerChannelType { name: e.0@, tuner: uses.tuner@, channel_type: uses.channel_type },
                    ),
                    None => Some(ConfigFault::RecorderUndefinedTuner { name: e.0@, tuner: uses.tuner@ }),
                },
            ),
        )
    }

    /// The first fault of the configuration: the sections in the order
    /// epg, server, channels, tuners (each, then the uniqueness of their
    /// names), filters, pre-filters, post-filters, jobs, recording, timeshift,
    /// on-air program trackers, resource, then the tuners the trackers and
    /// the timeshift recorders use.
    pub open spec fn spec_validate(&self, facts: &EnvFacts) -> Option<FaultView> {
        then(self.epg.spec_validate(facts),
        then(self.server.spec_validate(facts),
        then(first_fault(self.channels@, |i: int, c: ChannelConfig| c.spec_validate(i)),
        then(first_fault(self.tuners@, |i: int, t: TunerConfig| t.spec_validate(i)),
        then(check(tuner_names_unique(self.tuners@), ConfigFault::TunerNamesNotUnique),
        then(self.filters.spec_validate(),
        then(first_fault(self.pre_filters@, |i: int, e: (String, FilterConfig)| e.1.spec_validate("pre-filters"@, e.0@)),
        then(first_fault(self.post_filters@, |i: int, e: (String, PostFilterConfig)| e.1.spec_validate(e.0@)),
        then(self.jobs.spec_validate(),
        then(self.recording.spec_validate(facts),
        then(self.timeshift.spec_validate(facts),
        then(first_fault(self.onair_program_trackers@, |i: int, e: (String, OnairProgramTrackerConfig)| e.1.spec_validate(e.0@)),
        then(self.resource.spec_validate(facts),
        then(first_fault(self.onair_program_trackers@, |k: int, e: (String, OnairProgramTrackerConfig)| self.tracker_usage_fault(k, e)),
        first_fault(self.timeshift.recorders@, |i: int, e: (String, TimeshiftRecorderConfig)| self.recorder_usage_fault(e))
        ))))))))))))))
    }

    /// Whether any on-air program tracker is configured.
    pub fn has_onair_program_trackers(&self) -> (r: bool)
        ensures
            r == (self.onair_program_trackers@.len() > 0),
    {
        self.onair_program_trackers.len() > 0
    }

    fn validate_channels(&self) -> (r: Result<(), ConfigError>)
        requires
            forall|i: int| 0 <= i < self.channels@.len() ==> !#[trigger] self.channels@[i].disabled,
        ensures
            fault_of(r) == first_fault(self.channels@, |i: int, c: ChannelConfig| c.spec_validate(i)),
    {
        let ghost f = |i: int, c: ChannelConfig| c.spec_validate(i);
        let mut i: usize = 0;
        while i < self.channels.len()
            invariant
                i <= self.channels@.len(),
                forall|i: int| 0 <= i < self.channels@.len() ==> !#[trigger] self.channels@[i].disabled,
                f == (|i: int, c: ChannelConfig| c.spec_validate(i)),
                first_fault(self.channels@.take(i as int), f) is None,
            decreases self.channels@.len() - i,
        {
            proof { lemma_first_fault_step(self.channels@, f, i as int); }
            let res = self.channels[i].validate(i);
            if res.is_err() {
                proof { lemma_first_fault_prefix(self.channels@, f, i as int + 1); }
                return res;
            }
            i = i + 1;
        }
        proof { lemma_take_all(self.channels@); }
        Ok(())
    }

    #[verifier::loop_isolation(false)]
    fn validate_tuners(&self) -> (r: Result<(), ConfigError>)
        ensures
            fault_of(r) == then(
                first_fault(self.tuners@, |i: int, t: TunerConfig| t.spec_validate(i)),
                check(tuner_names_unique(self.tuners@), ConfigFault::TunerNamesNotUnique),
            ),
    {
        let ghost f = |i: int, t: TunerConfig| t.spec_validate(i);
        let mut i: usize = 0;
        while i < self.tuners.len()
            invariant
                i <= self.tuners@.len(),
                f == (|i: int, t: TunerConfig| t.spec_validate(i)),
                first_fault(self.tuners@.take(i as int), f) is None,
            decreases self.tuners@.len() - i,
        {
            proof { lemma_first_fault_step(self.tuners@, f, i as int); }
            let res = self.tuners[i].validate(i);
            if res.is_err() {
                proof { lemma_first_fault_prefix(self.tuners@, f, i as int + 1); }
                return res;
            }
            i = i + 1;
        }
        proof { lemma_take_all(self.tuners@); }
        let n = self.tuners.len();
        let mut a: usize = 0;
        while a < n
            invariant
                n == self.tuners@.len(),
                a <= n,
                forall|x: int, y: int| 0 <= x < a && x < y < n ==> self.tuners@[x].name@ != self.tuners@[y].name@,
            decreases n - a,
        {
            let mut b: usize = a + 1;
            while b < n
                invariant
                    n == self.tuners@.len(),
                    a < n,
                    a + 1 <= b <= n,
                    forall|x: int, y: int| 0 <= x < a && x < y < n ==> self.tuners@[x].name@ != self.tuners@[y].name@,
                    forall|y: int| a < y < b ==> self.tuners@[a as int].name@ != self.tuners@[y].name@,
                decreases n - b,
            {
                if self.tuners[a].name == self.tuners[b].name {
                    return Err(ConfigFault::TunerNamesNotUnique);
                }
                b = b + 1;
            }
            a = a + 1;
        }
        Ok(())
    }

    fn validate_pre_filters(&self) -> (r: Result<(), ConfigError>)
        ensures
            fault_of(r) == first_fault(self.pre_filters@, |i: int, e: (String, FilterConfig)| e.1.spec_validate("pre-filters"@, e.0@)),
    {
        let ghost f = |i: int, e: (String, FilterConfig)| e.1.spec_validate("pre-filters"@, e.0@);
        let mut i: usize = 0;
        while i < self.pre_filters.len()
            invariant
                i <= self.pre_filters@.len(),
                f == (|i: int, e: (String, FilterConfig)| e.1.spec_validate("pre-filters"@, e.0@)),
                first_fault(self.pre_filters@.take(i as int), f) is None,
            decreases self.pre_filters@.len() - i,
        {
            proof { lemma_first_fault_step(self.pre_filters@, f, i as int); }
            let entry = &self.pre_filters[i];
            let res = entry.1.validate("pre-filters", entry.0.as_str());
            if res.is_err() {
                proof { lemma_first_fault_prefix(self.pre_filters@, f, i as int + 1); }
                return res;
            }
            i = i + 1;
        }
        proof { lemma_take_all(self.pre_filters@); }
        Ok(())
    }

    fn validate_post_filters(&self) -> (r: Result<(), ConfigError>)
        ensures
            fault_of(r) == first_fault(self.post_filters@, |i: int, e: (String, PostFilterConfig)| e.1.spec_validate(e.0@)),
    {
        let ghost f = |i: int, e: (String, PostFilterConfig)| e.1.spec_validate(e.0@);
        let mut i: usize = 0;
        while i < self.post_filters.len()
            invariant
                i <= self.post_filters@.len(),
                f == (|i: int, e: (String, PostFilterConfig)| e.1.spec_validate(e.0@)),
                first_fault(self.post_filters@.take(i as int), f) is None,
            decreases self.post_filters@.len() - i,
        {
            proof { lemma_first_fault_step(self.post_filters@, f, i as int); }
            let entry = &self.post_filters[i];
            let res = entry.1.validate(entry.0.as_str());
            if res.is_err() {
                proof { lemma_first_fault_prefix(self.post_filters@, f, i as int + 1); }
                return res;
            }
            i = i + 1;
        }
        proof { lemma_take_all(self.post_filters@); }
        Ok(())
    }

    fn validate_trackers(&self) -> (r: Result<(), ConfigError>)
        ensures
            fault_of(r) == first_fault(self.onair_program_trackers@, |i: int, e: (String, OnairProgramTrackerConfig)| e.1.spec_validate(e.0@)),
    {
        let ghost f = |i: int, e: (String, OnairProgramTrackerConfig)| e.1.spec_validate(e.0@);
        let mut i: usize = 0;
        while i < self.onair_program_trackers.len()
            invariant
                i <= self.onair_program_trackers@.len(),
                f == (|i: int, e: (String, OnairProgramTrackerConfig)| e.1.spec_validate(e.0@)),
                first_fault(self.onair_program_trackers@.take(i as int), f) is None,
            decreases self.onair_program_trackers@.len() - i,
        {
            proof { lemma_first_fault_step(self.onair_program_trackers@, f, i as int); }
            let entry = &self.onair_program_trackers[i];
            let res = entry.1.validate(entry.0.as_str());
            if res.is_err() {
                proof { lemma_first_fault_prefix(self.onair_program_trackers@, f, i as int + 1); }
                return res;
            }
            i = i + 1;
        }
        proof { lemma_take_all(self.onair_program_trackers@); }
        Ok(())
    }

    /// The tracker that the tuner is dedicated to among the trackers before
    /// position `k`.
    fn find_dedicated_tracker(&self, k: usize, tuner: &String) -> (r: Option<String>)
        requires
            k <= self.onair_program_trackers@.len(),
        ensures
            match r {
                Some(n) => dedicated_tracker(self.onair_program_trackers@, k as int, tuner@) == Some(n@),
                None => dedicated_tracker(self.onair_program_trackers@, k as int, tuner@) is None,
            },
    {
        let mut j: usize = k;
        while j > 0
            invariant
                j <= k <= self.onair_program_trackers@.len(),
                dedicated_tracker(self.onair_program_trackers@, k as int, tuner@)
                    == dedicated_tracker(self.onair_program_trackers@, j as int, tuner@),
            decreases j,
        {
            let entry = &self.onair_program_trackers[j - 1];
            match &entry.1 {
                OnairProgramTrackerConfig::Local(c) => {
                    if c.uses.tuner == *tuner {
                        return Some(entry.0.clone());
                    }
                },
                OnairProgramTrackerConfig::Remote(_) => {},
            }
            j = j - 1;
        }
        None
    }

    fn has_enabled_tuner(&self, name: &String) -> (r: bool)
        ensures
            r == has_enabled_tuner(self.tuners@, name@),
    {
        let mut i: usize = 0;
        while i < self.tuners.len()
            invariant
                i <= self.tuners@.len(),
                forall|j: int| 0 <= j < i ==> !(!self.tuners@[j].disabled && #[trigger] self.tuners@[j].name@ == name@),
            decreases self.tuners@.len() - i,
        {
            if !self.tuners[i].disabled && self.tuners[i].name == *name {
                return true;
            }
            i = i + 1;
        }
        false
    }

    fn first_enabled_tuner(&self, name: &String) -> (r: Option<usize>)
        ensures
            match r {
                Some(i) => first_enabled_tuner(self.tuners@, name@, 0) == Some(i as int) && i < self.tuners@.len(),
                None => first_enabled_tuner(self.tuners@, name@, 0) is None,
            },
    {
        let mut i: usize = 0;
        while i < self.tuners.len()
            invariant
                i <= self.tuners@.len(),
                first_enabled_tuner(self.tuners@, name@, 0) == first_enabled_tuner(self.tuners@, name@, i as int),
            decreases self.tuners@.len() - i,
        {
            if !self.tuners[i].disabled && self.tuners[i].name == *name {
                return Some(i);
            }
            i = i + 1;
        }
        None
    }

    fn has_channel(&self, channel_type: ChannelType, channel: &String) -> (r: bool)
        ensures
            r == has_channel(self.channels@, channel_type, channel@),
    {
        let mut i: usize = 0;
        while i < self.channels.len()
            invariant
                i <= self.channels@.len(),
                forall|j: int| 0 <= j < i ==> !(#[trigger] self.channels@[j].channel_type == channel_type
                    && self.channels@[j].channel@ == channel@),
            decreases self.channels@.len() - i,
        {
            if self.channels[i].channel_type == channel_type && self.channels[i].channel == *channel {
                return true;
            }
            i = i + 1;
        }
        false
    }

    fn tracker_usage(&self, k: usize) -> (r: Result<(), ConfigError>)
        requires
            k < self.onair_program_trackers@.len(),
        ensures
            fault_of(r) == self.tracker_usage_fault(k as int, self.onair_program_trackers@[k as int]),
    {
        let entry = &self.onair_program_trackers[k];
        match &entry.1 {
            OnairProgramTrackerConfig::Local(c) => {
                match self.find_dedicated_tracker(k, &c.uses.tuner) {
                    Some(tracker) => {
                        return Err(ConfigFault::TunerDedicated { tuner: c.uses.tuner.clone(), tracker });
                    },
                    None => {},
                }
                if !self.has_enabled_tuner(&c.uses.tuner) {
                    return Err(ConfigFault::TrackerUndefinedTuner { name: entry.0.clone(), tuner: c.uses.tuner.clone() });
                }
                Ok(())
            },
            OnairProgramTrackerConfig::Remote(_) => Ok(()),
        }
    }

    #[verifier::loop_isolation(false)]
    fn recorder_usage(&self, i: usize) -> (r: Result<(), ConfigError>)
        requires
            i < self.timeshift.recorders@.len(),
        ensures
            fault_of(r) == self.recorder_usage_fault(self.timeshift.recorders@[i as int]),
    {
        let entry = &self.timeshift.recorders[i];
        let uses = &entry.1.uses;
        match self.find_dedicated_tracker(self.onair_program_trackers.len(), &uses.tuner) {
            Some(tracker) => {
                return Err(ConfigFault::TunerDedicated { tuner: uses.tuner.clone(), tracker });
            },
            None => {},
        }
        if !self.has_channel(uses.channel_type, &uses.channel) {
            return Err(ConfigFault::RecorderUndefinedChannel {
                name: entry.0.clone(),
                channel_type: uses.channel_type,
                channel: uses.channel.clone(),
            });
        }
        match self.first_enabled_tuner(&uses.tuner) {
            Some(t) => {
                let types = &self.tuners[t].channel_types;
                let mut j: usize = 0;
                while j < types.len()
                    invariant
                        j <= types@.len(),
                        forall|x: int| 0 <= x < j ==> types@[x] != uses.channel_type,
                    decreases types@.len() - j,
                {
                    if types[j] == uses.channel_type {
                        assert(types@[j as int] == uses.channel_type);
                        return Ok(());
                    }
                    j = j + 1;
                }
                Err(ConfigFault::RecorderTunerChannelType {
                    name: entry.0.clone(),
                    tuner: uses.tuner.clone(),
                    channel_type: uses.channel_type,
                })
            },
            None => Err(ConfigFault::RecorderUndefinedTuner { name: entry.0.clone(), tuner: uses.tuner.clone() }),
        }
    }

    fn validate_usages(&self) -> (r: Result<(), ConfigError>)
        ensures
            fault_of(r) == then(
                first_fault(self.onair_program_trackers@, |k: int, e: (String, OnairProgramTrackerConfig)| self.tracker_usage_fault(k, e)),
                first_fault(self.timeshift.recorders@, |i: int, e: (String, TimeshiftRecorderConfig)| self.recorder_usage_fault(e)),
            ),
    {
        let ghost f = |k: int, e: (String, OnairProgramTrackerConfig)| self.tracker_usage_fault(k, e);
        let mut k: usize = 0;
        while k < self.onair_program_trackers.len()
            invariant
                k <= self.onair_program_trackers@.len(),
                f == (|k: int, e: (String, OnairProgramTrackerConfig)| self.tracker_usage_fault(k, e)),
                first_fault(self.onair_program_trackers@.take(k as int), f) is None,
            decreases self.onair_program_trackers@.len() - k,
        {
            proof { lemma_first_fault_step(self.onair_program_trackers@, f, k as int); }
            let res = self.tracker_usage(k);
            if res.is_err() {
                proof { lemma_first_fault_prefix(self.onair_program_trackers@, f, k as int + 1); }
                return res;
            }
            k = k + 1;
        }
        proof { lemma_take_all(self.onair_program_trackers@); }
        let ghost g = |i: int, e: (String, TimeshiftRecorderConfig)| self.recorder_usage_fault(e);
        let mut i: usize = 0;
        while i < self.timeshift.recorders.len()
            invariant
                i <= self.timeshift.recorders@.len(),
                first_fault(self.onair_program_trackers@, f) is None,
                f == (|k: int, e: (String, OnairProgramTrackerConfig)| self.tracker_usage_fault(k, e)),
                g == (|i: int, e: (String, TimeshiftRecorderConfig)| self.recorder_usage_fault(e)),
                first_fault(self.timeshift.recorders@.take(i as int), g) is None,
            decreases self.timeshift.recorders@.len() - i,
        {
            proof { lemma_first_fault_step(self.timeshift.recorders@, g, i as int); }
            let res = self.recorder_usage(i);
            if res.is_err() {
                proof { lemma_first_fault_prefix(self.timeshift.recorders@, g, i as int + 1); }
                return res;
            }
            i = i + 1;
        }
        proof { lemma_take_all(self.timeshift.recorders@); }
        Ok(())
    }

    /// Validates the whole configuration and reports its first fault.
    pub fn validate(&self, facts: &EnvFacts) -> (r: Result<(), ConfigError>)
        requires
            forall|i: int| 0 <= i < self.channels@.len() ==> !#[trigger] self.channels@[i].disabled,
        ensures
            fault_of(r) == self.spec_validate(facts),
    {
        self.epg.validate(facts)?;
        self.server.validate(facts)?;
        self.validate_channels()?;
        self.validate_tuners()?;
        self.filters.validate()?;
        self.validate_pre_filters()?;
        self.validate_post_filters()?;
        self.jobs.validate()?;
        self.recording.validate(facts)?;
        self.timeshift.validate(facts)?;
        self.validate_trackers()?;
        self.resource.validate(facts)?;
        self.validate_usages()
    }
}

// normalization of channels

/// Whether a service with the identifier `x` is in the list.
pub open spec fn has_sid(v: Seq<Sid>, x: u16) -> bool {
    exists|i: int| 0 <= i < v.len() && #[trigger] v[i]@ == x
}

/// Whether the identifiers are strictly ascending (sorted, without duplicates).
pub open spec fn sids_ascending(v: Seq<Sid>) -> bool {
    forall|i: int, j: int| 0 <= i < j < v.len() ==> v[i]@ < v[j]@
}

/// The identifiers of `v` in ascending order without duplicates.
pub fn sorted_unique_sids(v: &Vec<Sid>) -> (r: Vec<Sid>)
    ensures
        sids_ascending(r@),
        forall|x: u16| has_sid(r@, x) == has_sid(v@, x),
{
    let mut r: Vec<Sid> = Vec::new();
    let mut n: usize = 0;
    while n < v.len()
        invariant
            n <= v@.len(),
            sids_ascending(r@),
            forall|x: u16| has_sid(r@, x) == has_sid(v@.take(n as int), x),
        decreases v@.len() - n,
    {
        let x = v[n];
        let xv = x.value();
        let mut pos: usize = 0;
        while pos < r.len() && r[pos].value() < xv
            invariant
                pos <= r@.len(),
                forall|i: int| 0 <= i < pos ==> r@[i]@ < xv,
            decreases r@.len() - pos,
        {
            pos = pos + 1;
        }
        let ghost old_r = r@;
        if pos < r.len() && r[pos].value() == xv {
            // already present
        } else {
            r.insert(pos, x);
            assert forall|i: int, j: int| 0 <= i < j < r@.len() implies r@[i]@ < r@[j]@ by {
                if j < pos {
                } else if j == pos {
                } else if i < pos {
                    assert(old_r[i]@ < xv);
                    if pos < old_r.len() {
                        assert(old_r[pos as int]@ >= xv);
                        assert(old_r[pos as int]@ <= old_r[j - 1]@);
                    }
                } else if i == pos {
                    assert(old_r[pos as int]@ != xv);
                    assert(old_r[pos as int]@ >= xv);
                    assert(old_r[pos as int]@ <= old_r[j - 1]@);
                } else {
                    assert(old_r[i - 1]@ < old_r[j - 1]@);
                }
            }
        }
        assert forall|y: u16| has_sid(r@, y) == has_sid(v@.take(n as int + 1), y) by {
            let t = v@.take(n as int + 1);
            assert(t[n as int] == x);
            if has_sid(v@.take(n as int), y) {
                let i = choose|i: int| 0 <= i < n && #[trigger] v@.take(n as int)[i]@ == y;
                assert(t[i]@ == y);
            }
            if has_sid(t, y) {
                let i = choose|i: int| 0 <= i < t.len() && #[trigger] t[i]@ == y;
                if i < n {
                    assert(v@.take(n as int)[i]@ == y);
                }
            }
            if has_sid(r@, y) {
                let i = choose|i: int| 0 <= i < r@.len() && #[trigger] r@[i]@ == y;
                if r@.len() != old_r.len() {
                    if i < pos {
                        assert(old_r[i]@ == y);
                    } else if i > pos {
                        assert(old_r[i - 1]@ == y);
                    }
                }
            }
            if has_sid(old_r, y) {
                let i = choose|i: int| 0 <= i < old_r.len() && #[trigger] old_r[i]@ == y;
                if r@.len() != old_r.len() {
                    if i < pos {
                        assert(r@[i]@ == y);
                    } else {
                        assert(r@[i + 1]@ == y);
                    }
                } else {
                    assert(r@[i]@ == y);
                }
            }
            if y == xv {
                if r@.len() != old_r.len() {
                    assert(r@[pos as int]@ == y);
                } else {
                    assert(r@[pos as int]@ == y);
                }
            }
        }
        n = n + 1;
    }
    proof { lemma_take_all(v@); }
    r
}

/// Whether channel `j` is enabled and names the same channel as channel `h`.
pub open spec fn enabled_same(s: Seq<ChannelConfig>, j: int, h: int) -> bool {
    0 <= j < s.len() && 0 <= h < s.len() && !s[j].disabled && s[j].same_channel(&s[h])
}

/// Whether channel `i` is the first enabled one naming its channel.
pub open spec fn is_group_head(s: Seq<ChannelConfig>, i: int) -> bool {
    &&& 0 <= i < s.len()
    &&& !s[i].disabled
    &&& forall|j: int| 0 <= j < i ==> !#[trigger] enabled_same(s, j, i)
}

/// The positions of the first enabled channel of each distinct channel, in
/// order.
pub open spec fn group_heads(s: Seq<ChannelConfig>) -> Seq<int>
    decreases s.len(),
{
    if s.len() == 0 {
        Seq::empty()
    } else if is_group_head(s, s.len() - 1) {
        group_heads(s.drop_last()).push(s.len() - 1)
    } else {
        group_heads(s.drop_last())
    }
}

/// Whether an enabled channel naming the same channel as channel `h` lists
/// no services (which means all services).
pub open spec fn group_takes_all_services(s: Seq<ChannelConfig>, h: int) -> bool {
    exists|j: int| #[trigger] enabled_same(s, j, h) && s[j].services@.len() == 0
}

/// Whether an enabled channel naming the same channel as channel `h` lists
/// the service `x`.
pub open spec fn group_lists_service(s: Seq<ChannelConfig>, h: int, x: u16) -> bool {
    exists|j: int| #[trigger] enabled_same(s, j, h) && has_sid(s[j].services@, x)
}

/// Whether an enabled channel naming the same channel as channel `h`
/// excludes the service `x`.
pub open spec fn group_excludes_service(s: Seq<ChannelConfig>, h: int, x: u16) -> bool {
    exists|j: int| #[trigger] enabled_same(s, j, h) && has_sid(s[j].excluded_services@, x)
}

/// The channel merged from the enabled channels naming the same channel as
/// channel `h`, before sorting its service lists.
#[verifier::opaque]
pub open spec fn merged_raw(s: Seq<ChannelConfig>, h: int, c: ChannelConfig) -> bool {
    &&& c.name == s[h].name
    &&& c.channel_type == s[h].channel_type
    &&& c.channel == s[h].channel
    &&& c.extra_args == s[h].extra_args
    &&& !c.disabled
    &&& (c.services@.len() == 0) == group_takes_all_services(s, h)
    &&& forall|x: u16| #![trigger has_sid(c.services@, x)] has_sid(c.services@, x) == (!group_takes_all_services(s, h) && group_lists_service(s, h, x))
    &&& forall|x: u16| #![trigger has_sid(c.excluded_services@, x)] has_sid(c.excluded_services@, x) == group_excludes_service(s, h, x)
}

/// The channel merged from the enabled channels naming the same channel as
/// channel `h`: the name, type, channel and extra arguments of channel `h`;
/// no services (meaning all) when one of them lists none, else every service
/// they list; every service they exclude; both lists ascending.
pub open spec fn merged(s: Seq<ChannelConfig>, h: int, c: ChannelConfig) -> bool {
    &&& c.name == s[h].name
    &&& c.channel_type == s[h].channel_type
    &&& c.channel == s[h].channel
    &&& c.extra_args == s[h].extra_args
    &&& !c.disabled
    &&& sids_ascending(c.services@)
    &&& sids_ascending(c.excluded_services@)
    &&& forall|x: u16| #![trigger has_sid(c.services@, x)] has_sid(c.services@, x) == (!group_takes_all_services(s, h) && group_lists_service(s, h, x))
    &&& forall|x: u16| #![trigger has_sid(c.excluded_services@, x)] has_sid(c.excluded_services@, x) == group_excludes_service(s, h, x)
}

proof fn lemma_heads_step(s: Seq<ChannelConfig>, n: int)
    requires
        0 <= n < s.len(),
    ensures
        group_heads(s.take(n + 1)) == if is_group_head(s, n) {
            group_heads(s.take(n)).push(n)
        } else {
            group_heads(s.take(n))
        },
{
    let t = s.take(n + 1);
    assert(t.drop_last() =~= s.take(n));
    assert(t[n] == s[n]);
    if is_group_head(s, n) {
        assert forall|j: int| 0 <= j < n implies !#[trigger] enabled_same(t, j, n) by {
            assert(t[j] == s[j]);
            assert(!enabled_same(s, j, n));
        }
    }
    if is_group_head(t, n) {
        assert forall|j: int| 0 <= j < n implies !#[trigger] enabled_same(s, j, n) by {
            assert(t[j] == s[j]);
            assert(!enabled_same(t, j, n));
        }
    }
    assert(is_group_head(t, n) == is_group_head(s, n));
}

proof fn lemma_heads_bounds(s: Seq<ChannelConfig>)
    ensures
        forall|k: int| 0 <= k < group_heads(s).len() ==> is_group_head(s, #[trigger] group_heads(s)[k]),
        forall|k1: int, k2: int| 0 <= k1 < k2 < group_heads(s).len() ==> group_heads(s)[k1] < group_heads(s)[k2],
    decreases s.len(),
{
    if s.len() > 0 {
        let d = s.drop_last();
        lemma_heads_bounds(d);
        assert forall|k: int| 0 <= k < group_heads(d).len() implies is_group_head(s, #[trigger] group_heads(d)[k]) by {
            let h = group_heads(d)[k];
            assert forall|j: int| 0 <= j < h implies !#[trigger] enabled_same(s, j, h) by {
                assert(enabled_same(d, j, h) == enabled_same(s, j, h));
            }
        }
    }
}

/// The channels that normalizing gives name pairwise distinct channels (by
/// type and channel), none disabled, and come in the order of the first
/// enabled occurrence of each: the `k`-th stands for the `k`-th group head,
/// which is the first enabled channel naming its channel, and the heads
/// ascend.
pub proof fn lemma_normalized_distinct(s: Seq<ChannelConfig>, r: Seq<ChannelConfig>)
    requires
        r.len() == group_heads(s).len(),
        forall|k: int| 0 <= k < r.len() ==> merged(s, group_heads(s)[k], #[trigger] r[k]),
    ensures
        forall|k1: int, k2: int| #![trigger r[k1], r[k2]] 0 <= k1 < k2 < r.len() ==> !r[k1].same_channel(&r[k2]),
        forall|k: int| 0 <= k < r.len() ==> !(#[trigger] r[k]).disabled,
        forall|k: int| 0 <= k < r.len() ==> is_group_head(s, #[trigger] group_heads(s)[k]),
        forall|k1: int, k2: int| 0 <= k1 < k2 < r.len() ==> group_heads(s)[k1] < group_heads(s)[k2],
{
    lemma_heads_bounds(s);
    assert forall|k1: int, k2: int| #![trigger r[k1], r[k2]] 0 <= k1 < k2 < r.len() implies !r[k1].same_channel(
        &r[k2],
    ) by {
        let h1 = group_heads(s)[k1];
        let h2 = group_heads(s)[k2];
        assert(merged(s, h1, r[k1]));
        assert(merged(s, h2, r[k2]));
        assert(is_group_head(s, h2));
        assert(h1 < h2);
        if r[k1].same_channel(&r[k2]) {
            assert(enabled_same(s, h1, h2));
        }
    }
}

proof fn lemma_same_prefix(s: Seq<ChannelConfig>, n: int, h: int)
    requires
        0 <= h < n < s.len(),
    ensures
        forall|j: int| #![trigger enabled_same(s.take(n + 1), j, h)] enabled_same(s.take(n + 1), j, h)
            == ((j < n && enabled_same(s.take(n), j, h)) || (j == n && enabled_same(s, n, h))),
        forall|j: int| #![trigger enabled_same(s.take(n), j, h)] enabled_same(s.take(n), j, h) ==> j < n,
        forall|j: int| 0 <= j < n ==> #[trigger] s.take(n)[j] == s[j],
        forall|j: int| 0 <= j <= n ==> #[trigger] s.take(n + 1)[j] == s[j],
{
    let p = s.take(n);
    let q = s.take(n + 1);
    assert forall|j: int| #![trigger enabled_same(q, j, h)] enabled_same(q, j, h)
        == ((j < n && enabled_same(p, j, h)) || (j == n && enabled_same(s, n, h))) by {
        if 0 <= j <= n {
            assert(q[j] == s[j]);
            assert(q[h] == s[h]);
            if j < n {
                assert(p[j] == s[j]);
                assert(p[h] == s[h]);
            }
        }
    }
}

/// A channel that does not name the channel of `h` leaves its group as it was.
proof fn lemma_group_unchanged(s: Seq<ChannelConfig>, n: int, h: int)
    requires
        0 <= h < n < s.len(),
        !enabled_same(s, n, h),
    ensures
        group_takes_all_services(s.take(n + 1), h) == group_takes_all_services(s.take(n), h),
        forall|x: u16| group_lists_service(s.take(n + 1), h, x) == group_lists_service(s.take(n), h, x),
        forall|x: u16| group_excludes_service(s.take(n + 1), h, x) == group_excludes_service(s.take(n), h, x),
{
    let p = s.take(n);
    let q = s.take(n + 1);
    lemma_same_prefix(s, n, h);
    if group_takes_all_services(q, h) {
        let j = choose|j: int| #[trigger] enabled_same(q, j, h) && q[j].services@.len() == 0;
        assert(enabled_same(p, j, h));
    }
    if group_takes_all_services(p, h) {
        let j = choose|j: int| #[trigger] enabled_same(p, j, h) && p[j].services@.len() == 0;
        assert(enabled_same(q, j, h));
    }
    assert forall|x: u16| group_lists_service(q, h, x) == group_lists_service(p, h, x) by {
        if group_lists_service(q, h, x) {
            let j = choose|j: int| #[trigger] enabled_same(q, j, h) && has_sid(q[j].services@, x);
            assert(enabled_same(p, j, h));
        }
        if group_lists_service(p, h, x) {
            let j = choose|j: int| #[trigger] enabled_same(p, j, h) && has_sid(p[j].services@, x);
            assert(enabled_same(q, j, h));
        }
    }
    assert forall|x: u16| group_excludes_service(q, h, x) == group_excludes_service(p, h, x) by {
        if group_excludes_service(q, h, x) {
            let j = choose|j: int| #[trigger] enabled_same(q, j, h) && has_sid(q[j].excluded_services@, x);
            assert(enabled_same(p, j, h));
        }
        if group_excludes_service(p, h, x) {
            let j = choose|j: int| #[trigger] enabled_same(p, j, h) && has_sid(p[j].excluded_services@, x);
            assert(enabled_same(q, j, h));
        }
    }
}

/// A channel naming the channel of `h` adds its lists to the group.
proof fn lemma_group_extended(s: Seq<ChannelConfig>, n: int, h: int)
    requires
        0 <= h < n < s.len(),
        enabled_same(s, n, h),
    ensures
        group_takes_all_services(s.take(n + 1), h) == (group_takes_all_services(s.take(n), h) || s[n].services@.len() == 0),
        forall|x: u16| group_lists_service(s.take(n + 1), h, x) == (group_lists_service(s.take(n), h, x) || has_sid(s[n].services@, x)),
        forall|x: u16| group_excludes_service(s.take(n + 1), h, x) == (group_excludes_service(s.take(n), h, x) || has_sid(s[n].excluded_services@, x)),
{
    let p = s.take(n);
    let q = s.take(n + 1);
    lemma_same_prefix(s, n, h);
    assert(enabled_same(q, n, h));
    if group_takes_all_services(q, h) {
        let j = choose|j: int| #[trigger] enabled_same(q, j, h) && q[j].services@.len() == 0;
        if j < n {
            assert(enabled_same(p, j, h));
        }
    }
    if group_takes_all_services(p, h) {
        let j = choose|j: int| #[trigger] enabled_same(p, j, h) && p[j].services@.len() == 0;
        assert(enabled_same(q, j, h));
    }
    assert forall|x: u16| group_lists_service(q, h, x) == (group_lists_service(p, h, x) || has_sid(s[n].services@, x)) by {
        if group_lists_service(q, h, x) {
            let j = choose|j: int| #[trigger] enabled_same(q, j, h) && has_sid(q[j].services@, x);
            if j < n {
                assert(enabled_same(p, j, h));
            }
        }
        if group_lists_service(p, h, x) {
            let j = choose|j: int| #[trigger] enabled_same(p, j, h) && has_sid(p[j].services@, x);
            assert(enabled_same(q, j, h));
        }
    }
    assert forall|x: u16| group_excludes_service(q, h, x) == (group_excludes_service(p, h, x) || has_sid(s[n].excluded_services@, x)) by {
        if group_excludes_service(q, h, x) {
            let j = choose|j: int| #[trigger] enabled_same(q, j, h) && has_sid(q[j].excluded_services@, x);
            if j < n {
                assert(enabled_same(p, j, h));
            }
        }
        if group_excludes_service(p, h, x) {
            let j = choose|j: int| #[trigger] enabled_same(p, j, h) && has_sid(p[j].excluded_services@, x);
            assert(enabled_same(q, j, h));
        }
    }
}

/// The first channel naming its channel makes a group of its own.
proof fn lemma_group_new(s: Seq<ChannelConfig>, n: int)
    requires
        is_group_head(s, n),
    ensures
        group_takes_all_services(s.take(n + 1), n) == (s[n].services@.len() == 0),
        forall|x: u16| group_lists_service(s.take(n + 1), n, x) == has_sid(s[n].services@, x),
        forall|x: u16| group_excludes_service(s.take(n + 1), n, x) == has_sid(s[n].excluded_services@, x),
{
    let q = s.take(n + 1);
    assert(q[n] == s[n]);
    assert forall|j: int| #![trigger enabled_same(q, j, n)] enabled_same(q, j, n) == (j == n) by {
        if 0 <= j < n {
            assert(q[j] == s[j]);
            assert(!enabled_same(s, j, n));
        }
    }
    assert(enabled_same(q, n, n));
}

/// Naming the same channel is transitive.
proof fn lemma_same_channel_trans(a: ChannelConfig, b: ChannelConfig, c: ChannelConfig)
    ensures
        a.same_channel(&b) && b.same_channel(&c) ==> a.same_channel(&c),
        a.same_channel(&b) ==> b.same_channel(&a),
{
}

proof fn lemma_raw_unchanged(s: Seq<ChannelConfig>, n: int, h: int, c: ChannelConfig)
    requires
        0 <= h < n < s.len(),
        !enabled_same(s, n, h),
        merged_raw(s.take(n), h, c),
    ensures
        merged_raw(s.take(n + 1), h, c),
{
    reveal(merged_raw);
    lemma_group_unchanged(s, n, h);
    assert(s.take(n)[h] == s[h] && s.take(n + 1)[h] == s[h]);
}

proof fn lemma_raw_new(s: Seq<ChannelConfig>, n: int)
    requires
        is_group_head(s, n),
    ensures
        merged_raw(s.take(n + 1), n, s[n]),
{
    reveal(merged_raw);
    lemma_group_new(s, n);
    assert(s.take(n + 1)[n] == s[n]);
}

proof fn lemma_raw_extended(s: Seq<ChannelConfig>, n: int, h: int, old: ChannelConfig, m: ChannelConfig)
    requires
        0 <= h < n < s.len(),
        enabled_same(s, n, h),
        merged_raw(s.take(n), h, old),
        m.name == old.name,
        m.channel_type == old.channel_type,
        m.channel == old.channel,
        m.extra_args == old.extra_args,
        m.disabled == old.disabled,
        m.services@ == merged_services(old.services@, s[n].services@),
        m.excluded_services@ == old.excluded_services@ + s[n].excluded_services@,
    ensures
        merged_raw(s.take(n + 1), h, m),
{
    reveal(merged_raw);
    lemma_group_extended(s, n, h);
    lemma_has_sid_concat(old.services@, s[n].services@);
    lemma_has_sid_concat(old.excluded_services@, s[n].excluded_services@);
    assert(s.take(n)[h] == s[h] && s.take(n + 1)[h] == s[h]);
}

/// A raw merged channel names the channel of its head.
proof fn lemma_raw_names(s: Seq<ChannelConfig>, h: int, c: ChannelConfig)
    requires
        merged_raw(s, h, c),
    ensures
        c.channel_type == s[h].channel_type,
        c.channel == s[h].channel,
{
    reveal(merged_raw);
}

/// The state of merging the first `n` channels: one raw merged channel per
/// group head, every enabled channel covered, no two naming the same channel.
pub open spec fn merge_state(s: Seq<ChannelConfig>, n: int, norm: Seq<ChannelConfig>) -> bool {
    &&& 0 <= n <= s.len()
    &&& norm.len() == group_heads(s.take(n)).len()
    &&& forall|k: int| 0 <= k < norm.len() ==> merged_raw(s.take(n), group_heads(s.take(n))[k], #[trigger] norm[k])
    &&& forall|j: int| 0 <= j < n && !s[j].disabled ==> exists|k: int| 0 <= k < norm.len()
        && #[trigger] s[j].same_channel(&norm[k])
    &&& forall|k1: int, k2: int| 0 <= k1 < k2 < norm.len() ==> !norm[k1].same_channel(&norm[k2])
}

proof fn lemma_merge_skip(s: Seq<ChannelConfig>, n: int, norm: Seq<ChannelConfig>)
    requires
        merge_state(s, n, norm),
        n < s.len(),
        s[n].disabled,
    ensures
        merge_state(s, n + 1, norm),
{
    let p = s.take(n);
    let q = s.take(n + 1);
    lemma_heads_step(s, n);
    lemma_heads_bounds(p);
    assert(!is_group_head(s, n));
    assert forall|k: int| 0 <= k < norm.len() implies merged_raw(q, group_heads(q)[k], #[trigger] norm[k]) by {
        let h = group_heads(p)[k];
        assert(merged_raw(p, h, norm[k]));
        lemma_raw_unchanged(s, n, h, norm[k]);
    }
}

proof fn lemma_merge_new(s: Seq<ChannelConfig>, n: int, norm: Seq<ChannelConfig>)
    requires
        merge_state(s, n, norm),
        n < s.len(),
        !s[n].disabled,
        forall|k: int| 0 <= k < norm.len() ==> !(#[trigger] norm[k]).same_channel(&s[n]),
    ensures
        merge_state(s, n + 1, norm.push(s[n])),
{
    let p = s.take(n);
    let q = s.take(n + 1);
    let c = s[n];
    let nn = norm.push(c);
    lemma_heads_step(s, n);
    lemma_heads_bounds(p);
    assert forall|j: int| 0 <= j < n implies !#[trigger] enabled_same(s, j, n) by {
        if enabled_same(s, j, n) {
            let k = choose|k: int| 0 <= k < norm.len() && #[trigger] s[j].same_channel(&norm[k]);
            lemma_same_channel_trans(c, s[j], norm[k]);
            lemma_same_channel_trans(s[j], c, norm[k]);
            assert(norm[k].same_channel(&c));
        }
    }
    assert(is_group_head(s, n));
    assert(group_heads(q) == group_heads(p).push(n));
    lemma_raw_new(s, n);
    assert forall|k: int| 0 <= k < nn.len() implies merged_raw(q, group_heads(q)[k], #[trigger] nn[k]) by {
        if k < norm.len() {
            let h = group_heads(p)[k];
            assert(merged_raw(p, h, norm[k]));
            lemma_raw_names(p, h, norm[k]);
            assert(p[h] == s[h]);
            lemma_same_channel_trans(c, s[h], norm[k]);
            lemma_same_channel_trans(norm[k], s[h], c);
            assert(!enabled_same(s, n, h));
            lemma_raw_unchanged(s, n, h, norm[k]);
        }
    }
    assert forall|j: int| 0 <= j < n + 1 && !s[j].disabled implies exists|k: int| 0 <= k < nn.len()
        && #[trigger] s[j].same_channel(&nn[k]) by {
        if j == n {
            assert(s[j].same_channel(&nn[norm.len() as int]));
        } else {
            let k = choose|k: int| 0 <= k < norm.len() && #[trigger] s[j].same_channel(&norm[k]);
            assert(s[j].same_channel(&nn[k]));
        }
    }
    assert forall|k1: int, k2: int| 0 <= k1 < k2 < nn.len() implies !nn[k1].same_channel(&nn[k2]) by {
        if k2 < norm.len() {
            assert(!norm[k1].same_channel(&norm[k2]));
        } else {
            assert(!norm[k1].same_channel(&c));
        }
    }
}

/// The services of a merged channel after one more channel of its group:
/// none (all) when either lists none, else both lists.
pub open spec fn merged_services(old: Seq<Sid>, more: Seq<Sid>) -> Seq<Sid> {
    if old.len() == 0 {
        old
    } else if more.len() == 0 {
        Seq::empty()
    } else {
        old + more
    }
}

proof fn lemma_has_sid_concat(a: Seq<Sid>, b: Seq<Sid>)
    ensures
        forall|x: u16| #![trigger has_sid(a + b, x)] has_sid(a + b, x) == (has_sid(a, x) || has_sid(b, x)),
{
    assert forall|x: u16| #![trigger has_sid(a + b, x)] has_sid(a + b, x) == (has_sid(a, x) || has_sid(b, x)) by {
        if has_sid(a + b, x) {
            let i = choose|i: int| 0 <= i < (a + b).len() && #[trigger] (a + b)[i]@ == x;
            if i < a.len() {
                assert(a[i]@ == x);
            } else {
                assert(b[i - a.len()]@ == x);
            }
        }
        if has_sid(a, x) {
            let i = choose|i: int| 0 <= i < a.len() && #[trigger] a[i]@ == x;
            assert((a + b)[i]@ == x);
        }
        if has_sid(b, x) {
            let i = choose|i: int| 0 <= i < b.len() && #[trigger] b[i]@ == x;
            assert((a + b)[a.len() + i]@ == x);
        }
    }
}

#[verifier::rlimit(80)]
#[verifier::spinoff_prover]
proof fn lemma_merge_into(s: Seq<ChannelConfig>, n: int, norm: Seq<ChannelConfig>, found: int, m: ChannelConfig)
    requires
        merge_state(s, n, norm),
        n < s.len(),
        !s[n].disabled,
        0 <= found < norm.len(),
        norm[found].same_channel(&s[n]),
        m.name == norm[found].name,
        m.channel_type == norm[found].channel_type,
        m.channel == norm[found].channel,
        m.extra_args == norm[found].extra_args,
        m.disabled == norm[found].disabled,
        m.services@ == merged_services(norm[found].services@, s[n].services@),
        m.excluded_services@ == norm[found].excluded_services@ + s[n].excluded_services@,
    ensures
        merge_state(s, n + 1, norm.update(found, m)),
{
    let p = s.take(n);
    let q = s.take(n + 1);
    let c = s[n];
    let nn = norm.update(found, m);
    let hf = group_heads(p)[found];
    lemma_heads_step(s, n);
    lemma_heads_bounds(p);
    assert(merged_raw(p, hf, norm[found]));
    lemma_raw_names(p, hf, norm[found]);
    assert(p[hf] == s[hf]);
    assert(enabled_same(s, hf, n));
    assert(!is_group_head(s, n));
    assert(enabled_same(s, n, hf));
    lemma_raw_extended(s, n, hf, norm[found], m);
    assert forall|k: int| 0 <= k < nn.len() implies merged_raw(q, group_heads(q)[k], #[trigger] nn[k]) by {
        if k != found {
            let h = group_heads(p)[k];
            assert(merged_raw(p, h, norm[k]));
            lemma_raw_names(p, h, norm[k]);
            assert(!norm[k].same_channel(&norm[found]) || !norm[found].same_channel(&norm[k]));
            lemma_same_channel_trans(norm[k], norm[found], c);
            lemma_same_channel_trans(norm[found], norm[k], c);
            lemma_same_channel_trans(c, norm[k], norm[found]);
            assert(p[h] == s[h]);
            assert(!enabled_same(s, n, h));
            lemma_raw_unchanged(s, n, h, norm[k]);
        }
    }
    assert forall|j: int| 0 <= j < n + 1 && !s[j].disabled implies exists|k: int| 0 <= k < nn.len()
        && #[trigger] s[j].same_channel(&nn[k]) by {
        if j == n {
            assert(s[j].same_channel(&nn[found]));
        } else {
            let k = choose|k: int| 0 <= k < norm.len() && #[trigger] s[j].same_channel(&norm[k]);
            assert(s[j].same_channel(&nn[k]));
        }
    }
    assert forall|k1: int, k2: int| 0 <= k1 < k2 < nn.len() implies !nn[k1].same_channel(&nn[k2]) by {
        assert(!norm[k1].same_channel(&norm[k2]));
    }
}

impl ChannelConfig {
    /// Removes disabled channels and merges the channels naming the same
    /// channel (the same type and channel) into the first of them: the result
    /// holds one channel per distinct channel, in the order of their first
    /// enabled occurrence, each merged as `merged` says.
    pub fn normalize(channels: Vec<ChannelConfig>) -> (r: Vec<ChannelConfig>)
        ensures
            r@.len() == group_heads(channels@).len(),
            forall|k: int| 0 <= k < r@.len() ==> merged(channels@, group_heads(channels@)[k], #[trigger] r@[k]),
    {
        let ghost s = channels@;
        let total = channels.len();
        let mut rest = channels;
        let mut normalized: Vec<ChannelConfig> = Vec::new();
        let mut n: usize = 0;
        proof {
            assert(s.skip(0) =~= s);
            assert(s.take(0) =~= Seq::<ChannelConfig>::empty());
        }
        while rest.len() > 0
            invariant
                n <= s.len(),
                s.len() == total,
                rest@ == s.skip(n as int),
                merge_state(s, n as int, normalized@),
            decreases rest@.len(),
        {
            proof {
                assert(s.skip(n as int)[0] == s[n as int]);
                assert(s.skip(n as int).remove(0) =~= s.skip(n as int + 1));
            }
            let mut channel = rest.remove(0);
            if channel.disabled {
                proof { lemma_merge_skip(s, n as int, normalized@); }
            } else {
                let mut k: usize = 0;
                while k < normalized.len() && !normalized[k].is_same_channel(&channel)
                    invariant
                        k <= normalized@.len(),
                        forall|k2: int| 0 <= k2 < k ==> !(#[trigger] normalized@[k2]).same_channel(&channel),
                    decreases normalized@.len() - k,
                {
                    k = k + 1;
                }
                if k < normalized.len() {
                    let ghost old_norm = normalized@;
                    let mut m = normalized.remove(k);
                    if m.services.len() == 0 {
                        // Collect all services.
                    } else if channel.services.len() == 0 {
                        // Collect all services.
                        m.services = Vec::new();
                    } else {
                        m.services.append(&mut channel.services);
                    }
                    m.excluded_services.append(&mut channel.excluded_services);
                    normalized.insert(k, m);
                    proof {
                        assert(normalized@ =~= old_norm.update(k as int, m));
                        lemma_merge_into(s, n as int, old_norm, k as int, m);
                    }
                } else {
                    proof { lemma_merge_new(s, n as int, normalized@); }
                    normalized.push(channel);
                }
            }
            n = n + 1;
        }
        proof {
            assert(s.take(n as int) =~= s);
        }
        let mut result: Vec<ChannelConfig> = Vec::new();
        let mut rest2 = normalized;
        let ghost heads = group_heads(s);
        while rest2.len() > 0
            invariant
                result@.len() + rest2@.len() == heads.len(),
                heads == group_heads(s),
                forall|k: int| 0 <= k < rest2@.len() ==> merged_raw(s, heads[result@.len() + k], #[trigger] rest2@[k]),
                forall|k: int| 0 <= k < result@.len() ==> merged(s, heads[k], #[trigger] result@[k]),
            decreases rest2@.len(),
        {
            let ghost i = result@.len();
            let ghost old_rest = rest2@;
            let mut channel = rest2.remove(0);
            assert(merged_raw(s, heads[i as int], channel)) by {
                assert(old_rest[0] == channel);
            }
            let services = sorted_unique_sids(&channel.services);
            let excluded = sorted_unique_sids(&channel.excluded_services);
            channel.services = services;
            channel.excluded_services = excluded;
            proof { reveal(merged_raw); }
            result.push(channel);
            assert forall|k: int| 0 <= k < rest2@.len() implies merged_raw(s, heads[result@.len() + k], #[trigger] rest2@[k]) by {
                assert(rest2@[k] == old_rest[k + 1]);
            }
        }
        result
    }
}

impl Default for Config {
    /// The default configuration: default sections and no channels, tuners,
    /// pre-filters, post-filters or trackers.
    fn default() -> (r: Self)
        ensures
            r.epg.cache_dir is None,
            r.server.addrs@.len() == 1,
            r.channels@.len() == 0,
            r.tuners@.len() == 0,
            r.pre_filters@.len() == 0,
            r.post_filters@.len() == 0,
            r.recording.basedir is None,
            r.timeshift.recorders@.len() == 0,
            r.onair_program_trackers@.len() == 0,
            r.resource.strings_yaml@ == default_strings_yaml(),
            r.resource.logos@.len() == 0,
    {
        Config::default_config()
    }
}

impl Default for ServerConfig {
    fn default() -> (r: Self)
        ensures
            r.addrs@.len() == 1,
            r.addrs@[0] matches ServerAddr::Http(a) && a@ == "localhost:40772"@,
            r.stream_max_chunks == 1000,
            r.stream_chunk_size == 4096 * 8,
            r.stream_time_limit == 16 * 1000,
            r.program_stream_max_start_delay is None,
            r.mounts@.len() == 0,
            r.folder_view_template_path is None,
    {
        Self::default_config()
    }
}

impl Default for TunerConfig {
    fn default() -> (r: Self)
        ensures
            r.name@.len() == 0,
            r.channel_types@.len() == 0,
            r.command@.len() == 0,
            r.time_limit == 30 * 1000,
            !r.disabled,
            !r.decoded,
    {
        Self::default_config()
    }
}

impl Default for FiltersConfig {
    fn default() -> (r: Self)
        ensures
            r.tuner_filter.command@.len() == 0,
            r.service_filter.command@ == default_service_filter_command(),
            r.program_filter.command@ == default_program_filter_command(),
            r.decode_filter.command@.len() == 0,
    {
        Self::default_config()
    }
}

impl Default for JobsConfig {
    fn default() -> (r: Self)
        ensures
            r.scan_services.command@ == default_scan_services_command(),
            r.scan_services.schedule@ == default_scan_services_schedule(),
            !r.scan_services.disabled,
            r.sync_clocks.command@ == default_sync_clocks_command(),
            r.sync_clocks.schedule@ == default_sync_clocks_schedule(),
            !r.sync_clocks.disabled,
            r.update_schedules.command@ == default_update_schedules_command(),
            r.update_schedules.schedule@ == default_update_schedules_schedule(),
            !r.update_schedules.disabled,
    {
        Self::default_config()
    }
}

impl Default for TimeshiftConfig {
    fn default() -> (r: Self)
        ensures
            r.command@ == default_timeshift_command(),
            r.recorders@.len() == 0,
    {
        Self::default_config()
    }
}

impl Default for ResourceConfig {
    fn default() -> (r: Self)
        ensures
            r.strings_yaml@ == default_strings_yaml(),
            r.logos@.len() == 0,
    {
        Self::default_config()
    }
}

impl Default for ServerAddr {
    fn default() -> (r: Self)
        ensures
            r matches ServerAddr::Http(a) && a@ == "localhost:40772"@,
    {
        ServerAddr::default_addr()
    }
}

impl Config {
    /// Normalizes the channels (see `ChannelConfig::normalize`) and the jobs
    /// (see `JobsConfig::normalize`); the rest is kept as it is.
    pub fn normalize(self) -> (r: Config)
        ensures
            r.channels@.len() == group_heads(self.channels@).len(),
            forall|k: int| 0 <= k < r.channels@.len() ==> merged(self.channels@, group_heads(self.channels@)[k], #[trigger] r.channels@[k]),
            normalized_job(self.jobs.scan_services, default_scan_services_command(), default_scan_services_schedule(), r.jobs.scan_services),
            normalized_job(self.jobs.sync_clocks, default_sync_clocks_command(), default_sync_clocks_schedule(), r.jobs.sync_clocks),
            normalized_job(self.jobs.update_schedules, default_update_schedules_command(), default_update_schedules_schedule(), r.jobs.update_schedules),
            r.epg == self.epg,
            r.server == self.server,
            r.tuners == self.tuners,
            r.filters == self.filters,
            r.pre_filters == self.pre_filters,
            r.post_filters == self.post_filters,
            r.recording == self.recording,
            r.timeshift == self.timeshift,
            r.onair_program_trackers == self.onair_program_trackers,
            r.resource == self.resource,
    {
        let Config {
            epg,
            server,
            channels,
            tuners,
            filters,
            pre_filters,
            post_filters,
            jobs,
            recording,
            timeshift,
            onair_program_trackers,
            resource,
        } = self;
        Config {
            epg,
            server,
            channels: ChannelConfig::normalize(channels),
            tuners,
            filters,
            pre_filters,
            post_filters,
            jobs: jobs.normalize(),
            recording,
            timeshift,
            onair_program_trackers,
            resource,
        }
    }

    /// The default configuration: default sections and no channels, tuners,
    /// pre-filters, post-filters or trackers.
    pub fn default_config() -> (r: Config)
        ensures
            r.epg.cache_dir is None,
            r.server.addrs@.len() == 1,
            r.server.stream_time_limit == 16 * 1000,
            r.channels@.len() == 0,
            r.tuners@.len() == 0,
            r.filters.service_filter.command@ == default_service_filter_command(),
            r.filters.program_filter.command@ == default_program_filter_command(),
            r.pre_filters@.len() == 0,
            r.post_filters@.len() == 0,
            r.jobs.scan_services.command@ == default_scan_services_command(),
            r.jobs.sync_clocks.command@ == default_sync_clocks_command(),
            r.jobs.update_schedules.command@ == default_update_schedules_command(),
            r.recording.basedir is None,
            r.timeshift.command@ == default_timeshift_command(),
            r.timeshift.recorders@.len() == 0,
            r.onair_program_trackers@.len() == 0,
            r.resource.strings_yaml@ == default_strings_yaml(),
            r.resource.logos@.len() == 0,
    {
        Config {
            epg: EpgConfig { cache_dir: None },
            server: ServerConfig::default_config(),
            channels: Vec::new(),
            tuners: Vec::new(),
            filters: FiltersConfig::default_config(),
            pre_filters: Vec::new(),
            post_filters: Vec::new(),
            jobs: JobsConfig::default_config(),
            recording: RecordingConfig { basedir: None },
            timeshift: TimeshiftConfig::default_config(),
            onair_program_trackers: Vec::new(),
            resource: ResourceConfig::default_config(),
        }
    }
}

} // verus!
