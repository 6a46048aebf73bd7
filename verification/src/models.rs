//! Identifiers and data models shared across the library, including the
//! Mirakurun-compatible models.
use vstd::prelude::*;

use crate::config::ResourceConfig;
use crate::epg::{AudioComponentDescriptor, EpgProgram, EventGroupDescriptor, SeriesDescriptor};
use crate::text::{decimal, hex_fixed, signed_decimal, to_decimal, to_hex_fixed, to_signed_decimal};

verus! {

/// A type of broadcasting channels.
#[derive(Clone, Copy, Debug, PartialEq, Eq, Hash, Structural)]
pub enum ChannelType {
    GR,
    BS,
    CS,
    SKY,
}

/// The label of a channel type.
pub open spec fn channel_type_label(t: ChannelType) -> Seq<char> {
    match t {
        ChannelType::GR => seq!['G', 'R'],
        ChannelType::BS => seq!['B', 'S'],
        ChannelType::CS => seq!['C', 'S'],
        ChannelType::SKY => seq!['S', 'K', 'Y'],
    }
}

impl ChannelType {
    /// The label of the channel type ("GR", "BS", "CS" or "SKY").
    pub fn to_string(&self) -> (s: String)
        ensures
            s@ == channel_type_label(*self),
    {
        match self {
            ChannelType::GR => {
                proof { reveal_strlit("GR"); }
                String::from_str("GR")
            },
            ChannelType::BS => {
                proof { reveal_strlit("BS"); }
                String::from_str("BS")
            },
            ChannelType::CS => {
                proof { reveal_strlit("CS"); }
                String::from_str("CS")
            },
            ChannelType::SKY => {
                proof { reveal_strlit("SKY"); }
                String::from_str("SKY")
            },
        }
    }
}

/// Builds a string from a literal prefix followed by a rendering.
fn prefixed(prefix: &str, rest: String) -> (s: String)
    ensures
        s@ == prefix@ + rest@,
{
    let mut s = String::from_str(prefix);
    s.append(rest.as_str());
    s
}

/// The original network identifier.
#[derive(Clone, Copy, Debug, PartialEq, Eq, Hash, Structural)]
pub struct Nid(u16);

impl View for Nid {
    type V = u16;

    closed spec fn view(&self) -> u16 {
        self.0
    }
}

impl Nid {
    pub fn value(&self) -> (v: u16)
        ensures
            v == self@,
    {
        self.0
    }

    /// "NID#" followed by the value in 4 upper-case hexadecimal digits.
    pub fn to_string(&self) -> (s: String)
        ensures
            s@ == seq!['N', 'I', 'D', '#'] + hex_fixed(self@ as nat, 4),
    {
        proof { reveal_strlit("NID#"); }
        prefixed("NID#", to_hex_fixed(self.0 as u64, 4))
    }
}

impl From<u16> for Nid {
    fn from(value: u16) -> (r: Self)
        ensures
            r@ == value,
    {
        Nid(value)
    }
}

impl vstd::std_specs::convert::FromSpecImpl<u16> for Nid {
    open spec fn obeys_from_spec() -> bool {
        true
    }

    closed spec fn from_spec(v: u16) -> Self {
        Nid(v)
    }
}

/// The transport stream identifier.
#[derive(Clone, Copy, Debug, PartialEq, Eq, Hash, Structural)]
pub struct Tsid(u16);

impl View for Tsid {
    type V = u16;

    closed spec fn view(&self) -> u16 {
        self.0
    }
}

impl Tsid {
    pub fn value(&self) -> (v: u16)
        ensures
            v == self@,
    {
        self.0
    }

    /// "TSID#" followed by the value in 4 upper-case hexadecimal digits.
    pub fn to_string(&self) -> (s: String)
        ensures
            s@ == seq!['T', 'S', 'I', 'D', '#'] + hex_fixed(self@ as nat, 4),
    {
        proof { reveal_strlit("TSID#"); }
        prefixed("TSID#", to_hex_fixed(self.0 as u64, 4))
    }
}

impl From<u16> for Tsid {
    fn from(value: u16) -> (r: Self)
        ensures
            r@ == value,
    {
        Tsid(value)
    }
}

impl vstd::std_specs::convert::FromSpecImpl<u16> for Tsid {
    open spec fn obeys_from_spec() -> bool {
        true
    }

    closed spec fn from_spec(v: u16) -> Self {
        Tsid(v)
    }
}

/// The service identifier within a network.
#[derive(Clone, Copy, Debug, PartialEq, Eq, PartialOrd, Ord, Hash, Structural)]
pub struct Sid(u16);

impl View for Sid {
    type V = u16;

    closed spec fn view(&self) -> u16 {
        self.0
    }
}

impl Sid {
    pub fn value(&self) -> (v: u16)
        ensures
            v == self@,
    {
        self.0
    }

    /// "SID#" followed by the value in 4 upper-case hexadecimal digits.
    pub fn to_string(&self) -> (s: String)
        ensures
            s@ == seq!['S', 'I', 'D', '#'] + hex_fixed(self@ as nat, 4),
    {
        proof { reveal_strlit("SID#"); }
        prefixed("SID#", to_hex_fixed(self.0 as u64, 4))
    }
}

impl From<u16> for Sid {
    fn from(value: u16) -> (r: Self)
        ensures
            r@ == value,
    {
        Sid(value)
    }
}

impl vstd::std_specs::convert::FromSpecImpl<u16> for Sid {
    open spec fn obeys_from_spec() -> bool {
        true
    }

    closed spec fn from_spec(v: u16) -> Self {
        Sid(v)
    }
}

/// The event identifier within a service.
#[derive(Clone, Copy, Debug, PartialEq, Eq, Hash, Structural)]
pub struct Eid(u16);

impl View for Eid {
    type V = u16;

    closed spec fn view(&self) -> u16 {
        self.0
    }
}

impl Eid {
    pub fn value(&self) -> (v: u16)
        ensures
            v == self@,
    {
        self.0
    }

    /// "EID#" followed by the value in 4 upper-case hexadecimal digits.
    pub fn to_string(&self) -> (s: String)
        ensures
            s@ == seq!['E', 'I', 'D', '#'] + hex_fixed(self@ as nat, 4),
    {
        proof { reveal_strlit("EID#"); }
        prefixed("EID#", to_hex_fixed(self.0 as u64, 4))
    }
}

/// Event identifiers are equal exactly when their values are.
pub proof fn lemma_eid_view_injective(a: Eid, b: Eid)
    ensures
        (a@ == b@) == (a == b),
{
}

impl From<u16> for Eid {
    fn from(value: u16) -> (r: Self)
        ensures
            r@ == value,
    {
        Eid(value)
    }
}

impl vstd::std_specs::convert::FromSpecImpl<u16> for Eid {
    open spec fn obeys_from_spec() -> bool {
        true
    }

    closed spec fn from_spec(v: u16) -> Self {
        Eid(v)
    }
}

/// The factor that combines identifiers into a Mirakurun-compatible number.
pub const ID_MAGIC_NUMBER: u64 = 100_000;

/// A service identifier compatible with Mirakurun: `nid * 100000 + sid`.
#[derive(Clone, Copy, Debug, PartialEq, Eq, Hash, Structural)]
pub struct ServiceId(u64);

impl View for ServiceId {
    type V = u64;

    closed spec fn view(&self) -> u64 {
        self.0
    }
}

/// The number that identifies the service `sid` in the network `nid`.
pub open spec fn service_id_value(nid: u16, sid: u16) -> int {
    nid * 100_000 + sid
}

impl ServiceId {
    pub fn new(nid: Nid, sid: Sid) -> (r: Self)
        ensures
            r@ == service_id_value(nid@, sid@),
    {
        ServiceId(nid.value() as u64 * ID_MAGIC_NUMBER + sid.value() as u64)
    }

    pub fn value(&self) -> (v: u64)
        ensures
            v == self@,
    {
        self.0
    }

    pub fn nid(&self) -> (r: Nid)
        ensures
            r@ == (self@ / 100_000) as u16,
    {
        Nid::from((self.value() / ID_MAGIC_NUMBER) as u16)
    }

    pub fn sid(&self) -> (r: Sid)
        ensures
            r@ == (self@ % 100_000) as u16,
    {
        Sid::from((self.value() % ID_MAGIC_NUMBER) as u16)
    }

    /// The value in decimal.
    pub fn to_string(&self) -> (s: String)
        ensures
            s@ == decimal(self@ as nat),
    {
        to_decimal(self.0)
    }

    /// The service identifier of a value.
    pub closed spec fn of_value(v: u64) -> ServiceId {
        ServiceId(v)
    }

    /// The identifier of a value is the one with that value.
    pub proof fn lemma_of_value(id: ServiceId)
        ensures
            ServiceId::of_value(id@) == id,
            forall|v: u64| #[trigger] ServiceId::of_value(v)@ == v,
    {
    }

    /// The service identifier of a program identifier.
    pub open spec fn spec_from_program(program_id: ProgramId) -> ServiceId {
        ServiceId::of_value((program_id@ / 100_000) as u64)
    }

    /// The service identifier embedded in a program identifier.
    pub fn from_program_id(program_id: ProgramId) -> (r: Self)
        ensures
            r@ == program_id@ / 100_000,
            r == ServiceId::spec_from_program(program_id),
    {
        ServiceId(program_id.value() / ID_MAGIC_NUMBER)
    }
}

impl From<u64> for ServiceId {
    fn from(v: u64) -> (r: Self)
        ensures
            r@ == v,
    {
        ServiceId(v)
    }
}

impl vstd::std_specs::convert::FromSpecImpl<u64> for ServiceId {
    open spec fn obeys_from_spec() -> bool {
        true
    }

    closed spec fn from_spec(v: u64) -> Self {
        ServiceId(v)
    }
}

/// A program identifier compatible with Mirakurun:
/// `nid * 100000 * 100000 + sid * 100000 + eid`.
#[derive(Clone, Copy, Debug, PartialEq, Eq, Hash, Structural)]
pub struct ProgramId(u64);

impl View for ProgramId {
    type V = u64;

    closed spec fn view(&self) -> u64 {
        self.0
    }
}

/// The number that identifies the event `eid` of the service `sid` in the
/// network `nid`.
pub open spec fn program_id_value(nid: u16, sid: u16, eid: u16) -> int {
    nid * 100_000 * 100_000 + sid * 100_000 + eid
}

impl ProgramId {
    pub fn new(nid: Nid, sid: Sid, eid: Eid) -> (r: Self)
        ensures
            r@ == program_id_value(nid@, sid@, eid@),
    {
        ProgramId(
            nid.value() as u64 * ID_MAGIC_NUMBER * ID_MAGIC_NUMBER + sid.value() as u64
                * ID_MAGIC_NUMBER + eid.value() as u64,
        )
    }

    /// The program identifier of the event `eid` of a service.
    pub fn from_service_id(service_id: ServiceId, eid: Eid) -> (r: Self)
        requires
            service_id@ * 100_000 + eid@ <= u64::MAX,
        ensures
            r@ == service_id@ * 100_000 + eid@,
    {
        ProgramId(service_id.value() * ID_MAGIC_NUMBER + eid.value() as u64)
    }

    pub fn value(&self) -> (v: u64)
        ensures
            v == self@,
    {
        self.0
    }

    pub fn nid(&self) -> (r: Nid)
        ensures
            r@ == (self@ / 10_000_000_000u64) as u16,
    {
        Nid::from((self.value() / (ID_MAGIC_NUMBER * ID_MAGIC_NUMBER)) as u16)
    }

    pub fn sid(&self) -> (r: Sid)
        ensures
            r@ == ((self@ / 100_000) % 100_000) as u16,
    {
        Sid::from(((self.value() / ID_MAGIC_NUMBER) % ID_MAGIC_NUMBER) as u16)
    }

    pub fn eid(&self) -> (r: Eid)
        ensures
            r@ == (self@ % 100_000) as u16,
    {
        Eid::from((self.value() % ID_MAGIC_NUMBER) as u16)
    }

    /// The value in decimal.
    pub fn to_string(&self) -> (s: String)
        ensures
            s@ == decimal(self@ as nat),
    {
        to_decimal(self.0)
    }
}

impl From<u64> for ProgramId {
    fn from(v: u64) -> (r: Self)
        ensures
            r@ == v,
    {
        ProgramId(v)
    }
}

impl vstd::std_specs::convert::FromSpecImpl<u64> for ProgramId {
    open spec fn obeys_from_spec() -> bool {
        true
    }

    closed spec fn from_spec(v: u64) -> Self {
        ProgramId(v)
    }
}

/// A service identifier gives back the network and service identifiers it
/// was made from, and it fits in a JavaScript number (at most 2^53 - 1).
pub proof fn lemma_service_id_roundtrip(nid: u16, sid: u16)
    ensures
        service_id_value(nid, sid) <= 0x1F_FFFF_FFFF_FFFF,
        (service_id_value(nid, sid) / 100_000) as u16 == nid,
        (service_id_value(nid, sid) % 100_000) as u16 == sid,
{
    assert(service_id_value(nid, sid) / 100_000 == nid) by (nonlinear_arith)
        requires
            sid < 100_000,
    ;
    assert(service_id_value(nid, sid) % 100_000 == sid) by (nonlinear_arith)
        requires
            sid < 100_000,
    ;
    assert(service_id_value(nid, sid) <= 0x1F_FFFF_FFFF_FFFF) by (nonlinear_arith)
        requires
            nid <= 65535,
            sid <= 65535,
    ;
}

/// A program identifier gives back the network, service and event
/// identifiers it was made from, its service identifier is the one of the
/// network and service, and it fits in a JavaScript number (at most 2^53 - 1).
pub proof fn lemma_program_id_roundtrip(nid: u16, sid: u16, eid: u16)
    ensures
        program_id_value(nid, sid, eid) <= 0x1F_FFFF_FFFF_FFFF,
        (program_id_value(nid, sid, eid) / 10_000_000_000int) as u16 == nid,
        ((program_id_value(nid, sid, eid) / 100_000) % 100_000) as u16 == sid,
        (program_id_value(nid, sid, eid) % 100_000) as u16 == eid,
        program_id_value(nid, sid, eid) / 100_000 == service_id_value(nid, sid),
        program_id_value(nid, sid, eid) == service_id_value(nid, sid) * 100_000 + eid,
{
    let p = program_id_value(nid, sid, eid);
    let s = service_id_value(nid, sid);
    assert(p == s * 100_000 + eid) by (nonlinear_arith)
        requires
            p == nid * 100_000 * 100_000 + sid * 100_000 + eid,
            s == nid * 100_000 + sid,
    ;
    assert(p / 100_000 == s) by (nonlinear_arith)
        requires
            p == s * 100_000 + eid,
            eid < 100_000,
    ;
    assert(p % 100_000 == eid) by (nonlinear_arith)
        requires
            p == s * 100_000 + eid,
            eid < 100_000,
            s >= 0,
    ;
    lemma_service_id_roundtrip(nid, sid);
    assert(p / 10_000_000_000int == nid) by (nonlinear_arith)
        requires
            p == s * 100_000 + eid,
            s == nid * 100_000 + sid,
            eid < 100_000,
            sid < 100_000,
    ;
    assert(p <= 0x1F_FFFF_FFFF_FFFF) by (nonlinear_arith)
        requires
            p == nid * 100_000 * 100_000 + sid * 100_000 + eid,
            nid <= 65535,
            sid <= 65535,
            eid <= 65535,
    ;
}

/// A PCR value and the UNIX time (in milliseconds) it corresponds to.
#[derive(Clone, Copy, Debug)]
pub struct Clock {
    /// PID of PCR packets.
    pub pid: u16,
    /// 27MHz, 42bits PCR value corresponding to the time.
    pub pcr: i64,
    /// UNIX time in milliseconds.
    pub time: i64,
}

/// A genre of a TV program.
#[derive(Clone, Debug, PartialEq, Eq, Structural)]
pub struct EpgGenre {
    pub lv1: u8,
    pub lv2: u8,
    pub un1: u8,
    pub un2: u8,
}

impl EpgGenre {
    pub fn new(nibble: (u8, u8, u8, u8)) -> (r: EpgGenre)
        ensures
            r == (EpgGenre { lv1: nibble.0, lv2: nibble.1, un1: nibble.2, un2: nibble.3 }),
    {
        let (lv1, lv2, un1, un2) = nibble;
        EpgGenre { lv1, lv2, un1, un2 }
    }
}

// user

/// Who uses a tuner.
#[derive(Clone, Debug, PartialEq, Eq)]
pub enum TunerUserInfo {
    Job { name: String },
    OnairProgramTracker(String),
    Recorder { name: String },
    Web { id: String, agent: Option<String> },
}

/// How long a user of a tuner may stay stuck, in seconds.
pub open spec fn max_stuck_time_secs(info: TunerUserInfo) -> u64 {
    match info {
        TunerUserInfo::Web { .. } => 1,
        _ => 5,
    }
}

/// The (id, agent) pair that identifies a user in the Mirakurun model.
pub open spec fn mirakurun_user_model(info: TunerUserInfo) -> (Seq<char>, Option<Seq<char>>) {
    match info {
        TunerUserInfo::Job { name } => ("job:"@ + name@, None),
        TunerUserInfo::OnairProgramTracker(name) => ("onair-program-tracker:"@ + name@, None),
        TunerUserInfo::Recorder { name } => ("recorder:"@ + name@, None),
        TunerUserInfo::Web { id, agent } => (id@, match agent {
            Some(a) => Some(a@),
            None => None,
        }),
    }
}

/// The label of a user of a tuner.
pub open spec fn tuner_user_info_label(info: TunerUserInfo) -> Seq<char> {
    match info {
        TunerUserInfo::Job { name } => "Job("@ + name@ + ")"@,
        TunerUserInfo::OnairProgramTracker(name) => "OnairProgramTracker("@ + name@ + ")"@,
        TunerUserInfo::Recorder { name } => "Recorder("@ + name@ + ")"@,
        TunerUserInfo::Web { id, agent: None } => "Web(id=\""@ + id@ + "\")"@,
        TunerUserInfo::Web { id, agent: Some(agent) } => "Web(id=\""@ + id@ + "\" agent=\""@
            + agent@ + "\")"@,
    }
}

fn concat2(a: &str, b: &str) -> (s: String)
    ensures
        s@ == a@ + b@,
{
    let mut s = String::from_str(a);
    s.append(b);
    s
}

fn concat3(a: &str, b: &str, c: &str) -> (s: String)
    ensures
        s@ == a@ + b@ + c@,
{
    let mut s = String::from_str(a);
    s.append(b);
    s.append(c);
    s
}

impl TunerUserInfo {
    /// Whether the user holds a tuner only for a short term (used for
    /// suppressing noisy logs).
    pub fn is_short_term_user(&self) -> (r: bool)
        ensures
            r == (self is OnairProgramTracker),
    {
        match self {
            Self::OnairProgramTracker(_) => true,
            _ => false,
        }
    }

    /// How long the user may stay stuck, in seconds.
    pub fn max_stuck_time(&self) -> (r: u64)
        ensures
            r == max_stuck_time_secs(*self),
    {
        match self {
            Self::Web { .. } => 1,
            _ => 5,
        }
    }

    /// The (id, agent) pair of the Mirakurun model of the user.
    pub fn get_mirakurun_model(&self) -> (r: (String, Option<String>))
        ensures
            r.0@ == mirakurun_user_model(*self).0,
            match r.1 {
                Some(a) => mirakurun_user_model(*self).1 == Some(a@),
                None => mirakurun_user_model(*self).1 is None,
            },
    {
        match self {
            Self::Job { name } => (concat2("job:", name.as_str()), None),
            Self::OnairProgramTracker(name) => (concat2("onair-program-tracker:", name.as_str()), None),
            Self::Recorder { name } => (concat2("recorder:", name.as_str()), None),
            Self::Web { id, agent } => (id.clone(), match agent {
                Some(a) => Some(a.clone()),
                None => None,
            }),
        }
    }

    /// The label of the user, such as `Job(name)` or `Web(id="id")`.
    pub fn to_string(&self) -> (s: String)
        ensures
            s@ == tuner_user_info_label(*self),
    {
        match self {
            Self::Job { name } => concat3("Job(", name.as_str(), ")"),
            Self::OnairProgramTracker(name) => concat3("OnairProgramTracker(", name.as_str(), ")"),
            Self::Recorder { name } => concat3("Recorder(", name.as_str(), ")"),
            Self::Web { id, agent: None } => concat3("Web(id=\"", id.as_str(), "\")"),
            Self::Web { id, agent: Some(agent) } => {
                let mut s = concat3("Web(id=\"", id.as_str(), "\" agent=\"");
                s.append(agent.as_str());
                s.append("\")");
                s
            },
        }
    }
}

/// The lowest priority of a tuner user.
pub const TUNER_USER_PRIORITY_MIN: i32 = -128;

/// The highest priority of a tuner user; it grabs a tuner from any other user.
pub const TUNER_USER_PRIORITY_MAX: i32 = 128;

/// The priority of a tuner user, within [-128, 128].
#[derive(Clone, Copy, Debug, PartialEq, Eq, PartialOrd, Ord, Structural)]
pub struct TunerUserPriority(i32);

impl View for TunerUserPriority {
    type V = i32;

    closed spec fn view(&self) -> i32 {
        self.0
    }
}

/// `value` clamped into [-128, 128].
pub open spec fn clamp_priority(value: i32) -> i32 {
    if value < TUNER_USER_PRIORITY_MIN {
        TUNER_USER_PRIORITY_MIN
    } else if value > TUNER_USER_PRIORITY_MAX {
        TUNER_USER_PRIORITY_MAX
    } else {
        value
    }
}

impl TunerUserPriority {
    pub const MIN: i32 = TUNER_USER_PRIORITY_MIN;
    pub const MAX: i32 = TUNER_USER_PRIORITY_MAX;

    /// The priority that grabs a tuner.
    pub fn grab() -> (r: Self)
        ensures
            r@ == TUNER_USER_PRIORITY_MAX,
    {
        TunerUserPriority(TUNER_USER_PRIORITY_MAX)
    }

    pub fn is_grab(&self) -> (r: bool)
        ensures
            r == (self@ == TUNER_USER_PRIORITY_MAX),
    {
        self.0 == TUNER_USER_PRIORITY_MAX
    }

    pub fn value(&self) -> (v: i32)
        ensures
            v == self@,
    {
        self.0
    }

    /// The priority in decimal.
    pub fn to_string(&self) -> (s: String)
        ensures
            s@ == signed_decimal(self@ as int),
    {
        to_signed_decimal(self.0 as i64)
    }
}

impl Default for TunerUserPriority {
    fn default() -> (r: Self)
        ensures
            r@ == 0,
    {
        TunerUserPriority(0)
    }
}

impl From<i32> for TunerUserPriority {
    fn from(value: i32) -> (r: Self)
        ensures
            r@ == clamp_priority(value),
    {
        if value < TUNER_USER_PRIORITY_MIN {
            TunerUserPriority(TUNER_USER_PRIORITY_MIN)
        } else if value > TUNER_USER_PRIORITY_MAX {
            TunerUserPriority(TUNER_USER_PRIORITY_MAX)
        } else {
            TunerUserPriority(value)
        }
    }
}

impl vstd::std_specs::convert::FromSpecImpl<i32> for TunerUserPriority {
    open spec fn obeys_from_spec() -> bool {
        true
    }

    closed spec fn from_spec(v: i32) -> Self {
        TunerUserPriority(clamp_priority(v))
    }
}

/// Every priority lies in [-128, 128], and a priority within that range is
/// kept as it is.
pub proof fn lemma_priority_clamp(value: i32)
    ensures
        TUNER_USER_PRIORITY_MIN <= clamp_priority(value) <= TUNER_USER_PRIORITY_MAX,
        TUNER_USER_PRIORITY_MIN <= value <= TUNER_USER_PRIORITY_MAX ==> clamp_priority(value)
            == value,
        clamp_priority(clamp_priority(value)) == clamp_priority(value),
{
}

/// A user of a tuner with its priority.
#[derive(Clone, Debug)]
pub struct TunerUser {
    pub info: TunerUserInfo,
    pub priority: TunerUserPriority,
}

impl TunerUser {
    pub fn is_short_term_user(&self) -> (r: bool)
        ensures
            r == (self.info is OnairProgramTracker),
    {
        self.info.is_short_term_user()
    }

    /// How long the user may stay stuck, in seconds.
    pub fn max_stuck_time(&self) -> (r: u64)
        ensures
            r == max_stuck_time_secs(self.info),
    {
        self.info.max_stuck_time()
    }

    pub fn get_mirakurun_model(&self) -> (r: MirakurunTunerUser)
        ensures
            r.id@ == mirakurun_user_model(self.info).0,
            match r.agent {
                Some(a) => mirakurun_user_model(self.info).1 == Some(a@),
                None => mirakurun_user_model(self.info).1 is None,
            },
            r.priority == self.priority@,
    {
        let (id, agent) = self.info.get_mirakurun_model();
        MirakurunTunerUser { id, agent, priority: self.priority.value() }
    }

    /// `<info> (priority=<priority>)`.
    pub fn to_string(&self) -> (s: String)
        ensures
            s@ == tuner_user_info_label(self.info) + " (priority="@ + signed_decimal(
                self.priority@ as int,
            ) + ")"@,
    {
        let mut s = self.info.to_string();
        s.append(" (priority=");
        let p = self.priority.to_string();
        s.append(p.as_str());
        s.append(")");
        s
    }
}

/// The identifier of a timeshift record: the lower 32 bits of the UNIX time
/// (in seconds) it was created at.
#[derive(Clone, Copy, Debug, PartialEq, Eq, Hash, Structural)]
pub struct TimeshiftRecordId(u32);

impl View for TimeshiftRecordId {
    type V = u32;

    closed spec fn view(&self) -> u32 {
        self.0
    }
}

impl TimeshiftRecordId {
    pub fn value(&self) -> (v: u32)
        ensures
            v == self@,
    {
        self.0
    }

    /// The value in 8 upper-case hexadecimal digits.
    pub fn to_string(&self) -> (s: String)
        ensures
            s@ == hex_fixed(self@ as nat, 8),
    {
        to_hex_fixed(self.0 as u64, 8)
    }

    /// The record ID made from a UNIX timestamp: its lower 32 bits.
    pub fn from_timestamp(timestamp: i64) -> (r: Self)
        ensures
            r@ == timestamp as u32,
    {
        TimeshiftRecordId(timestamp as u32)
    }
}

impl From<u32> for TimeshiftRecordId {
    fn from(value: u32) -> (r: Self)
        ensures
            r@ == value,
    {
        TimeshiftRecordId(value)
    }
}

impl vstd::std_specs::convert::FromSpecImpl<u32> for TimeshiftRecordId {
    open spec fn obeys_from_spec() -> bool {
        true
    }

    closed spec fn from_spec(v: u32) -> Self {
        TimeshiftRecordId(v)
    }
}

// Mirakurun-compatible models

/// A tuner in the Mirakurun model.
#[derive(Debug)]
pub struct MirakurunTuner {
    /// The index of the tuner defined in `config.yml`.
    pub index: usize,
    /// The name of the tuner defined in `config.yml`.
    pub name: String,
    /// Channel types supported by the tuner.
    pub channel_types: Vec<ChannelType>,
    /// A command to use getting a media stream from the tuner.
    pub command: Option<String>,
    /// PID of a process to run the command.
    pub pid: Option<u32>,
    /// Users of the tuner.
    pub users: Vec<MirakurunTunerUser>,
    /// Always `true`.
    pub is_available: bool,
    /// Always `false`.
    pub is_remote: bool,
    /// `true` if the tuner is free, `false` otherwise.
    pub is_free: bool,
    /// `false` if the tuner is free, `true` otherwise.
    pub is_using: bool,
    /// Always `false`.
    pub is_fault: bool,
}

/// A user of a tuner in the Mirakurun model.
#[derive(Debug)]
pub struct MirakurunTunerUser {
    /// User ID.
    pub id: String,
    /// User-Agent string.
    pub agent: Option<String>,
    /// Priority.
    pub priority: i32,
}

/// A channel in the Mirakurun model.
#[derive(Debug)]
pub struct MirakurunChannel {
    pub channel_type: ChannelType,
    pub channel: String,
    pub name: String,
    pub services: Vec<MirakurunChannelService>,
}

/// A service of a channel in the Mirakurun model.
#[derive(Debug)]
pub struct MirakurunChannelService {
    pub id: ServiceId,
    pub service_id: Sid,
    pub network_id: Nid,
    pub name: String,
}

/// A service in the Mirakurun model.
#[derive(Debug)]
pub struct MirakurunService {
    pub id: ServiceId,
    pub service_id: Sid,
    pub network_id: Nid,
    pub service_type: u16,
    pub logo_id: i16,
    pub remote_control_key_id: u16,
    pub name: String,
    pub channel: MirakurunServiceChannel,
    pub has_logo_data: bool,
}

impl MirakurunService {
    /// Sets `has_logo_data` to whether a logo is configured for the service.
    pub fn check_logo_existence(&mut self, config: &ResourceConfig)
        ensures
            final(self).has_logo_data == config.spec_has_logo(
                service_id_value(old(self).network_id@, old(self).service_id@),
            ),
            final(self).id == old(self).id,
            final(self).service_id == old(self).service_id,
            final(self).network_id == old(self).network_id,
            final(self).service_type == old(self).service_type,
            final(self).logo_id == old(self).logo_id,
            final(self).remote_control_key_id == old(self).remote_control_key_id,
            final(self).name == old(self).name,
            final(self).channel == old(self).channel,
    {
        let id = ServiceId::new(self.network_id, self.service_id);
        self.has_logo_data = config.has_logo(id);
    }
}

/// The channel of a service in the Mirakurun model.
#[derive(Debug)]
pub struct MirakurunServiceChannel {
    pub channel_type: ChannelType,
    pub channel: String,
}

/// The triple that identifies a service in a transport stream.
#[derive(Clone, Copy, Debug, PartialEq, Eq, Hash, Structural)]
pub struct ServiceTriple {
    pub nid: Nid,
    pub tsid: Tsid,
    pub sid: Sid,
}

impl From<(Nid, Tsid, Sid)> for ServiceTriple {
    fn from(v: (Nid, Tsid, Sid)) -> (r: Self)
        ensures
            r == (ServiceTriple { nid: v.0, tsid: v.1, sid: v.2 }),
    {
        ServiceTriple { nid: v.0, tsid: v.1, sid: v.2 }
    }
}

impl vstd::std_specs::convert::FromSpecImpl<(Nid, Tsid, Sid)> for ServiceTriple {
    open spec fn obeys_from_spec() -> bool {
        true
    }

    open spec fn from_spec(v: (Nid, Tsid, Sid)) -> Self {
        ServiceTriple { nid: v.0, tsid: v.1, sid: v.2 }
    }
}

// Mirakurun-compatible program models

/// The video type named by a stream content.
pub open spec fn video_type_of(stream_content: u8) -> Option<Seq<char>> {
    if stream_content == 0x01 {
        Some("mpeg2"@)
    } else if stream_content == 0x05 {
        Some("h.264"@)
    } else if stream_content == 0x09 {
        Some("h.265"@)
    } else {
        None
    }
}

/// The resolution named by a component type.
pub open spec fn resolution_of(component_type: u8) -> Option<Seq<char>> {
    if 0x01 <= component_type <= 0x04 {
        Some("480i"@)
    } else if component_type == 0x83 {
        Some("4320p"@)
    } else if 0x91 <= component_type <= 0x94 {
        Some("2160p"@)
    } else if 0xA1 <= component_type <= 0xA4 {
        Some("480p"@)
    } else if 0xB1 <= component_type <= 0xB4 {
        Some("1080i"@)
    } else if 0xC1 <= component_type <= 0xC4 {
        Some("720p"@)
    } else if 0xD1 <= component_type <= 0xD4 {
        Some("240p"@)
    } else if 0xE1 <= component_type <= 0xE4 {
        Some("1080p"@)
    } else if 0xF1 <= component_type <= 0xF4 {
        Some("180p"@)
    } else {
        None
    }
}

/// The resolutions of the video component types of ARIB STD-B10: the high
/// nibble of a type gives the video format (lines and scanning) and the low
/// nibble, 1 to 4, the aspect ratio, so the types of one format share their
/// resolution (but in format 8, where only 0x83 is named: 4320p); any
/// other type has none.
pub proof fn lemma_resolution_by_format(t: u8, u: u8)
    ensures
        1 <= t % 16 <= 4 && t / 16 == 0x0 ==> resolution_of(t) == Some("480i"@),
        1 <= t % 16 <= 4 && t / 16 == 0x9 ==> resolution_of(t) == Some("2160p"@),
        1 <= t % 16 <= 4 && t / 16 == 0xA ==> resolution_of(t) == Some("480p"@),
        1 <= t % 16 <= 4 && t / 16 == 0xB ==> resolution_of(t) == Some("1080i"@),
        1 <= t % 16 <= 4 && t / 16 == 0xC ==> resolution_of(t) == Some("720p"@),
        1 <= t % 16 <= 4 && t / 16 == 0xD ==> resolution_of(t) == Some("240p"@),
        1 <= t % 16 <= 4 && t / 16 == 0xE ==> resolution_of(t) == Some("1080p"@),
        1 <= t % 16 <= 4 && t / 16 == 0xF ==> resolution_of(t) == Some("180p"@),
        t == 0x83 ==> resolution_of(t) == Some("4320p"@),
        t != 0x83 && !(1 <= t % 16 <= 4 && (t / 16 == 0 || t / 16 >= 9)) ==> resolution_of(t) is None,
        1 <= t % 16 <= 4 && 1 <= u % 16 <= 4 && t / 16 == u / 16 && t / 16 != 8 ==> resolution_of(t)
            == resolution_of(u),
{
    assert(t == (t / 16) * 16 + t % 16);
    assert(u == (u / 16) * 16 + u % 16);
}

/// The view of an optional string.
pub open spec fn opt_view(s: Option<String>) -> Option<Seq<char>> {
    match s {
        Some(v) => Some(v@),
        None => None,
    }
}

fn some_str(s: &str) -> (r: Option<String>)
    ensures
        opt_view(r) == Some(s@),
{
    Some(String::from_str(s))
}

/// The video of a program in the Mirakurun model.
#[derive(Clone, Debug)]
pub struct MirakurunProgramVideo {
    pub video_type: Option<String>,
    pub resolution: Option<String>,
    pub stream_content: u8,
    pub component_type: u8,
}

/// Whether `v` is the video model of the stream content and component type.
pub open spec fn is_video_model(v: MirakurunProgramVideo, stream_content: u8, component_type: u8) -> bool {
    &&& opt_view(v.video_type) == video_type_of(stream_content)
    &&& opt_view(v.resolution) == resolution_of(component_type)
    &&& v.stream_content == stream_content
    &&& v.component_type == component_type
}

impl MirakurunProgramVideo {
    pub fn new(stream_content: u8, component_type: u8) -> (r: Self)
        ensures
            is_video_model(r, stream_content, component_type),
    {
        Self {
            video_type: Self::get_video_type(stream_content),
            resolution: Self::get_resolution(component_type),
            stream_content,
            component_type,
        }
    }

    pub fn get_video_type(stream_content: u8) -> (r: Option<String>)
        ensures
            opt_view(r) == video_type_of(stream_content),
    {
        if stream_content == 0x01 {
            some_str("mpeg2")
        } else if stream_content == 0x05 {
            some_str("h.264")
        } else if stream_content == 0x09 {
            some_str("h.265")
        } else {
            None
        }
    }

    pub fn get_resolution(component_type: u8) -> (r: Option<String>)
        ensures
            opt_view(r) == resolution_of(component_type),
    {
        if 0x01 <= component_type && component_type <= 0x04 {
            some_str("480i")
        } else if component_type == 0x83 {
            some_str("4320p")
        } else if 0x91 <= component_type && component_type <= 0x94 {
            some_str("2160p")
        } else if 0xA1 <= component_type && component_type <= 0xA4 {
            some_str("480p")
        } else if 0xB1 <= component_type && component_type <= 0xB4 {
            some_str("1080i")
        } else if 0xC1 <= component_type && component_type <= 0xC4 {
            some_str("720p")
        } else if 0xD1 <= component_type && component_type <= 0xD4 {
            some_str("240p")
        } else if 0xE1 <= component_type && component_type <= 0xE4 {
            some_str("1080p")
        } else if 0xF1 <= component_type && component_type <= 0xF4 {
            some_str("180p")
        } else {
            None
        }
    }
}

/// An ISO 639-3 language code.
#[derive(Clone, Debug)]
pub struct MirakurunLangCode(pub String);

/// The three bytes of a language code: bits 16..24, 8..16 and 0..8.
pub open spec fn lang_code_bytes(value: u32) -> Seq<u8> {
    seq![((value >> 16u32) & 0xFFu32) as u8, ((value >> 8u32) & 0xFFu32) as u8, (value & 0xFFu32) as u8]
}

/// The language code of the bytes: their text when they are valid UTF-8,
/// else "und".
pub open spec fn lang_code_text(value: u32) -> Seq<char> {
    if vstd::utf8::valid_utf8(lang_code_bytes(value)) {
        vstd::utf8::decode_utf8(lang_code_bytes(value))
    } else {
        "und"@
    }
}

/// Calls `smallstr::SmallString::<[u8; 3]>::from_buf`, which accepts the
/// bytes exactly when they are valid UTF-8; the contract claims that and
/// that the accepted string holds the decoded characters.
#[verifier::external_body]
fn small_string_from_buf(b0: u8, b1: u8, b2: u8) -> (r: Option<String>)
    ensures
        r is Some == vstd::utf8::valid_utf8(seq![b0, b1, b2]),
        r matches Some(s) ==> s@ == vstd::utf8::decode_utf8(seq![b0, b1, b2]),
{
    smallstr::SmallString::<[u8; 3]>::from_buf([b0, b1, b2]).ok().map(|s| s.as_str().to_string())
}

impl MirakurunLangCode {
    /// The language code of a 24-bit code (see LanguageCodeToText() in
    /// LibISDB); an invalid code becomes "und".
    pub fn from_code(value: u32) -> (r: Self)
        ensures
            r.0@ == lang_code_text(value),
    {
        let c0 = ((value >> 16u32) & 0xFFu32) as u8;
        let c1 = ((value >> 8u32) & 0xFFu32) as u8;
        let c2 = (value & 0xFFu32) as u8;
        assert(lang_code_bytes(value) == seq![c0, c1, c2]);
        match small_string_from_buf(c0, c1, c2) {
            Some(lang) => MirakurunLangCode(lang),
            None => MirakurunLangCode(String::from_str("und")),
        }
    }
}

/// The sampling rate (in Hz) named by a sampling rate code, or -1.
pub open spec fn sampling_rate_of(code: u8) -> i32 {
    if code == 1 {
        16_000
    } else if code == 2 {
        22_050
    } else if code == 3 {
        24_000
    } else if code == 5 {
        32_000
    } else if code == 6 {
        44_100
    } else if code == 7 {
        48_000
    } else {
        -1i32
    }
}

/// An audio of a program in the Mirakurun model.
#[derive(Clone, Debug)]
pub struct MirakurunProgramAudio {
    pub component_type: u8,
    pub is_main: bool,
    pub sampling_rate: i32,
    pub langs: Vec<MirakurunLangCode>,
}

/// Whether `a` is the audio model of the descriptor.
pub open spec fn is_audio_model(a: MirakurunProgramAudio, d: AudioComponentDescriptor) -> bool {
    &&& a.component_type == d.component_type
    &&& a.is_main == d.main_component_flag
    &&& a.sampling_rate == sampling_rate_of(d.sampling_rate)
    &&& a.langs@.len() == if d.language_code2 is Some { 2int } else { 1int }
    &&& a.langs@[0].0@ == lang_code_text(d.language_code)
    &&& d.language_code2 matches Some(c) ==> a.langs@[1].0@ == lang_code_text(c)
}

impl MirakurunProgramAudio {
    pub fn convert_sampling_rate(sampling_rate: u8) -> (r: i32)
        ensures
            r == sampling_rate_of(sampling_rate),
    {
        match sampling_rate {
            1 => 16_000,
            2 => 22_050,
            3 => 24_000,
            5 => 32_000,
            6 => 44_100,
            7 => 48_000,
            _ => -1,
        }
    }

    /// The audio model of an audio component.
    pub fn from_descriptor(audio: &AudioComponentDescriptor) -> (r: Self)
        ensures
            is_audio_model(r, *audio),
    {
        let mut langs = Vec::new();
        langs.push(MirakurunLangCode::from_code(audio.language_code));
        match audio.language_code2 {
            Some(lang) => langs.push(MirakurunLangCode::from_code(lang)),
            None => {},
        }
        MirakurunProgramAudio {
            component_type: audio.component_type,
            is_main: audio.main_component_flag,
            sampling_rate: Self::convert_sampling_rate(audio.sampling_rate),
            langs,
        }
    }
}

/// A series of a program in the Mirakurun model.
#[derive(Clone, Debug)]
pub struct MirakurunProgramSeries {
    pub id: u16,
    pub repeat: u8,
    pub pattern: u8,
    /// UNIX time in milliseconds, or -1.
    pub expire_at: i64,
    pub episode: u16,
    pub last_episode: u16,
    pub name: String,
}

impl MirakurunProgramSeries {
    /// The series model of a series descriptor.
    pub fn from_descriptor(series: SeriesDescriptor) -> (r: Self)
        ensures
            r.id == series.series_id,
            r.repeat == series.repeat_label,
            r.pattern == series.program_pattern,
            r.expire_at == match series.expire_date {
                Some(t) => t,
                None => -1i64,
            },
            r.episode == series.episode_number,
            r.last_episode == series.last_episode_number,
            r.name@ == match series.series_name {
                Some(n) => n@,
                None => Seq::empty(),
            },
    {
        Self {
            id: series.series_id,
            repeat: series.repeat_label,
            pattern: series.program_pattern,
            expire_at: match series.expire_date {
                Some(t) => t,
                None => -1,
            },
            episode: series.episode_number,
            last_episode: series.last_episode_number,
            name: match series.series_name {
                Some(n) => n,
                None => String::new(),
            },
        }
    }
}

/// The type of a relation named by an event group type.
pub open spec fn relation_type_of(group_type: u8) -> Seq<char> {
    if group_type == 1 {
        "shared"@
    } else if group_type == 2 || group_type == 4 {
        "relay"@
    } else {
        "movement"@
    }
}

/// A program related to another in the Mirakurun model.
#[derive(Clone, Debug)]
pub struct MirakurunProgramRelatedItem {
    pub group_type: String,
    pub network_id: Option<Nid>,
    pub service_id: Sid,
    pub event_id: Eid,
}

impl MirakurunProgramRelatedItem {
    /// The type of the relation of an event group type ("shared", "relay"
    /// or "movement"); the relay types 2 and 4 are not told apart.
    pub fn get_type(group_type: u8) -> (r: &'static str)
        ensures
            r@ == relation_type_of(group_type),
    {
        match group_type {
            1 => "shared",
            2 | 4 => "relay",
            _ => "movement",
        }
    }
}

/// A program in the Mirakurun model.
#[derive(Debug)]
pub struct MirakurunProgram {
    pub id: ProgramId,
    pub event_id: Eid,
    pub service_id: Sid,
    pub network_id: Nid,
    /// UNIX time in milliseconds.
    pub start_at: Option<i64>,
    /// In milliseconds.
    pub duration: Option<i64>,
    pub is_free: bool,
    pub name: Option<String>,
    pub description: Option<String>,
    pub extended: Option<Vec<(String, String)>>,
    pub video: Option<MirakurunProgramVideo>,
    /// The main audio.
    pub audio: Option<MirakurunProgramAudio>,
    pub audios: Vec<MirakurunProgramAudio>,
    pub genres: Option<Vec<EpgGenre>>,
    pub series: Option<MirakurunProgramSeries>,
    pub related_items: Vec<MirakurunProgramRelatedItem>,
}

/// The position of the first main audio component, or -1.
pub open spec fn first_main_audio(audios: Seq<(u8, AudioComponentDescriptor)>, i: int) -> int
    decreases audios.len() - i,
{
    if i < 0 || i >= audios.len() {
        -1
    } else if audios[i].1.main_component_flag {
        i
    } else {
        first_main_audio(audios, i + 1)
    }
}

/// Whether the related items are those of the event group.
pub open spec fn is_related_items(items: Seq<MirakurunProgramRelatedItem>, group: Option<EventGroupDescriptor>) -> bool {
    match group {
        None => items.len() == 0,
        Some(g) => {
            &&& items.len() == g.events@.len()
            &&& forall|i: int| 0 <= i < items.len() ==> {
                &&& #[trigger] items[i].group_type@ == relation_type_of(g.group_type)
                &&& items[i].network_id == g.events@[i].original_network_id
                &&& items[i].service_id == g.events@[i].service_id
                &&& items[i].event_id == g.events@[i].event_id
            }
        },
    }
}

/// The first main audio from a position on is -1 or lies at or after it.
proof fn lemma_first_main_audio_range(audios: Seq<(u8, AudioComponentDescriptor)>, i: int)
    requires
        0 <= i,
    ensures
        first_main_audio(audios, i) == -1 || (i <= first_main_audio(audios, i) < audios.len()),
    decreases audios.len() - i,
{
    if i < audios.len() && !audios[i].1.main_component_flag {
        lemma_first_main_audio_range(audios, i + 1);
    }
}

impl MirakurunProgram {
    /// The program in the Mirakurun model. The main audio is the first main
    /// audio component (Mirakurun returns the last audio in descriptors).
    pub fn from_epg_program(program: EpgProgram) -> (r: Self)
        ensures
            r.id == program.id,
            r.event_id@ == (program.id@ % 100_000) as u16,
            r.service_id@ == ((program.id@ / 100_000) % 100_000) as u16,
            r.network_id@ == (program.id@ / 10_000_000_000u64) as u16,
            r.start_at == program.start_at,
            r.duration == program.duration,
            r.is_free == !program.scrambled,
            r.name == program.name,
            r.description == program.description,
            r.extended == program.extended,
            match program.video {
                Some(c) => r.video matches Some(v) && is_video_model(v, c.stream_content, c.component_type),
                None => r.video is None,
            },
            r.audios@.len() == program.audios@.len(),
            forall|i: int| 0 <= i < r.audios@.len() ==> is_audio_model(#[trigger] r.audios@[i], program.audios@[i].1),
            ({
                let m = first_main_audio(program.audios@, 0);
                if m >= 0 {
                    r.audio matches Some(a) && is_audio_model(a, program.audios@[m].1)
                } else {
                    r.audio is None
                }
            }),
            r.genres == program.genres,
            match program.series {
                Some(sd) => r.series matches Some(sm) && sm.id == sd.series_id && sm.repeat == sd.repeat_label
                    && sm.pattern == sd.program_pattern && sm.episode == sd.episode_number
                    && sm.last_episode == sd.last_episode_number
                    && sm.expire_at == (match sd.expire_date { Some(t) => t, None => -1i64 })
                    && sm.name@ == (match sd.series_name { Some(n) => n@, None => Seq::empty() }),
                None => r.series is None,
            },
            is_related_items(r.related_items@, program.event_group),
    {
        let id = program.id;
        let event_id = id.eid();
        let service_id = id.sid();
        let network_id = id.nid();
        let video = match &program.video {
            Some(c) => Some(MirakurunProgramVideo::new(c.stream_content, c.component_type)),
            None => None,
        };
        let mut audios: Vec<MirakurunProgramAudio> = Vec::new();
        let mut audio: Option<MirakurunProgramAudio> = None;
        let mut i: usize = 0;
        while i < program.audios.len()
            invariant
                i <= program.audios@.len(),
                audios@.len() == i,
                forall|j: int| 0 <= j < i ==> is_audio_model(#[trigger] audios@[j], program.audios@[j].1),
                ({
                    let m = first_main_audio(program.audios@, 0);
                    if 0 <= m < i {
                        (audio matches Some(a) && is_audio_model(a, program.audios@[m].1))
                    } else {
                        audio is None && m == first_main_audio(program.audios@, i as int)
                    }
                }),
            decreases program.audios@.len() - i,
        {
            proof {
                lemma_first_main_audio_range(program.audios@, i as int);
                lemma_first_main_audio_range(program.audios@, i + 1);
                lemma_first_main_audio_range(program.audios@, 0);
            }
            let a = MirakurunProgramAudio::from_descriptor(&program.audios[i].1);
            if audio.is_none() && program.audios[i].1.main_component_flag {
                assert(first_main_audio(program.audios@, i as int) == i);
                audio = Some(MirakurunProgramAudio::from_descriptor(&program.audios[i].1));
            } else if audio.is_none() {
                assert(first_main_audio(program.audios@, i as int) == first_main_audio(program.audios@, i + 1));
            }
            audios.push(a);
            i = i + 1;
        }
        proof {
            lemma_first_main_audio_range(program.audios@, 0);
        }
        let series = match program.series {
            Some(sd) => Some(MirakurunProgramSeries::from_descriptor(sd)),
            None => None,
        };
        let mut related_items: Vec<MirakurunProgramRelatedItem> = Vec::new();
        match &program.event_group {
            Some(g) => {
                let mut j: usize = 0;
                while j < g.events.len()
                    invariant
                        j <= g.events@.len(),
                        related_items@.len() == j,
                        forall|k: int| 0 <= k < j ==> {
                            &&& #[trigger] related_items@[k].group_type@ == relation_type_of(g.group_type)
                            &&& related_items@[k].network_id == g.events@[k].original_network_id
                            &&& related_items@[k].service_id == g.events@[k].service_id
                            &&& related_items@[k].event_id == g.events@[k].event_id
                        },
                    decreases g.events@.len() - j,
                {
                    let event = g.events[j];
                    related_items.push(MirakurunProgramRelatedItem {
                        group_type: String::from_str(MirakurunProgramRelatedItem::get_type(g.group_type)),
                        network_id: event.original_network_id,
                        service_id: event.service_id,
                        event_id: event.event_id,
                    });
                    j = j + 1;
                }
                let ghost gg = *g;
                assert(is_related_items(related_items@, Some(gg)));
                assert(is_related_items(related_items@, program.event_group));
            },
            None => {},
        }
        MirakurunProgram {
            id,
            event_id,
            service_id,
            network_id,
            start_at: program.start_at,
            duration: program.duration,
            is_free: !program.scrambled,
            name: program.name,
            description: program.description,
            extended: program.extended,
            video,
            audio,
            audios,
            genres: program.genres,
            series,
            related_items,
        }
    }
}

} // verus!
