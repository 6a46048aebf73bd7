//! EIT sections, the EPG data of services and programs, and the schedule
//! that collects EIT[schedule] sections of a service.
use vstd::prelude::*;

use crate::config::ChannelConfig;
use crate::models::{
    ChannelType, Clock, Eid, EpgGenre, MirakurunChannelService, MirakurunService, MirakurunServiceChannel,
    Nid, ProgramId, ServiceId, ServiceTriple, Sid, Tsid,
};

verus! {

/// The number of days an EPG schedule holds.
pub const MAX_DAYS: usize = 9;

/// The number of 3-hour segments in a day.
pub const NUM_SEGMENTS: usize = 8;

/// The number of sections in a segment.
pub const NUM_SECTIONS: usize = 8;

/// An EIT section.
#[derive(Clone, Debug)]
pub struct EitSection {
    pub original_network_id: Nid,
    pub transport_stream_id: Tsid,
    pub service_id: Sid,
    pub table_id: u16,
    pub section_number: u8,
    pub last_section_number: u8,
    pub segment_last_section_number: u8,
    pub version_number: u8,
    pub events: Vec<EitEvent>,
}

impl EitSection {
    /// Whether the table is one of EIT[schedule basic] 0x50 and 0x51 and
    /// EIT[schedule extended] 0x58 and 0x59.
    pub fn is_valid(&self) -> (r: bool)
        ensures
            r == (self.table_id == 0x50 || self.table_id == 0x51 || self.table_id == 0x58
                || self.table_id == 0x59),
    {
        self.table_id == 0x50 || self.table_id == 0x51 || self.table_id == 0x58 || self.table_id == 0x59
    }

    /// Whether the table is of EIT[schedule basic] (0x50..=0x57) rather than
    /// EIT[schedule extended] (0x58..=0x5F).
    pub fn is_basic(&self) -> (r: bool)
        requires
            0x50 <= self.table_id <= 0x5F,
        ensures
            r == (self.table_id <= 0x57),
    {
        self.table_id <= 0x57
    }

    pub fn table_index(&self) -> (r: usize)
        requires
            self.table_id >= 0x50,
        ensures
            r == self.table_id - 0x50,
    {
        self.table_id as usize - 0x50
    }

    pub fn segment_index(&self) -> (r: usize)
        ensures
            r == self.section_number / 8,
    {
        self.section_number as usize / 8
    }

    pub fn section_index(&self) -> (r: usize)
        ensures
            r == self.section_number % 8,
    {
        self.section_number as usize % 8
    }

    pub fn last_section_index(&self) -> (r: usize)
        ensures
            r == self.segment_last_section_number % 8,
    {
        self.segment_last_section_number as usize % 8
    }

    pub fn service_triple(&self) -> (r: ServiceTriple)
        ensures
            r == (ServiceTriple {
                nid: self.original_network_id,
                tsid: self.transport_stream_id,
                sid: self.service_id,
            }),
    {
        ServiceTriple::from((self.original_network_id, self.transport_stream_id, self.service_id))
    }

    /// The day (counted from the day of the table) the section belongs to:
    /// a table holds TV program information for 4 days.
    pub open spec fn spec_unit_index(&self) -> int {
        (self.table_id % 8) * 4 + (self.section_number / 8) / 8
    }

    /// The day (counted from the day of the table) the section belongs to.
    pub fn unit_index(&self) -> (r: usize)
        ensures
            r == self.spec_unit_index(),
            r < 32,
    {
        (self.table_id as usize % 8) * 4 + self.segment_index() / NUM_SEGMENTS
    }

    /// The 3-hour segment within the day the section belongs to.
    pub fn segment_index_in_unit(&self) -> (r: usize)
        ensures
            r == (self.section_number / 8) % 8,
            r < NUM_SEGMENTS,
    {
        self.segment_index() % NUM_SEGMENTS
    }
}

/// Where a section of EIT[schedule] belongs: a table holds four days of
/// eight 3-hour segments, in the order of its section numbers, and the
/// tables of a kind follow one another.  So the day the section is stored
/// under, counted from the day of the first table, is the one whose eight
/// segments hold the section's segment: its segment, counted over all the
/// tables (32 to a table), is that day's first segment plus the segment
/// within the day; sections of the first two days' segments never share a
/// day with the segments of another, and every section of the first 64
/// section numbers of a table is on the table's first day.
pub proof fn lemma_section_day(s: EitSection)
    requires
        0x50 <= s.table_id <= 0x5F,
    ensures
        ({
            let day = s.spec_unit_index() - 4 * (s.table_id % 8);
            &&& 0 <= day < 4
            &&& 8 * day <= s.section_number / 8 < 8 * day + 8
        }),
        s.spec_unit_index() * 8 + (s.section_number / 8) % 8 == (s.table_id % 8) * 32 + s.section_number / 8,
        s.section_number < 64 ==> s.spec_unit_index() == 4 * (s.table_id % 8),
        s.section_number >= 64 ==> s.spec_unit_index() > 4 * (s.table_id % 8),
{
    let n = s.section_number as int;
    let g = n / 8;
    assert(0 <= g < 32);
    assert(g / 8 * 8 + g % 8 == g);
    assert(0 <= g / 8 < 4);
}

/// Two sections of one table are on the same day exactly when their
/// segments fall in the same eight.
pub proof fn lemma_same_day(a: EitSection, b: EitSection)
    requires
        0x50 <= a.table_id <= 0x5F,
        a.table_id == b.table_id,
    ensures
        (a.spec_unit_index() == b.spec_unit_index()) == ((a.section_number / 8) / 8 == (b.section_number / 8) / 8),
        a.section_number <= b.section_number ==> a.spec_unit_index() <= b.spec_unit_index(),
{
    let ga = a.section_number as int / 8;
    let gb = b.section_number as int / 8;
    if a.section_number <= b.section_number {
        assert(ga <= gb);
        assert(ga / 8 <= gb / 8) by (nonlinear_arith)
            requires
                0 <= ga <= gb,
        ;
    }
}

/// An event in an EIT section.
#[derive(Clone, Debug)]
pub struct EitEvent {
    pub event_id: Eid,
    /// UNIX time in milliseconds.
    pub start_time: Option<i64>,
    /// In milliseconds.
    pub duration: Option<i64>,
    pub scrambled: bool,
    pub descriptors: Vec<EitDescriptor>,
}

impl EitEvent {
    /// The start time (UNIX time in milliseconds).
    pub fn start_time(&self) -> (r: Option<i64>)
        ensures
            r == self.start_time,
    {
        self.start_time
    }

    /// The duration in milliseconds.
    pub fn duration(&self) -> (r: Option<i64>)
        ensures
            r == self.duration,
    {
        self.duration
    }

    /// The end time (UNIX time in milliseconds): the start time plus the
    /// duration, when both are known.
    pub fn end_time(&self) -> (r: Option<i64>)
        requires
            self.start_time matches Some(s) && self.duration matches Some(d) ==> i64::MIN <= s + d <= i64::MAX,
        ensures
            r == match (self.start_time, self.duration) {
                (Some(s), Some(d)) => Some((s + d) as i64),
                _ => None,
            },
    {
        match (self.start_time, self.duration) {
            (Some(s), Some(d)) => Some(s + d),
            _ => None,
        }
    }

    /// Whether the event starts before the midnight and ends after it.
    pub fn is_overnight_event(&self, midnight: i64) -> (r: bool)
        requires
            self.start_time is Some,
            self.duration is Some,
            i64::MIN <= self.start_time->0 + self.duration->0 <= i64::MAX,
        ensures
            r == (self.start_time->0 < midnight && self.start_time->0 + self.duration->0 > midnight),
    {
        let start = self.start_time.unwrap();
        let end = start + self.duration.unwrap();
        start < midnight && end > midnight
    }
}

/// A descriptor in an EIT event.
#[derive(Clone, Debug)]
pub enum EitDescriptor {
    ShortEvent { event_name: Option<String>, text: Option<String> },
    Component(ComponentDescriptor),
    AudioComponent(AudioComponentDescriptor),
    Content { nibbles: Vec<(u8, u8, u8, u8)> },
    Series(SeriesDescriptor),
    EventGroup(EventGroupDescriptor),
    ExtendedEvent { items: Vec<(String, String)> },
}

/// A video component.
#[derive(Debug)]
pub struct ComponentDescriptor {
    pub stream_content: u8,
    pub component_type: u8,
    pub component_tag: u8,
    pub language_code: u32,
    pub text: Option<String>,
}

/// An audio component.
#[derive(Debug)]
pub struct AudioComponentDescriptor {
    pub stream_content: u8,
    pub component_type: u8,
    pub component_tag: u8,
    pub simulcast_group_tag: u8,
    pub es_multi_lingual_flag: bool,
    pub main_component_flag: bool,
    pub quality_indicator: u8,
    pub sampling_rate: u8,
    pub language_code: u32,
    pub language_code2: Option<u32>,
    pub text: Option<String>,
}

/// A series.
#[derive(Debug)]
pub struct SeriesDescriptor {
    pub series_id: u16,
    pub repeat_label: u8,
    pub program_pattern: u8,
    /// UNIX time in milliseconds.
    pub expire_date: Option<i64>,
    pub episode_number: u16,
    pub last_episode_number: u16,
    pub series_name: Option<String>,
}

/// A group of events.
#[derive(Debug)]
pub struct EventGroupDescriptor {
    pub group_type: u8,
    pub events: Vec<EventGroupEvent>,
}

/// An event in a group of events.
#[derive(Clone, Copy, Debug)]
pub struct EventGroupEvent {
    pub original_network_id: Option<Nid>,
    pub transport_stream_id: Option<Tsid>,
    pub service_id: Sid,
    pub event_id: Eid,
}

// channels and services

/// A channel in the EPG.
#[derive(Debug)]
pub struct EpgChannel {
    pub name: String,
    pub channel_type: ChannelType,
    pub channel: String,
    pub extra_args: String,
    pub services: Vec<Sid>,
    pub excluded_services: Vec<Sid>,
}

impl EpgChannel {
    /// The EPG channel of a configured channel.
    pub fn from_config(config: ChannelConfig) -> (r: Self)
        ensures
            r.name == config.name,
            r.channel_type == config.channel_type,
            r.channel == config.channel,
            r.extra_args == config.extra_args,
            r.services == config.services,
            r.excluded_services == config.excluded_services,
    {
        EpgChannel {
            name: config.name,
            channel_type: config.channel_type,
            channel: config.channel,
            extra_args: config.extra_args,
            services: config.services,
            excluded_services: config.excluded_services,
        }
    }
}

impl EpgChannel {
    /// `<type>/<channel>`.
    pub fn to_string(&self) -> (s: String)
        ensures
            s@ == crate::models::channel_type_label(self.channel_type) + "/"@ + self.channel@,
    {
        let mut s = self.channel_type.to_string();
        s.append("/");
        s.append(self.channel.as_str());
        s
    }
}

/// A service in the EPG.
#[derive(Debug)]
pub struct EpgService {
    pub id: ServiceId,
    pub service_type: u16,
    pub logo_id: i16,
    pub remote_control_key_id: u16,
    pub name: String,
    pub channel: EpgChannel,
}

impl EpgService {
    pub fn nid(&self) -> (r: Nid)
        ensures
            r@ == (self.id@ / 100_000) as u16,
    {
        self.id.nid()
    }

    pub fn sid(&self) -> (r: Sid)
        ensures
            r@ == (self.id@ % 100_000) as u16,
    {
        self.id.sid()
    }

    /// The service as a service of a channel in the Mirakurun model.
    pub fn into_channel_service(self) -> (r: MirakurunChannelService)
        ensures
            r.id == self.id,
            r.service_id@ == (self.id@ % 100_000) as u16,
            r.network_id@ == (self.id@ / 100_000) as u16,
            r.name == self.name,
    {
        let service_id = self.sid();
        let network_id = self.nid();
        MirakurunChannelService { id: self.id, service_id, network_id, name: self.name }
    }
}

impl MirakurunServiceChannel {
    /// The channel of a service in the Mirakurun model.
    pub fn from_epg_channel(ch: EpgChannel) -> (r: Self)
        ensures
            r.channel_type == ch.channel_type,
            r.channel == ch.channel,
    {
        MirakurunServiceChannel { channel_type: ch.channel_type, channel: ch.channel }
    }
}

impl MirakurunService {
    /// The service in the Mirakurun model (without logo data).
    pub fn from_epg_service(sv: EpgService) -> (r: Self)
        ensures
            r.id == sv.id,
            r.service_id@ == (sv.id@ % 100_000) as u16,
            r.network_id@ == (sv.id@ / 100_000) as u16,
            r.service_type == sv.service_type,
            r.logo_id == sv.logo_id,
            r.remote_control_key_id == sv.remote_control_key_id,
            r.name == sv.name,
            r.channel.channel_type == sv.channel.channel_type,
            r.channel.channel == sv.channel.channel,
            !r.has_logo_data,
    {
        let service_id = sv.sid();
        let network_id = sv.nid();
        MirakurunService {
            id: sv.id,
            service_id,
            network_id,
            service_type: sv.service_type,
            logo_id: sv.logo_id,
            remote_control_key_id: sv.remote_control_key_id,
            name: sv.name,
            channel: MirakurunServiceChannel::from_epg_channel(sv.channel),
            has_logo_data: false,
        }
    }
}

fn clone_opt_string(s: &Option<String>) -> (r: Option<String>)
    ensures
        r == *s,
{
    match s {
        Some(v) => Some(v.clone()),
        None => None,
    }
}

impl Clone for ComponentDescriptor {
    fn clone(&self) -> (r: Self)
        ensures
            r == *self,
    {
        ComponentDescriptor {
            stream_content: self.stream_content,
            component_type: self.component_type,
            component_tag: self.component_tag,
            language_code: self.language_code,
            text: clone_opt_string(&self.text),
        }
    }
}

impl Clone for AudioComponentDescriptor {
    fn clone(&self) -> (r: Self)
        ensures
            r == *self,
    {
        AudioComponentDescriptor {
            stream_content: self.stream_content,
            component_type: self.component_type,
            component_tag: self.component_tag,
            simulcast_group_tag: self.simulcast_group_tag,
            es_multi_lingual_flag: self.es_multi_lingual_flag,
            main_component_flag: self.main_component_flag,
            quality_indicator: self.quality_indicator,
            sampling_rate: self.sampling_rate,
            language_code: self.language_code,
            language_code2: self.language_code2,
            text: clone_opt_string(&self.text),
        }
    }
}

impl Clone for SeriesDescriptor {
    fn clone(&self) -> (r: Self)
        ensures
            r == *self,
    {
        SeriesDescriptor {
            series_id: self.series_id,
            repeat_label: self.repeat_label,
            program_pattern: self.program_pattern,
            expire_date: self.expire_date,
            episode_number: self.episode_number,
            last_episode_number: self.last_episode_number,
            series_name: clone_opt_string(&self.series_name),
        }
    }
}

impl Clone for EventGroupDescriptor {
    fn clone(&self) -> (r: Self)
        ensures
            r.group_type == self.group_type,
            r.events@ == self.events@,
    {
        let mut events: Vec<EventGroupEvent> = Vec::new();
        let mut i: usize = 0;
        while i < self.events.len()
            invariant
                i <= self.events@.len(),
                events@ == self.events@.take(i as int),
            decreases self.events@.len() - i,
        {
            events.push(self.events[i]);
            i = i + 1;
            assert(events@ =~= self.events@.take(i as int));
        }
        assert(self.events@.take(self.events@.len() as int) =~= self.events@);
        EventGroupDescriptor { group_type: self.group_type, events }
    }
}

// programs

/// The kind of a descriptor.
pub open spec fn descriptor_kind(d: EitDescriptor) -> int {
    match d {
        EitDescriptor::ShortEvent { .. } => 0,
        EitDescriptor::Component(_) => 1,
        EitDescriptor::AudioComponent(_) => 2,
        EitDescriptor::Content { .. } => 3,
        EitDescriptor::Series(_) => 4,
        EitDescriptor::EventGroup(_) => 5,
        EitDescriptor::ExtendedEvent { .. } => 6,
    }
}

/// The position of the last descriptor of the kind, or -1.
pub open spec fn last_of_kind(ds: Seq<EitDescriptor>, kind: int) -> int
    decreases ds.len(),
{
    if ds.len() == 0 {
        -1
    } else if descriptor_kind(ds.last()) == kind {
        ds.len() - 1
    } else {
        last_of_kind(ds.drop_last(), kind)
    }
}

/// The position of the first entry with the key, or -1.
pub open spec fn key_position<K, V>(m: Seq<(K, V)>, k: K) -> int
    decreases m.len(),
{
    if m.len() == 0 {
        -1
    } else if key_position(m.drop_last(), k) >= 0 {
        key_position(m.drop_last(), k)
    } else if m.last().0 == k {
        m.len() - 1
    } else {
        -1
    }
}

/// The entries with `k` set to `v`: the entry of `k` keeps its position,
/// and a new key goes last.
pub open spec fn keyed_insert<K, V>(m: Seq<(K, V)>, k: K, v: V) -> Seq<(K, V)> {
    if key_position(m, k) >= 0 {
        m.update(key_position(m, k), (k, v))
    } else {
        m.push((k, v))
    }
}

/// The audio components after the audio component descriptors, by
/// component tag.
pub open spec fn audios_after(m: Seq<(u8, AudioComponentDescriptor)>, ds: Seq<EitDescriptor>) -> Seq<(u8, AudioComponentDescriptor)>
    decreases ds.len(),
{
    if ds.len() == 0 {
        m
    } else if ds.last() is AudioComponent {
        keyed_insert(audios_after(m, ds.drop_last()), ds.last()->AudioComponent_0.component_tag, ds.last()->AudioComponent_0)
    } else {
        audios_after(m, ds.drop_last())
    }
}

/// The extended items by name: a later item with the same name replaces
/// the value of an earlier one, which keeps its position.
pub open spec fn extended_map(items: Seq<(Seq<char>, Seq<char>)>) -> Seq<(Seq<char>, Seq<char>)>
    decreases items.len(),
{
    if items.len() == 0 {
        Seq::empty()
    } else {
        keyed_insert(extended_map(items.drop_last()), items.last().0, items.last().1)
    }
}

/// The view of a list of string pairs.
pub open spec fn pairs_view(v: Seq<(String, String)>) -> Seq<(Seq<char>, Seq<char>)> {
    v.map_values(|p: (String, String)| (p.0@, p.1@))
}

/// The genres of content nibbles.
pub open spec fn genres_of(nibbles: Seq<(u8, u8, u8, u8)>) -> Seq<EpgGenre> {
    nibbles.map_values(|n: (u8, u8, u8, u8)| EpgGenre { lv1: n.0, lv2: n.1, un1: n.2, un2: n.3 })
}

/// A TV program.
#[derive(Debug)]
pub struct EpgProgram {
    pub id: ProgramId,
    /// UNIX time in milliseconds.
    pub start_at: Option<i64>,
    /// In milliseconds.
    pub duration: Option<i64>,
    pub scrambled: bool,
    pub name: Option<String>,
    pub description: Option<String>,
    /// Extended items by name.
    pub extended: Option<Vec<(String, String)>>,
    pub video: Option<ComponentDescriptor>,
    /// Audio components by component tag.
    pub audios: Vec<(u8, AudioComponentDescriptor)>,
    pub genres: Option<Vec<EpgGenre>>,
    pub series: Option<SeriesDescriptor>,
    pub event_group: Option<EventGroupDescriptor>,
}

/// The program after the descriptors of an event.
pub open spec fn updated_program(old: EpgProgram, event: EitEvent, new: EpgProgram) -> bool {
    let ds = event.descriptors@;
    let short = last_of_kind(ds, 0);
    let video = last_of_kind(ds, 1);
    let content = last_of_kind(ds, 3);
    let series = last_of_kind(ds, 4);
    let group = last_of_kind(ds, 5);
    let ext = last_of_kind(ds, 6);
    &&& new.id == old.id
    &&& new.start_at == event.start_time
    &&& new.duration == event.duration
    &&& new.scrambled == event.scrambled
    &&& new.name == if short >= 0 { ds[short]->event_name } else { old.name }
    &&& new.description == if short >= 0 { ds[short]->text } else { old.description }
    &&& new.video == if video >= 0 { Some(ds[video]->Component_0) } else { old.video }
    &&& new.audios@ == audios_after(old.audios@, ds)
    &&& (if content >= 0 {
        new.genres matches Some(g) && g@ == genres_of(ds[content]->nibbles@)
    } else {
        new.genres == old.genres
    })
    &&& new.series == if series >= 0 { Some(ds[series]->Series_0) } else { old.series }
    &&& (if group >= 0 {
        new.event_group matches Some(g) && g.group_type == ds[group]->EventGroup_0.group_type
            && g.events@ == ds[group]->EventGroup_0.events@
    } else {
        new.event_group == old.event_group
    })
    &&& (if ext >= 0 {
        new.extended matches Some(e) && pairs_view(e@) == extended_map(pairs_view(ds[ext]->items@))
    } else {
        new.extended == old.extended
    })
}

proof fn lemma_last_of_kind_step(ds: Seq<EitDescriptor>, i: int, kind: int)
    requires
        0 <= i < ds.len(),
    ensures
        last_of_kind(ds.take(i + 1), kind) == if descriptor_kind(ds[i]) == kind {
            i
        } else {
            last_of_kind(ds.take(i), kind)
        },
{
    assert(ds.take(i + 1).drop_last() =~= ds.take(i));
}

pub proof fn lemma_last_of_kind_bound(ds: Seq<EitDescriptor>, kind: int)
    ensures
        -1 <= last_of_kind(ds, kind) < ds.len(),
        last_of_kind(ds, kind) >= 0 ==> descriptor_kind(ds[last_of_kind(ds, kind)]) == kind,
    decreases ds.len(),
{
    if ds.len() > 0 {
        lemma_last_of_kind_bound(ds.drop_last(), kind);
    }
}

pub proof fn lemma_key_position<K, V>(m: Seq<(K, V)>, k: K)
    ensures
        -1 <= key_position(m, k) < m.len(),
        key_position(m, k) >= 0 ==> m[key_position(m, k)].0 == k,
        key_position(m, k) >= 0 ==> forall|i: int| 0 <= i < key_position(m, k) ==> m[i].0 != k,
        key_position(m, k) < 0 ==> forall|i: int| 0 <= i < m.len() ==> m[i].0 != k,
    decreases m.len(),
{
    if m.len() > 0 {
        let d = m.drop_last();
        lemma_key_position(d, k);
        assert forall|i: int| 0 <= i < d.len() implies d[i] == m[i] by {}
    }
}

/// Sets `k` to `v` in the entries, keeping the position of an existing `k`.
fn insert_audio(m: &mut Vec<(u8, AudioComponentDescriptor)>, k: u8, v: AudioComponentDescriptor)
    ensures
        final(m)@ == keyed_insert(old(m)@, k, v),
{
    proof { lemma_key_position(m@, k); }
    let mut i: usize = 0;
    while i < m.len()
        invariant
            i <= m@.len(),
            m@ == old(m)@,
            forall|j: int| 0 <= j < i ==> m@[j].0 != k,
        decreases m@.len() - i,
    {
        if m[i].0 == k {
            proof { lemma_key_position(m@, k); }
            assert(key_position(m@, k) == i as int);
            m.set(i, (k, v));
            return;
        }
        i = i + 1;
    }
    assert(key_position(m@, k) < 0);
    m.push((k, v));
}

/// Sets `k` to `v` in the entries, keeping the position of an existing `k`.
fn insert_item(m: &mut Vec<(String, String)>, k: String, v: String)
    ensures
        pairs_view(final(m)@) == keyed_insert(pairs_view(old(m)@), k@, v@),
{
    let ghost mv = pairs_view(m@);
    proof { lemma_key_position(mv, k@); }
    let mut i: usize = 0;
    while i < m.len()
        invariant
            i <= m@.len(),
            m@ == old(m)@,
            mv == pairs_view(m@),
            forall|j: int| 0 <= j < i ==> mv[j].0 != k@,
        decreases m@.len() - i,
    {
        if m[i].0 == k {
            proof { lemma_key_position(mv, k@); assert(mv[i as int].0 == k@); }
            assert(key_position(mv, k@) == i as int);
            m.set(i, (k, v));
            assert(pairs_view(m@) =~= mv.update(i as int, (k@, v@)));
            return;
        }
        i = i + 1;
    }
    assert(key_position(mv, k@) < 0);
    m.push((k, v));
    assert(pairs_view(m@) =~= mv.push((k@, v@)));
}

impl EpgProgram {
    /// A program with only its identifier.
    pub fn new(id: ProgramId) -> (r: Self)
        ensures
            r.id == id,
            r.start_at is None,
            r.duration is None,
            !r.scrambled,
            r.name is None,
            r.description is None,
            r.extended is None,
            r.video is None,
            r.audios@.len() == 0,
            r.genres is None,
            r.series is None,
            r.event_group is None,
    {
        EpgProgram {
            id,
            start_at: None,
            duration: None,
            scrambled: false,
            name: None,
            description: None,
            extended: None,
            video: None,
            audios: Vec::new(),
            genres: None,
            series: None,
            event_group: None,
        }
    }

    pub fn eid(&self) -> (r: Eid)
        ensures
            r@ == (self.id@ % 100_000) as u16,
    {
        self.id.eid()
    }

    /// The name, or "NO TITLE" when the program has none.
    pub fn name(&self) -> (r: &str)
        ensures
            r@ == match self.name {
                Some(n) => n@,
                None => "NO TITLE"@,
            },
    {
        match &self.name {
            Some(n) => n.as_str(),
            None => "NO TITLE",
        }
    }

    /// The end time (UNIX time in milliseconds): the start time plus the
    /// duration, when both are known.
    pub fn end_at(&self) -> (r: Option<i64>)
        requires
            self.start_at matches Some(s) && self.duration matches Some(d) ==> i64::MIN <= s + d <= i64::MAX,
        ensures
            r == match (self.start_at, self.duration) {
                (Some(s), Some(d)) => Some((s + d) as i64),
                _ => None,
            },
    {
        match (self.start_at, self.duration) {
            (Some(s), Some(d)) => Some(s + d),
            _ => None,
        }
    }

    /// Takes the start time, the duration and the scrambling of the event,
    /// and the information of its descriptors: for each kind, the last
    /// descriptor of the kind wins; audio components are set by component
    /// tag.
    pub fn update(&mut self, event: &EitEvent)
        ensures
            updated_program(*old(self), *event, *final(self)),
    {
        let ghost old_self = *self;
        let ghost ds = event.descriptors@;
        self.start_at = event.start_time();
        self.duration = event.duration();
        self.scrambled = event.scrambled;
        proof {
            assert(ds.take(0) =~= Seq::<EitDescriptor>::empty());
        }
        let mut i: usize = 0;
        while i < event.descriptors.len()
            invariant
                i <= ds.len(),
                ds == event.descriptors@,
                self.id == old_self.id,
                self.start_at == event.start_time,
                self.duration == event.duration,
                self.scrambled == event.scrambled,
                ({
                    let p = ds.take(i as int);
                    let short = last_of_kind(p, 0);
                    let video = last_of_kind(p, 1);
                    let content = last_of_kind(p, 3);
                    let series = last_of_kind(p, 4);
                    let group = last_of_kind(p, 5);
                    let ext = last_of_kind(p, 6);
                    &&& self.name == if short >= 0 { ds[short]->event_name } else { old_self.name }
                    &&& self.description == if short >= 0 { ds[short]->text } else { old_self.description }
                    &&& self.video == if video >= 0 { Some(ds[video]->Component_0) } else { old_self.video }
                    &&& self.audios@ == audios_after(old_self.audios@, p)
                    &&& (if content >= 0 {
                        self.genres matches Some(g) && g@ == genres_of(ds[content]->nibbles@)
                    } else {
                        self.genres == old_self.genres
                    })
                    &&& self.series == if series >= 0 { Some(ds[series]->Series_0) } else { old_self.series }
                    &&& (if group >= 0 {
                        self.event_group matches Some(g) && g.group_type == ds[group]->EventGroup_0.group_type
                            && g.events@ == ds[group]->EventGroup_0.events@
                    } else {
                        self.event_group == old_self.event_group
                    })
                    &&& (if ext >= 0 {
                        self.extended matches Some(e) && pairs_view(e@) == extended_map(pairs_view(ds[ext]->items@))
                    } else {
                        self.extended == old_self.extended
                    })
                }),
            decreases ds.len() - i,
        {
            proof {
                lemma_last_of_kind_step(ds, i as int, 0);
                lemma_last_of_kind_step(ds, i as int, 1);
                lemma_last_of_kind_step(ds, i as int, 3);
                lemma_last_of_kind_step(ds, i as int, 4);
                lemma_last_of_kind_step(ds, i as int, 5);
                lemma_last_of_kind_step(ds, i as int, 6);
                assert(ds.take(i as int + 1).drop_last() =~= ds.take(i as int));
                assert(ds.take(i as int + 1).last() == ds[i as int]);
            }
            match &event.descriptors[i] {
                EitDescriptor::ShortEvent { event_name, text } => {
                    self.name = clone_opt_string(event_name);
                    self.description = clone_opt_string(text);
                },
                EitDescriptor::Component(value) => {
                    self.video = Some(value.clone());
                },
                EitDescriptor::AudioComponent(value) => {
                    insert_audio(&mut self.audios, value.component_tag, value.clone());
                },
                EitDescriptor::Content { nibbles } => {
                    let mut genres: Vec<EpgGenre> = Vec::new();
                    let mut j: usize = 0;
                    while j < nibbles.len()
                        invariant
                            j <= nibbles@.len(),
                            genres@ == genres_of(nibbles@.take(j as int)),
                        decreases nibbles@.len() - j,
                    {
                        genres.push(EpgGenre::new(nibbles[j]));
                        j = j + 1;
                        assert(genres@ =~= genres_of(nibbles@.take(j as int)));
                    }
                    assert(nibbles@.take(nibbles@.len() as int) =~= nibbles@);
                    self.genres = Some(genres);
                },
                EitDescriptor::Series(value) => {
                    self.series = Some(value.clone());
                },
                EitDescriptor::EventGroup(value) => {
                    self.event_group = Some(value.clone());
                },
                EitDescriptor::ExtendedEvent { items } => {
                    let mut map: Vec<(String, String)> = Vec::new();
                    let mut j: usize = 0;
                    while j < items.len()
                        invariant
                            j <= items@.len(),
                            pairs_view(map@) == extended_map(pairs_view(items@.take(j as int))),
                        decreases items@.len() - j,
                    {
                        let k = items[j].0.clone();
                        let v = items[j].1.clone();
                        insert_item(&mut map, k, v);
                        proof {
                            let t = pairs_view(items@.take(j as int + 1));
                            assert(t.drop_last() =~= pairs_view(items@.take(j as int)));
                            assert(t.last() == (items@[j as int].0@, items@[j as int].1@));
                        }
                        j = j + 1;
                    }
                    assert(items@.take(items@.len() as int) =~= items@);
                    self.extended = Some(map);
                },
            }
            i = i + 1;
        }
        proof {
            assert(ds.take(ds.len() as int) =~= ds);
        }
    }
}

/// The view of an optional list.
pub open spec fn opt_seq<T>(v: Option<Vec<T>>) -> Option<Seq<T>> {
    match v {
        Some(v) => Some(v@),
        None => None,
    }
}

/// What a program holds: its identity and times, its texts, and its
/// components and descriptors, lists taken by their views.
pub open spec fn program_view(p: EpgProgram) -> (
    (ProgramId, Option<i64>, Option<i64>, bool),
    (Option<String>, Option<String>, Option<Seq<(String, String)>>),
    (Option<ComponentDescriptor>, Seq<(u8, AudioComponentDescriptor)>, Option<Seq<EpgGenre>>),
    (Option<SeriesDescriptor>, Option<(u8, Seq<EventGroupEvent>)>),
) {
    (
        (p.id, p.start_at, p.duration, p.scrambled),
        (p.name, p.description, opt_seq(p.extended)),
        (p.video, p.audios@, opt_seq(p.genres)),
        (
            p.series,
            match p.event_group {
                Some(g) => Some((g.group_type, g.events@)),
                None => None,
            },
        ),
    )
}

impl Clone for EpgProgram {
    fn clone(&self) -> (r: Self)
        ensures
            program_view(r) == program_view(*self),
    {
        let extended = match &self.extended {
            Some(items) => {
                let mut c: Vec<(String, String)> = Vec::new();
                let mut i: usize = 0;
                while i < items.len()
                    invariant
                        i <= items@.len(),
                        c@ == items@.take(i as int),
                    decreases items@.len() - i,
                {
                    c.push((items[i].0.clone(), items[i].1.clone()));
                    i = i + 1;
                    assert(c@ =~= items@.take(i as int));
                }
                assert(items@.take(items@.len() as int) =~= items@);
                Some(c)
            },
            None => None,
        };
        let mut audios: Vec<(u8, AudioComponentDescriptor)> = Vec::new();
        let mut i: usize = 0;
        while i < self.audios.len()
            invariant
                i <= self.audios@.len(),
                audios@ == self.audios@.take(i as int),
            decreases self.audios@.len() - i,
        {
            audios.push((self.audios[i].0, self.audios[i].1.clone()));
            i = i + 1;
            assert(audios@ =~= self.audios@.take(i as int));
        }
        assert(self.audios@.take(self.audios@.len() as int) =~= self.audios@);
        let genres = match &self.genres {
            Some(gs) => {
                let mut c: Vec<EpgGenre> = Vec::new();
                let mut j: usize = 0;
                while j < gs.len()
                    invariant
                        j <= gs@.len(),
                        c@ == gs@.take(j as int),
                    decreases gs@.len() - j,
                {
                    let g = &gs[j];
                    c.push(EpgGenre { lv1: g.lv1, lv2: g.lv2, un1: g.un1, un2: g.un2 });
                    j = j + 1;
                    assert(c@ =~= gs@.take(j as int));
                }
                assert(gs@.take(gs@.len() as int) =~= gs@);
                Some(c)
            },
            None => None,
        };
        EpgProgram {
            id: self.id,
            start_at: self.start_at,
            duration: self.duration,
            scrambled: self.scrambled,
            name: clone_opt_string(&self.name),
            description: clone_opt_string(&self.description),
            extended,
            video: match &self.video {
                Some(v) => Some(v.clone()),
                None => None,
            },
            audios,
            genres,
            series: match &self.series {
                Some(s) => Some(s.clone()),
                None => None,
            },
            event_group: match &self.event_group {
                Some(g) => Some(g.clone()),
                None => None,
            },
        }
    }
}

/// What a channel holds: its name, type, channel, extra arguments and
/// service lists.
pub open spec fn channel_view(c: EpgChannel) -> (Seq<char>, ChannelType, Seq<char>, Seq<char>, Seq<Sid>, Seq<Sid>) {
    (c.name@, c.channel_type, c.channel@, c.extra_args@, c.services@, c.excluded_services@)
}

/// What a service holds.
pub open spec fn service_view(s: EpgService) -> (ServiceId, u16, i16, u16, Seq<char>, (Seq<char>, ChannelType, Seq<char>, Seq<char>, Seq<Sid>, Seq<Sid>)) {
    (s.id, s.service_type, s.logo_id, s.remote_control_key_id, s.name@, channel_view(s.channel))
}

/// A copy of a list of service identifiers.
pub fn copy_sids(v: &Vec<Sid>) -> (r: Vec<Sid>)
    ensures
        r@ == v@,
{
    let mut r: Vec<Sid> = Vec::new();
    let mut i: usize = 0;
    while i < v.len()
        invariant
            i <= v@.len(),
            r@ == v@.take(i as int),
        decreases v@.len() - i,
    {
        r.push(v[i]);
        i = i + 1;
        assert(r@ =~= v@.take(i as int));
    }
    assert(v@.take(v@.len() as int) =~= v@);
    r
}

/// Whether two lists of service identifiers are equal.
pub fn same_sids(a: &Vec<Sid>, b: &Vec<Sid>) -> (r: bool)
    ensures
        r == (a@ == b@),
{
    if a.len() != b.len() {
        return false;
    }
    let mut i: usize = 0;
    while i < a.len()
        invariant
            i <= a@.len(),
            a@.len() == b@.len(),
            forall|j: int| 0 <= j < i ==> a@[j] == b@[j],
        decreases a@.len() - i,
    {
        if a[i] != b[i] {
            return false;
        }
        i = i + 1;
    }
    assert(a@ =~= b@);
    true
}

impl EpgChannel {
    /// Whether both channels hold the same values.
    pub fn same_as(&self, other: &EpgChannel) -> (r: bool)
        ensures
            r == (channel_view(*self) == channel_view(*other)),
    {
        self.name == other.name && self.channel_type == other.channel_type && self.channel == other.channel
            && self.extra_args == other.extra_args && same_sids(&self.services, &other.services)
            && same_sids(&self.excluded_services, &other.excluded_services)
    }
}

impl Clone for EpgChannel {
    fn clone(&self) -> (r: Self)
        ensures
            channel_view(r) == channel_view(*self),
    {
        EpgChannel {
            name: self.name.clone(),
            channel_type: self.channel_type,
            channel: self.channel.clone(),
            extra_args: self.extra_args.clone(),
            services: copy_sids(&self.services),
            excluded_services: copy_sids(&self.excluded_services),
        }
    }
}

impl Clone for EpgService {
    fn clone(&self) -> (r: Self)
        ensures
            service_view(r) == service_view(*self),
    {
        EpgService {
            id: self.id,
            service_type: self.service_type,
            logo_id: self.logo_id,
            remote_control_key_id: self.remote_control_key_id,
            name: self.name.clone(),
            channel: self.channel.clone(),
        }
    }
}

impl EitSection {
    /// The identifier of the service of the section.
    pub fn service_id(&self) -> (r: ServiceId)
        ensures
            r@ == crate::models::service_id_value(self.original_network_id@, self.service_id@),
    {
        ServiceId::new(self.original_network_id, self.service_id)
    }
}

// messages

/// Queries all channels.
pub struct QueryChannels;

/// Queries a channel.
pub struct QueryChannel {
    pub channel_type: ChannelType,
    pub channel: String,
}

/// Queries all services.
pub struct QueryServices;

/// Queries a service.
pub struct QueryService {
    pub service_id: ServiceId,
}

/// Queries the clock of a service.
pub struct QueryClock {
    pub service_id: ServiceId,
}

/// Queries the programs of a service.
pub struct QueryPrograms {
    pub service_id: ServiceId,
}

/// Queries a program.
pub struct QueryProgram {
    pub program_id: ProgramId,
}

/// Prepares the schedule of a service for today.
pub struct PrepareSchedule {
    pub service_id: ServiceId,
}

/// Puts an EIT section in the schedule of its service.
pub struct UpdateSchedule {
    pub section: EitSection,
}

/// Collects the programs of the schedule of a service.
pub struct FlushSchedule {
    pub service_id: ServiceId,
}

/// Saves the schedules.
pub struct SaveSchedules;

/// Unregisters an emitter of a kind of notification by its identifier.
#[derive(Clone, Copy, Debug)]
pub enum UnregisterEmitter {
    ServicesUpdated(usize),
    ClocksUpdated(usize),
    ProgramsUpdated(usize),
}

/// The clocks of the services were updated.
#[derive(Clone)]
pub struct ClocksUpdated {
    pub clocks: std::sync::Arc<Vec<(ServiceId, Clock)>>,
}

/// The programs of a service were updated.
#[derive(Clone, Copy)]
pub struct ProgramsUpdated {
    pub service_id: ServiceId,
}

} // verus!
