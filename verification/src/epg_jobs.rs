//! The decisions of the EPG jobs on what the commands report: the services
//! found on a channel, the clocks of its services, and the EIT sections fed
//! to the schedules.
use vstd::prelude::*;

use crate::config::ChannelConfig;
use crate::epg::{copy_sids, keyed_insert, lemma_key_position, EitEvent, EitSection, EpgChannel, EpgService};
use crate::onair::contains_service_id;
use crate::models::{service_id_value, ChannelType, Clock, Nid, ServiceId, Sid, Tsid};
use crate::schedule::timed;

verus! {

/// A service reported by the service scanner.
#[derive(Debug)]
pub struct TsService {
    pub nid: Nid,
    pub tsid: Tsid,
    pub sid: Sid,
    pub service_type: u16,
    pub logo_id: i16,
    pub remote_control_key_id: u16,
    pub name: String,
}

impl EpgService {
    /// The service found on a configured channel.
    pub fn from_scan(channel: &ChannelConfig, sv: &TsService) -> (r: EpgService)
        ensures
            r.id@ == service_id_value(sv.nid@, sv.sid@),
            r.service_type == sv.service_type,
            r.logo_id == sv.logo_id,
            r.remote_control_key_id == sv.remote_control_key_id,
            r.name@ == sv.name@,
            r.channel.name@ == channel.name@,
            r.channel.channel_type == channel.channel_type,
            r.channel.channel@ == channel.channel@,
            r.channel.extra_args@ == channel.extra_args@,
            r.channel.services@ == channel.services@,
            r.channel.excluded_services@ == channel.excluded_services@,
    {
        EpgService {
            id: ServiceId::new(sv.nid, sv.sid),
            service_type: sv.service_type,
            logo_id: sv.logo_id,
            remote_control_key_id: sv.remote_control_key_id,
            name: sv.name.clone(),
            channel: EpgChannel {
                name: channel.name.clone(),
                channel_type: channel.channel_type,
                channel: channel.channel.clone(),
                extra_args: channel.extra_args.clone(),
                services: copy_sids(&channel.services),
                excluded_services: copy_sids(&channel.excluded_services),
            },
        }
    }
}

/// A clock reported by the clock synchronizer for a service.
#[derive(Clone, Copy, Debug)]
pub struct SyncClock {
    pub nid: Nid,
    pub tsid: Tsid,
    pub sid: Sid,
    pub clock: Clock,
}

/// The clocks by service, a later clock of a service replacing an earlier
/// one.
pub open spec fn clocks_by_service(clocks: Seq<SyncClock>) -> Seq<(ServiceId, Clock)>
    decreases clocks.len(),
{
    if clocks.len() == 0 {
        Seq::empty()
    } else {
        let c = clocks.last();
        keyed_insert(clocks_by_service(clocks.drop_last()), ServiceId::of_value(service_id_value(c.nid@, c.sid@) as u64), c.clock)
    }
}

/// The clocks of the services of a channel, by service.
pub fn clocks_of_channel(clocks: &Vec<SyncClock>) -> (r: Vec<(ServiceId, Clock)>)
    ensures
        r@ == clocks_by_service(clocks@),
{
    let mut r: Vec<(ServiceId, Clock)> = Vec::new();
    let mut i: usize = 0;
    while i < clocks.len()
        invariant
            i <= clocks@.len(),
            r@ == clocks_by_service(clocks@.take(i as int)),
        decreases clocks@.len() - i,
    {
        let c = clocks[i];
        let id = ServiceId::new(c.nid, c.sid);
        proof {
            assert(clocks@.take(i + 1).drop_last() =~= clocks@.take(i as int));
            assert(clocks@.take(i + 1).last() == c);
            ServiceId::lemma_of_value(id);
        }
        set_clock(&mut r, id, c.clock);
        i = i + 1;
    }
    assert(clocks@.take(clocks@.len() as int) =~= clocks@);
    r
}

/// Sets the clock of a service, keeping the place of the service.
fn set_clock(acc: &mut Vec<(ServiceId, Clock)>, k: ServiceId, v: Clock)
    ensures
        final(acc)@ == keyed_insert(old(acc)@, k, v),
{
    proof {
        lemma_key_position(acc@, k);
    }
    let mut i: usize = 0;
    while i < acc.len()
        invariant
            i <= acc@.len(),
            acc@ == old(acc)@,
            forall|j: int| 0 <= j < i ==> acc@[j].0 != k,
        decreases acc@.len() - i,
    {
        if acc[i].0 == k {
            proof {
                lemma_key_position(acc@, k);
            }
            acc.set(i, (k, v));
            return;
        }
        i = i + 1;
    }
    acc.push((k, v));
}

/// Whether the table is one of the EIT[schedule] tables kept: basic 0x50
/// and 0x51, extended 0x58 and 0x59.
pub open spec fn is_schedule_table(table_id: u16) -> bool {
    table_id == 0x50 || table_id == 0x51 || table_id == 0x58 || table_id == 0x59
}

/// What to do with an EIT section read from the collector.
pub enum EitFeed {
    /// The table is not one of the EIT[schedule] tables kept.
    Ignore,
    /// Prepare the schedule of a service seen for the first time, then put
    /// the section in it.
    Feed { prepare: Option<ServiceId>, section: EitSection },
}

/// The services seen while collecting the EIT sections of a channel.
pub struct EitCollection {
    pub service_ids: Vec<ServiceId>,
    pub num_sections: usize,
}

impl EitCollection {
    pub fn new() -> (r: Self)
        ensures
            r.service_ids@.len() == 0,
            r.num_sections == 0,
    {
        EitCollection { service_ids: Vec::new(), num_sections: 0 }
    }

    /// Decides on a section: a section of another table is ignored; else
    /// only its events with a start time and a duration are kept, and the
    /// schedule of its service is prepared first when the service is seen
    /// for the first time.
    pub fn feed(&mut self, section: EitSection) -> (r: EitFeed)
        requires
            old(self).num_sections < usize::MAX,
        ensures
            !is_schedule_table(section.table_id) ==> r is Ignore && *final(self) == *old(self),
            is_schedule_table(section.table_id) ==> {
                let id = ServiceId::of_value(service_id_value(section.original_network_id@, section.service_id@) as u64);
                &&& r matches EitFeed::Feed { prepare, section: s }
                &&& s.events@ == timed(section.events@)
                &&& s.original_network_id == section.original_network_id
                &&& s.transport_stream_id == section.transport_stream_id
                &&& s.service_id == section.service_id
                &&& s.table_id == section.table_id
                &&& s.section_number == section.section_number
                &&& s.last_section_number == section.last_section_number
                &&& s.segment_last_section_number == section.segment_last_section_number
                &&& s.version_number == section.version_number
                &&& prepare == if old(self).service_ids@.contains(id) { None } else { Some(id) }
                &&& final(self).service_ids@ == if old(self).service_ids@.contains(id) {
                    old(self).service_ids@
                } else {
                    old(self).service_ids@.push(id)
                }
                &&& final(self).num_sections == old(self).num_sections + 1
            },
    {
        if !section.is_valid() {
            return EitFeed::Ignore;
        }
        let id = section.service_id();
        proof {
            ServiceId::lemma_of_value(id);
        }
        let mut rest = section;
        let mut source: Vec<EitEvent> = Vec::new();
        std::mem::swap(&mut source, &mut rest.events);
        let ghost evs = source@;
        let mut events: Vec<EitEvent> = Vec::new();
        let ghost mut n: int = 0;
        assert(evs.take(0) =~= Seq::<EitEvent>::empty());
        while source.len() > 0
            invariant
                0 <= n <= evs.len(),
                source@ == evs.skip(n),
                events@ == timed(evs.take(n)),
            decreases source@.len(),
        {
            let e = source.remove(0);
            proof {
                assert(evs.take(n + 1).drop_last() =~= evs.take(n));
                assert(evs.take(n + 1).last() == e);
                assert(source@ =~= evs.skip(n + 1));
            }
            if e.start_time.is_some() && e.duration.is_some() {
                events.push(e);
            }
            proof {
                n = n + 1;
            }
        }
        assert(evs.take(evs.len() as int) =~= evs);
        rest.events = events;
        let prepare = if contains_service_id(&self.service_ids, id) {
            None
        } else {
            self.service_ids.push(id);
            Some(id)
        };
        self.num_sections = self.num_sections + 1;
        EitFeed::Feed { prepare, section: rest }
    }
}


/// Asks the EIT feeder to collect the EIT sections of the channels of the
/// services.
pub struct FeedEitSections;

/// The periodic jobs of the EPG.
#[derive(Clone, Copy, Debug, PartialEq, Eq, Structural)]
pub enum JobKind {
    ScanServices,
    SyncClocks,
    UpdateSchedules,
}

impl JobKind {
    /// The name of the job, as the debug variable lists it.
    pub fn name(&self) -> (r: &'static str)
        ensures
            r@ == job_name(*self),
    {
        match self {
            JobKind::ScanServices => "scan-services",
            JobKind::SyncClocks => "sync-clocks",
            JobKind::UpdateSchedules => "update-schedules",
        }
    }
}

pub open spec fn job_name(kind: JobKind) -> Seq<char> {
    match kind {
        JobKind::ScanServices => "scan-services"@,
        JobKind::SyncClocks => "sync-clocks"@,
        JobKind::UpdateSchedules => "update-schedules"@,
    }
}

/// Which jobs run: a job does not run twice at a time.
pub struct JobManager {
    pub scanning_services: bool,
    pub synchronizing_clocks: bool,
    pub updating_schedules: bool,
}

impl JobManager {
    /// Whether a job runs.
    pub open spec fn running(&self, kind: JobKind) -> bool {
        match kind {
            JobKind::ScanServices => self.scanning_services,
            JobKind::SyncClocks => self.synchronizing_clocks,
            JobKind::UpdateSchedules => self.updating_schedules,
        }
    }

    /// No job runs.
    pub fn new() -> (r: Self)
        ensures
            !r.running(JobKind::ScanServices),
            !r.running(JobKind::SyncClocks),
            !r.running(JobKind::UpdateSchedules),
    {
        JobManager { scanning_services: false, synchronizing_clocks: false, updating_schedules: false }
    }

    /// Starts a job unless it runs already; gives whether it started.
    pub fn begin(&mut self, kind: JobKind) -> (r: bool)
        ensures
            r == !old(self).running(kind),
            final(self).running(kind),
            forall|k: JobKind| k != kind ==> final(self).running(k) == old(self).running(k),
    {
        match kind {
            JobKind::ScanServices => {
                if self.scanning_services {
                    return false;
                }
                self.scanning_services = true;
            },
            JobKind::SyncClocks => {
                if self.synchronizing_clocks {
                    return false;
                }
                self.synchronizing_clocks = true;
            },
            JobKind::UpdateSchedules => {
                if self.updating_schedules {
                    return false;
                }
                self.updating_schedules = true;
            },
        }
        true
    }

    /// Ends a job.
    pub fn finish(&mut self, kind: JobKind)
        ensures
            !final(self).running(kind),
            forall|k: JobKind| k != kind ==> final(self).running(k) == old(self).running(k),
    {
        match kind {
            JobKind::ScanServices => self.scanning_services = false,
            JobKind::SyncClocks => self.synchronizing_clocks = false,
            JobKind::UpdateSchedules => self.updating_schedules = false,
        }
    }
}

/// Whether a cache file is fresh: a fresh period is set, the age of the
/// file is known, and it is within the period.
pub fn is_fresh(period: Option<u64>, age: Option<u64>) -> (r: bool)
    ensures
        r == (period matches Some(p) && age matches Some(a) && a <= p),
{
    match (period, age) {
        (Some(p), Some(a)) => a <= p,
        _ => false,
    }
}

/// Whether a job runs when the job manager starts: it is enabled and its
/// cache file is not fresh.
pub fn runs_at_start(disabled: bool, fresh: bool) -> (r: bool)
    ensures
        r == (!disabled && !fresh),
{
    !disabled && !fresh
}

/// The words of a text as `str::split_whitespace` of std makes them.
pub uninterp spec fn whitespace_words(s: Seq<char>) -> Seq<Seq<char>>;

/// Calls `str::split_whitespace`; the contract claims only that the words
/// are the ones `whitespace_words` names for the text.
#[verifier::external_body]
fn split_whitespace(s: &str) -> (r: Vec<String>)
    ensures
        r@.map_values(|w: String| w@) == whitespace_words(s@),
{
    s.split_whitespace().map(|w| w.to_string()).collect()
}

/// Whether the value of the debug variable, when set, names the job among
/// its words.
pub fn is_job_disabled_for_debug(var: Option<&str>, job: &str) -> (r: bool)
    ensures
        r == match var {
            Some(v) => whitespace_words(v@).contains(job@),
            None => false,
        },
{
    match var {
        None => false,
        Some(v) => {
            let words = split_whitespace(v);
            let ghost ws = words@.map_values(|w: String| w@);
            let job_s = String::from_str(job);
            let mut i: usize = 0;
            while i < words.len()
                invariant
                    i <= words@.len(),
                    ws == words@.map_values(|w: String| w@),
                    whitespace_words(v@) == ws,
                    job_s@ == job@,
                    var == Some(v),
                    forall|j: int| 0 <= j < i ==> ws[j] != job@,
                decreases words@.len() - i,
            {
                if words[i] == job_s {
                    assert(ws[i as int] == job@);
                    assert(ws.contains(job@));
                    assert(whitespace_words(v@) == ws);
                    assert(whitespace_words(v@).contains(job@));
                    assert(var == Some(v));
                    return true;
                }
                i = i + 1;
            }
            false
        },
    }
}


/// A channel of services that the EIT feeder walks: its type, its channel,
/// its name, its extra arguments and the values of its services.
pub type ChannelGroup = (ChannelType, Seq<char>, Seq<char>, Seq<char>, Seq<u16>);

/// The position of the group of a channel, or -1.
pub open spec fn group_position(g: Seq<ChannelGroup>, channel_type: ChannelType, channel: Seq<char>) -> int
    decreases g.len(),
{
    if g.len() == 0 {
        -1
    } else if group_position(g.drop_last(), channel_type, channel) >= 0 {
        group_position(g.drop_last(), channel_type, channel)
    } else if g.last().0 == channel_type && g.last().1 == channel {
        g.len() - 1
    } else {
        -1
    }
}

proof fn lemma_group_position(g: Seq<ChannelGroup>, channel_type: ChannelType, channel: Seq<char>)
    ensures
        -1 <= group_position(g, channel_type, channel) < g.len(),
        group_position(g, channel_type, channel) >= 0 ==> g[group_position(g, channel_type, channel)].0 == channel_type
            && g[group_position(g, channel_type, channel)].1 == channel,
        group_position(g, channel_type, channel) >= 0 ==> forall|i: int| 0 <= i < group_position(g, channel_type, channel)
            ==> !(g[i].0 == channel_type && g[i].1 == channel),
        group_position(g, channel_type, channel) < 0 ==> forall|i: int| 0 <= i < g.len() ==> !(g[i].0 == channel_type
            && g[i].1 == channel),
    decreases g.len(),
{
    if g.len() > 0 {
        let d = g.drop_last();
        lemma_group_position(d, channel_type, channel);
        assert forall|i: int| 0 <= i < d.len() implies d[i] == g[i] by {}
    }
}

/// The channels of services, each once by type and channel, in the order
/// they first appear: a channel takes the name and the extra arguments of
/// its first service, and the services on it in their order.
pub open spec fn grouped(svs: Seq<(ServiceId, EpgService)>) -> Seq<ChannelGroup>
    decreases svs.len(),
{
    if svs.len() == 0 {
        Seq::empty()
    } else {
        let g = grouped(svs.drop_last());
        let sv = svs.last().1;
        let sid = (sv.id@ % 100_000) as u16;
        let p = group_position(g, sv.channel.channel_type, sv.channel.channel@);
        if p >= 0 {
            g.update(p, (g[p].0, g[p].1, g[p].2, g[p].3, g[p].4.push(sid)))
        } else {
            g.push((sv.channel.channel_type, sv.channel.channel@, sv.channel.name@, sv.channel.extra_args@, seq![sid]))
        }
    }
}

/// The group that a channel of the EIT feeder is.
pub open spec fn group_of(ch: EpgChannel) -> ChannelGroup {
    (ch.channel_type, ch.channel@, ch.name@, ch.extra_args@, ch.services@.map_values(|s: Sid| s@))
}

/// The channels that the EIT feeder walks for the services: each channel
/// once, with its services and no excluded ones.
pub fn channels_of_services(services: &[(ServiceId, EpgService)]) -> (r: Vec<EpgChannel>)
    ensures
        r@.map_values(|ch: EpgChannel| group_of(ch)) == grouped(services@),
        forall|i: int| 0 <= i < r@.len() ==> (#[trigger] r@[i]).excluded_services@.len() == 0,
{
    let mut channels: Vec<EpgChannel> = Vec::new();
    let mut i: usize = 0;
    while i < services.len()
        invariant
            i <= services@.len(),
            channels@.map_values(|ch: EpgChannel| group_of(ch)) == grouped(services@.take(i as int)),
            forall|k: int| 0 <= k < channels@.len() ==> (#[trigger] channels@[k]).excluded_services@.len() == 0,
        decreases services@.len() - i,
    {
        let ghost g = grouped(services@.take(i as int));
        proof {
            assert(services@.take(i as int + 1).drop_last() =~= services@.take(i as int));
            assert(services@.take(i as int + 1).last() == services@[i as int]);
        }
        let sv = &services[i].1;
        let sid = sv.sid();
        proof { lemma_group_position(g, sv.channel.channel_type, sv.channel.channel@); }
        let mut p: usize = 0;
        while p < channels.len()
            invariant
                p <= channels@.len(),
                g == channels@.map_values(|ch: EpgChannel| group_of(ch)),
                forall|k: int| 0 <= k < p ==> !(g[k].0 == sv.channel.channel_type && g[k].1 == sv.channel.channel@),
            ensures
                p <= channels@.len(),
                forall|k: int| 0 <= k < p ==> !(g[k].0 == sv.channel.channel_type && g[k].1 == sv.channel.channel@),
                p < channels@.len() ==> g[p as int].0 == sv.channel.channel_type && g[p as int].1 == sv.channel.channel@,
            decreases channels@.len() - p,
        {
            if channels[p].channel_type == sv.channel.channel_type && channels[p].channel == sv.channel.channel {
                break;
            }
            p = p + 1;
        }
        if p < channels.len() {
            assert(group_position(g, sv.channel.channel_type, sv.channel.channel@) == p as int);
            let ghost before = channels@;
            channels[p].services.push(sid);
            proof {
                assert(channels@.map_values(|ch: EpgChannel| group_of(ch)) =~= g.update(
                    p as int,
                    (g[p as int].0, g[p as int].1, g[p as int].2, g[p as int].3, g[p as int].4.push(sid@)),
                )) by {
                    assert(channels@[p as int].services@.map_values(|s: Sid| s@) =~= before[p as int].services@.map_values(
                        |s: Sid| s@,
                    ).push(sid@));
                }
            }
        } else {
            assert(group_position(g, sv.channel.channel_type, sv.channel.channel@) < 0);
            let mut sids: Vec<Sid> = Vec::new();
            sids.push(sid);
            let ch = EpgChannel {
                name: sv.channel.name.clone(),
                channel_type: sv.channel.channel_type,
                channel: sv.channel.channel.clone(),
                extra_args: sv.channel.extra_args.clone(),
                services: sids,
                excluded_services: Vec::new(),
            };
            let ghost before = channels@;
            channels.push(ch);
            proof {
                assert(ch.services@.map_values(|s: Sid| s@) =~= seq![sid@]);
                assert(channels@.map_values(|ch: EpgChannel| group_of(ch)) =~= g.push(group_of(ch)));
            }
        }
        i = i + 1;
    }
    proof {
        assert(services@.take(services@.len() as int) =~= services@);
    }
    channels
}

} // verus!
