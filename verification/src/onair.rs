//! On-air program tracking: which services a local tracker follows, when an
//! EIT[p/f] section brings news, and the program it describes.
use std::sync::Arc;
use vstd::prelude::*;

use crate::config::LocalOnairProgramTrackerConfig;
use crate::epg::{EitDescriptor, EitEvent, EitSection, EpgProgram, EpgService};
use crate::schedule::{all_descriptors, lemma_program_step, program_from};
use crate::error::Error;
use crate::models::{program_id_value, ChannelType, ProgramId, ServiceId};
use crate::recording::share;

verus! {

/// Whether the local tracker follows the service: its channel type is one
/// of the tracker's, it is among the tracker's services when those are
/// given, and it is not among the excluded ones.
pub open spec fn tracker_matches(config: LocalOnairProgramTrackerConfig, service: EpgService) -> bool {
    &&& config.channel_types@.contains(service.channel.channel_type)
    &&& (config.services@.len() == 0 || config.services@.contains(service.id))
    &&& !config.excluded_services@.contains(service.id)
}

fn contains_channel_type(v: &Vec<ChannelType>, t: ChannelType) -> (r: bool)
    ensures
        r == v@.contains(t),
{
    let mut i: usize = 0;
    while i < v.len()
        invariant
            i <= v@.len(),
            forall|j: int| 0 <= j < i ==> v@[j] != t,
        decreases v@.len() - i,
    {
        if v[i] == t {
            assert(v@[i as int] == t);
            return true;
        }
        i = i + 1;
    }
    false
}

pub(crate) fn contains_service_id(v: &Vec<ServiceId>, id: ServiceId) -> (r: bool)
    ensures
        r == v@.contains(id),
{
    let mut i: usize = 0;
    while i < v.len()
        invariant
            i <= v@.len(),
            forall|j: int| 0 <= j < i ==> v@[j] != id,
        decreases v@.len() - i,
    {
        if v[i] == id {
            assert(v@[i as int] == id);
            return true;
        }
        i = i + 1;
    }
    false
}

impl LocalOnairProgramTrackerConfig {
    /// Whether the tracker follows the service.
    pub fn matches(&self, service: &EpgService) -> (r: bool)
        ensures
            r == tracker_matches(*self, *service),
    {
        if !contains_channel_type(&self.channel_types, service.channel.channel_type) {
            return false;
        }
        let service_id = service.id;
        if self.services.len() > 0 && !contains_service_id(&self.services, service_id) {
            return false;
        }
        if self.excluded_services.len() > 0 && contains_service_id(&self.excluded_services, service_id) {
            return false;
        }
        true
    }
}

impl EitSection {
    /// Whether the section differs in version from the section seen before,
    /// if any.
    pub fn is_updated(&self, section: &Option<EitSection>) -> (r: bool)
        ensures
            r == !(section matches Some(s) && s.version_number == self.version_number),
    {
        match section {
            Some(s) => self.version_number != s.version_number,
            None => true,
        }
    }

    /// The program of the first event of the section, if any.
    pub fn extract_program(&self) -> (r: Option<Arc<EpgProgram>>)
        ensures
            self.events@.len() == 0 ==> r is None,
            self.events@.len() > 0 ==> (r matches Some(p) && program_from(
                program_id_value(self.original_network_id@, self.service_id@, self.events@[0].event_id@),
                seq![self.events@[0]],
                *p,
            )),
    {
        if self.events.len() == 0 {
            return None;
        }
        let event = &self.events[0];
        let id = ProgramId::new(self.original_network_id, self.service_id, event.event_id);
        let mut program = EpgProgram::new(id);
        let ghost fresh = program;
        program.update(event);
        proof {
            assert(all_descriptors(Seq::<EitEvent>::empty()) =~= Seq::<EitDescriptor>::empty());
            assert(fresh.audios@ =~= Seq::empty());
            lemma_program_step(id@ as int, Seq::empty(), fresh, *event, program);
            assert(Seq::<EitEvent>::empty().push(*event) =~= seq![*event]);
        }
        Some(Arc::new(program))
    }
}

/// The current and the next program of a service.
pub struct OnairProgram {
    pub current: Option<Arc<EpgProgram>>,
    pub next: Option<Arc<EpgProgram>>,
}

fn share_opt(p: &Option<Arc<EpgProgram>>) -> (r: Option<Arc<EpgProgram>>)
    ensures
        r == *p,
{
    match p {
        Some(p) => Some(share(p)),
        None => None,
    }
}

impl Clone for OnairProgram {
    fn clone(&self) -> (r: Self)
        ensures
            r == *self,
    {
        OnairProgram { current: share_opt(&self.current), next: share_opt(&self.next) }
    }
}

impl Default for OnairProgram {
    fn default() -> (r: Self)
        ensures
            r.current is None,
            r.next is None,
    {
        OnairProgram { current: None, next: None }
    }
}

/// The position of the entry of a key, or -1.
pub open spec fn entry_position<K, V>(m: Seq<(K, V)>, k: K) -> int
    decreases m.len(),
{
    if m.len() == 0 {
        -1
    } else if m.last().0 == k {
        m.len() - 1
    } else {
        entry_position(m.drop_last(), k)
    }
}

pub proof fn lemma_entry_position<K, V>(m: Seq<(K, V)>, k: K)
    ensures
        -1 <= entry_position(m, k) < m.len(),
        entry_position(m, k) >= 0 ==> m[entry_position(m, k)].0 == k,
        entry_position(m, k) >= 0 ==> forall|i: int| entry_position(m, k) < i < m.len() ==> m[i].0 != k,
        entry_position(m, k) < 0 ==> forall|i: int| 0 <= i < m.len() ==> m[i].0 != k,
    decreases m.len(),
{
    if m.len() > 0 {
        let d = m.drop_last();
        lemma_entry_position(d, k);
        assert forall|i: int| 0 <= i < d.len() implies d[i] == m[i] by {}
    }
}

/// The position of the first entry of a name, or -1.
pub open spec fn name_position(t: Seq<(String, ServiceId)>, name: Seq<char>) -> int
    decreases t.len(),
{
    if t.len() == 0 {
        -1
    } else if name_position(t.drop_last(), name) >= 0 {
        name_position(t.drop_last(), name)
    } else if t.last().0@ == name {
        t.len() - 1
    } else {
        -1
    }
}

proof fn lemma_name_position_step(t: Seq<(String, ServiceId)>, name: Seq<char>, j: int)
    requires
        0 <= j < t.len(),
    ensures
        name_position(t.take(j + 1), name) == if name_position(t.take(j), name) >= 0 {
            name_position(t.take(j), name)
        } else if t[j].0@ == name {
            j
        } else {
            -1
        },
{
    assert(t.take(j + 1).drop_last() =~= t.take(j));
    assert(t.take(j + 1).last() == t[j]);
}

/// Whether each key has one entry at most.
pub open spec fn keys_unique<K, V>(m: Seq<(K, V)>) -> bool {
    forall|i: int, j: int| 0 <= i < j < m.len() ==> (#[trigger] m[i]).0 != (#[trigger] m[j]).0
}

/// The entries after setting the current or the next program of a service:
/// the entry of the service keeps its position, a new one goes last with no
/// program on the other side.
pub open spec fn with_program(
    cache: Seq<(ServiceId, OnairProgram)>,
    service_id: ServiceId,
    program: Arc<EpgProgram>,
    is_current: bool,
) -> Seq<(ServiceId, OnairProgram)> {
    let p = entry_position(cache, service_id);
    let old = if p >= 0 {
        cache[p].1
    } else {
        OnairProgram { current: None, next: None }
    };
    let new = if is_current {
        OnairProgram { current: Some(program), ..old }
    } else {
        OnairProgram { next: Some(program), ..old }
    };
    if p >= 0 {
        cache.update(p, (service_id, new))
    } else {
        cache.push((service_id, new))
    }
}

/// The on-air programs that the trackers reported, by service, and the
/// trackers that run.
pub struct OnairProgramManager {
    /// The on-air programs by service.
    pub cache: Vec<(ServiceId, OnairProgram)>,
    /// The names of the running trackers.
    pub trackers: Vec<String>,
    /// The service of each temporal tracker, by tracker name.
    pub temporal_services: Vec<(String, ServiceId)>,
}

impl OnairProgramManager {
    pub open spec fn wf(&self) -> bool {
        keys_unique(self.cache@)
    }

    /// No programs and no trackers.
    pub fn new() -> (r: Self)
        ensures
            r.wf(),
            r.cache@.len() == 0,
            r.trackers@.len() == 0,
            r.temporal_services@.len() == 0,
    {
        OnairProgramManager { cache: Vec::new(), trackers: Vec::new(), temporal_services: Vec::new() }
    }

    fn find_service(&self, service_id: ServiceId) -> (r: Option<usize>)
        ensures
            match r {
                Some(i) => i == entry_position(self.cache@, service_id),
                None => entry_position(self.cache@, service_id) < 0,
            },
    {
        proof { lemma_entry_position(self.cache@, service_id); }
        let mut i = self.cache.len();
        while i > 0
            invariant
                i <= self.cache@.len(),
                forall|j: int| i <= j < self.cache@.len() ==> self.cache@[j].0 != service_id,
                -1 <= entry_position(self.cache@, service_id) < self.cache@.len(),
                entry_position(self.cache@, service_id) >= 0 ==> self.cache@[entry_position(self.cache@, service_id)].0
                    == service_id,
                entry_position(self.cache@, service_id) >= 0 ==> forall|j: int|
                    entry_position(self.cache@, service_id) < j < self.cache@.len() ==> self.cache@[j].0 != service_id,
                entry_position(self.cache@, service_id) < 0 ==> forall|j: int| 0 <= j < self.cache@.len() ==> self.cache@[j].0
                    != service_id,
            decreases i,
        {
            i = i - 1;
            if self.cache[i].0 == service_id {
                return Some(i);
            }
        }
        None
    }

    /// A copy of the on-air programs of every service.
    pub fn query_onair_programs(&self) -> (r: Vec<(ServiceId, OnairProgram)>)
        ensures
            r@ == self.cache@,
    {
        let mut r: Vec<(ServiceId, OnairProgram)> = Vec::new();
        let mut i: usize = 0;
        while i < self.cache.len()
            invariant
                i <= self.cache@.len(),
                r@ == self.cache@.take(i as int),
            decreases self.cache@.len() - i,
        {
            r.push((self.cache[i].0, self.cache[i].1.clone()));
            i = i + 1;
            assert(r@ =~= self.cache@.take(i as int));
        }
        assert(self.cache@.take(self.cache@.len() as int) =~= self.cache@);
        r
    }

    /// A copy of the on-air programs of a service.
    pub fn query_onair_program(&self, service_id: ServiceId) -> (r: Result<OnairProgram, Error>)
        ensures
            ({
                let p = entry_position(self.cache@, service_id);
                if p >= 0 {
                    r == Ok::<OnairProgram, Error>(self.cache@[p].1)
                } else {
                    r == Err::<OnairProgram, Error>(Error::ServiceNotFound)
                }
            }),
    {
        proof { lemma_entry_position(self.cache@, service_id); }
        match self.find_service(service_id) {
            Some(i) => Ok(self.cache[i].1.clone()),
            None => Err(Error::ServiceNotFound),
        }
    }

    /// Keeps the programs of the services that are among the services.
    pub fn on_services_updated(&mut self, services: &[(ServiceId, EpgService)])
        requires
            old(self).wf(),
        ensures
            final(self).wf(),
            final(self).trackers == old(self).trackers,
            final(self).temporal_services == old(self).temporal_services,
            final(self).cache@ == old(self).cache@.filter(
                |e: (ServiceId, OnairProgram)| exists|k: int| 0 <= k < services@.len() && (#[trigger] services@[k]).0 == e.0,
            ),
    {
        let ghost keep = |e: (ServiceId, OnairProgram)| exists|k: int| 0 <= k < services@.len() && (#[trigger] services@[k]).0 == e.0;
        let ghost orig = self.cache@;
        let mut kept: Vec<(ServiceId, OnairProgram)> = Vec::new();
        let mut i: usize = 0;
        proof {
            reveal(Seq::filter);
            assert(orig.take(0).filter(keep) =~= Seq::empty());
        }
        while i < self.cache.len()
            invariant
                i <= orig.len(),
                self.cache@ == orig,
                orig == old(self).cache@,
                keys_unique(orig),
                keep == (|e: (ServiceId, OnairProgram)| exists|k: int| 0 <= k < services@.len() && (#[trigger] services@[k]).0 == e.0),
                kept@ == orig.take(i as int).filter(keep),
                forall|a: int| 0 <= a < kept@.len() ==> exists|b: int| 0 <= b < i && orig[b] == #[trigger] kept@[a],
                keys_unique(kept@),
            decreases orig.len() - i,
        {
            let id = self.cache[i].0;
            let mut listed = false;
            let mut k: usize = 0;
            while k < services.len()
                invariant
                    k <= services@.len(),
                    listed == exists|x: int| 0 <= x < k && (#[trigger] services@[x]).0 == id,
                decreases services@.len() - k,
            {
                if services[k].0 == id {
                    listed = true;
                }
                k = k + 1;
            }
            proof {
                reveal(Seq::filter);
                assert(orig.take(i as int + 1).drop_last() =~= orig.take(i as int));
                assert(orig.take(i as int + 1).last() == orig[i as int]);
                assert(keep(orig[i as int]) == listed);
            }
            if listed {
                let ghost before = kept@;
                kept.push((id, self.cache[i].1.clone()));
                proof {
                    assert forall|a: int| 0 <= a < kept@.len() implies exists|b: int| 0 <= b < i + 1 && orig[b] == #[trigger] kept@[a] by {
                        if a < before.len() {
                            assert(kept@[a] == before[a]);
                        } else {
                            assert(orig[i as int] == kept@[a]);
                        }
                    }
                    assert forall|a: int, c: int| 0 <= a < c < kept@.len() implies (#[trigger] kept@[a]).0 != (#[trigger] kept@[c]).0 by {
                        if c == before.len() {
                            assert(kept@[a] == before[a]);
                            let b = choose|b: int| 0 <= b < i && orig[b] == #[trigger] before[a];
                            assert(orig[b].0 != orig[i as int].0);
                        } else {
                            assert(kept@[a] == before[a]);
                            assert(kept@[c] == before[c]);
                        }
                    }
                }
            }
            i = i + 1;
        }
        proof {
            assert(orig.take(orig.len() as int) =~= orig);
        }
        self.cache = kept;
    }

    /// Takes the current program of its service.
    pub fn update_current_program(&mut self, program: Arc<EpgProgram>)
        requires
            old(self).wf(),
        ensures
            final(self).wf(),
            final(self).trackers == old(self).trackers,
            final(self).temporal_services == old(self).temporal_services,
            final(self).cache@ == with_program(
                old(self).cache@,
                ServiceId::spec_from_program(program.id),
                program,
                true,
            ),
    {
        self.set_program(program, true);
    }

    /// Takes the next program of its service.
    pub fn update_next_program(&mut self, program: Arc<EpgProgram>)
        requires
            old(self).wf(),
        ensures
            final(self).wf(),
            final(self).trackers == old(self).trackers,
            final(self).temporal_services == old(self).temporal_services,
            final(self).cache@ == with_program(
                old(self).cache@,
                ServiceId::spec_from_program(program.id),
                program,
                false,
            ),
    {
        self.set_program(program, false);
    }

    fn set_program(&mut self, program: Arc<EpgProgram>, is_current: bool)
        requires
            old(self).wf(),
        ensures
            final(self).wf(),
            final(self).trackers == old(self).trackers,
            final(self).temporal_services == old(self).temporal_services,
            final(self).cache@ == with_program(
                old(self).cache@,
                ServiceId::spec_from_program(program.id),
                program,
                is_current,
            ),
    {
        let service_id = ServiceId::from_program_id(program.id);
        proof { lemma_entry_position(self.cache@, service_id); }
        match self.find_service(service_id) {
            Some(i) => {
                if is_current {
                    self.cache[i].1.current = Some(program);
                } else {
                    self.cache[i].1.next = Some(program);
                }
                proof {
                    assert forall|a: int, b: int| 0 <= a < b < self.cache@.len() implies (#[trigger] self.cache@[a]).0
                        != (#[trigger] self.cache@[b]).0 by {
                        assert(self.cache@[a].0 == old(self).cache@[a].0);
                        assert(self.cache@[b].0 == old(self).cache@[b].0);
                    }
                }
            },
            None => {
                let entry = if is_current {
                    OnairProgram { current: Some(program), next: None }
                } else {
                    OnairProgram { current: None, next: Some(program) }
                };
                self.cache.push((service_id, entry));
            },
        }
    }

    /// Takes a change of the on-air programs of a service: the current
    /// program, then the next one, when given.
    pub fn on_onair_program_changed(&mut self, msg: &OnairProgramChanged)
        requires
            old(self).wf(),
        ensures
            final(self).wf(),
            final(self).trackers == old(self).trackers,
            final(self).temporal_services == old(self).temporal_services,
            ({
                let c1 = match msg.current {
                    Some(p) => with_program(old(self).cache@, ServiceId::spec_from_program(p.id), p, true),
                    None => old(self).cache@,
                };
                final(self).cache@ == match msg.next {
                    Some(p) => with_program(c1, ServiceId::spec_from_program(p.id), p, false),
                    None => c1,
                }
            }),
    {
        if let Some(program) = &msg.current {
            self.update_current_program(share(program));
        }
        if let Some(program) = &msg.next {
            self.update_next_program(share(program));
        }
    }

    /// Registers a running tracker.
    pub fn add_tracker(&mut self, name: String)
        ensures
            final(self).cache == old(self).cache,
            final(self).temporal_services == old(self).temporal_services,
            final(self).trackers@ == old(self).trackers@.push(name),
    {
        self.trackers.push(name);
    }

    /// Whether a tracker of the name runs.
    pub fn has_tracker(&self, name: &str) -> (r: bool)
        ensures
            r == exists|i: int| 0 <= i < self.trackers@.len() && (#[trigger] self.trackers@[i])@ == name@,
    {
        let name_s = String::from_str(name);
        let mut i: usize = 0;
        while i < self.trackers.len()
            invariant
                i <= self.trackers@.len(),
                name_s@ == name@,
                forall|j: int| 0 <= j < i ==> (#[trigger] self.trackers@[j])@ != name@,
            decreases self.trackers@.len() - i,
        {
            if self.trackers[i] == name_s {
                return true;
            }
            i = i + 1;
        }
        false
    }

    /// Registers a temporal tracker for the service of a stream, named by a
    /// dot and the stream's identifier, unless one of that name runs; gives
    /// its name when registered.
    pub fn add_temporal_tracker(&mut self, service_id: ServiceId, stream_id: &str) -> (r: Option<String>)
        ensures
            final(self).cache == old(self).cache,
            ({
                let name = "."@ + stream_id@;
                if exists|i: int| 0 <= i < old(self).trackers@.len() && (#[trigger] old(self).trackers@[i])@ == name {
                    r is None && final(self).trackers == old(self).trackers && final(self).temporal_services
                        == old(self).temporal_services
                } else {
                    r matches Some(n) && n@ == name && final(self).trackers@ == old(self).trackers@.push(n)
                        && final(self).temporal_services@ == old(self).temporal_services@.push((n, service_id))
                }
            }),
    {
        let mut name = String::from_str(".");
        name.append(stream_id);
        if self.has_tracker(name.as_str()) {
            return None;
        }
        let name2 = name.clone();
        let name3 = name.clone();
        self.trackers.push(name);
        self.temporal_services.push((name2, service_id));
        Some(name3)
    }

    /// Takes the stop of a tracker: it is no longer registered, nor its
    /// service as a temporal one; the programs of that service are dropped
    /// when no other temporal tracker follows it.  Gives whether the
    /// tracker was registered.
    pub fn on_tracker_stopped(&mut self, name: &str) -> (r: bool)
        requires
            old(self).wf(),
        ensures
            final(self).wf(),
            r == exists|i: int| 0 <= i < old(self).trackers@.len() && (#[trigger] old(self).trackers@[i])@ == name@,
            forall|i: int| 0 <= i < final(self).trackers@.len() ==> (#[trigger] final(self).trackers@[i])@ != name@,
            forall|i: int| 0 <= i < final(self).temporal_services@.len() ==> (#[trigger] final(self).temporal_services@[i]).0@
                != name@,
            ({
                let t = old(self).temporal_services@;
                let k = name_position(t, name@);
                if k >= 0 {
                    let sid = t[k].1;
                    if exists|m: int| 0 <= m < final(self).temporal_services@.len() && (#[trigger] final(self).temporal_services@[m]).1
                        == sid {
                        final(self).cache@ == old(self).cache@
                    } else {
                        let p = entry_position(old(self).cache@, sid);
                        final(self).cache@ == if p >= 0 {
                            old(self).cache@.remove(p)
                        } else {
                            old(self).cache@
                        }
                    }
                } else {
                    final(self).cache@ == old(self).cache@
                }
            }),
    {
        let name_s = String::from_str(name);
        // The trackers of the name are dropped.
        let mut found = false;
        let mut trackers: Vec<String> = Vec::new();
        let mut i: usize = 0;
        while i < self.trackers.len()
            invariant
                i <= self.trackers@.len(),
                name_s@ == name@,
                found == exists|j: int| 0 <= j < i && (#[trigger] self.trackers@[j])@ == name@,
                forall|j: int| 0 <= j < trackers@.len() ==> (#[trigger] trackers@[j])@ != name@,
            decreases self.trackers@.len() - i,
        {
            if self.trackers[i] == name_s {
                found = true;
            } else {
                trackers.push(self.trackers[i].clone());
            }
            i = i + 1;
        }
        self.trackers = trackers;
        // The temporal services of the name are dropped; the first tells the
        // service.
        let mut service: Option<ServiceId> = None;
        let mut temporal: Vec<(String, ServiceId)> = Vec::new();
        let ghost t = self.temporal_services@;
        let mut j: usize = 0;
        while j < self.temporal_services.len()
            invariant
                j <= t.len(),
                t == self.temporal_services@,
                t == old(self).temporal_services@,
                name_s@ == name@,
                service is None <==> name_position(t.take(j as int), name@) < 0,
                service matches Some(sid) ==> name_position(t.take(j as int), name@) >= 0 && sid == t[name_position(
                    t.take(j as int),
                    name@,
                )].1,
                -1 <= name_position(t.take(j as int), name@) < j,
                forall|x: int| 0 <= x < temporal@.len() ==> (#[trigger] temporal@[x]).0@ != name@,
            decreases t.len() - j,
        {
            proof { lemma_name_position_step(t, name@, j as int); }
            if self.temporal_services[j].0 == name_s {
                if service.is_none() {
                    service = Some(self.temporal_services[j].1);
                }
            } else {
                temporal.push((self.temporal_services[j].0.clone(), self.temporal_services[j].1));
            }
            j = j + 1;
        }
        proof {
            assert(t.take(t.len() as int) =~= t);
        }
        self.temporal_services = temporal;
        if let Some(sid) = service {
            let mut shared = false;
            let mut m: usize = 0;
            while m < self.temporal_services.len()
                invariant
                    m <= self.temporal_services@.len(),
                    shared == exists|x: int| 0 <= x < m && (#[trigger] self.temporal_services@[x]).1 == sid,
                decreases self.temporal_services@.len() - m,
            {
                if self.temporal_services[m].1 == sid {
                    shared = true;
                }
                m = m + 1;
            }
            if !shared {
                proof { lemma_entry_position(self.cache@, sid); }
                if let Some(p) = self.find_service(sid) {
                    self.cache.remove(p);
                    proof {
                        let c = old(self).cache@;
                        let r = self.cache@;
                        assert forall|a: int, b: int| 0 <= a < b < r.len() implies (#[trigger] r[a]).0 != (#[trigger] r[b]).0 by {
                            let a2 = if a < p { a } else { a + 1 };
                            let b2 = if b < p { b } else { b + 1 };
                            assert(r[a] == c[a2]);
                            assert(r[b] == c[b2]);
                        }
                    }
                }
            }
        }
        found
    }
}

/// The on-air programs of a service changed.
pub struct OnairProgramChanged {
    pub service_id: ServiceId,
    pub current: Option<Arc<EpgProgram>>,
    pub next: Option<Arc<EpgProgram>>,
}

/// A tracker stopped.
pub struct TrackerStopped {
    pub tracker: String,
}

/// Queries the on-air programs of all services.
pub struct QueryOnairPrograms;

/// Queries the on-air programs of a service.
pub struct QueryOnairProgram {
    pub service_id: ServiceId,
}



/// What `extract_program` gives of a section: nothing without events, else
/// the program of its first event.
pub open spec fn extracted(s: EitSection, r: Option<Arc<EpgProgram>>) -> bool {
    &&& s.events@.len() == 0 ==> r is None
    &&& s.events@.len() > 0 ==> (r matches Some(p) && program_from(
        program_id_value(s.original_network_id@, s.service_id@, s.events@[0].event_id@),
        seq![s.events@[0]],
        *p,
    ))
}

/// The last EIT[p/f] sections of a service that a local tracker saw: the
/// one of the current program and the one of the next.
pub struct TrackerEntry {
    pub current: Option<EitSection>,
    pub next: Option<EitSection>,
}

/// The entries after a section of a service, with whether it brought news.
/// Section 0 is about the current program and section 1 about the next;
/// each makes an entry for the service if there is none, and replaces the
/// section of its side when it is updated.  Other sections change nothing.
pub open spec fn tracker_step(
    entries: Seq<(ServiceId, TrackerEntry)>,
    service_id: ServiceId,
    section: EitSection,
) -> (Seq<(ServiceId, TrackerEntry)>, bool) {
    if section.section_number != 0 && section.section_number != 1 {
        (entries, false)
    } else {
        let p = entry_position(entries, service_id);
        let e = if p >= 0 {
            entries[p].1
        } else {
            TrackerEntry { current: None, next: None }
        };
        let seen = if section.section_number == 0 {
            e.current
        } else {
            e.next
        };
        let updated = !(seen matches Some(x) && x.version_number == section.version_number);
        let new_e = if !updated {
            e
        } else if section.section_number == 0 {
            TrackerEntry { current: Some(section), ..e }
        } else {
            TrackerEntry { next: Some(section), ..e }
        };
        (
            if p >= 0 {
                entries.update(p, (service_id, new_e))
            } else {
                entries.push((service_id, new_e))
            },
            updated,
        )
    }
}

/// The sections that a local tracker saw, by service.
pub struct LocalTracker {
    pub entries: Vec<(ServiceId, TrackerEntry)>,
}

impl LocalTracker {
    pub open spec fn wf(&self) -> bool {
        keys_unique(self.entries@)
    }

    /// No sections seen.
    pub fn new() -> (r: Self)
        ensures
            r.wf(),
            r.entries@.len() == 0,
    {
        LocalTracker { entries: Vec::new() }
    }

    fn find(&self, service_id: ServiceId) -> (r: Option<usize>)
        ensures
            match r {
                Some(i) => i == entry_position(self.entries@, service_id),
                None => entry_position(self.entries@, service_id) < 0,
            },
    {
        proof { lemma_entry_position(self.entries@, service_id); }
        let mut i = self.entries.len();
        while i > 0
            invariant
                i <= self.entries@.len(),
                forall|j: int| i <= j < self.entries@.len() ==> self.entries@[j].0 != service_id,
                -1 <= entry_position(self.entries@, service_id) < self.entries@.len(),
                entry_position(self.entries@, service_id) >= 0 ==> self.entries@[entry_position(
                    self.entries@,
                    service_id,
                )].0 == service_id,
                entry_position(self.entries@, service_id) >= 0 ==> forall|j: int|
                    entry_position(self.entries@, service_id) < j < self.entries@.len() ==> self.entries@[j].0
                        != service_id,
                entry_position(self.entries@, service_id) < 0 ==> forall|j: int| 0 <= j < self.entries@.len() ==> self.entries@[j].0
                    != service_id,
            decreases i,
        {
            i = i - 1;
            if self.entries[i].0 == service_id {
                return Some(i);
            }
        }
        None
    }

    /// Takes a section of a service, as `tracker_step` says; gives whether
    /// it brought news.
    pub fn take_section(&mut self, service_id: ServiceId, section: EitSection) -> (r: bool)
        requires
            old(self).wf(),
        ensures
            final(self).wf(),
            (final(self).entries@, r) == tracker_step(old(self).entries@, service_id, section),
    {
        if section.section_number != 0 && section.section_number != 1 {
            return false;
        }
        proof { lemma_entry_position(self.entries@, service_id); }
        let i = match self.find(service_id) {
            Some(i) => i,
            None => {
                self.entries.push((service_id, TrackerEntry { current: None, next: None }));
                proof {
                    assert(self.entries@.drop_last() =~= old(self).entries@);
                    assert forall|a: int, b: int| 0 <= a < b < self.entries@.len() implies (#[trigger] self.entries@[a]).0
                        != (#[trigger] self.entries@[b]).0 by {
                        if b < old(self).entries@.len() {
                            assert(self.entries@[a] == old(self).entries@[a]);
                            assert(self.entries@[b] == old(self).entries@[b]);
                        } else {
                            assert(self.entries@[a] == old(self).entries@[a]);
                        }
                    }
                }
                self.entries.len() - 1
            },
        };
        let ghost mid = self.entries@;
        let updated = if section.section_number == 0 {
            section.is_updated(&self.entries[i].1.current)
        } else {
            section.is_updated(&self.entries[i].1.next)
        };
        if updated {
            if section.section_number == 0 {
                self.entries[i].1.current = Some(section);
            } else {
                self.entries[i].1.next = Some(section);
            }
        }
        proof {
            assert forall|a: int, b: int| 0 <= a < b < self.entries@.len() implies (#[trigger] self.entries@[a]).0
                != (#[trigger] self.entries@[b]).0 by {
                assert(self.entries@[a].0 == mid[a].0);
                assert(self.entries@[b].0 == mid[b].0);
            }
            if entry_position(old(self).entries@, service_id) < 0 {
                assert(mid =~= old(self).entries@.push((service_id, TrackerEntry { current: None, next: None })));
                assert(self.entries@ =~= old(self).entries@.push((service_id, self.entries@[i as int].1)));
            }
        }
        updated
    }

    /// The change of the on-air programs of a service that its sections
    /// tell: the programs of the first events of its current and next
    /// sections.
    pub fn changed_message(&self, service_id: ServiceId) -> (r: OnairProgramChanged)
        requires
            entry_position(self.entries@, service_id) >= 0,
        ensures
            ({
                let e = self.entries@[entry_position(self.entries@, service_id)].1;
                &&& r.service_id == service_id
                &&& match e.current {
                    Some(s) => extracted(s, r.current),
                    None => r.current is None,
                }
                &&& match e.next {
                    Some(s) => extracted(s, r.next),
                    None => r.next is None,
                }
            }),
    {
        proof { lemma_entry_position(self.entries@, service_id); }
        let i = match self.find(service_id) {
            Some(i) => i,
            None => {
                return OnairProgramChanged { service_id, current: None, next: None };
            },
        };
        let e = &self.entries[i].1;
        OnairProgramChanged {
            service_id,
            current: match &e.current {
                Some(s) => s.extract_program(),
                None => None,
            },
            next: match &e.next {
                Some(s) => s.extract_program(),
                None => None,
            },
        }
    }
}

/// Once a tracker reports a program of a service, the on-air programs of
/// that service hold it (as the current or the next one, as reported), and
/// keep the other one they had.
pub proof fn lemma_reported_program_is_queried(
    cache: Seq<(ServiceId, OnairProgram)>,
    service_id: ServiceId,
    program: Arc<EpgProgram>,
    is_current: bool,
)
    requires
        keys_unique(cache),
    ensures
        ({
            let c = with_program(cache, service_id, program, is_current);
            let p = entry_position(c, service_id);
            let q = entry_position(cache, service_id);
            &&& keys_unique(c)
            &&& p >= 0
            &&& is_current ==> c[p].1.current == Some(program)
            &&& !is_current ==> c[p].1.next == Some(program)
            &&& (is_current && q >= 0) ==> c[p].1.next == cache[q].1.next
            &&& (!is_current && q >= 0) ==> c[p].1.current == cache[q].1.current
        }),
{
    let c = with_program(cache, service_id, program, is_current);
    lemma_entry_position(cache, service_id);
    lemma_entry_position(c, service_id);
    let q = entry_position(cache, service_id);
    if q >= 0 {
        assert forall|a: int, b: int| 0 <= a < b < c.len() implies (#[trigger] c[a]).0 != (#[trigger] c[b]).0 by {
            assert(c[a].0 == cache[a].0);
            assert(c[b].0 == cache[b].0);
        }
        assert(c[q].0 == service_id);
        assert(entry_position(c, service_id) == q) by {
            if entry_position(c, service_id) != q {
                assert(c[entry_position(c, service_id)].0 == service_id);
            }
        }
    } else {
        assert forall|a: int, b: int| 0 <= a < b < c.len() implies (#[trigger] c[a]).0 != (#[trigger] c[b]).0 by {
            if b < cache.len() {
                assert(c[a] == cache[a]);
                assert(c[b] == cache[b]);
            } else {
                assert(c[a] == cache[a]);
            }
        }
        assert(c.drop_last() =~= cache);
    }
}


/// A section that a local tracker has just taken is no news the second
/// time, and changes nothing then.
pub proof fn lemma_section_seen_twice(entries: Seq<(ServiceId, TrackerEntry)>, service_id: ServiceId, section: EitSection)
    requires
        keys_unique(entries),
    ensures
        ({
            let once = tracker_step(entries, service_id, section);
            let twice = tracker_step(once.0, service_id, section);
            !twice.1 && twice.0 == once.0
        }),
{
    let once = tracker_step(entries, service_id, section);
    if section.section_number == 0 || section.section_number == 1 {
        lemma_entry_position(entries, service_id);
        lemma_entry_position(once.0, service_id);
        let p = entry_position(entries, service_id);
        if p >= 0 {
            assert(once.0[p].0 == service_id);
            assert(entry_position(once.0, service_id) == p) by {
                let q = entry_position(once.0, service_id);
                if q != p {
                    assert(once.0[q].0 == service_id);
                    if q < p {
                        assert(entries[q].0 == service_id);
                    }
                }
            }
        } else {
            assert(once.0[entries.len() as int].0 == service_id);
            assert(entry_position(once.0, service_id) == entries.len()) by {
                assert(once.0.last().0 == service_id);
            }
        }
        let q = entry_position(once.0, service_id);
        assert(once.0.update(q, (service_id, once.0[q].1)) =~= once.0);
    }
}

} // verus!
