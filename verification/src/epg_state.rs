//! The state of the EPG: services by identifier in the order they were
//! found, the clocks of the services, and the schedule of each service; and
//! the decisions taken on the results of scans and on EIT sections.
use vstd::prelude::*;

use crate::epg::{
    channel_view, key_position, keyed_insert, lemma_key_position, service_view, EitSection, EpgChannel,
    EpgProgram, EpgService,
};
use crate::config::ChannelConfig;
use crate::epg::copy_sids;
use crate::error::Error;
use crate::models::{ChannelType, Clock, Eid, MirakurunChannel, MirakurunChannelService, ProgramId, ServiceId, Sid};
use crate::schedule::{unit_dated, valid_day, EpgSchedule};

verus! {

/// What a list of services by identifier holds.
pub open spec fn services_view(v: Seq<(ServiceId, EpgService)>) -> Seq<(ServiceId, (ServiceId, u16, i16, u16, Seq<char>, (Seq<char>, ChannelType, Seq<char>, Seq<char>, Seq<Sid>, Seq<Sid>)))> {
    v.map_values(|e: (ServiceId, EpgService)| (e.0, service_view(e.1)))
}

/// The entries after setting each item in turn.
pub open spec fn insert_all<K, V>(acc: Seq<(K, V)>, items: Seq<(K, V)>) -> Seq<(K, V)>
    decreases items.len(),
{
    if items.len() == 0 {
        acc
    } else {
        let a = insert_all(acc, items.drop_last());
        keyed_insert(a, items.last().0, items.last().1)
    }
}

/// The entries whose value is on the channel.
pub open spec fn on_channel<K>(
    entries: Seq<(K, (ServiceId, u16, i16, u16, Seq<char>, (Seq<char>, ChannelType, Seq<char>, Seq<char>, Seq<Sid>, Seq<Sid>)))>,
    ch: (Seq<char>, ChannelType, Seq<char>, Seq<char>, Seq<Sid>, Seq<Sid>),
) -> Seq<(K, (ServiceId, u16, i16, u16, Seq<char>, (Seq<char>, ChannelType, Seq<char>, Seq<char>, Seq<Sid>, Seq<Sid>)))>
    decreases entries.len(),
{
    if entries.len() == 0 {
        Seq::empty()
    } else if entries.last().1.5 == ch {
        on_channel(entries.drop_last(), ch).push(entries.last())
    } else {
        on_channel(entries.drop_last(), ch)
    }
}

/// The services after the results of a scan of the channels, channel by
/// channel: the services found on a channel are set in turn; for a channel
/// whose scan failed, the previous services of that channel are kept.
pub open spec fn merged_services(
    results: Seq<(EpgChannel, Option<Vec<(ServiceId, EpgService)>>)>,
    old: Seq<(ServiceId, (ServiceId, u16, i16, u16, Seq<char>, (Seq<char>, ChannelType, Seq<char>, Seq<char>, Seq<Sid>, Seq<Sid>)))>,
) -> Seq<(ServiceId, (ServiceId, u16, i16, u16, Seq<char>, (Seq<char>, ChannelType, Seq<char>, Seq<char>, Seq<Sid>, Seq<Sid>)))>
    decreases results.len(),
{
    if results.len() == 0 {
        Seq::empty()
    } else {
        let acc = merged_services(results.drop_last(), old);
        match results.last().1 {
            Some(found) => insert_all(acc, services_view(found@)),
            None => insert_all(acc, on_channel(old, channel_view(results.last().0))),
        }
    }
}

/// The clock of a service, if any.
pub open spec fn clock_of(clocks: Seq<(ServiceId, Clock)>, id: ServiceId) -> Option<Clock> {
    if key_position(clocks, id) >= 0 {
        Some(clocks[key_position(clocks, id)].1)
    } else {
        None
    }
}

/// The clocks kept for the services of a channel: those the services had.
pub open spec fn kept_clocks(
    services: Seq<(ServiceId, (ServiceId, u16, i16, u16, Seq<char>, (Seq<char>, ChannelType, Seq<char>, Seq<char>, Seq<Sid>, Seq<Sid>)))>,
    clocks: Seq<(ServiceId, Clock)>,
    ch: (Seq<char>, ChannelType, Seq<char>, Seq<char>, Seq<Sid>, Seq<Sid>),
) -> Seq<(ServiceId, Clock)>
    decreases services.len(),
{
    if services.len() == 0 {
        Seq::empty()
    } else {
        let rest = kept_clocks(services.drop_last(), clocks, ch);
        let e = services.last();
        if e.1.5 == ch && clock_of(clocks, e.0) is Some {
            rest.push((e.0, clock_of(clocks, e.0)->0))
        } else {
            rest
        }
    }
}

/// The clocks after the results of a synchronization of the channels,
/// channel by channel: the clocks found are set in turn; for a channel whose
/// synchronization failed, the services of that channel keep their clocks.
pub open spec fn merged_clocks(
    results: Seq<(EpgChannel, Option<Vec<(ServiceId, Clock)>>)>,
    services: Seq<(ServiceId, (ServiceId, u16, i16, u16, Seq<char>, (Seq<char>, ChannelType, Seq<char>, Seq<char>, Seq<Sid>, Seq<Sid>)))>,
    old: Seq<(ServiceId, Clock)>,
) -> Seq<(ServiceId, Clock)>
    decreases results.len(),
{
    if results.len() == 0 {
        Seq::empty()
    } else {
        let acc = merged_clocks(results.drop_last(), services, old);
        match results.last().1 {
            Some(found) => insert_all(acc, found@),
            None => insert_all(acc, kept_clocks(services, old, channel_view(results.last().0))),
        }
    }
}

/// The schedules of services that are among the services, in order.
pub open spec fn kept_schedules(
    schedules: Seq<EpgSchedule>,
    services: Seq<(ServiceId, (ServiceId, u16, i16, u16, Seq<char>, (Seq<char>, ChannelType, Seq<char>, Seq<char>, Seq<Sid>, Seq<Sid>)))>,
) -> Seq<EpgSchedule>
    decreases schedules.len(),
{
    if schedules.len() == 0 {
        Seq::empty()
    } else {
        let rest = kept_schedules(schedules.drop_last(), services);
        if key_position(services, schedules.last().service_id) >= 0 {
            rest.push(schedules.last())
        } else {
            rest
        }
    }
}

/// The position of the schedule of a service, or -1.
pub open spec fn schedule_position(schedules: Seq<EpgSchedule>, id: ServiceId) -> int
    decreases schedules.len(),
{
    if schedules.len() == 0 {
        -1
    } else if schedule_position(schedules.drop_last(), id) >= 0 {
        schedule_position(schedules.drop_last(), id)
    } else if schedules.last().service_id == id {
        schedules.len() - 1
    } else {
        -1
    }
}

proof fn lemma_schedule_position(schedules: Seq<EpgSchedule>, id: ServiceId)
    ensures
        -1 <= schedule_position(schedules, id) < schedules.len(),
        schedule_position(schedules, id) >= 0 ==> schedules[schedule_position(schedules, id)].service_id == id,
        schedule_position(schedules, id) >= 0 ==> forall|i: int|
            0 <= i < schedule_position(schedules, id) ==> schedules[i].service_id != id,
        schedule_position(schedules, id) < 0 ==> forall|i: int| 0 <= i < schedules.len() ==> schedules[i].service_id != id,
    decreases schedules.len(),
{
    if schedules.len() > 0 {
        let d = schedules.drop_last();
        lemma_schedule_position(d, id);
        assert forall|i: int| 0 <= i < d.len() implies d[i] == schedules[i] by {}
    }
}

/// The entries whose value is on one of the channels.
pub open spec fn on_channels(
    entries: Seq<(ServiceId, (ServiceId, u16, i16, u16, Seq<char>, (Seq<char>, ChannelType, Seq<char>, Seq<char>, Seq<Sid>, Seq<Sid>)))>,
    channels: Seq<(Seq<char>, ChannelType, Seq<char>, Seq<char>, Seq<Sid>, Seq<Sid>)>,
) -> Seq<(ServiceId, (ServiceId, u16, i16, u16, Seq<char>, (Seq<char>, ChannelType, Seq<char>, Seq<char>, Seq<Sid>, Seq<Sid>)))>
    decreases entries.len(),
{
    if entries.len() == 0 {
        Seq::empty()
    } else if channels.contains(entries.last().1.5) {
        on_channels(entries.drop_last(), channels).push(entries.last())
    } else {
        on_channels(entries.drop_last(), channels)
    }
}

/// The clocks of services among the services.
pub open spec fn of_services(
    clocks: Seq<(ServiceId, Clock)>,
    services: Seq<(ServiceId, (ServiceId, u16, i16, u16, Seq<char>, (Seq<char>, ChannelType, Seq<char>, Seq<char>, Seq<Sid>, Seq<Sid>)))>,
) -> Seq<(ServiceId, Clock)>
    decreases clocks.len(),
{
    if clocks.len() == 0 {
        Seq::empty()
    } else if key_position(services, clocks.last().0) >= 0 {
        of_services(clocks.drop_last(), services).push(clocks.last())
    } else {
        of_services(clocks.drop_last(), services)
    }
}

/// What the channels hold.
pub open spec fn channels_view(channels: Seq<EpgChannel>) -> Seq<(Seq<char>, ChannelType, Seq<char>, Seq<char>, Seq<Sid>, Seq<Sid>)> {
    channels.map_values(|c: EpgChannel| channel_view(c))
}

/// Whether a channel holds the same values as one of the channels.
fn among_channels(channels: &Vec<EpgChannel>, c: &EpgChannel) -> (r: bool)
    ensures
        r == channels_view(channels@).contains(channel_view(*c)),
{
    let ghost cv = channels_view(channels@);
    let mut i: usize = 0;
    while i < channels.len()
        invariant
            i <= channels@.len(),
            cv == channels_view(channels@),
            forall|j: int| 0 <= j < i ==> cv[j] != channel_view(*c),
        decreases channels@.len() - i,
    {
        if channels[i].same_as(c) {
            assert(cv[i as int] == channel_view(*c));
            return true;
        }
        i = i + 1;
    }
    false
}

/// Sets a service in the services, keeping the place of its identifier.
fn insert_service(acc: &mut Vec<(ServiceId, EpgService)>, k: ServiceId, v: EpgService)
    ensures
        services_view(final(acc)@) == keyed_insert(services_view(old(acc)@), k, service_view(v)),
{
    let ghost mv = services_view(acc@);
    proof {
        lemma_key_position(mv, k);
    }
    let mut i: usize = 0;
    while i < acc.len()
        invariant
            i <= acc@.len(),
            acc@ == old(acc)@,
            mv == services_view(acc@),
            forall|j: int| 0 <= j < i ==> mv[j].0 != k,
        decreases acc@.len() - i,
    {
        if acc[i].0 == k {
            proof {
                lemma_key_position(mv, k);
                assert(mv[i as int].0 == k);
            }
            assert(key_position(mv, k) == i as int);
            acc.set(i, (k, v));
            assert(services_view(acc@) =~= mv.update(i as int, (k, service_view(v))));
            return;
        }
        i = i + 1;
    }
    assert(key_position(mv, k) < 0);
    acc.push((k, v));
    assert(services_view(acc@) =~= mv.push((k, service_view(v))));
}

/// Sets a clock in the clocks, keeping the place of its identifier.
fn insert_clock(acc: &mut Vec<(ServiceId, Clock)>, k: ServiceId, v: Clock)
    ensures
        final(acc)@ == keyed_insert(old(acc)@, k, v),
{
    proof {
        lemma_key_position(acc@, k);
    }
    let mut i: usize = 0;
    while i < acc.len()
        invariant
            i <= acc@.len(),
            acc@ == old(acc)@,
            forall|j: int| 0 <= j < i ==> acc@[j].0 != k,
        decreases acc@.len() - i,
    {
        if acc[i].0 == k {
            proof {
                lemma_key_position(acc@, k);
            }
            assert(key_position(acc@, k) == i as int);
            acc.set(i, (k, v));
            return;
        }
        i = i + 1;
    }
    assert(key_position(acc@, k) < 0);
    acc.push((k, v));
}

/// The clock of a service in a list of clocks.
fn find_clock(clocks: &Vec<(ServiceId, Clock)>, id: ServiceId) -> (r: Option<Clock>)
    ensures
        r == clock_of(clocks@, id),
{
    proof {
        lemma_key_position(clocks@, id);
    }
    let mut i: usize = 0;
    while i < clocks.len()
        invariant
            i <= clocks@.len(),
            forall|j: int| 0 <= j < i ==> clocks@[j].0 != id,
        decreases clocks@.len() - i,
    {
        if clocks[i].0 == id {
            proof {
                lemma_key_position(clocks@, id);
            }
            assert(key_position(clocks@, id) == i as int);
            return Some(clocks[i].1);
        }
        i = i + 1;
    }
    None
}

/// The EPG state.
pub struct EpgState {
    /// Services by identifier, in the order they were found.
    pub services: Vec<(ServiceId, EpgService)>,
    /// Clocks by service.
    pub clocks: Vec<(ServiceId, Clock)>,
    /// One schedule per service.
    pub schedules: Vec<EpgSchedule>,
}

impl EpgState {
    /// Whether every schedule is well formed.
    pub open spec fn wf(&self) -> bool {
        forall|i: int| 0 <= i < self.schedules@.len() ==> #[trigger] self.schedules@[i].wf()
    }

    /// An empty state.
    pub fn new() -> (r: Self)
        ensures
            r.wf(),
            r.services@.len() == 0,
            r.clocks@.len() == 0,
            r.schedules@.len() == 0,
    {
        EpgState { services: Vec::new(), clocks: Vec::new(), schedules: Vec::new() }
    }

    /// Takes the results of a scan of the channels: the services found, or,
    /// for a channel whose scan failed, the services it had; then drops the
    /// schedules of services that are gone.
    pub fn update_services(&mut self, results: &Vec<(EpgChannel, Option<Vec<(ServiceId, EpgService)>>)>)
        requires
            old(self).wf(),
        ensures
            final(self).wf(),
            services_view(final(self).services@) == merged_services(results@, services_view(old(self).services@)),
            final(self).clocks@ == old(self).clocks@,
            final(self).schedules@ == kept_schedules(old(self).schedules@, services_view(final(self).services@)),
    {
        let ghost old_view = services_view(self.services@);
        let mut services: Vec<(ServiceId, EpgService)> = Vec::new();
        let mut i: usize = 0;
        while i < results.len()
            invariant
                i <= results@.len(),
                old_view == services_view(self.services@),
                self.services@ == old(self).services@,
                services_view(services@) == merged_services(results@.take(i as int), old_view),
            decreases results@.len() - i,
        {
            let ghost acc = services_view(services@);
            proof {
                assert(results@.take(i + 1).drop_last() =~= results@.take(i as int));
                assert(results@.take(i + 1).last() == results@[i as int]);
            }
            match &results[i].1 {
                Some(found) => {
                    let mut j: usize = 0;
                    while j < found.len()
                        invariant
                            j <= found@.len(),
                            services_view(services@) == insert_all(acc, services_view(found@).take(j as int)),
                        decreases found@.len() - j,
                    {
                        insert_service(&mut services, found[j].0, found[j].1.clone());
                        proof {
                            let t = services_view(found@).take(j + 1);
                            assert(t.drop_last() =~= services_view(found@).take(j as int));
                        }
                        j = j + 1;
                    }
                    assert(services_view(found@).take(found@.len() as int) =~= services_view(found@));
                },
                None => {
                    let channel = &results[i].0;
                    let mut k: usize = 0;
                    while k < self.services.len()
                        invariant
                            k <= self.services@.len(),
                            old_view == services_view(self.services@),
                            services_view(services@) == insert_all(
                                acc,
                                on_channel(old_view.take(k as int), channel_view(*channel)),
                            ),
                        decreases self.services@.len() - k,
                    {
                        proof {
                            assert(old_view.take(k + 1).drop_last() =~= old_view.take(k as int));
                            assert(old_view.take(k + 1).last() == old_view[k as int]);
                        }
                        if self.services[k].1.channel.same_as(channel) {
                            let ghost before = on_channel(old_view.take(k as int), channel_view(*channel));
                            insert_service(&mut services, self.services[k].0, self.services[k].1.clone());
                            proof {
                                assert(before.push(old_view[k as int]).drop_last() =~= before);
                            }
                        }
                        k = k + 1;
                    }
                    assert(old_view.take(old_view.len() as int) =~= old_view);
                },
            }
            i = i + 1;
        }
        assert(results@.take(results@.len() as int) =~= results@);
        self.services = services;
        self.retain_schedules();
    }

    /// Drops the schedules of services that are not among the services.
    fn retain_schedules(&mut self)
        requires
            old(self).wf(),
        ensures
            final(self).wf(),
            final(self).services == old(self).services,
            final(self).clocks == old(self).clocks,
            final(self).schedules@ == kept_schedules(old(self).schedules@, services_view(old(self).services@)),
    {
        let ghost sv = services_view(self.services@);
        let ghost olds = self.schedules@;
        let mut kept: Vec<EpgSchedule> = Vec::new();
        let ghost mut n: int = 0;
        assert(olds.take(0) =~= Seq::<EpgSchedule>::empty());
        while self.schedules.len() > 0
            invariant
                0 <= n <= olds.len(),
                self.schedules@ == olds.skip(n),
                sv == services_view(self.services@),
                self.services == old(self).services,
                self.clocks == old(self).clocks,
                forall|i: int| 0 <= i < olds.len() ==> #[trigger] olds[i].wf(),
                kept@ == kept_schedules(olds.take(n), sv),
                forall|i: int| 0 <= i < kept@.len() ==> #[trigger] kept@[i].wf(),
            decreases self.schedules@.len(),
        {
            let s = self.schedules.remove(0);
            proof {
                assert(olds.take(n + 1).drop_last() =~= olds.take(n));
                assert(olds.take(n + 1).last() == olds[n]);
                assert(self.schedules@ =~= olds.skip(n + 1));
            }
            let id = s.service_id;
            if self.contains_service(id) {
                kept.push(s);
            }
            proof {
                n = n + 1;
            }
        }
        assert(olds.take(olds.len() as int) =~= olds);
        self.schedules = kept;
    }

    /// Takes the results of a synchronization of the clocks: the clocks
    /// found, or, for a channel whose synchronization failed, the clocks its
    /// services had.
    pub fn update_clocks(&mut self, results: &Vec<(EpgChannel, Option<Vec<(ServiceId, Clock)>>)>)
        ensures
            final(self).clocks@ == merged_clocks(results@, services_view(old(self).services@), old(self).clocks@),
            final(self).services == old(self).services,
            final(self).schedules == old(self).schedules,
    {
        let ghost sv = services_view(self.services@);
        let mut clocks: Vec<(ServiceId, Clock)> = Vec::new();
        let mut i: usize = 0;
        while i < results.len()
            invariant
                i <= results@.len(),
                sv == services_view(self.services@),
                self.services == old(self).services,
                self.clocks == old(self).clocks,
                self.schedules == old(self).schedules,
                clocks@ == merged_clocks(results@.take(i as int), sv, self.clocks@),
            decreases results@.len() - i,
        {
            let ghost acc = clocks@;
            proof {
                assert(results@.take(i + 1).drop_last() =~= results@.take(i as int));
                assert(results@.take(i + 1).last() == results@[i as int]);
            }
            match &results[i].1 {
                Some(found) => {
                    let mut j: usize = 0;
                    while j < found.len()
                        invariant
                            j <= found@.len(),
                            clocks@ == insert_all(acc, found@.take(j as int)),
                        decreases found@.len() - j,
                    {
                        insert_clock(&mut clocks, found[j].0, found[j].1);
                        proof {
                            assert(found@.take(j + 1).drop_last() =~= found@.take(j as int));
                        }
                        j = j + 1;
                    }
                    assert(found@.take(found@.len() as int) =~= found@);
                },
                None => {
                    let channel = &results[i].0;
                    let mut k: usize = 0;
                    while k < self.services.len()
                        invariant
                            k <= self.services@.len(),
                            sv == services_view(self.services@),
                            clocks@ == insert_all(acc, kept_clocks(sv.take(k as int), self.clocks@, channel_view(*channel))),
                        decreases self.services@.len() - k,
                    {
                        proof {
                            assert(sv.take(k + 1).drop_last() =~= sv.take(k as int));
                            assert(sv.take(k + 1).last() == sv[k as int]);
                        }
                        if self.services[k].1.channel.same_as(channel) {
                            let id = self.services[k].0;
                            match find_clock(&self.clocks, id) {
                                Some(clock) => {
                                    let ghost before = kept_clocks(sv.take(k as int), self.clocks@, channel_view(*channel));
                                    insert_clock(&mut clocks, id, clock);
                                    proof {
                                        assert(before.push((id, clock)).drop_last() =~= before);
                                    }
                                },
                                None => {},
                            }
                        }
                        k = k + 1;
                    }
                    assert(sv.take(sv.len() as int) =~= sv);
                },
            }
            i = i + 1;
        }
        assert(results@.take(results@.len() as int) =~= results@);
        self.clocks = clocks;
    }

    /// The position of the schedule of a service.
    fn find_schedule(&self, id: ServiceId) -> (r: Option<usize>)
        ensures
            r matches Some(i) ==> i < self.schedules@.len() && self.schedules@[i as int].service_id == id,
            match r {
                Some(i) => i == schedule_position(self.schedules@, id),
                None => schedule_position(self.schedules@, id) < 0,
            },
    {
        proof {
            lemma_schedule_position(self.schedules@, id);
        }
        let mut i: usize = 0;
        while i < self.schedules.len()
            invariant
                i <= self.schedules@.len(),
                forall|j: int| 0 <= j < i ==> self.schedules@[j].service_id != id,
            decreases self.schedules@.len() - i,
        {
            if self.schedules[i].service_id == id {
                proof {
                    lemma_schedule_position(self.schedules@, id);
                }
                return Some(i);
            }
            i = i + 1;
        }
        None
    }

    /// Prepares the schedule of a service for today (days since 1970-01-01
    /// in JST): an existing schedule moves its start to today, else an empty
    /// schedule is made.
    pub fn prepare_schedule(&mut self, service_id: ServiceId, today: i64)
        requires
            old(self).wf(),
            valid_day(today as int),
            schedule_position(old(self).schedules@, service_id) >= 0 ==> forall|i: int| 0 <= i < 9 ==>
                unit_dated(#[trigger] old(self).schedules@[schedule_position(old(self).schedules@, service_id)].units@[i]),
        ensures
            final(self).wf(),
            final(self).services == old(self).services,
            final(self).clocks == old(self).clocks,
            ({
                let p = schedule_position(old(self).schedules@, service_id);
                if p >= 0 {
                    &&& final(self).schedules@.len() == old(self).schedules@.len()
                    &&& forall|i: int| 0 <= i < old(self).schedules@.len() && i != p ==>
                        #[trigger] final(self).schedules@[i] == old(self).schedules@[i]
                    &&& final(self).schedules@[p].units@ == old(self).schedules@[p].units@
                    &&& final(self).schedules@[p].service_id == service_id
                    &&& final(self).schedules@[p].programs@ == old(self).schedules@[p].programs@
                    &&& final(self).schedules@[p].start_index == crate::schedule::start_index_for(
                        old(self).schedules@[p].units@,
                        today as int,
                    )
                } else {
                    &&& final(self).schedules@.len() == old(self).schedules@.len() + 1
                    &&& final(self).schedules@.drop_last() == old(self).schedules@
                    &&& final(self).schedules@.last().service_id == service_id
                    &&& final(self).schedules@.last().start_index == 0
                    &&& final(self).schedules@.last().programs@.len() == 0
                }
            }),
    {
        match self.find_schedule(service_id) {
            Some(i) => {
                assert(self.schedules@[i as int].wf());
                self.schedules[i].update_start_index(today);
                assert(forall|j: int| 0 <= j < old(self).schedules@.len() && j != i ==>
                    self.schedules@[j] == old(self).schedules@[j]);
            },
            None => {
                self.schedules.push(EpgSchedule::new(service_id));
                assert(self.schedules@.drop_last() =~= old(self).schedules@);
            },
        }
    }

    /// Puts an EIT section in the schedule of its service, if the service
    /// has one.
    pub fn update_schedule(&mut self, section: EitSection)
        requires
            old(self).wf(),
            0x50 <= section.table_id <= 0x5F,
        ensures
            final(self).wf(),
            final(self).services == old(self).services,
            final(self).clocks == old(self).clocks,
            final(self).schedules@.len() == old(self).schedules@.len(),
            ({
                let id = crate::models::service_id_value(section.original_network_id@, section.service_id@);
                forall|i: int| 0 <= i < old(self).schedules@.len() && old(self).schedules@[i].service_id@ != id ==>
                    #[trigger] final(self).schedules@[i] == old(self).schedules@[i]
            }),
            ({
                let id = ServiceId::of_value(
                    crate::models::service_id_value(section.original_network_id@, section.service_id@) as u64,
                );
                let p = schedule_position(old(self).schedules@, id);
                &&& forall|i: int| 0 <= i < old(self).schedules@.len() && i != p ==>
                    #[trigger] final(self).schedules@[i] == old(self).schedules@[i]
                &&& p >= 0 ==> crate::schedule::schedule_updated(
                    old(self).schedules@[p],
                    section,
                    final(self).schedules@[p],
                )
            }),
    {
        let id = section.service_id();
        proof {
            ServiceId::lemma_of_value(id);
            lemma_schedule_position(self.schedules@, id);
        }
        match self.find_schedule(id) {
            Some(i) => {
                assert(self.schedules@[i as int].wf());
                self.schedules[i].update(section);
            },
            None => {},
        }
    }

    /// Collects the programs of the schedule of a service and returns their
    /// number (0 without a schedule).
    pub fn flush_schedule(&mut self, service_id: ServiceId) -> (r: usize)
        requires
            old(self).wf(),
            service_id@ * 100_000 + 65_535 <= u64::MAX,
            key_position(services_view(old(self).services@), service_id) >= 0,
        ensures
            final(self).wf(),
            final(self).services == old(self).services,
            final(self).clocks == old(self).clocks,
            final(self).schedules@.len() == old(self).schedules@.len(),
            ({
                let p = schedule_position(old(self).schedules@, service_id);
                &&& forall|i: int| 0 <= i < old(self).schedules@.len() && i != p ==>
                    #[trigger] final(self).schedules@[i] == old(self).schedules@[i]
                &&& (p >= 0 ==> {
                    &&& final(self).schedules@[p].units@ == old(self).schedules@[p].units@
                    &&& final(self).schedules@[p].start_index == old(self).schedules@[p].start_index
                    &&& final(self).schedules@[p].service_id == service_id
                    &&& crate::schedule::collected(
                        service_id@ as int,
                        crate::schedule::schedule_events(old(self).schedules@[p].units@, old(self).schedules@[p].start_index as int),
                        final(self).schedules@[p].programs@,
                    )
                    &&& r == final(self).schedules@[p].programs@.len()
                })
                &&& (p < 0 ==> r == 0)
            }),
    {
        match self.find_schedule(service_id) {
            Some(i) => {
                proof {
                    lemma_schedule_position(self.schedules@, service_id);
                }
                assert(self.schedules@[i as int].wf());
                self.schedules[i].collect_programs();
                self.schedules[i].programs.len()
            },
            None => 0,
        }
    }

    /// The service of an identifier.
    pub fn query_service(&self, id: ServiceId) -> (r: Option<EpgService>)
        ensures
            ({
                let sv = services_view(self.services@);
                match r {
                    Some(s) => key_position(sv, id) >= 0 && service_view(s) == sv[key_position(sv, id)].1,
                    None => key_position(sv, id) < 0,
                }
            }),
    {
        let ghost sv = services_view(self.services@);
        proof {
            lemma_key_position(sv, id);
        }
        let mut i: usize = 0;
        while i < self.services.len()
            invariant
                i <= self.services@.len(),
                sv == services_view(self.services@),
                forall|j: int| 0 <= j < i ==> sv[j].0 != id,
            decreases self.services@.len() - i,
        {
            if self.services[i].0 == id {
                proof {
                    lemma_key_position(sv, id);
                    assert(sv[i as int] == (self.services@[i as int].0, service_view(self.services@[i as int].1)));
                }
                assert(key_position(sv, id) == i as int);
                return Some(self.services[i].1.clone());
            }
            i = i + 1;
        }
        None
    }

    /// The clock of a service.
    pub fn query_clock(&self, id: ServiceId) -> (r: Option<Clock>)
        ensures
            r == clock_of(self.clocks@, id),
    {
        find_clock(&self.clocks, id)
    }

    /// The programs of a service (none without a schedule).
    pub fn query_programs(&self, id: ServiceId) -> (r: &[(Eid, EpgProgram)])
        ensures
            ({
                let p = schedule_position(self.schedules@, id);
                if p >= 0 {
                    r@ == self.schedules@[p].programs@
                } else {
                    r@.len() == 0
                }
            }),
    {
        match self.find_schedule(id) {
            Some(i) => self.schedules[i].programs.as_slice(),
            None => &[],
        }
    }

    /// The program of an identifier: the program of its event in the
    /// schedule of its service.
    #[verifier::loop_isolation(false)]
    pub fn query_program(&self, program_id: ProgramId) -> (r: Option<&EpgProgram>)
        ensures
            ({
                let sid = ServiceId::spec_from_program(program_id);
                let p = schedule_position(self.schedules@, sid);
                let eid_value = (program_id@ % 100_000) as u16;
                match r {
                    Some(program) => p >= 0 && exists|k: int| #![trigger self.schedules@[p].programs@[k]]
                        0 <= k < self.schedules@[p].programs@.len() && self.schedules@[p].programs@[k].0@ == eid_value
                            && &self.schedules@[p].programs@[k].1 == program
                            && forall|j: int| 0 <= j < k ==> self.schedules@[p].programs@[j].0@ != eid_value,
                    None => p < 0 || forall|k: int| 0 <= k < self.schedules@[p].programs@.len() ==>
                        #[trigger] self.schedules@[p].programs@[k].0@ != eid_value,
                }
            }),
    {
        let service_id = ServiceId::from_program_id(program_id);
        let eid = program_id.eid();
        match self.find_schedule(service_id) {
            Some(i) => {
                let programs = &self.schedules[i].programs;
                let mut k: usize = 0;
                while k < programs.len()
                    invariant
                        k <= programs@.len(),
                        forall|j: int| 0 <= j < k ==> programs@[j].0@ != eid@,
                    decreases programs@.len() - k,
                {
                    if programs[k].0 == eid {
                        proof {
                            crate::models::lemma_eid_view_injective(programs@[k as int].0, eid);
                            assert(self.schedules@[i as int].programs@[k as int] == programs@[k as int]);
                        }
                        return Some(&programs[k].1);
                    }
                    proof {
                        crate::models::lemma_eid_view_injective(programs@[k as int].0, eid);
                    }
                    k = k + 1;
                }
                None
            },
            None => None,
        }
    }

    /// Whether the schedule of a service, if it has one, can have its start
    /// moved: the dates of its units can be read.
    pub fn schedule_dates_readable(&self, service_id: ServiceId) -> (r: bool)
        requires
            self.wf(),
        ensures
            r == (schedule_position(self.schedules@, service_id) >= 0 ==> forall|i: int| 0 <= i < 9 ==>
                unit_dated(#[trigger] self.schedules@[schedule_position(self.schedules@, service_id)].units@[i])),
    {
        match self.find_schedule(service_id) {
            Some(i) => {
                assert(self.schedules@[i as int].wf());
                self.schedules[i].dates_readable()
            },
            None => true,
        }
    }

    /// Takes the services loaded from the cache: those whose channel is
    /// one of the configured channels, a later entry of an identifier
    /// replacing an earlier one in place.
    pub fn load_services(&mut self, loaded: Vec<(ServiceId, EpgService)>, channels: &Vec<EpgChannel>)
        ensures
            services_view(final(self).services@) == insert_all(
                Seq::empty(),
                on_channels(services_view(loaded@), channels_view(channels@)),
            ),
            final(self).clocks == old(self).clocks,
            final(self).schedules == old(self).schedules,
    {
        let ghost lv = services_view(loaded@);
        let ghost cv = channels_view(channels@);
        let mut source = loaded;
        let mut services: Vec<(ServiceId, EpgService)> = Vec::new();
        let ghost mut n: int = 0;
        assert(lv.take(0) =~= Seq::empty());
        while source.len() > 0
            invariant
                0 <= n <= lv.len(),
                services_view(source@) == lv.skip(n),
                services_view(services@) == insert_all(Seq::empty(), on_channels(lv.take(n), cv)),
                cv == channels_view(channels@),
                self.clocks == old(self).clocks,
                self.schedules == old(self).schedules,
            decreases source@.len(),
        {
            let ghost before = source@;
            proof {
                assert(services_view(before).len() == before.len());
                assert(n < lv.len());
                assert(lv.skip(n)[0] == lv[n]);
            }
            let entry = source.remove(0);
            proof {
                assert(lv.take(n + 1).drop_last() =~= lv.take(n));
                assert(services_view(before)[0] == (entry.0, service_view(entry.1)));
                assert(lv.take(n + 1).last() == (entry.0, service_view(entry.1)));
                assert forall|k: int| 0 <= k < source@.len() implies services_view(source@)[k] == lv.skip(n + 1)[k] by {
                    assert(source@[k] == before[k + 1]);
                    assert(services_view(before)[k + 1] == lv.skip(n)[k + 1]);
                }
                assert(services_view(source@) =~= lv.skip(n + 1));
            }
            if among_channels(channels, &entry.1.channel) {
                let ghost acc = on_channels(lv.take(n), cv);
                insert_service(&mut services, entry.0, entry.1);
                proof {
                    assert(acc.push((entry.0, service_view(entry.1))).drop_last() =~= acc);
                }
            }
            proof {
                n = n + 1;
            }
        }
        assert(lv.take(lv.len() as int) =~= lv);
        self.services = services;
    }

    /// Takes the clocks loaded from the cache: those of the services, a
    /// later entry of a service replacing an earlier one.
    pub fn load_clocks(&mut self, loaded: &Vec<(ServiceId, Clock)>)
        ensures
            final(self).clocks@ == insert_all(Seq::empty(), of_services(loaded@, services_view(old(self).services@))),
            final(self).services == old(self).services,
            final(self).schedules == old(self).schedules,
    {
        let ghost sv = services_view(self.services@);
        let mut clocks: Vec<(ServiceId, Clock)> = Vec::new();
        let mut i: usize = 0;
        assert(loaded@.take(0) =~= Seq::<(ServiceId, Clock)>::empty());
        while i < loaded.len()
            invariant
                i <= loaded@.len(),
                sv == services_view(self.services@),
                self.services == old(self).services,
                self.schedules == old(self).schedules,
                clocks@ == insert_all(Seq::empty(), of_services(loaded@.take(i as int), sv)),
            decreases loaded@.len() - i,
        {
            proof {
                assert(loaded@.take(i + 1).drop_last() =~= loaded@.take(i as int));
                assert(loaded@.take(i + 1).last() == loaded@[i as int]);
            }
            if self.contains_service(loaded[i].0) {
                let ghost acc = of_services(loaded@.take(i as int), sv);
                insert_clock(&mut clocks, loaded[i].0, loaded[i].1);
                proof {
                    assert(acc.push(loaded@[i as int]).drop_last() =~= acc);
                }
            }
            i = i + 1;
        }
        assert(loaded@.take(loaded@.len() as int) =~= loaded@);
        self.clocks = clocks;
    }

    /// Collects the programs of every schedule.
    pub fn collect_programs(&mut self)
        requires
            old(self).wf(),
            forall|i: int| 0 <= i < old(self).schedules@.len() ==>
                (#[trigger] old(self).schedules@[i]).service_id@ * 100_000 + 65_535 <= u64::MAX,
        ensures
            final(self).wf(),
            final(self).services == old(self).services,
            final(self).clocks == old(self).clocks,
            final(self).schedules@.len() == old(self).schedules@.len(),
            forall|i: int| 0 <= i < old(self).schedules@.len() ==> {
                &&& (#[trigger] final(self).schedules@[i]).service_id == old(self).schedules@[i].service_id
                &&& final(self).schedules@[i].units@ == old(self).schedules@[i].units@
                &&& final(self).schedules@[i].start_index == old(self).schedules@[i].start_index
                &&& crate::schedule::collected(
                    old(self).schedules@[i].service_id@ as int,
                    crate::schedule::schedule_events(old(self).schedules@[i].units@, old(self).schedules@[i].start_index as int),
                    final(self).schedules@[i].programs@,
                )
            },
    {
        let mut i: usize = 0;
        while i < self.schedules.len()
            invariant
                i <= self.schedules@.len(),
                self.schedules@.len() == old(self).schedules@.len(),
                self.services == old(self).services,
                self.clocks == old(self).clocks,
                forall|j: int| 0 <= j < self.schedules@.len() ==> #[trigger] self.schedules@[j].wf(),
                forall|j: int| i <= j < self.schedules@.len() ==> #[trigger] self.schedules@[j] == old(self).schedules@[j],
                forall|j: int| 0 <= i < old(self).schedules@.len() && 0 <= j < old(self).schedules@.len() ==>
                    (#[trigger] old(self).schedules@[j]).service_id@ * 100_000 + 65_535 <= u64::MAX,
                forall|j: int| 0 <= j < i ==> {
                    &&& (#[trigger] self.schedules@[j]).service_id == old(self).schedules@[j].service_id
                    &&& self.schedules@[j].units@ == old(self).schedules@[j].units@
                    &&& self.schedules@[j].start_index == old(self).schedules@[j].start_index
                    &&& crate::schedule::collected(
                        old(self).schedules@[j].service_id@ as int,
                        crate::schedule::schedule_events(old(self).schedules@[j].units@, old(self).schedules@[j].start_index as int),
                        self.schedules@[j].programs@,
                    )
                },
            decreases self.schedules@.len() - i,
        {
            assert(self.schedules@[i as int] == old(self).schedules@[i as int]);
            assert(self.schedules@[i as int].wf());
            self.schedules[i].collect_programs();
            i = i + 1;
        }
    }

    /// Takes a schedule loaded from the cache, if its service is among the
    /// services: its start moves to today (days since 1970-01-01 in JST),
    /// and it replaces the schedule of its service, if any.
    pub fn load_schedule(&mut self, schedule: EpgSchedule, today: i64)
        requires
            old(self).wf(),
            schedule.wf(),
            valid_day(today as int),
            forall|i: int| 0 <= i < 9 ==> unit_dated(#[trigger] schedule.units@[i]),
        ensures
            final(self).wf(),
            final(self).services == old(self).services,
            final(self).clocks == old(self).clocks,
            ({
                let p = schedule_position(old(self).schedules@, schedule.service_id);
                if key_position(services_view(old(self).services@), schedule.service_id) < 0 {
                    final(self).schedules == old(self).schedules
                } else {
                    let s = final(self).schedules@[if p >= 0 { p } else { old(self).schedules@.len() as int }];
                    &&& s.service_id == schedule.service_id
                    &&& s.units@ == schedule.units@
                    &&& s.programs@ == schedule.programs@
                    &&& s.start_index == crate::schedule::start_index_for(schedule.units@, today as int)
                    &&& if p >= 0 {
                        &&& final(self).schedules@.len() == old(self).schedules@.len()
                        &&& forall|i: int| 0 <= i < old(self).schedules@.len() && i != p ==>
                            #[trigger] final(self).schedules@[i] == old(self).schedules@[i]
                    } else {
                        final(self).schedules@.drop_last() == old(self).schedules@
                    }
                }
            }),
    {
        if !self.contains_service(schedule.service_id) {
            return;
        }
        let mut schedule = schedule;
        schedule.update_start_index(today);
        match self.find_schedule(schedule.service_id) {
            Some(i) => {
                self.schedules.set(i, schedule);
            },
            None => {
                self.schedules.push(schedule);
                assert(self.schedules@.drop_last() =~= old(self).schedules@);
            },
        }
    }

    /// Whether a service is among the services.
    pub fn contains_service(&self, id: ServiceId) -> (r: bool)
        ensures
            r == (key_position(services_view(self.services@), id) >= 0),
    {
        let ghost sv = services_view(self.services@);
        proof {
            lemma_key_position(sv, id);
        }
        let mut i: usize = 0;
        while i < self.services.len()
            invariant
                i <= self.services@.len(),
                sv == services_view(self.services@),
                forall|j: int| 0 <= j < i ==> sv[j].0 != id,
            decreases self.services@.len() - i,
        {
            if self.services[i].0 == id {
                proof {
                    lemma_key_position(sv, id);
                    assert(sv[i as int] == (self.services@[i as int].0, service_view(self.services@[i as int].1)));
                }
                assert(sv[i as int].0 == id);
                return true;
            }
            i = i + 1;
        }
        false
    }
}

/// Every schedule kept after the services change belongs to one of the
/// services.
pub proof fn lemma_kept_schedules_have_services(
    schedules: Seq<EpgSchedule>,
    services: Seq<(ServiceId, (ServiceId, u16, i16, u16, Seq<char>, (Seq<char>, ChannelType, Seq<char>, Seq<char>, Seq<Sid>, Seq<Sid>)))>,
)
    ensures
        forall|i: int| 0 <= i < kept_schedules(schedules, services).len() ==>
            key_position(services, #[trigger] kept_schedules(schedules, services)[i].service_id) >= 0,
    decreases schedules.len(),
{
    if schedules.len() > 0 {
        let rest = kept_schedules(schedules.drop_last(), services);
        lemma_kept_schedules_have_services(schedules.drop_last(), services);
        let kept = kept_schedules(schedules, services);
        assert forall|i: int| 0 <= i < kept.len() implies key_position(services, #[trigger] kept[i].service_id) >= 0 by {
            if i < rest.len() {
                assert(kept[i] == rest[i]);
            }
        }
    }
}


/// The services on a channel, in their order.
pub open spec fn services_on(
    services: Seq<(ServiceId, EpgService)>,
    channel_type: ChannelType,
    channel: Seq<char>,
) -> Seq<EpgService>
    decreases services.len(),
{
    if services.len() == 0 {
        Seq::empty()
    } else {
        let rest = services_on(services.drop_last(), channel_type, channel);
        let sv = services.last().1;
        if sv.channel.channel_type == channel_type && sv.channel.channel@ == channel {
            rest.push(sv)
        } else {
            rest
        }
    }
}

/// Whether `c` is the Mirakurun model of the service `sv` on a channel.
pub open spec fn channel_service_of(c: MirakurunChannelService, sv: EpgService) -> bool {
    &&& c.id == sv.id
    &&& c.service_id@ == (sv.id@ % 100_000) as u16
    &&& c.network_id@ == (sv.id@ / 100_000) as u16
    &&& c.name@ == sv.name@
}

/// The position of the first configured channel of a type and a channel,
/// or -1.
pub open spec fn channel_position(channels: Seq<ChannelConfig>, channel_type: ChannelType, channel: Seq<char>) -> int
    decreases channels.len(),
{
    if channels.len() == 0 {
        -1
    } else if channel_position(channels.drop_last(), channel_type, channel) >= 0 {
        channel_position(channels.drop_last(), channel_type, channel)
    } else if channels.last().channel_type == channel_type && channels.last().channel@ == channel {
        channels.len() - 1
    } else {
        -1
    }
}

impl EpgState {
    /// The services on a channel, in the Mirakurun model.
    pub fn channel_services(&self, channel_type: ChannelType, channel: &String) -> (r: Vec<MirakurunChannelService>)
        ensures
            r@.len() == services_on(self.services@, channel_type, channel@).len(),
            forall|k: int| 0 <= k < r@.len() ==> channel_service_of(
                #[trigger] r@[k],
                services_on(self.services@, channel_type, channel@)[k],
            ),
    {
        let mut r: Vec<MirakurunChannelService> = Vec::new();
        let mut i: usize = 0;
        while i < self.services.len()
            invariant
                i <= self.services@.len(),
                r@.len() == services_on(self.services@.take(i as int), channel_type, channel@).len(),
                forall|k: int| 0 <= k < r@.len() ==> channel_service_of(
                    #[trigger] r@[k],
                    services_on(self.services@.take(i as int), channel_type, channel@)[k],
                ),
            decreases self.services@.len() - i,
        {
            proof {
                assert(self.services@.take(i as int + 1).drop_last() =~= self.services@.take(i as int));
                assert(self.services@.take(i as int + 1).last() == self.services@[i as int]);
            }
            let sv = &self.services[i].1;
            if sv.channel.channel_type == channel_type && sv.channel.channel == *channel {
                let c = MirakurunChannelService {
                    id: sv.id,
                    service_id: sv.sid(),
                    network_id: sv.nid(),
                    name: sv.name.clone(),
                };
                r.push(c);
            }
            i = i + 1;
        }
        proof {
            assert(self.services@.take(self.services@.len() as int) =~= self.services@);
        }
        r
    }

    /// The configured channels with the services on each, in the Mirakurun
    /// model.
    pub fn query_channels(&self, channels: &Vec<ChannelConfig>) -> (r: Vec<MirakurunChannel>)
        ensures
            r@.len() == channels@.len(),
            forall|i: int| 0 <= i < r@.len() ==> {
                let c = #[trigger] r@[i];
                let config = channels@[i];
                &&& c.channel_type == config.channel_type
                &&& c.channel@ == config.channel@
                &&& c.name@ == config.name@
                &&& c.services@.len() == services_on(self.services@, config.channel_type, config.channel@).len()
                &&& forall|k: int| 0 <= k < c.services@.len() ==> channel_service_of(
                    #[trigger] c.services@[k],
                    services_on(self.services@, config.channel_type, config.channel@)[k],
                )
            },
    {
        let mut r: Vec<MirakurunChannel> = Vec::new();
        let mut i: usize = 0;
        while i < channels.len()
            invariant
                i <= channels@.len(),
                r@.len() == i,
                forall|j: int| 0 <= j < i ==> {
                    let c = #[trigger] r@[j];
                    let config = channels@[j];
                    &&& c.channel_type == config.channel_type
                    &&& c.channel@ == config.channel@
                    &&& c.name@ == config.name@
                    &&& c.services@.len() == services_on(self.services@, config.channel_type, config.channel@).len()
                    &&& forall|k: int| 0 <= k < c.services@.len() ==> channel_service_of(
                        #[trigger] c.services@[k],
                        services_on(self.services@, config.channel_type, config.channel@)[k],
                    )
                },
            decreases channels@.len() - i,
        {
            let config = &channels[i];
            let services = self.channel_services(config.channel_type, &config.channel);
            r.push(MirakurunChannel {
                channel_type: config.channel_type,
                channel: config.channel.clone(),
                name: config.name.clone(),
                services,
            });
            i = i + 1;
        }
        r
    }

    /// The EPG channel of the first configured channel of a type and a
    /// channel.
    pub fn query_channel(channels: &Vec<ChannelConfig>, channel_type: ChannelType, channel: &String) -> (r: Result<EpgChannel, Error>)
        ensures
            ({
                let p = channel_position(channels@, channel_type, channel@);
                if p >= 0 {
                    let config = channels@[p];
                    r matches Ok(c) && channel_view(c) == (
                        config.name@,
                        config.channel_type,
                        config.channel@,
                        config.extra_args@,
                        config.services@,
                        config.excluded_services@,
                    )
                } else {
                    r == Err::<EpgChannel, Error>(Error::ChannelNotFound)
                }
            }),
    {
        let mut i: usize = 0;
        while i < channels.len()
            invariant
                i <= channels@.len(),
                channel_position(channels@.take(i as int), channel_type, channel@) < 0,
            decreases channels@.len() - i,
        {
            proof {
                assert(channels@.take(i as int + 1).drop_last() =~= channels@.take(i as int));
            }
            let config = &channels[i];
            if config.channel_type == channel_type && config.channel == *channel {
                proof { lemma_channel_position_prefix(channels@, i as int + 1, channel_type, channel@); }
                return Ok(EpgChannel {
                    name: config.name.clone(),
                    channel_type: config.channel_type,
                    channel: config.channel.clone(),
                    extra_args: config.extra_args.clone(),
                    services: copy_sids(&config.services),
                    excluded_services: copy_sids(&config.excluded_services),
                });
            }
            i = i + 1;
        }
        proof {
            assert(channels@.take(channels@.len() as int) =~= channels@);
        }
        Err(Error::ChannelNotFound)
    }
}

/// The first channel of a prefix that has one is the first of the whole.
proof fn lemma_channel_position_prefix(channels: Seq<ChannelConfig>, n: int, channel_type: ChannelType, channel: Seq<char>)
    requires
        0 <= n <= channels.len(),
        channel_position(channels.take(n), channel_type, channel) >= 0,
    ensures
        channel_position(channels, channel_type, channel) == channel_position(channels.take(n), channel_type, channel),
    decreases channels.len(),
{
    if n == channels.len() {
        assert(channels.take(n) =~= channels);
    } else {
        assert(channels.drop_last().take(n) =~= channels.take(n));
        lemma_channel_position_prefix(channels.drop_last(), n, channel_type, channel);
    }
}

} // verus!
