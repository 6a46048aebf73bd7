//! The EPG schedule of a service: EIT[schedule] sections kept by day, by
//! 3-hour segment and by section number (ARIB TR-B14), in a ring buffer of
//! days that starts at today.
use vstd::prelude::*;

use crate::epg::{
    audios_after, extended_map, genres_of, key_position, last_of_kind, lemma_key_position,
    lemma_last_of_kind_bound, pairs_view, updated_program, EitDescriptor, EitEvent, EitSection,
    EpgProgram, MAX_DAYS, NUM_SECTIONS, NUM_SEGMENTS,
};
use crate::models::{Eid, ProgramId, ServiceId};

verus! {

/// The offset of JST from UTC, in milliseconds.
pub const JST_OFFSET_MS: i64 = 32_400_000;

/// A day in milliseconds.
pub const DAY_MS: i64 = 86_400_000;

/// The first day (counted from 1970-01-01) that has a calendar date.
pub const MIN_DAY: i64 = -96_465_293;

/// The last day (counted from 1970-01-01) that has a calendar date.
pub const MAX_DAY: i64 = 95_026_236;

/// The earliest UNIX time (in milliseconds) whose JST date exists.
pub const MIN_DATED_MS: i64 = -8_334_601_315_200_000;

/// The latest UNIX time (in milliseconds) whose JST date exists.
pub const MAX_DATED_MS: i64 = 8_210_266_844_399_999;

/// Whether a UNIX time (in milliseconds) has a date in JST: the proleptic
/// Gregorian calendar runs from January 1, 262144 BCE to December 31,
/// 262142 CE.
pub open spec fn dated(ms: i64) -> bool {
    MIN_DATED_MS <= ms <= MAX_DATED_MS
}

/// Whether a day number has a calendar date.
pub open spec fn valid_day(day: int) -> bool {
    MIN_DAY <= day <= MAX_DAY
}

/// The JST date of a UNIX time (in milliseconds), as the number of days
/// since 1970-01-01.
pub open spec fn jst_day(ms: int) -> int {
    (ms + JST_OFFSET_MS) / (DAY_MS as int)
}

/// The JST date of a UNIX time (in milliseconds), as the number of days
/// since 1970-01-01.
pub fn jst_date(ms: i64) -> (r: i64)
    requires
        dated(ms),
    ensures
        r == jst_day(ms as int),
        valid_day(r as int),
{
    // Shifted by whole days so that the dividend is not negative.
    let shift_days: i64 = 100_000_000;
    let shifted: i64 = ms + JST_OFFSET_MS + shift_days * DAY_MS;
    let q: u64 = (shifted as u64) / (DAY_MS as u64);
    proof {
        vstd::arithmetic::div_mod::lemma_hoist_over_denominator(
            ms + JST_OFFSET_MS,
            shift_days as int,
            DAY_MS as nat,
        );
        vstd::arithmetic::div_mod::lemma_div_is_ordered(
            MIN_DATED_MS + JST_OFFSET_MS,
            ms + JST_OFFSET_MS,
            DAY_MS as int,
        );
        vstd::arithmetic::div_mod::lemma_div_is_ordered(
            ms + JST_OFFSET_MS,
            MAX_DATED_MS + JST_OFFSET_MS,
            DAY_MS as int,
        );
        assert((MIN_DATED_MS + JST_OFFSET_MS) / (DAY_MS as int) == MIN_DAY);
        assert((MAX_DATED_MS + JST_OFFSET_MS) / (DAY_MS as int) == MAX_DAY);
    }
    q as i64 - shift_days
}

/// The sections of an EIT table kept for one section number.
pub struct EpgSection {
    pub version: u8,
    /// Events in chronological order.
    pub events: Vec<EitEvent>,
}

/// Whether the date of the section can be read: a section with events has a
/// first event with a start time that has a date.
pub open spec fn section_dated(s: EpgSection) -> bool {
    s.events@.len() > 0 ==> (s.events@[0].start_time matches Some(t) && dated(t))
}

/// The JST date of the first event of the section, if it has any.
pub open spec fn section_date(s: EpgSection) -> Option<int> {
    if s.events@.len() > 0 {
        Some(jst_day(s.events@[0].start_time->0 as int))
    } else {
        None
    }
}

impl EpgSection {
    /// The section that keeps the version and the events of an EIT section.
    pub fn from_eit_section(section: EitSection) -> (r: Self)
        ensures
            r.version == section.version_number,
            r.events == section.events,
    {
        EpgSection { version: section.version_number, events: section.events }
    }

    /// The JST date of the first event.
    pub fn date(&self) -> (r: Option<i64>)
        requires
            section_dated(*self),
        ensures
            r matches Some(d) ==> section_date(*self) == Some(d as int) && valid_day(d as int),
            r is None ==> section_date(*self) is None,
    {
        if self.events.len() > 0 {
            match self.events[0].start_time {
                Some(t) => Some(jst_date(t)),
                None => None,
            }
        } else {
            None
        }
    }
}

/// The date of the first section from position `i` on that has events.
pub open spec fn first_section_date(s: Seq<Option<EpgSection>>, i: int) -> Option<int>
    decreases s.len() - i,
{
    if i < 0 || i >= s.len() {
        None
    } else if s[i] is Some && s[i]->0.events@.len() > 0 {
        section_date(s[i]->0)
    } else {
        first_section_date(s, i + 1)
    }
}

/// Whether the search for the first date from position `i` on reads only
/// sections whose date can be read.
pub open spec fn sections_dated(s: Seq<Option<EpgSection>>, i: int) -> bool
    decreases s.len() - i,
{
    if i < 0 || i >= s.len() {
        true
    } else if s[i] is Some && s[i]->0.events@.len() > 0 {
        section_dated(s[i]->0)
    } else {
        sections_dated(s, i + 1)
    }
}

/// The sections after an EIT section of the same table kind: the section
/// takes its place, and the places after the last section of its segment
/// are cleared.
pub open spec fn refreshed(old: Seq<Option<EpgSection>>, section: EitSection) -> Seq<Option<EpgSection>> {
    let i = section.section_number % 8;
    let n = section.segment_last_section_number % 8 + 1;
    Seq::new(
        old.len(),
        |j: int|
            if j == i {
                Some(EpgSection { version: section.version_number, events: section.events })
            } else if j >= n {
                None
            } else {
                old[j]
            },
    )
}

/// Puts an EIT section in its place among the sections of its kind.
fn refresh(sections: &mut Vec<Option<EpgSection>>, section: EitSection)
    requires
        old(sections)@.len() == NUM_SECTIONS,
    ensures
        final(sections)@ == refreshed(old(sections)@, section),
{
    let ghost target = refreshed(old(sections)@, section);
    let n = section.last_section_index() + 1;
    let mut i: usize = n;
    while i < NUM_SECTIONS
        invariant
            n <= i <= NUM_SECTIONS,
            n == section.segment_last_section_number % 8 + 1,
            sections@.len() == NUM_SECTIONS,
            forall|j: int| 0 <= j < n ==> sections@[j] == old(sections)@[j],
            forall|j: int| n <= j < i ==> sections@[j] is None,
            forall|j: int| i <= j < NUM_SECTIONS ==> sections@[j] == old(sections)@[j],
        decreases NUM_SECTIONS - i,
    {
        sections.set(i, None);
        i = i + 1;
    }
    let k = section.section_index();
    sections.set(k, Some(EpgSection::from_eit_section(section)));
    assert(sections@ =~= target);
}

/// Whether `new` is the segment `old` after the EIT section: the section
/// goes among the basic sections (table 0x50..=0x57) or among the extended
/// ones.
pub open spec fn segment_updated(old: EpgSegment, section: EitSection, new: EpgSegment) -> bool {
    if section.table_id <= 0x57 {
        &&& new.basic_sections@ == refreshed(old.basic_sections@, section)
        &&& new.extended_sections@ == old.extended_sections@
    } else {
        &&& new.extended_sections@ == refreshed(old.extended_sections@, section)
        &&& new.basic_sections@ == old.basic_sections@
    }
}

/// The EIT[schedule] sections of a 3-hour segment.
pub struct EpgSegment {
    /// Sections of EIT[schedule basic] (table 0x50..=0x57).
    pub basic_sections: Vec<Option<EpgSection>>,
    /// Sections of EIT[schedule extended] (table 0x58..=0x5F).
    pub extended_sections: Vec<Option<EpgSection>>,
}

impl EpgSegment {
    /// Whether the segment has a place for each section number.
    pub open spec fn wf(&self) -> bool {
        &&& self.basic_sections@.len() == NUM_SECTIONS
        &&& self.extended_sections@.len() == NUM_SECTIONS
    }

    /// A segment without sections.
    pub fn new() -> (r: Self)
        ensures
            r.wf(),
            forall|i: int| 0 <= i < NUM_SECTIONS ==> r.basic_sections@[i] is None,
            forall|i: int| 0 <= i < NUM_SECTIONS ==> r.extended_sections@[i] is None,
    {
        let mut basic_sections: Vec<Option<EpgSection>> = Vec::new();
        let mut extended_sections: Vec<Option<EpgSection>> = Vec::new();
        let mut i: usize = 0;
        while i < NUM_SECTIONS
            invariant
                i <= NUM_SECTIONS,
                basic_sections@.len() == i,
                extended_sections@.len() == i,
                forall|j: int| 0 <= j < i ==> basic_sections@[j] is None,
                forall|j: int| 0 <= j < i ==> extended_sections@[j] is None,
            decreases NUM_SECTIONS - i,
        {
            basic_sections.push(None);
            extended_sections.push(None);
            i = i + 1;
        }
        EpgSegment { basic_sections, extended_sections }
    }

    /// The date of the first basic section that has events.
    pub fn date(&self) -> (r: Option<i64>)
        requires
            sections_dated(self.basic_sections@, 0),
        ensures
            r matches Some(d) ==> first_section_date(self.basic_sections@, 0) == Some(d as int) && valid_day(d as int),
            r is None ==> first_section_date(self.basic_sections@, 0) is None,
    {
        let ghost s = self.basic_sections@;
        let mut i: usize = 0;
        while i < self.basic_sections.len()
            invariant
                i <= s.len(),
                s == self.basic_sections@,
                first_section_date(s, 0) == first_section_date(s, i as int),
                sections_dated(s, i as int),
            decreases s.len() - i,
        {
            match &self.basic_sections[i] {
                Some(section) => {
                    if section.events.len() > 0 {
                        return section.date();
                    }
                },
                None => {},
            }
            i = i + 1;
        }
        None
    }

    /// Puts an EIT section in its place.
    pub fn update(&mut self, section: EitSection)
        requires
            old(self).wf(),
            0x50 <= section.table_id <= 0x5F,
        ensures
            final(self).wf(),
            segment_updated(*old(self), section, *final(self)),
    {
        if section.is_basic() {
            refresh(&mut self.basic_sections, section);
        } else {
            refresh(&mut self.extended_sections, section);
        }
    }
}

/// The date of a segment: that of its first basic section with events.
pub open spec fn segment_date(seg: EpgSegment) -> Option<int> {
    first_section_date(seg.basic_sections@, 0)
}

/// The date of the first segment from position `i` on that has one.
pub open spec fn first_segment_date(segs: Seq<EpgSegment>, i: int) -> Option<int>
    decreases segs.len() - i,
{
    if i < 0 || i >= segs.len() {
        None
    } else if segment_date(segs[i]) is Some {
        segment_date(segs[i])
    } else {
        first_segment_date(segs, i + 1)
    }
}

/// Whether the search for the first date from segment `i` on reads only
/// sections whose date can be read.
pub open spec fn segments_dated(segs: Seq<EpgSegment>, i: int) -> bool
    decreases segs.len() - i,
{
    if i < 0 || i >= segs.len() {
        true
    } else {
        &&& sections_dated(segs[i].basic_sections@, 0)
        &&& (segment_date(segs[i]) is Some || segments_dated(segs, i + 1))
    }
}

/// The EIT[schedule] sections of a day.
pub struct EpgScheduleUnit {
    /// Segments in chronological order from midnight.
    pub segments: Vec<EpgSegment>,
}

/// The date of a day's unit: that of its first dated segment.
pub open spec fn unit_date(u: EpgScheduleUnit) -> Option<int> {
    first_segment_date(u.segments@, 0)
}

/// Whether the date of a day's unit can be read.
pub open spec fn unit_dated(u: EpgScheduleUnit) -> bool {
    segments_dated(u.segments@, 0)
}

/// Whether `new` is the unit `old` after the EIT section: the section goes
/// to the segment of its section number.
pub open spec fn unit_updated(old: EpgScheduleUnit, section: EitSection, new: EpgScheduleUnit) -> bool {
    let j = ((section.section_number / 8) % 8) as int;
    &&& new.segments@.len() == old.segments@.len()
    &&& forall|k: int| 0 <= k < new.segments@.len() && k != j ==> new.segments@[k] == old.segments@[k]
    &&& segment_updated(old.segments@[j], section, new.segments@[j])
}

impl EpgScheduleUnit {
    /// Whether the unit has a well-formed segment for each 3 hours.
    pub open spec fn wf(&self) -> bool {
        &&& self.segments@.len() == NUM_SEGMENTS
        &&& forall|k: int| 0 <= k < NUM_SEGMENTS ==> #[trigger] self.segments@[k].wf()
    }

    /// A unit without sections.
    pub fn new() -> (r: Self)
        ensures
            r.wf(),
            forall|k: int| 0 <= k < NUM_SEGMENTS ==> forall|i: int| 0 <= i < NUM_SECTIONS ==>
                (#[trigger] r.segments@[k]).basic_sections@[i] is None && r.segments@[k].extended_sections@[i] is None,
    {
        let mut segments: Vec<EpgSegment> = Vec::new();
        let mut k: usize = 0;
        while k < NUM_SEGMENTS
            invariant
                k <= NUM_SEGMENTS,
                segments@.len() == k,
                forall|j: int| 0 <= j < k ==> #[trigger] segments@[j].wf(),
                forall|j: int| 0 <= j < k ==> forall|i: int| 0 <= i < NUM_SECTIONS ==>
                    (#[trigger] segments@[j]).basic_sections@[i] is None && segments@[j].extended_sections@[i] is None,
            decreases NUM_SEGMENTS - k,
        {
            segments.push(EpgSegment::new());
            k = k + 1;
        }
        EpgScheduleUnit { segments }
    }

    /// The date of the first segment that has one.
    pub fn date(&self) -> (r: Option<i64>)
        requires
            unit_dated(*self),
        ensures
            r matches Some(d) ==> unit_date(*self) == Some(d as int) && valid_day(d as int),
            r is None ==> unit_date(*self) is None,
    {
        let ghost segs = self.segments@;
        let mut k: usize = 0;
        while k < self.segments.len()
            invariant
                k <= segs.len(),
                segs == self.segments@,
                first_segment_date(segs, 0) == first_segment_date(segs, k as int),
                segments_dated(segs, k as int),
            decreases segs.len() - k,
        {
            let d = self.segments[k].date();
            if d.is_some() {
                return d;
            }
            k = k + 1;
        }
        None
    }

    /// Puts an EIT section in the segment of its section number.
    pub fn update(&mut self, section: EitSection)
        requires
            old(self).wf(),
            0x50 <= section.table_id <= 0x5F,
        ensures
            final(self).wf(),
            unit_updated(*old(self), section, *final(self)),
    {
        let j = section.segment_index_in_unit();
        self.segments[j].update(section);
    }
}

/// The dates of the units.
pub open spec fn unit_dates(units: Seq<EpgScheduleUnit>) -> Seq<Option<int>> {
    units.map_values(|u: EpgScheduleUnit| unit_date(u))
}

/// The position and the date of the earliest date among the first `n`
/// dates; of equal dates, the first.
pub open spec fn earliest(dates: Seq<Option<int>>, n: int) -> Option<(int, int)>
    decreases n,
{
    if n <= 0 {
        None
    } else {
        let best = earliest(dates, n - 1);
        match dates[n - 1] {
            Some(d) => match best {
                Some(b) => if d < b.1 {
                    Some((n - 1, d))
                } else {
                    best
                },
                None => Some((n - 1, d)),
            },
            None => best,
        }
    }
}

/// The EPG schedule of a service: a ring buffer of days.
pub struct EpgSchedule {
    pub service_id: ServiceId,
    /// Units in chronological order from `start_index`, which holds today.
    pub units: Vec<EpgScheduleUnit>,
    pub start_index: usize,
    /// Programs by event identifier.
    pub programs: Vec<(Eid, EpgProgram)>,
}

/// The place of today among the units: the earliest dated unit holds its
/// date, and the units after it hold the following days.
pub open spec fn start_index_for(units: Seq<EpgScheduleUnit>, today: int) -> int {
    match earliest(unit_dates(units), MAX_DAYS as int) {
        Some(e) => (e.0 + (today - e.1) % (MAX_DAYS as int)) % (MAX_DAYS as int),
        None => 0,
    }
}

impl EpgSchedule {
    /// Whether the schedule has a well-formed unit for each day and a start
    /// among them.
    pub open spec fn wf(&self) -> bool {
        &&& self.units@.len() == MAX_DAYS
        &&& forall|i: int| 0 <= i < MAX_DAYS ==> #[trigger] self.units@[i].wf()
        &&& self.start_index < MAX_DAYS
    }

    /// An empty schedule of a service.
    pub fn new(service_id: ServiceId) -> (r: Self)
        ensures
            r.wf(),
            r.service_id == service_id,
            r.start_index == 0,
            r.programs@.len() == 0,
            forall|i: int| 0 <= i < MAX_DAYS ==> unit_date(#[trigger] r.units@[i]) is None,
    {
        let mut units: Vec<EpgScheduleUnit> = Vec::new();
        let mut i: usize = 0;
        while i < MAX_DAYS
            invariant
                i <= MAX_DAYS,
                units@.len() == i,
                forall|j: int| 0 <= j < i ==> #[trigger] units@[j].wf(),
                forall|j: int| 0 <= j < i ==> unit_date(#[trigger] units@[j]) is None,
            decreases MAX_DAYS - i,
        {
            let unit = EpgScheduleUnit::new();
            proof {
                lemma_fresh_unit_undated(unit);
            }
            units.push(unit);
            i = i + 1;
        }
        EpgSchedule { service_id, units, start_index: 0, programs: Vec::new() }
    }

    /// Moves the start of the ring buffer to today, given as the number of
    /// days since 1970-01-01 (JST): the earliest dated unit is taken to
    /// hold its date.
    pub fn update_start_index(&mut self, today: i64)
        requires
            old(self).wf(),
            valid_day(today as int),
            forall|i: int| 0 <= i < MAX_DAYS ==> unit_dated(#[trigger] old(self).units@[i]),
        ensures
            final(self).wf(),
            final(self).units@ == old(self).units@,
            final(self).service_id == old(self).service_id,
            final(self).programs@ == old(self).programs@,
            final(self).start_index == start_index_for(old(self).units@, today as int),
    {
        let ghost dates = unit_dates(self.units@);
        let mut best: Option<(usize, i64)> = None;
        let mut i: usize = 0;
        while i < MAX_DAYS
            invariant
                i <= MAX_DAYS,
                self.units@.len() == MAX_DAYS,
                dates == unit_dates(self.units@),
                forall|j: int| 0 <= j < MAX_DAYS ==> unit_dated(#[trigger] self.units@[j]),
                match best {
                    Some(b) => earliest(dates, i as int) == Some((b.0 as int, b.1 as int)) && valid_day(b.1 as int)
                        && b.0 < i,
                    None => earliest(dates, i as int) is None,
                },
            decreases MAX_DAYS - i,
        {
            let d = self.units[i].date();
            assert(dates[i as int] == unit_date(self.units@[i as int]));
            match d {
                Some(d) => {
                    match best {
                        Some(b) => {
                            if d < b.1 {
                                best = Some((i, d));
                            }
                        },
                        None => {
                            best = Some((i, d));
                        },
                    }
                },
                None => {},
            }
            i = i + 1;
        }
        match best {
            Some(b) => {
                let delta: i64 = today - b.1;
                let m: usize = if delta >= 0 {
                    (delta as u64 % 9) as usize
                } else {
                    let r: usize = ((-delta) as u64 % 9) as usize;
                    if r == 0 {
                        0
                    } else {
                        9 - r
                    }
                };
                proof {
                    lemma_euclid_mod_nine(delta as int, m as int);
                }
                self.start_index = (b.0 + m) % MAX_DAYS;
            },
            None => {
                self.start_index = 0;
            },
        }
    }

    /// Puts an EIT section in the unit of its day.
    pub fn update(&mut self, section: EitSection)
        requires
            old(self).wf(),
            0x50 <= section.table_id <= 0x5F,
        ensures
            final(self).wf(),
            final(self).service_id == old(self).service_id,
            final(self).start_index == old(self).start_index,
            final(self).programs@ == old(self).programs@,
            ({
                let i = (old(self).start_index + section.spec_unit_index()) % (MAX_DAYS as int);
                &&& forall|k: int| 0 <= k < MAX_DAYS && k != i ==> final(self).units@[k] == old(self).units@[k]
                &&& unit_updated(old(self).units@[i], section, final(self).units@[i])
            }),
    {
        let i = (self.start_index + section.unit_index()) % MAX_DAYS;
        self.units[i].update(section);
    }
}

/// The schedule after an EIT section was put in the unit of its day: the
/// service, the start and the programs stay; the unit of the section's day
/// (counted from the start, round the week) takes the section, and the
/// other units stay.
pub open spec fn schedule_updated(old: EpgSchedule, section: EitSection, new: EpgSchedule) -> bool {
    let i = (old.start_index + section.spec_unit_index()) % (MAX_DAYS as int);
    &&& new.service_id == old.service_id
    &&& new.start_index == old.start_index
    &&& new.programs@ == old.programs@
    &&& forall|k: int| 0 <= k < MAX_DAYS && k != i ==> new.units@[k] == old.units@[k]
    &&& unit_updated(old.units@[i], section, new.units@[i])
}

/// A fresh unit has no date.
proof fn lemma_fresh_unit_undated(u: EpgScheduleUnit)
    requires
        u.wf(),
        forall|k: int| 0 <= k < NUM_SEGMENTS ==> forall|i: int| 0 <= i < NUM_SECTIONS ==>
            (#[trigger] u.segments@[k]).basic_sections@[i] is None,
    ensures
        unit_date(u) is None,
{
    lemma_fresh_segments_undated(u, NUM_SEGMENTS as int);
}

proof fn lemma_fresh_segments_undated(u: EpgScheduleUnit, k: int)
    requires
        0 <= k <= NUM_SEGMENTS,
        u.wf(),
        forall|k: int| 0 <= k < NUM_SEGMENTS ==> forall|i: int| 0 <= i < NUM_SECTIONS ==>
            (#[trigger] u.segments@[k]).basic_sections@[i] is None,
    ensures
        first_segment_date(u.segments@, NUM_SEGMENTS - k) is None,
    decreases k,
{
    if k > 0 {
        lemma_fresh_segments_undated(u, k - 1);
        let j = NUM_SEGMENTS - k;
        assert(u.segments@[j].wf());
        let s = u.segments@[j].basic_sections@;
        lemma_fresh_sections_undated(s, s.len() as int);
    }
}

proof fn lemma_fresh_sections_undated(s: Seq<Option<EpgSection>>, n: int)
    requires
        0 <= n <= s.len(),
        forall|i: int| 0 <= i < s.len() ==> s[i] is None,
    ensures
        first_section_date(s, s.len() - n) is None,
    decreases n,
{
    if n > 0 {
        lemma_fresh_sections_undated(s, n - 1);
    }
}

/// The Euclidean remainder of a number by nine.
proof fn lemma_euclid_mod_nine(delta: int, m: int)
    requires
        delta >= 0 ==> m == delta % 9,
        delta < 0 ==> m == (if (-delta) % 9 == 0 { 0 } else { 9 - (-delta) % 9 }),
    ensures
        m == delta % 9,
{
    if delta < 0 {
        vstd::arithmetic::div_mod::lemma_fundamental_div_mod(-delta, 9);
        vstd::arithmetic::div_mod::lemma_fundamental_div_mod(delta, 9);
        assert(m == delta % 9) by (nonlinear_arith)
            requires
                delta < 0,
                -delta == 9 * ((-delta) / 9) + (-delta) % 9,
                0 <= (-delta) % 9 < 9,
                delta == 9 * (delta / 9) + delta % 9,
                0 <= delta % 9 < 9,
                m == (if (-delta) % 9 == 0 { 0 } else { 9 - (-delta) % 9 }),
        ;
    }
}

/// The earliest date lies among the first `n` dates.
proof fn lemma_earliest_bound(dates: Seq<Option<int>>, n: int)
    requires
        n <= dates.len(),
    ensures
        earliest(dates, n) matches Some(e) ==> 0 <= e.0 < n && dates[e.0] == Some(e.1),
    decreases n,
{
    if n > 0 {
        lemma_earliest_bound(dates, n - 1);
    }
}

/// After the start moves to today, the earliest dated unit is the one that
/// its day's offset from today reaches from the start: the unit that a
/// section of that day goes to.
pub proof fn lemma_start_index_reaches_earliest(units: Seq<EpgScheduleUnit>, today: int)
    requires
        units.len() == MAX_DAYS,
        earliest(unit_dates(units), MAX_DAYS as int) is Some,
    ensures
        ({
            let e = earliest(unit_dates(units), MAX_DAYS as int)->0;
            &&& 0 <= e.0 < MAX_DAYS
            &&& unit_date(units[e.0]) == Some(e.1)
            &&& (start_index_for(units, today) + (e.1 - today)) % (MAX_DAYS as int) == e.0
        }),
{
    let dates = unit_dates(units);
    lemma_earliest_bound(dates, MAX_DAYS as int);
    let e = earliest(dates, MAX_DAYS as int)->0;
    let a = e.0;
    let delta = today - e.1;
    let start = (a + delta % 9) % 9;
    vstd::arithmetic::div_mod::lemma_fundamental_div_mod(delta, 9);
    vstd::arithmetic::div_mod::lemma_fundamental_div_mod(a + delta % 9, 9);
    vstd::arithmetic::div_mod::lemma_fundamental_div_mod(start - delta, 9);
    assert((start - delta) % 9 == a) by (nonlinear_arith)
        requires
            0 <= a < 9,
            delta == 9 * (delta / 9) + delta % 9,
            0 <= delta % 9 < 9,
            a + delta % 9 == 9 * ((a + delta % 9) / 9) + start,
            0 <= start < 9,
            start - delta == 9 * ((start - delta) / 9) + (start - delta) % 9,
            0 <= (start - delta) % 9 < 9,
    ;
}

/// Whether the date of each section that the search for a date reads can
/// be read.
pub fn sections_readable(s: &Vec<Option<EpgSection>>) -> (r: bool)
    ensures
        r == sections_dated(s@, 0),
{
    let mut i: usize = 0;
    while i < s.len()
        invariant
            i <= s@.len(),
            sections_dated(s@, 0) == sections_dated(s@, i as int),
        decreases s@.len() - i,
    {
        match &s[i] {
            Some(section) => {
                if section.events.len() > 0 {
                    return match section.events[0].start_time {
                        Some(t) => MIN_DATED_MS <= t && t <= MAX_DATED_MS,
                        None => false,
                    };
                }
            },
            None => {},
        }
        i = i + 1;
    }
    true
}

impl EpgScheduleUnit {
    /// Whether the date of the unit can be read.
    pub fn date_readable(&self) -> (r: bool)
        ensures
            r == unit_dated(*self),
    {
        let ghost segs = self.segments@;
        let mut k: usize = 0;
        while k < self.segments.len()
            invariant
                k <= segs.len(),
                segs == self.segments@,
                segments_dated(segs, 0) == segments_dated(segs, k as int),
            decreases segs.len() - k,
        {
            if !sections_readable(&self.segments[k].basic_sections) {
                return false;
            }
            if self.segments[k].date().is_some() {
                return true;
            }
            k = k + 1;
        }
        true
    }
}

impl EpgSchedule {
    /// Whether the dates of all units can be read.
    pub fn dates_readable(&self) -> (r: bool)
        requires
            self.wf(),
        ensures
            r == forall|i: int| 0 <= i < MAX_DAYS ==> unit_dated(#[trigger] self.units@[i]),
    {
        let mut i: usize = 0;
        while i < MAX_DAYS
            invariant
                i <= MAX_DAYS,
                self.wf(),
                forall|j: int| 0 <= j < i ==> unit_dated(#[trigger] self.units@[j]),
            decreases MAX_DAYS - i,
        {
            if !self.units[i].date_readable() {
                return false;
            }
            i = i + 1;
        }
        true
    }
}

impl EpgSchedule {
    /// Whether the schedule has a well-formed unit for each day and a start
    /// among them.
    #[verifier::loop_isolation(false)]
    pub fn is_well_formed(&self) -> (r: bool)
        ensures
            r == self.wf(),
    {
        if self.units.len() != MAX_DAYS || self.start_index >= MAX_DAYS {
            return false;
        }
        let mut i: usize = 0;
        while i < MAX_DAYS
            invariant
                i <= MAX_DAYS,
                self.units@.len() == MAX_DAYS,
                forall|j: int| 0 <= j < i ==> #[trigger] self.units@[j].wf(),
            decreases MAX_DAYS - i,
        {
            let unit = &self.units[i];
            if unit.segments.len() != NUM_SEGMENTS {
                assert(!self.units@[i as int].wf());
                return false;
            }
            let mut k: usize = 0;
            while k < NUM_SEGMENTS
                invariant
                    k <= NUM_SEGMENTS,
                    unit.segments@.len() == NUM_SEGMENTS,
                    forall|j: int| 0 <= j < k ==> #[trigger] unit.segments@[j].wf(),
                decreases NUM_SEGMENTS - k,
            {
                if unit.segments[k].basic_sections.len() != NUM_SECTIONS
                    || unit.segments[k].extended_sections.len() != NUM_SECTIONS {
                    assert(!unit.segments@[k as int].wf());
                    assert(!self.units@[i as int].wf());
                    return false;
                }
                k = k + 1;
            }
            assert(self.units@[i as int].wf());
            i = i + 1;
        }
        true
    }
}

// programs

/// The events that have both a start time and a duration.
pub open spec fn timed(evs: Seq<EitEvent>) -> Seq<EitEvent>
    decreases evs.len(),
{
    if evs.len() == 0 {
        Seq::empty()
    } else if evs.last().start_time is Some && evs.last().duration is Some {
        timed(evs.drop_last()).push(evs.last())
    } else {
        timed(evs.drop_last())
    }
}

/// The identifiers of the events in the order they first appear.
pub open spec fn key_order(evs: Seq<EitEvent>) -> Seq<Eid>
    decreases evs.len(),
{
    if evs.len() == 0 {
        Seq::empty()
    } else if key_order(evs.drop_last()).contains(evs.last().event_id) {
        key_order(evs.drop_last())
    } else {
        key_order(evs.drop_last()).push(evs.last().event_id)
    }
}

/// The events with the identifier, in order.
pub open spec fn events_of(evs: Seq<EitEvent>, k: Eid) -> Seq<EitEvent>
    decreases evs.len(),
{
    if evs.len() == 0 {
        Seq::empty()
    } else if evs.last().event_id == k {
        events_of(evs.drop_last(), k).push(evs.last())
    } else {
        events_of(evs.drop_last(), k)
    }
}

/// The descriptors of the events, in order.
pub open spec fn all_descriptors(evs: Seq<EitEvent>) -> Seq<EitDescriptor>
    decreases evs.len(),
{
    if evs.len() == 0 {
        Seq::empty()
    } else {
        all_descriptors(evs.drop_last()) + evs.last().descriptors@
    }
}

/// Whether `p` is the program with the identifier `id` made from the
/// events in order: the times and the scrambling come from the last event,
/// and for each kind of descriptor the last one among all events wins.
pub open spec fn program_from(id: int, evs: Seq<EitEvent>, p: EpgProgram) -> bool {
    let ds = all_descriptors(evs);
    let short = last_of_kind(ds, 0);
    let video = last_of_kind(ds, 1);
    let content = last_of_kind(ds, 3);
    let series = last_of_kind(ds, 4);
    let group = last_of_kind(ds, 5);
    let ext = last_of_kind(ds, 6);
    &&& p.id@ == id
    &&& p.start_at == if evs.len() > 0 { evs.last().start_time } else { None }
    &&& p.duration == if evs.len() > 0 { evs.last().duration } else { None }
    &&& p.scrambled == (evs.len() > 0 && evs.last().scrambled)
    &&& p.name == if short >= 0 { ds[short]->event_name } else { None }
    &&& p.description == if short >= 0 { ds[short]->text } else { None }
    &&& p.video == if video >= 0 { Some(ds[video]->Component_0) } else { None }
    &&& p.audios@ == audios_after(Seq::empty(), ds)
    &&& (if content >= 0 {
        p.genres matches Some(g) && g@ == genres_of(ds[content]->nibbles@)
    } else {
        p.genres is None
    })
    &&& p.series == if series >= 0 { Some(ds[series]->Series_0) } else { None }
    &&& (if group >= 0 {
        p.event_group matches Some(g) && g.group_type == ds[group]->EventGroup_0.group_type
            && g.events@ == ds[group]->EventGroup_0.events@
    } else {
        p.event_group is None
    })
    &&& (if ext >= 0 {
        p.extended matches Some(e) && pairs_view(e@) == extended_map(pairs_view(ds[ext]->items@))
    } else {
        p.extended is None
    })
}

/// The position of the last descriptor of a kind in two lists one after
/// the other.
proof fn lemma_last_of_kind_concat(a: Seq<EitDescriptor>, b: Seq<EitDescriptor>, kind: int)
    ensures
        last_of_kind(a + b, kind) == if last_of_kind(b, kind) >= 0 {
            a.len() + last_of_kind(b, kind)
        } else {
            last_of_kind(a, kind)
        },
    decreases b.len(),
{
    if b.len() == 0 {
        assert(a + b =~= a);
    } else {
        assert((a + b).drop_last() =~= a + b.drop_last());
        assert((a + b).last() == b.last());
        lemma_last_of_kind_concat(a, b.drop_last(), kind);
    }
}

/// Audio components set by two lists of descriptors one after the other.
proof fn lemma_audios_after_concat(
    m: Seq<(u8, crate::epg::AudioComponentDescriptor)>,
    a: Seq<EitDescriptor>,
    b: Seq<EitDescriptor>,
)
    ensures
        audios_after(m, a + b) == audios_after(audios_after(m, a), b),
    decreases b.len(),
{
    if b.len() == 0 {
        assert(a + b =~= a);
    } else {
        assert((a + b).drop_last() =~= a + b.drop_last());
        assert((a + b).last() == b.last());
        lemma_audios_after_concat(m, a, b.drop_last());
    }
}

/// Updating a program made from some events by one more event makes the
/// program from all of them.
pub proof fn lemma_program_step(id: int, evs: Seq<EitEvent>, p: EpgProgram, e: EitEvent, q: EpgProgram)
    requires
        program_from(id, evs, p),
        updated_program(p, e, q),
    ensures
        program_from(id, evs.push(e), q),
{
    let a = all_descriptors(evs);
    let b = e.descriptors@;
    assert(evs.push(e).drop_last() =~= evs);
    assert(all_descriptors(evs.push(e)) == a + b);
    let ab = a + b;
    assert forall|x: int| 0 <= x < b.len() implies ab[a.len() + x] == b[x] by {}
    assert forall|x: int| 0 <= x < a.len() implies ab[x] == a[x] by {}
    lemma_audios_after_concat(Seq::empty(), a, b);
    let kinds = seq![0int, 1, 3, 4, 5, 6];
    assert forall|i: int| 0 <= i < kinds.len() implies {
        &&& #[trigger] last_of_kind(ab, kinds[i]) == if last_of_kind(b, kinds[i]) >= 0 {
            a.len() + last_of_kind(b, kinds[i])
        } else {
            last_of_kind(a, kinds[i])
        }
        &&& -1 <= last_of_kind(a, kinds[i]) < a.len()
        &&& -1 <= last_of_kind(b, kinds[i]) < b.len()
    } by {
        lemma_last_of_kind_concat(a, b, kinds[i]);
        lemma_last_of_kind_bound(a, kinds[i]);
        lemma_last_of_kind_bound(b, kinds[i]);
    }
    assert(kinds[0] == 0 && kinds[1] == 1 && kinds[2] == 3 && kinds[3] == 4 && kinds[4] == 5 && kinds[5] == 6);
}

/// The programs of a service made from the events: one for each event
/// identifier, in the order the identifiers first appear.
pub open spec fn collected(service_id: int, evs: Seq<EitEvent>, ps: Seq<(Eid, EpgProgram)>) -> bool {
    &&& ps.len() == key_order(evs).len()
    &&& forall|i: int| 0 <= i < ps.len() ==> {
        &&& (#[trigger] ps[i]).0 == key_order(evs)[i]
        &&& program_from(service_id * 100_000 + ps[i].0@, events_of(evs, ps[i].0), ps[i].1)
    }
}

/// The programs after one more event: the program of its identifier is
/// updated by it, or a new program made from it goes last.
pub open spec fn upserted(old: Seq<(Eid, EpgProgram)>, service_id: int, e: EitEvent, new: Seq<(Eid, EpgProgram)>) -> bool {
    let j = key_position(old, e.event_id);
    if j >= 0 {
        &&& new.len() == old.len()
        &&& forall|i: int| 0 <= i < old.len() && i != j ==> #[trigger] new[i] == old[i]
        &&& new[j].0 == e.event_id
        &&& updated_program(old[j].1, e, new[j].1)
    } else {
        &&& new.len() == old.len() + 1
        &&& forall|i: int| 0 <= i < old.len() ==> #[trigger] new[i] == old[i]
        &&& new[old.len() as int].0 == e.event_id
        &&& program_from(service_id * 100_000 + e.event_id@, seq![e], new[old.len() as int].1)
    }
}

/// The identifiers in order of appearance are distinct.
proof fn lemma_key_order_distinct(evs: Seq<EitEvent>)
    ensures
        forall|i: int, j: int| 0 <= i < j < key_order(evs).len() ==> key_order(evs)[i] != key_order(evs)[j],
    decreases evs.len(),
{
    if evs.len() > 0 {
        let ko = key_order(evs.drop_last());
        lemma_key_order_distinct(evs.drop_last());
        if !ko.contains(evs.last().event_id) {
            assert forall|i: int| 0 <= i < ko.len() implies ko[i] != evs.last().event_id by {
                if ko[i] == evs.last().event_id {
                    assert(ko.contains(evs.last().event_id));
                }
            }
        }
    }
}

/// An identifier that does not appear has no events.
proof fn lemma_events_of_absent(evs: Seq<EitEvent>, k: Eid)
    requires
        !key_order(evs).contains(k),
    ensures
        events_of(evs, k) == Seq::<EitEvent>::empty(),
    decreases evs.len(),
{
    if evs.len() > 0 {
        let ko = key_order(evs.drop_last());
        if evs.last().event_id == k {
            if ko.contains(k) {
            } else {
                assert(key_order(evs).last() == k);
            }
        } else {
            if ko.contains(k) {
                let i = choose|i: int| 0 <= i < ko.len() && ko[i] == k;
                assert(key_order(evs)[i] == k);
            }
            lemma_events_of_absent(evs.drop_last(), k);
        }
    }
}

/// Collecting one more event keeps the programs those of all the events.
proof fn lemma_collected_step(
    service_id: int,
    evs: Seq<EitEvent>,
    ps: Seq<(Eid, EpgProgram)>,
    e: EitEvent,
    qs: Seq<(Eid, EpgProgram)>,
)
    requires
        collected(service_id, evs, ps),
        upserted(ps, service_id, e, qs),
    ensures
        collected(service_id, evs.push(e), qs),
{
    let k = e.event_id;
    let ko = key_order(evs);
    let evs2 = evs.push(e);
    assert(evs2.drop_last() =~= evs);
    assert(evs2.last() == e);
    lemma_key_order_distinct(evs);
    lemma_key_position(ps, k);
    let j = key_position(ps, k);
    if j >= 0 {
        assert(ps[j].0 == ko[j]);
        assert(ko.contains(k));
        assert(key_order(evs2) == ko);
        assert forall|i: int| 0 <= i < qs.len() implies {
            &&& (#[trigger] qs[i]).0 == key_order(evs2)[i]
            &&& program_from(service_id * 100_000 + qs[i].0@, events_of(evs2, qs[i].0), qs[i].1)
        } by {
            if i == j {
                lemma_program_step(service_id * 100_000 + k@, events_of(evs, k), ps[j].1, e, qs[j].1);
            } else {
                assert(qs[i] == ps[i]);
                assert(ps[i].0 == ko[i]);
                assert(ko[i] != ko[j]);
            }
        }
    } else {
        assert(!ko.contains(k)) by {
            if ko.contains(k) {
                let i = choose|i: int| 0 <= i < ko.len() && ko[i] == k;
                assert(ps[i].0 == ko[i]);
            }
        }
        lemma_events_of_absent(evs, k);
        assert(key_order(evs2) == ko.push(k));
        assert(events_of(evs2, k) =~= seq![e]);
        assert forall|i: int| 0 <= i < qs.len() implies {
            &&& (#[trigger] qs[i]).0 == key_order(evs2)[i]
            &&& program_from(service_id * 100_000 + qs[i].0@, events_of(evs2, qs[i].0), qs[i].1)
        } by {
            if i < ps.len() {
                assert(qs[i] == ps[i]);
                assert(ps[i].0 == ko[i]);
                assert(ko[i] != k);
            }
        }
    }
}

/// Collects an event with a start time and a duration into the programs.
#[verifier::loop_isolation(false)]
fn collect_event(programs: &mut Vec<(Eid, EpgProgram)>, service_id: ServiceId, event: &EitEvent)
    requires
        event.start_time is Some,
        event.duration is Some,
        service_id@ * 100_000 + 65_535 <= u64::MAX,
    ensures
        upserted(old(programs)@, service_id@ as int, *event, final(programs)@),
{
    let k = event.event_id;
    proof {
        lemma_key_position(programs@, k);
    }
    let mut i: usize = 0;
    while i < programs.len()
        invariant
            i <= programs@.len(),
            programs@ == old(programs)@,
            forall|j: int| 0 <= j < i ==> programs@[j].0 != k,
        decreases programs@.len() - i,
    {
        if programs[i].0 == k {
            proof {
                lemma_key_position(programs@, k);
            }
            assert(key_position(programs@, k) == i as int);
            let ghost before = programs@;
            programs[i].1.update(event);
            assert(forall|j: int| 0 <= j < before.len() && j != i ==> programs@[j] == before[j]);
            return;
        }
        i = i + 1;
    }
    assert(key_position(programs@, k) < 0);
    let mut program = EpgProgram::new(ProgramId::from_service_id(service_id, k));
    let ghost fresh = program;
    proof {
        assert(all_descriptors(Seq::<EitEvent>::empty()) =~= Seq::<EitDescriptor>::empty());
        assert(fresh.audios@ =~= Seq::empty());
        assert(program_from(service_id@ * 100_000 + k@, Seq::empty(), fresh));
    }
    program.update(event);
    proof {
        lemma_program_step(service_id@ * 100_000 + k@, Seq::empty(), fresh, *event, program);
        assert(Seq::<EitEvent>::empty().push(*event) =~= seq![*event]);
    }
    programs.push((k, program));
}

/// The timed events of the first `n` sections, in order.
pub open spec fn sections_events(s: Seq<Option<EpgSection>>, n: int) -> Seq<EitEvent>
    decreases n,
{
    if n <= 0 {
        Seq::empty()
    } else {
        sections_events(s, n - 1) + match s[n - 1] {
            Some(sec) => timed(sec.events@),
            None => Seq::empty(),
        }
    }
}

/// The timed events of a segment: those of the extended sections, then
/// those of the basic ones.
pub open spec fn segment_events(seg: EpgSegment) -> Seq<EitEvent> {
    sections_events(seg.extended_sections@, NUM_SECTIONS as int) + sections_events(seg.basic_sections@, NUM_SECTIONS as int)
}

/// The timed events of the first `n` segments, in order.
pub open spec fn segments_events(segs: Seq<EpgSegment>, n: int) -> Seq<EitEvent>
    decreases n,
{
    if n <= 0 {
        Seq::empty()
    } else {
        segments_events(segs, n - 1) + segment_events(segs[n - 1])
    }
}

/// The timed events of a day's unit.
pub open spec fn unit_events(u: EpgScheduleUnit) -> Seq<EitEvent> {
    segments_events(u.segments@, NUM_SEGMENTS as int)
}

/// The timed events of `n` days from the unit `first` on, around the ring.
pub open spec fn days_events(units: Seq<EpgScheduleUnit>, first: int, n: int) -> Seq<EitEvent>
    decreases n,
{
    if n <= 0 {
        Seq::empty()
    } else {
        days_events(units, first, n - 1) + unit_events(units[(first + n - 1) % (MAX_DAYS as int)])
    }
}

/// The unit of the day before the start.
pub open spec fn previous_day(start_index: int) -> int {
    if start_index > 0 {
        start_index - 1
    } else {
        MAX_DAYS - 1
    }
}

/// The timed events of the schedule in chronological order of days, from
/// the day before today on.
pub open spec fn schedule_events(units: Seq<EpgScheduleUnit>, start_index: int) -> Seq<EitEvent> {
    days_events(units, previous_day(start_index), MAX_DAYS as int)
}

impl EpgSection {
    /// Collects the events that have a start time and a duration into the
    /// programs of the service.
    pub fn collect_programs(
        &self,
        service_id: ServiceId,
        programs: &mut Vec<(Eid, EpgProgram)>,
        Ghost(before): Ghost<Seq<EitEvent>>,
    )
        requires
            service_id@ * 100_000 + 65_535 <= u64::MAX,
            collected(service_id@ as int, before, old(programs)@),
        ensures
            collected(service_id@ as int, before + timed(self.events@), final(programs)@),
    {
        let ghost evs = self.events@;
        let mut i: usize = 0;
        proof {
            assert(evs.take(0) =~= Seq::<EitEvent>::empty());
            assert(before + timed(evs.take(0)) =~= before);
        }
        while i < self.events.len()
            invariant
                i <= evs.len(),
                evs == self.events@,
                service_id@ * 100_000 + 65_535 <= u64::MAX,
                collected(service_id@ as int, before + timed(evs.take(i as int)), programs@),
            decreases evs.len() - i,
        {
            let event = &self.events[i];
            proof {
                assert(evs.take(i + 1).drop_last() =~= evs.take(i as int));
                assert(evs.take(i + 1).last() == evs[i as int]);
            }
            if event.start_time.is_some() && event.duration.is_some() {
                let ghost ps = programs@;
                collect_event(programs, service_id, event);
                proof {
                    lemma_collected_step(service_id@ as int, before + timed(evs.take(i as int)), ps, *event, programs@);
                    assert((before + timed(evs.take(i as int))).push(*event) =~= before + timed(evs.take(i + 1)));
                }
            }
            i = i + 1;
        }
        proof {
            assert(evs.take(evs.len() as int) =~= evs);
        }
    }
}

/// Collects the events of the first sections into the programs.
fn collect_sections(
    sections: &Vec<Option<EpgSection>>,
    service_id: ServiceId,
    programs: &mut Vec<(Eid, EpgProgram)>,
    Ghost(before): Ghost<Seq<EitEvent>>,
)
    requires
        service_id@ * 100_000 + 65_535 <= u64::MAX,
        collected(service_id@ as int, before, old(programs)@),
    ensures
        collected(service_id@ as int, before + sections_events(sections@, sections@.len() as int), final(programs)@),
{
    let mut i: usize = 0;
    assert(before + sections_events(sections@, 0) =~= before);
    while i < sections.len()
        invariant
            i <= sections@.len(),
            service_id@ * 100_000 + 65_535 <= u64::MAX,
            collected(service_id@ as int, before + sections_events(sections@, i as int), programs@),
        decreases sections@.len() - i,
    {
        match &sections[i] {
            Some(section) => {
                section.collect_programs(service_id, programs, Ghost(before + sections_events(sections@, i as int)));
                assert(before + sections_events(sections@, i + 1) =~= before + sections_events(sections@, i as int) + timed(section.events@));
            },
            None => {
                assert(before + sections_events(sections@, i + 1) =~= before + sections_events(sections@, i as int));
            },
        }
        i = i + 1;
    }
}

impl EpgSegment {
    /// Collects the events of the extended sections, then those of the
    /// basic sections, into the programs.
    pub fn collect_programs(
        &self,
        service_id: ServiceId,
        programs: &mut Vec<(Eid, EpgProgram)>,
        Ghost(before): Ghost<Seq<EitEvent>>,
    )
        requires
            self.wf(),
            service_id@ * 100_000 + 65_535 <= u64::MAX,
            collected(service_id@ as int, before, old(programs)@),
        ensures
            collected(service_id@ as int, before + segment_events(*self), final(programs)@),
    {
        collect_sections(&self.extended_sections, service_id, programs, Ghost(before));
        let ghost mid = before + sections_events(self.extended_sections@, NUM_SECTIONS as int);
        collect_sections(&self.basic_sections, service_id, programs, Ghost(mid));
        assert(mid + sections_events(self.basic_sections@, NUM_SECTIONS as int) =~= before + segment_events(*self));
    }
}

impl EpgScheduleUnit {
    /// Collects the events of the segments, in order, into the programs.
    pub fn collect_programs(
        &self,
        service_id: ServiceId,
        programs: &mut Vec<(Eid, EpgProgram)>,
        Ghost(before): Ghost<Seq<EitEvent>>,
    )
        requires
            self.wf(),
            service_id@ * 100_000 + 65_535 <= u64::MAX,
            collected(service_id@ as int, before, old(programs)@),
        ensures
            collected(service_id@ as int, before + unit_events(*self), final(programs)@),
    {
        let mut k: usize = 0;
        assert(before + segments_events(self.segments@, 0) =~= before);
        while k < self.segments.len()
            invariant
                k <= NUM_SEGMENTS,
                self.wf(),
                service_id@ * 100_000 + 65_535 <= u64::MAX,
                collected(service_id@ as int, before + segments_events(self.segments@, k as int), programs@),
            decreases NUM_SEGMENTS - k,
        {
            assert(self.segments@[k as int].wf());
            self.segments[k].collect_programs(service_id, programs, Ghost(before + segments_events(self.segments@, k as int)));
            assert(before + segments_events(self.segments@, k + 1) =~= before + segments_events(self.segments@, k as int)
                + segment_events(self.segments@[k as int]));
            k = k + 1;
        }
    }
}

impl EpgSchedule {
    /// Makes the programs of the service from the timed events of all days,
    /// from the day before today on, in chronological order.
    pub fn collect_programs(&mut self)
        requires
            old(self).wf(),
            old(self).service_id@ * 100_000 + 65_535 <= u64::MAX,
        ensures
            final(self).wf(),
            final(self).units@ == old(self).units@,
            final(self).start_index == old(self).start_index,
            final(self).service_id == old(self).service_id,
            collected(old(self).service_id@ as int, schedule_events(old(self).units@, old(self).start_index as int), final(self).programs@),
    {
        let service_id = self.service_id;
        let start_index = if self.start_index > 0 {
            self.start_index - 1
        } else {
            MAX_DAYS - 1
        };
        let mut programs: Vec<(Eid, EpgProgram)> = Vec::new();
        let mut n: usize = 0;
        while n < MAX_DAYS
            invariant
                n <= MAX_DAYS,
                self.wf(),
                service_id == self.service_id,
                start_index == previous_day(self.start_index as int),
                service_id@ * 100_000 + 65_535 <= u64::MAX,
                collected(service_id@ as int, days_events(self.units@, start_index as int, n as int), programs@),
            decreases MAX_DAYS - n,
        {
            let i = (start_index + n) % MAX_DAYS;
            assert(self.units@[i as int].wf());
            self.units[i].collect_programs(service_id, &mut programs, Ghost(days_events(self.units@, start_index as int, n as int)));
            n = n + 1;
        }
        self.programs = programs;
    }
}

/// Collected programs hold each event identifier once, and each program is
/// identified by its service and its event.
pub proof fn lemma_collected_programs(service_id: int, evs: Seq<EitEvent>, ps: Seq<(Eid, EpgProgram)>)
    requires
        collected(service_id, evs, ps),
    ensures
        forall|i: int, j: int| 0 <= i < j < ps.len() ==> ps[i].0 != ps[j].0,
        forall|i: int| 0 <= i < ps.len() ==> (#[trigger] ps[i]).1.id@ == service_id * 100_000 + ps[i].0@,
{
    lemma_key_order_distinct(evs);
    assert forall|i: int, j: int| 0 <= i < j < ps.len() implies ps[i].0 != ps[j].0 by {
        assert(ps[i].0 == key_order(evs)[i]);
        assert(ps[j].0 == key_order(evs)[j]);
    }
}

} // verus!
