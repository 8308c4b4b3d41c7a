use vstd::prelude::*;
use crate::calendar::{Date, TimeOfDay};

verus! {

/// Seconds in a quarter hour, the unit to which worked time is rounded.
pub const QUARTER: i64 = 900;

/// Most characters an activity description may hold.
pub const MAX_ACTIVITY_CHARS: usize = 500;

pub open spec fn fits_i64(x: int) -> bool {
    i64::MIN <= x <= i64::MAX
}

pub open spec fn abs(x: int) -> int {
    if x < 0 { -x } else { x }
}

/// A non-negative `n` rounded to the nearest multiple of 900, halves up.
pub open spec fn round_up_half(n: int) -> int {
    if n % 900 >= 450 {
        (n / 900 + 1) * 900
    } else {
        (n / 900) * 900
    }
}

/// `h` rounded to the nearest multiple of 900, halves away from zero.
pub open spec fn round_quarter_spec(h: int) -> int {
    if h < 0 {
        -round_up_half(-h)
    } else {
        round_up_half(h)
    }
}

/// Whether two strings hold the same characters.
pub fn same_text(a: &str, b: &str) -> (r: bool)
    ensures
        r == (a@ == b@),
{
    let n = a.unicode_len();
    if n != b.unicode_len() {
        return false;
    }
    let mut i: usize = 0;
    while i < n
        invariant
            n == a@.len(),
            n == b@.len(),
            i <= n,
            forall|k: int| 0 <= k < i ==> a@[k] == b@[k],
        decreases n - i,
    {
        if a.get_char(i) != b.get_char(i) {
            return false;
        }
        i += 1;
    }
    assert(a@ =~= b@);
    true
}

/// A project to which hours are booked. `allocation` is the share of a
/// full-time position, in thousandths.
pub struct Project {
    pub code: String,
    pub allocation: u32,
}

pub struct ProjectView {
    pub code: Seq<char>,
    pub allocation: u32,
}

/// Hours (in seconds) booked on one day to a copy of a project, with what was done.
pub struct ProjectEntry {
    pub project_name: Project,
    pub hours: i64,
    pub activity: String,
}

pub struct ProjectEntryView {
    pub project: ProjectView,
    pub hours: i64,
    pub activity: Seq<char>,
}

/// One workday: its date, start and end, the pause (in seconds) and the
/// hours booked to projects.
pub struct TimeRecord {
    pub date: Date,
    pub start_time: TimeOfDay,
    pub end_time: TimeOfDay,
    pub pause_minutes: i64,
    pub project_entries: Vec<ProjectEntry>,
}

pub struct TimeRecordView {
    pub date: Date,
    pub start_time: TimeOfDay,
    pub end_time: TimeOfDay,
    pub pause: i64,
    pub entries: Seq<ProjectEntryView>,
}

impl View for Project {
    type V = ProjectView;

    open spec fn view(&self) -> ProjectView {
        ProjectView { code: self.code@, allocation: self.allocation }
    }
}

impl View for ProjectEntry {
    type V = ProjectEntryView;

    open spec fn view(&self) -> ProjectEntryView {
        ProjectEntryView {
            project: self.project_name@,
            hours: self.hours,
            activity: self.activity@,
        }
    }
}

pub open spec fn projects_view(v: Seq<Project>) -> Seq<ProjectView> {
    v.map_values(|p: Project| p@)
}

pub open spec fn entries_view(v: Seq<ProjectEntry>) -> Seq<ProjectEntryView> {
    v.map_values(|e: ProjectEntry| e@)
}

impl View for TimeRecord {
    type V = TimeRecordView;

    open spec fn view(&self) -> TimeRecordView {
        TimeRecordView {
            date: self.date,
            start_time: self.start_time,
            end_time: self.end_time,
            pause: self.pause_minutes,
            entries: entries_view(self.project_entries@),
        }
    }
}

pub open spec fn records_view(v: Seq<TimeRecord>) -> Seq<TimeRecordView> {
    v.map_values(|r: TimeRecord| r@)
}

/// Sum of the hours of `entries`.
pub open spec fn sum_hours(entries: Seq<ProjectEntryView>) -> int
    decreases entries.len(),
{
    if entries.len() == 0 {
        0
    } else {
        sum_hours(entries.drop_last()) + entries.last().hours
    }
}

/// Sum of the magnitudes of the hours of `entries`.
pub open spec fn magnitude(entries: Seq<ProjectEntryView>) -> int
    decreases entries.len(),
{
    if entries.len() == 0 {
        0
    } else {
        magnitude(entries.drop_last()) + abs(entries.last().hours as int)
    }
}

impl TimeRecordView {
    /// Worked time from start to end in seconds, negative where end is before start.
    pub open spec fn duration(self) -> int {
        self.end_time.secs() - self.start_time.secs()
    }

    pub open spec fn net_hours(self) -> int {
        round_quarter_spec(if self.duration() < 0 { 0 } else { self.duration() }) - self.pause
    }

    pub open spec fn allocated_hours(self) -> int {
        sum_hours(self.entries)
    }

    pub open spec fn remaining_hours(self) -> int {
        self.net_hours() - self.allocated_hours()
    }

    /// Every hour figure of the day, and each partial sum, fits in `i64`.
    pub open spec fn hours_fit(self) -> bool {
        &&& magnitude(self.entries) <= i64::MAX
        &&& fits_i64(self.net_hours())
        &&& fits_i64(self.remaining_hours())
    }

    pub open spec fn has_entry_for(self, code: Seq<char>) -> bool {
        exists|i: int| 0 <= i < self.entries.len() && #[trigger] self.entries[i].project.code == code
    }
}

pub proof fn lemma_sum_within_magnitude(entries: Seq<ProjectEntryView>)
    ensures
        abs(sum_hours(entries)) <= magnitude(entries),
        magnitude(entries) >= 0,
    decreases entries.len(),
{
    if entries.len() > 0 {
        lemma_sum_within_magnitude(entries.drop_last());
    }
}

pub proof fn lemma_magnitude_prefix(entries: Seq<ProjectEntryView>, i: int)
    requires
        0 <= i <= entries.len(),
    ensures
        magnitude(entries.subrange(0, i)) <= magnitude(entries),
    decreases entries.len() - i,
{
    if i < entries.len() {
        lemma_magnitude_prefix(entries, i + 1);
        assert(entries.subrange(0, i + 1).drop_last() =~= entries.subrange(0, i));
    } else {
        assert(entries.subrange(0, i) =~= entries);
    }
}

impl Clone for Project {
    fn clone(&self) -> (r: Self)
        ensures
            r@ == self@,
    {
        Project { code: self.code.clone(), allocation: self.allocation }
    }
}

impl Clone for ProjectEntry {
    fn clone(&self) -> (r: Self)
        ensures
            r@ == self@,
    {
        ProjectEntry {
            project_name: self.project_name.clone(),
            hours: self.hours,
            activity: self.activity.clone(),
        }
    }
}

impl Clone for TimeRecord {
    fn clone(&self) -> (r: Self)
        ensures
            r@ == self@,
    {
        let mut entries: Vec<ProjectEntry> = Vec::new();
        let mut i: usize = 0;
        while i < self.project_entries.len()
            invariant
                i <= self.project_entries.len(),
                entries@.len() == i,
                forall|k: int| 0 <= k < i ==> #[trigger] entries@[k]@ == self.project_entries@[k]@,
            decreases self.project_entries.len() - i,
        {
            let e = self.project_entries[i].clone();
            entries.push(e);
            i += 1;
        }
        assert(entries_view(entries@) =~= entries_view(self.project_entries@));
        TimeRecord {
            date: self.date,
            start_time: self.start_time,
            end_time: self.end_time,
            pause_minutes: self.pause_minutes,
            project_entries: entries,
        }
    }
}

impl Project {
    /// Whether the project has an empty code.
    pub fn check_empty(&self) -> (r: bool)
        ensures
            r == (self.code@.len() == 0),
    {
        self.code.as_str().is_empty()
    }
}

impl TimeRecord {
    /// Rounds a number of seconds to the nearest quarter hour, halves away from zero.
    pub fn round_quarter(h: i64) -> (r: i64)
        ensures
            r == round_quarter_spec(h as int),
            r % QUARTER == 0,
            abs(r - h) <= QUARTER / 2,
    {
        proof { lemma_round_quarter(h as int); }
        let w: i128 = if h < 0 { -(h as i128) } else { h as i128 };
        let q: i128 = w / 900;
        let rounded: i128 = if w % 900 >= 450 { (q + 1) * 900 } else { q * 900 };
        let signed: i128 = if h < 0 { -rounded } else { rounded };
        signed as i64
    }

    /// Net hours of the day in seconds: the worked time (zero where end is
    /// before start) rounded to the quarter hour, less the pause.
    pub fn get_net_hours(&self) -> (r: i64)
        requires
            self.start_time.is_valid(),
            self.end_time.is_valid(),
            fits_i64(self@.net_hours()),
        ensures
            r == self@.net_hours(),
    {
        let duration = self.end_time.seconds_from_midnight() - self.start_time.seconds_from_midnight();
        let worked = if duration < 0 { 0 } else { duration };
        let rounded = Self::round_quarter(worked);
        proof { lemma_round_quarter(worked as int); }
        rounded - self.pause_minutes
    }

    /// Sum of the hours booked to projects on this day, in seconds.
    pub fn allocated_hours(&self) -> (r: i64)
        requires
            magnitude(self@.entries) <= i64::MAX,
        ensures
            r == self@.allocated_hours(),
    {
        let entries = &self.project_entries;
        let ghost ev = self@.entries;
        let mut total: i64 = 0;
        let mut i: usize = 0;
        while i < entries.len()
            invariant
                i <= entries.len(),
                ev == entries_view(entries@),
                magnitude(ev) <= i64::MAX,
                total == sum_hours(ev.subrange(0, i as int)),
            decreases entries.len() - i,
        {
            proof {
                let next = ev.subrange(0, i as int + 1);
                assert(next.drop_last() =~= ev.subrange(0, i as int));
                lemma_sum_within_magnitude(next);
                lemma_magnitude_prefix(ev, i as int + 1);
            }
            total = total + entries[i].hours;
            i += 1;
        }
        assert(ev.subrange(0, i as int) =~= ev);
        total
    }

    /// Net hours less allocated hours: what may still be booked, in seconds.
    pub fn remaining_hours(&self) -> (r: i64)
        requires
            self.start_time.is_valid(),
            self.end_time.is_valid(),
            self@.hours_fit(),
        ensures
            r == self@.remaining_hours(),
    {
        self.get_net_hours() - self.allocated_hours()
    }

    /// Whether start and end are valid times and every hour figure of the
    /// day fits in `i64`, so that net, allocated and remaining hours can be
    /// computed.
    pub fn hours_in_range(&self) -> (r: bool)
        ensures
            r == (self.start_time.is_valid() && self.end_time.is_valid() && self@.hours_fit()),
    {
        if !self.start_time.is_valid_time() || !self.end_time.is_valid_time() {
            return false;
        }
        let entries = &self.project_entries;
        let ghost ev = self@.entries;
        let mut mag: i128 = 0;
        let mut i: usize = 0;
        while i < entries.len()
            invariant
                i <= entries.len(),
                ev == entries_view(entries@),
                ev == self@.entries,
                mag == magnitude(ev.subrange(0, i as int)),
                mag <= i64::MAX,
            decreases entries.len() - i,
        {
            proof {
                assert(ev.subrange(0, i as int + 1).drop_last() =~= ev.subrange(0, i as int));
            }
            let h = entries[i].hours;
            mag = mag + if h < 0 { -(h as i128) } else { h as i128 };
            i += 1;
            assert(mag == magnitude(ev.subrange(0, i as int)));
            if mag > i64::MAX as i128 {
                proof {
                    lemma_magnitude_prefix(ev, i as int);
                }
                return false;
            }
        }
        assert(ev.subrange(0, i as int) =~= ev);
        let allocated = self.allocated_hours();
        let duration = self.end_time.seconds_from_midnight() - self.start_time.seconds_from_midnight();
        let worked = if duration < 0 { 0 } else { duration };
        let rounded = Self::round_quarter(worked);
        proof { lemma_round_quarter(worked as int); }
        let net: i128 = rounded as i128 - self.pause_minutes as i128;
        if net < i64::MIN as i128 || net > i64::MAX as i128 {
            return false;
        }
        let remaining: i128 = net - allocated as i128;
        remaining >= i64::MIN as i128 && remaining <= i64::MAX as i128
    }

    /// Whether an entry for the project `project_code` is already booked on this day.
    pub fn prohibit_duplicate_entry(&self, project_code: &str) -> (r: bool)
        ensures
            r == self@.has_entry_for(project_code@),
    {
        let mut i: usize = 0;
        while i < self.project_entries.len()
            invariant
                i <= self.project_entries.len(),
                forall|k: int| 0 <= k < i ==> #[trigger] self@.entries[k].project.code != project_code@,
            decreases self.project_entries.len() - i,
        {
            if same_text(self.project_entries[i].project_name.code.as_str(), project_code) {
                assert(self@.entries[i as int].project.code == project_code@);
                return true;
            }
            i += 1;
        }
        false
    }
}

proof fn lemma_round_quarter(h: int)
    ensures
        round_quarter_spec(h) % 900 == 0,
        abs(round_quarter_spec(h) - h) <= 450,
        0 <= h <= 86400 ==> 0 <= round_quarter_spec(h) <= 86400,
{
}

} // verus!
