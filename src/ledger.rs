use vstd::prelude::*;
use crate::calendar::{Date, TimeOfDay};
use crate::model::{
    Project, ProjectEntry, ProjectEntryView, ProjectView, TimeRecord, TimeRecordView, projects_view,
    records_view, same_text,
};

verus! {

broadcast use vstd::seq_lib::group_seq_properties;

/// A record or entry that an edit names is not in the ledger.
#[derive(Debug, PartialEq, Eq, Structural)]
pub enum LedgerError {
    RecordNotFound,
    EntryNotFound,
}

/// The ledger: all workday records and projects, and the two files that
/// hold them. Each operation changes the collections in memory and tells
/// the caller whether the snapshot has to be written again.
pub struct Config {
    pub time_records: Vec<TimeRecord>,
    pub project_records: Vec<Project>,
    pub t_path: String,
    pub p_path: String,
}

pub open spec fn has_date(rs: Seq<TimeRecordView>, date: Date) -> bool {
    exists|i: int| 0 <= i < rs.len() && #[trigger] rs[i].date == date
}

/// At most one record per date.
pub open spec fn dates_unique(rs: Seq<TimeRecordView>) -> bool {
    forall|a: int, b: int| 0 <= a < b < rs.len() ==> #[trigger] rs[a].date != #[trigger] rs[b].date
}

/// `i` is the first position of a record for `date`.
pub open spec fn is_first_with_date(rs: Seq<TimeRecordView>, date: Date, i: int) -> bool {
    &&& 0 <= i < rs.len()
    &&& rs[i].date == date
    &&& forall|j: int| 0 <= j < i ==> #[trigger] rs[j].date != date
}

/// `i` is the first position of an entry for the project `code`.
pub open spec fn is_first_with_code(es: Seq<ProjectEntryView>, code: Seq<char>, i: int) -> bool {
    &&& 0 <= i < es.len()
    &&& es[i].project.code == code
    &&& forall|j: int| 0 <= j < i ==> #[trigger] es[j].project.code != code
}

pub open spec fn has_code(es: Seq<ProjectEntryView>, code: Seq<char>) -> bool {
    exists|i: int| 0 <= i < es.len() && #[trigger] es[i].project.code == code
}

impl TimeRecordView {
    pub open spec fn with_entry(self, e: ProjectEntryView) -> TimeRecordView {
        TimeRecordView { entries: self.entries.push(e), ..self }
    }

    /// The record with hours and activity of entry `j` replaced.
    pub open spec fn with_edited_entry(self, j: int, hours: i64, activity: Seq<char>) -> TimeRecordView {
        TimeRecordView {
            entries: self.entries.update(j, ProjectEntryView { hours, activity, ..self.entries[j] }),
            ..self
        }
    }

    /// A fresh record for a day, with no project entries.
    pub open spec fn fresh(date: Date, start: TimeOfDay, end: TimeOfDay, pause: i64) -> TimeRecordView {
        TimeRecordView { date, start_time: start, end_time: end, pause, entries: Seq::empty() }
    }
}

proof fn lemma_first_code_unique(es: Seq<ProjectEntryView>, code: Seq<char>, j: int)
    requires
        is_first_with_code(es, code, j),
    ensures
        forall|i: int| #[trigger] is_first_with_code(es, code, i) ==> i == j,
{
    assert forall|i: int| #[trigger] is_first_with_code(es, code, i) implies i == j by {
        if i < j {
            assert(es[i].project.code != code);
        } else if i > j {
            assert(es[j].project.code != code);
        }
    }
}

proof fn lemma_first_date_unique(rs: Seq<TimeRecordView>, date: Date, k: int)
    requires
        is_first_with_date(rs, date, k),
    ensures
        forall|i: int| #[trigger] is_first_with_date(rs, date, i) ==> i == k,
{
    assert forall|i: int| #[trigger] is_first_with_date(rs, date, i) implies i == k by {
        if i < k {
            assert(rs[i].date != date);
        } else if i > k {
            assert(rs[k].date != date);
        }
    }
}

proof fn lemma_filter_all<A>(s: Seq<A>, keep: spec_fn(A) -> bool)
    requires
        forall|i: int| 0 <= i < s.len() ==> keep(#[trigger] s[i]),
    ensures
        s.filter(keep) == s,
    decreases s.len(),
{
    if s.len() > 0 {
        lemma_filter_all(s.drop_last(), keep);
        s.drop_last().lemma_filter_push(s.last(), keep);
        assert(s.drop_last().push(s.last()) =~= s);
    } else {
        assert(s.filter(keep) =~= s);
    }
}

impl Config {
    pub open spec fn records(&self) -> Seq<TimeRecordView> {
        records_view(self.time_records@)
    }

    pub open spec fn projects(&self) -> Seq<ProjectView> {
        projects_view(self.project_records@)
    }

    /// The ledger for collections already loaded from the files at `t_path`
    /// (workday records) and `p_path` (projects).
    pub fn build(
        time_records: Vec<TimeRecord>,
        project_records: Vec<Project>,
        t_path: String,
        p_path: String,
    ) -> (r: Config)
        ensures
            r.time_records == time_records,
            r.project_records == project_records,
            r.t_path@ == t_path@,
            r.p_path@ == p_path@,
    {
        Config { time_records, project_records, t_path, p_path }
    }

    /// Position of the first record for `date`.
    pub fn position_of_date(&self, date: Date) -> (r: Option<usize>)
        ensures
            r is None <==> !has_date(self.records(), date),
            r matches Some(i) ==> is_first_with_date(self.records(), date, i as int),
    {
        let mut i: usize = 0;
        while i < self.time_records.len()
            invariant
                i <= self.time_records.len(),
                forall|j: int| 0 <= j < i ==> #[trigger] self.records()[j].date != date,
            decreases self.time_records.len() - i,
        {
            if self.time_records[i].date == date {
                assert(self.records()[i as int].date == date);
                return Some(i);
            }
            i += 1;
        }
        None
    }

    /// A copy of the first record for `date`.
    pub fn find_time_record(&self, date: Date) -> (r: Option<TimeRecord>)
        ensures
            r is None <==> !has_date(self.records(), date),
            r matches Some(t) ==> exists|i: int|
                is_first_with_date(self.records(), date, i) && t@ == #[trigger] self.records()[i],
    {
        match self.position_of_date(date) {
            Some(i) => {
                let t = self.time_records[i].clone();
                assert(t@ == self.records()[i as int]);
                Some(t)
            },
            None => None,
        }
    }

    /// Appends a copy of `new_record`; date uniqueness is the caller's concern.
    pub fn add_time_record(&mut self, new_record: &TimeRecord)
        ensures
            final(self).records() == old(self).records().push(new_record@),
            final(self).project_records == old(self).project_records,
            final(self).t_path == old(self).t_path,
            final(self).p_path == old(self).p_path,
    {
        let copy = new_record.clone();
        self.time_records.push(copy);
        assert(self.records() =~= old(self).records().push(new_record@));
    }

    /// Records a workday: replaces the first record for `date` by a fresh
    /// one (its project entries are dropped), or appends a fresh record
    /// where none exists. Returns whether a record was replaced.
    pub fn record_workday(
        &mut self,
        date: Date,
        start_time: TimeOfDay,
        end_time: TimeOfDay,
        pause_minutes: i64,
    ) -> (replaced: bool)
        ensures
            replaced == has_date(old(self).records(), date),
            replaced ==> final(self).records().len() == old(self).records().len() && forall|i: int|
                0 <= i < old(self).records().len() ==> #[trigger] final(self).records()[i] == if is_first_with_date(
                    old(self).records(),
                    date,
                    i,
                ) {
                    TimeRecordView::fresh(date, start_time, end_time, pause_minutes)
                } else {
                    old(self).records()[i]
                },
            !replaced ==> final(self).records() == old(self).records().push(
                TimeRecordView::fresh(date, start_time, end_time, pause_minutes),
            ),
            dates_unique(old(self).records()) ==> dates_unique(final(self).records()),
            final(self).project_records == old(self).project_records,
            final(self).t_path == old(self).t_path,
            final(self).p_path == old(self).p_path,
    {
        let fresh = TimeRecord {
            date,
            start_time,
            end_time,
            pause_minutes,
            project_entries: Vec::new(),
        };
        assert(fresh@.entries =~= Seq::<ProjectEntryView>::empty());
        assert(fresh@ == TimeRecordView::fresh(date, start_time, end_time, pause_minutes));
        match self.position_of_date(date) {
            Some(k) => {
                self.time_records.set(k, fresh);
                assert forall|i: int| 0 <= i < old(self).records().len() implies #[trigger] self.records()[i]
                    == if is_first_with_date(old(self).records(), date, i) {
                    TimeRecordView::fresh(date, start_time, end_time, pause_minutes)
                } else {
                    old(self).records()[i]
                } by {
                    if i != k && is_first_with_date(old(self).records(), date, i) {
                        if i < k {
                            assert(old(self).records()[i].date != date);
                        } else {
                            assert(old(self).records()[k as int].date != date);
                        }
                    }
                }
                assert forall|a: int, b: int| 0 <= a < b < self.records().len() implies
                    #[trigger] self.records()[a].date == old(self).records()[a].date
                    && #[trigger] self.records()[b].date == old(self).records()[b].date by {
                    if a == k {
                        assert(self.records()[a].date == date);
                    }
                    if b == k {
                        assert(self.records()[b].date == date);
                    }
                }
                true
            },
            None => {
                self.time_records.push(fresh);
                assert forall|a: int| 0 <= a < old(self).records().len() implies #[trigger] old(
                    self,
                ).records()[a].date != date by {
                    assert(!has_date(old(self).records(), date));
                }
                assert(self.records() =~= old(self).records().push(
                    TimeRecordView::fresh(date, start_time, end_time, pause_minutes),
                ));
                false
            },
        }
    }

    /// Appends `new_project`; code uniqueness is checked by the caller with
    /// `has_project`.
    pub fn add_project(&mut self, new_project: Project)
        ensures
            final(self).projects() == old(self).projects().push(new_project@),
            final(self).time_records == old(self).time_records,
            final(self).t_path == old(self).t_path,
            final(self).p_path == old(self).p_path,
    {
        self.project_records.push(new_project);
        assert(self.projects() =~= old(self).projects().push(new_project@));
    }

    /// Whether a stored project has the code `code`.
    pub fn has_project(&self, code: &str) -> (r: bool)
        ensures
            r == exists|i: int| 0 <= i < self.projects().len() && #[trigger] self.projects()[i].code == code@,
    {
        let mut i: usize = 0;
        while i < self.project_records.len()
            invariant
                i <= self.project_records.len(),
                forall|j: int| 0 <= j < i ==> #[trigger] self.projects()[j].code != code@,
            decreases self.project_records.len() - i,
        {
            if same_text(self.project_records[i].code.as_str(), code) {
                assert(self.projects()[i as int].code == code@);
                return true;
            }
            i += 1;
        }
        false
    }

    /// Appends `new_project_entry` to the first record for `date`. Where no
    /// record has that date nothing changes and the entry is dropped. Returns
    /// whether an entry was added.
    pub fn add_project_entry(&mut self, date: Date, new_project_entry: ProjectEntry) -> (added: bool)
        ensures
            added == has_date(old(self).records(), date),
            final(self).records().len() == old(self).records().len(),
            forall|i: int|
                0 <= i < old(self).records().len() ==> #[trigger] final(self).records()[i] == if is_first_with_date(
                    old(self).records(),
                    date,
                    i,
                ) {
                    old(self).records()[i].with_entry(new_project_entry@)
                } else {
                    old(self).records()[i]
                },
            !added ==> final(self).records() == old(self).records(),
            final(self).project_records == old(self).project_records,
            final(self).t_path == old(self).t_path,
            final(self).p_path == old(self).p_path,
    {
        match self.position_of_date(date) {
            Some(k) => {
                let mut record = self.time_records[k].clone();
                record.project_entries.push(new_project_entry);
                assert(record@ == old(self).records()[k as int].with_entry(new_project_entry@)) by {
                    assert(record@.entries =~= old(self).records()[k as int].entries.push(
                        new_project_entry@,
                    ));
                }
                self.time_records.set(k, record);
                assert forall|i: int| 0 <= i < old(self).records().len() implies #[trigger] self.records()[i]
                    == if is_first_with_date(old(self).records(), date, i) {
                    old(self).records()[i].with_entry(new_project_entry@)
                } else {
                    old(self).records()[i]
                } by {
                    if i != k && is_first_with_date(old(self).records(), date, i) {
                        if i < k {
                            assert(old(self).records()[i].date != date);
                        } else {
                            assert(old(self).records()[k as int].date != date);
                        }
                    }
                }
                true
            },
            None => {
                assert forall|i: int| 0 <= i < old(self).records().len() implies !is_first_with_date(
                    old(self).records(),
                    date,
                    i,
                ) by {
                    if is_first_with_date(old(self).records(), date, i) {
                        assert(old(self).records()[i].date == date);
                    }
                }
                false
            },
        }
    }

    /// Removes every project with the code `to_delete`. Where no project is
    /// stored nothing changes. Returns whether the projects have to be saved
    /// (exactly when the list was not empty).
    pub fn delete_project(&mut self, to_delete: String) -> (changed: bool)
        ensures
            changed == (old(self).projects().len() > 0),
            final(self).projects() == old(self).projects().filter(
                |p: ProjectView| p.code != to_delete@,
            ),
            (forall|i: int|
                0 <= i < old(self).projects().len() ==> #[trigger] old(self).projects()[i].code
                    != to_delete@) ==> final(self).projects() == old(self).projects(),
            final(self).time_records == old(self).time_records,
            final(self).t_path == old(self).t_path,
            final(self).p_path == old(self).p_path,
    {
        let ghost keep = |p: ProjectView| p.code != to_delete@;
        if self.project_records.len() == 0 {
            assert(old(self).projects().filter(keep) =~= old(self).projects());
            return false;
        }
        let mut kept: Vec<Project> = Vec::new();
        let mut i: usize = 0;
        while i < self.project_records.len()
            invariant
                i <= self.project_records.len(),
                self.project_records == old(self).project_records,
                keep == (|p: ProjectView| p.code != to_delete@),
                projects_view(kept@) == self.projects().subrange(0, i as int).filter(keep),
            decreases self.project_records.len() - i,
        {
            proof {
                let pre = self.projects().subrange(0, i as int);
                assert(self.projects().subrange(0, i as int + 1) =~= pre.push(self.projects()[i as int]));
                pre.lemma_filter_push(self.projects()[i as int], keep);
            }
            if !(self.project_records[i].code == to_delete) {
                let ghost before = kept@;
                kept.push(self.project_records[i].clone());
                assert(projects_view(kept@) =~= projects_view(before).push(self.projects()[i as int]));
            }
            i += 1;
        }
        assert(self.projects().subrange(0, i as int) =~= self.projects());
        self.project_records = kept;
        proof {
            if forall|i: int|
                0 <= i < old(self).projects().len() ==> #[trigger] old(self).projects()[i].code
                    != to_delete@ {
                lemma_filter_all(old(self).projects(), keep);
            }
        }
        true
    }

    /// Removes every record for `date`.
    pub fn delete_time_record(&mut self, date: Date)
        ensures
            final(self).records() == old(self).records().filter(|r: TimeRecordView| r.date != date),
            final(self).project_records == old(self).project_records,
            final(self).t_path == old(self).t_path,
            final(self).p_path == old(self).p_path,
    {
        let ghost keep = |r: TimeRecordView| r.date != date;
        let mut kept: Vec<TimeRecord> = Vec::new();
        let mut i: usize = 0;
        while i < self.time_records.len()
            invariant
                i <= self.time_records.len(),
                self.time_records == old(self).time_records,
                keep == (|r: TimeRecordView| r.date != date),
                records_view(kept@) == self.records().subrange(0, i as int).filter(keep),
            decreases self.time_records.len() - i,
        {
            proof {
                let pre = self.records().subrange(0, i as int);
                assert(self.records().subrange(0, i as int + 1) =~= pre.push(self.records()[i as int]));
                pre.lemma_filter_push(self.records()[i as int], keep);
            }
            if self.time_records[i].date != date {
                let ghost before = kept@;
                kept.push(self.time_records[i].clone());
                assert(records_view(kept@) =~= records_view(before).push(self.records()[i as int]));
            }
            i += 1;
        }
        assert(self.records().subrange(0, i as int) =~= self.records());
        self.time_records = kept;
    }

    /// Sets hours and activity of the first entry for the project `code` in
    /// the first record for `date`.
    pub fn edit_project_entry(&mut self, date: Date, code: &str, hours: i64, activity: String) -> (r:
        Result<(), LedgerError>)
        ensures
            !has_date(old(self).records(), date) ==> r == Err::<(), LedgerError>(
                LedgerError::RecordNotFound,
            ),
            forall|k: int|
                #[trigger] is_first_with_date(old(self).records(), date, k) && !has_code(
                    old(self).records()[k].entries,
                    code@,
                ) ==> r == Err::<(), LedgerError>(LedgerError::EntryNotFound),
            forall|k: int, j: int|
                is_first_with_date(old(self).records(), date, k) && #[trigger] is_first_with_code(
                    old(self).records()[k].entries,
                    code@,
                    j,
                ) ==> r is Ok && final(self).records() == old(self).records().update(
                    k,
                    old(self).records()[k].with_edited_entry(j, hours, activity@),
                ),
            r is Err ==> final(self).records() == old(self).records(),
            final(self).project_records == old(self).project_records,
            final(self).t_path == old(self).t_path,
            final(self).p_path == old(self).p_path,
    {
        let k = match self.position_of_date(date) {
            Some(k) => k,
            None => return Err(LedgerError::RecordNotFound),
        };
        proof { lemma_first_date_unique(self.records(), date, k as int); }
        let ghost rec = self.records()[k as int];
        let mut record = self.time_records[k].clone();
        let mut j: usize = 0;
        while j < record.project_entries.len()
            invariant
                j <= record.project_entries.len(),
                record@ == rec,
                self.time_records == old(self).time_records,
                self.project_records == old(self).project_records,
                self.t_path == old(self).t_path,
                self.p_path == old(self).p_path,
                k < self.time_records.len(),
                rec == old(self).records()[k as int],
                is_first_with_date(old(self).records(), date, k as int),
                forall|i: int| #[trigger] is_first_with_date(old(self).records(), date, i) ==> i == k,
                forall|m: int| 0 <= m < j ==> #[trigger] rec.entries[m].project.code != code@,
            decreases record.project_entries.len() - j,
        {
            if same_text(record.project_entries[j].project_name.code.as_str(), code) {
                proof {
                    assert(rec.entries[j as int].project.code == code@);
                    lemma_first_code_unique(rec.entries, code@, j as int);
                }
                let ghost old_entry = rec.entries[j as int];
                let mut entry = record.project_entries[j].clone();
                entry.hours = hours;
                entry.activity = activity;
                record.project_entries.set(j, entry);
                assert(record@.entries =~= rec.entries.update(
                    j as int,
                    ProjectEntryView { hours, activity: activity@, ..old_entry },
                ));
                self.time_records.set(k, record);
                assert(self.records() =~= old(self).records().update(
                    k as int,
                    rec.with_edited_entry(j as int, hours, activity@),
                ));
                return Ok(());
            }
            j += 1;
        }
        Err(LedgerError::EntryNotFound)
    }
}

} // verus!
