use vstd::prelude::*;
use vstd::multiset::Multiset;
use crate::calendar::Date;
use crate::ledger::Config;
use crate::model::{MAX_ACTIVITY_CHARS, Project, ProjectView, TimeRecordView, same_text};

verus! {

broadcast use {vstd::seq_lib::group_seq_properties, vstd::seq_lib::group_to_multiset_ensures};

/// Code of the internal project, which needs no stored project.
pub const INTERNAL_CODE: &'static str = "INT";

/// Code of vacation days, which needs no stored project.
pub const VACATION_CODE: &'static str = "Vacation";

/// Most characters a project code may hold.
pub const MAX_CODE_CHARS: usize = 5;

pub open spec fn is_special_code(code: Seq<char>) -> bool {
    code == INTERNAL_CODE@ || code == VACATION_CODE@
}

/// `i` is the first position of a project with the code `code`.
pub open spec fn is_first_project(projects: Seq<ProjectView>, code: Seq<char>, i: int) -> bool {
    &&& 0 <= i < projects.len()
    &&& projects[i].code == code
    &&& forall|j: int| 0 <= j < i ==> #[trigger] projects[j].code != code
}

/// The stored project with the code `code`, the first where several share
/// it; the internal and vacation codes give a project with allocation 0.
pub fn find_project(projects: &[Project], code: &str) -> (r: Option<Project>)
    ensures
        is_special_code(code@) ==> (r matches Some(q) && q@ == (ProjectView {
            code: code@,
            allocation: 0,
        })),
        !is_special_code(code@) ==> (r is None <==> forall|i: int|
            0 <= i < projects@.len() ==> (#[trigger] projects@[i]).code@ != code@),
        !is_special_code(code@) ==> (r matches Some(q) ==> exists|i: int|
            is_first_project(projects@.map_values(|p: Project| p@), code@, i) && q@ == (
            #[trigger] projects@[i])@),
{
    let ghost pv = projects@.map_values(|p: Project| p@);
    if same_text(code, INTERNAL_CODE) {
        return Some(Project { code: INTERNAL_CODE.to_string(), allocation: 0 });
    }
    if same_text(code, VACATION_CODE) {
        return Some(Project { code: VACATION_CODE.to_string(), allocation: 0 });
    }
    let mut i: usize = 0;
    while i < projects.len()
        invariant
            i <= projects@.len(),
            pv == projects@.map_values(|p: Project| p@),
            !is_special_code(code@),
            forall|j: int| 0 <= j < i ==> #[trigger] pv[j].code != code@,
            forall|j: int| 0 <= j < i ==> (#[trigger] projects@[j]).code@ != code@,
        decreases projects.len() - i,
    {
        if same_text(projects[i].code.as_str(), code) {
            let found = projects[i].clone();
            assert(is_first_project(pv, code@, i as int));
            return Some(found);
        }
        i += 1;
    }
    None
}

/// The codes offered when booking work: every stored code, then the
/// internal and vacation codes. `None` where no project is stored.
pub fn selectable_codes(projects: &[Project]) -> (r: Option<Vec<String>>)
    ensures
        projects@.len() == 0 <==> r is None,
        r matches Some(v) ==> v@.map_values(|s: String| s@) == projects@.map_values(
            |p: Project| p.code@,
        ).push(INTERNAL_CODE@).push(VACATION_CODE@),
{
    if projects.len() == 0 {
        return None;
    }
    let mut codes: Vec<String> = Vec::new();
    let mut i: usize = 0;
    while i < projects.len()
        invariant
            i <= projects@.len(),
            codes@.len() == i,
            forall|k: int| 0 <= k < i ==> (#[trigger] codes@[k])@ == projects@[k].code@,
        decreases projects.len() - i,
    {
        codes.push(projects[i].code.clone());
        i += 1;
    }
    let ghost listed = codes@;
    codes.push(INTERNAL_CODE.to_string());
    codes.push(VACATION_CODE.to_string());
    assert(codes@.map_values(|s: String| s@) =~= projects@.map_values(|p: Project| p.code@).push(
        INTERNAL_CODE@,
    ).push(VACATION_CODE@)) by {
        assert(listed.map_values(|s: String| s@) =~= projects@.map_values(|p: Project| p.code@));
    }
    Some(codes)
}

/// An activity description is at most 500 characters long.
pub fn valid_activity(activity: &str) -> (r: bool)
    ensures
        r == (activity@.len() <= MAX_ACTIVITY_CHARS),
{
    activity.unicode_len() <= MAX_ACTIVITY_CHARS
}

/// A project code is at most 5 characters long.
pub fn valid_project_code(code: &str) -> (r: bool)
    ensures
        r == (code@.len() <= MAX_CODE_CHARS),
{
    code.unicode_len() <= MAX_CODE_CHARS
}

/// How hours offered for booking compare with what remains of the day.
#[derive(Debug, PartialEq, Eq, Structural)]
pub enum HoursCheck {
    /// Nothing remains to be booked on the day.
    NoneLeft,
    /// Zero hours were offered.
    Zero,
    /// More than remains was offered.
    TooMany,
    /// The hours may be booked.
    Accepted,
}

/// Judges `assigned` seconds offered for booking on a day with `remaining` seconds left.
pub fn check_assigned_hours(remaining: i64, assigned: i64) -> (r: HoursCheck)
    ensures
        remaining == 0 ==> r == HoursCheck::NoneLeft,
        remaining != 0 && assigned == 0 ==> r == HoursCheck::Zero,
        remaining != 0 && assigned != 0 && assigned > remaining ==> r == HoursCheck::TooMany,
        remaining != 0 && assigned != 0 && assigned <= remaining ==> r == HoursCheck::Accepted,
{
    if remaining == 0 {
        HoursCheck::NoneLeft
    } else if assigned == 0 {
        HoursCheck::Zero
    } else if assigned <= remaining {
        HoursCheck::Accepted
    } else {
        HoursCheck::TooMany
    }
}

/// `s` lists later dates first.
pub open spec fn newest_first(s: Seq<Date>) -> bool {
    forall|a: int, b: int| 0 <= a < b < s.len() ==> !(#[trigger] s[b]).is_after(#[trigger] s[a])
}

pub open spec fn record_dates(rs: Seq<TimeRecordView>) -> Seq<Date> {
    rs.map_values(|r: TimeRecordView| r.date)
}

/// The dates of all stored records, latest first.
pub fn dates_newest_first(config: &Config) -> (r: Vec<Date>)
    ensures
        newest_first(r@),
        r@.to_multiset() == record_dates(config.records()).to_multiset(),
{
    let ghost ds = record_dates(config.records());
    let mut dates: Vec<Date> = Vec::new();
    let mut i: usize = 0;
    while i < config.time_records.len()
        invariant
            ds == record_dates(config.records()),
            i <= ds.len(),
            newest_first(dates@),
            dates@.to_multiset() == ds.subrange(0, i as int).to_multiset(),
        decreases config.time_records.len() - i,
    {
        let d = config.time_records[i].date;
        let mut p: usize = 0;
        while p < dates.len() && !d.after(&dates[p])
            invariant
                p <= dates@.len(),
                forall|k: int| 0 <= k < p ==> !d.is_after(#[trigger] dates@[k]),
            decreases dates.len() - p,
        {
            p += 1;
        }
        let ghost before = dates@;
        dates.insert(p, d);
        proof {
            assert forall|a: int, b: int| 0 <= a < b < dates@.len() implies !(#[trigger] dates@[b]).is_after(
                #[trigger] dates@[a],
            ) by {
                if b == p {
                    assert(!d.is_after(before[a]));
                } else if a == p {
                    assert(d.is_after(before[p as int]));
                    assert(!before[b - 1].is_after(before[p as int]));
                } else if a < p && b > p {
                    assert(!before[b - 1].is_after(before[a]));
                } else if b < p {
                    assert(!before[b].is_after(before[a]));
                } else {
                    assert(!before[b - 1].is_after(before[a - 1]));
                }
            }
            vstd::seq_lib::to_multiset_insert(before, p as int, d);
            assert(ds.subrange(0, i as int + 1) =~= ds.subrange(0, i as int).push(d));
        }
        i += 1;
    }
    assert(ds.subrange(0, i as int) =~= ds);
    dates
}

} // verus!
