use ptt_cli::calendar::{Date, TimeOfDay};
use ptt_cli::choice::{
    check_assigned_hours, dates_newest_first, find_project, selectable_codes, valid_activity,
    valid_project_code, HoursCheck,
};
use ptt_cli::codec::{is_blank, plan_load, LoadStep};
use ptt_cli::ledger::{Config, LedgerError};
use ptt_cli::model::{Project, ProjectEntry, TimeRecord};

fn date(y: i32, m: u32, d: u32) -> Date {
    Date::from_ymd_opt(y, m, d).unwrap()
}

fn time(h: u32, m: u32) -> TimeOfDay {
    TimeOfDay::from_hms_opt(h, m, 0).unwrap()
}

fn project(code: &str) -> Project {
    Project { code: String::from(code), allocation: 500 }
}

fn entry(code: &str, hours: i64) -> ProjectEntry {
    ProjectEntry { project_name: project(code), hours, activity: String::from("work") }
}

fn record(d: Date) -> TimeRecord {
    TimeRecord {
        date: d,
        start_time: time(8, 0),
        end_time: time(16, 0),
        pause_minutes: 1800,
        project_entries: vec![],
    }
}

fn empty_config() -> Config {
    Config::build(vec![], vec![], String::from("data.json"), String::from("projects.json"))
}

#[test]
fn build_keeps_collections_and_paths() {
    let c = Config::build(
        vec![record(date(2025, 1, 2))],
        vec![project("A")],
        String::from("t.json"),
        String::from("p.json"),
    );
    assert_eq!(c.time_records.len(), 1);
    assert_eq!(c.project_records[0].code, "A");
    assert_eq!(c.t_path, "t.json");
    assert_eq!(c.p_path, "p.json");
}

#[test]
fn add_time_record_appends() {
    let mut c = empty_config();
    c.add_time_record(&record(date(2025, 1, 2)));
    c.add_time_record(&record(date(2025, 1, 2)));
    assert_eq!(c.time_records.len(), 2);
    assert_eq!(c.time_records[1].date, date(2025, 1, 2));
}

#[test]
fn record_workday_replaces_and_wipes_entries() {
    let mut c = empty_config();
    assert!(!c.record_workday(date(2025, 1, 2), time(8, 0), time(17, 0), 1800));
    assert!(c.add_project_entry(date(2025, 1, 2), entry("A", 3600)));
    assert_eq!(c.time_records[0].project_entries.len(), 1);
    assert!(c.record_workday(date(2025, 1, 2), time(9, 0), time(12, 0), 0));
    assert_eq!(c.time_records.len(), 1);
    assert_eq!(c.time_records[0].start_time, time(9, 0));
    assert_eq!(c.time_records[0].pause_minutes, 0);
    assert!(c.time_records[0].project_entries.is_empty());
}

#[test]
fn add_project_entry_without_record_changes_nothing() {
    let mut c = empty_config();
    c.add_time_record(&record(date(2025, 1, 2)));
    let added = c.add_project_entry(date(2025, 1, 3), entry("A", 3600));
    assert!(!added);
    assert_eq!(c.time_records.len(), 1);
    assert_eq!(c.time_records[0].date, date(2025, 1, 2));
    assert!(c.time_records[0].project_entries.is_empty());
}

#[test]
fn add_project_entry_appends_to_first_record_of_date() {
    let mut c = empty_config();
    c.add_time_record(&record(date(2025, 1, 2)));
    c.add_time_record(&record(date(2025, 1, 2)));
    assert!(c.add_project_entry(date(2025, 1, 2), entry("A", 3600)));
    assert!(c.add_project_entry(date(2025, 1, 2), entry("A", 1800)));
    assert_eq!(c.time_records[0].project_entries.len(), 2);
    assert_eq!(c.time_records[0].project_entries[1].hours, 1800);
    assert!(c.time_records[1].project_entries.is_empty());
}

#[test]
fn delete_absent_project_keeps_list() {
    let mut c = empty_config();
    c.add_project(project("A"));
    c.add_project(project("B"));
    assert!(c.delete_project(String::from("C")));
    assert_eq!(c.project_records.len(), 2);
    assert_eq!(c.project_records[0].code, "A");
    assert_eq!(c.project_records[1].code, "B");
}

#[test]
fn delete_project_on_empty_store_needs_no_save() {
    let mut c = empty_config();
    assert!(!c.delete_project(String::from("A")));
    assert!(c.project_records.is_empty());
}

#[test]
fn delete_project_removes_every_match() {
    let mut c = empty_config();
    c.add_project(project("A"));
    c.add_project(project("B"));
    c.add_project(project("A"));
    assert!(c.delete_project(String::from("A")));
    assert_eq!(c.project_records.len(), 1);
    assert_eq!(c.project_records[0].code, "B");
}

#[test]
fn has_project_by_code() {
    let mut c = empty_config();
    c.add_project(project("AB"));
    assert!(c.has_project("AB"));
    assert!(!c.has_project("A"));
}

#[test]
fn delete_time_record_removes_date() {
    let mut c = empty_config();
    c.add_time_record(&record(date(2025, 1, 2)));
    c.add_time_record(&record(date(2025, 1, 3)));
    c.delete_time_record(date(2025, 1, 2));
    assert_eq!(c.time_records.len(), 1);
    assert_eq!(c.time_records[0].date, date(2025, 1, 3));
    c.delete_time_record(date(2025, 5, 5));
    assert_eq!(c.time_records.len(), 1);
}

#[test]
fn edit_project_entry_outcomes() {
    let mut c = empty_config();
    assert_eq!(
        c.edit_project_entry(date(2025, 1, 2), "A", 60, String::from("x")),
        Err(LedgerError::RecordNotFound)
    );
    c.add_time_record(&record(date(2025, 1, 2)));
    c.add_project_entry(date(2025, 1, 2), entry("A", 3600));
    c.add_project_entry(date(2025, 1, 2), entry("B", 3600));
    assert_eq!(
        c.edit_project_entry(date(2025, 1, 2), "C", 60, String::from("x")),
        Err(LedgerError::EntryNotFound)
    );
    assert_eq!(c.edit_project_entry(date(2025, 1, 2), "B", 900, String::from("fixes")), Ok(()));
    let e = &c.time_records[0].project_entries[1];
    assert_eq!(e.hours, 900);
    assert_eq!(e.activity, "fixes");
    assert_eq!(e.project_name.code, "B");
    assert_eq!(c.time_records[0].project_entries[0].hours, 3600);
}

#[test]
fn find_time_record_copies_first() {
    let mut c = empty_config();
    c.add_time_record(&record(date(2025, 1, 2)));
    assert_eq!(c.position_of_date(date(2025, 1, 2)), Some(0));
    assert!(c.find_time_record(date(2025, 1, 3)).is_none());
    let r = c.find_time_record(date(2025, 1, 2)).unwrap();
    assert_eq!(r.date, date(2025, 1, 2));
    assert_eq!(r.pause_minutes, 1800);
}

#[test]
fn find_project_cases() {
    let projects = vec![project("A"), Project { code: String::from("A"), allocation: 7 }];
    let p = find_project(&projects, "A").unwrap();
    assert_eq!(p.allocation, 500);
    let int = find_project(&projects, "INT").unwrap();
    assert_eq!(int.code, "INT");
    assert_eq!(int.allocation, 0);
    let vac = find_project(&projects, "Vacation").unwrap();
    assert_eq!(vac.code, "Vacation");
    assert!(find_project(&projects, "B").is_none());
}

#[test]
fn selectable_codes_add_internal_and_vacation() {
    assert!(selectable_codes(&[]).is_none());
    let codes = selectable_codes(&[project("A"), project("B")]).unwrap();
    assert_eq!(codes, vec!["A", "B", "INT", "Vacation"]);
}

#[test]
fn text_limits() {
    assert!(valid_activity(&"a".repeat(500)));
    assert!(!valid_activity(&"a".repeat(501)));
    assert!(valid_activity(&"ä".repeat(500)));
    assert!(valid_project_code("ABCDE"));
    assert!(!valid_project_code("ABCDEF"));
}

#[test]
fn assigned_hours_checks() {
    assert_eq!(check_assigned_hours(0, 900), HoursCheck::NoneLeft);
    assert_eq!(check_assigned_hours(3600, 0), HoursCheck::Zero);
    assert_eq!(check_assigned_hours(3600, 3601), HoursCheck::TooMany);
    assert_eq!(check_assigned_hours(3600, 3600), HoursCheck::Accepted);
    assert_eq!(check_assigned_hours(3600, -900), HoursCheck::Accepted);
}

#[test]
fn dates_listed_newest_first() {
    let mut c = empty_config();
    for d in [date(2025, 1, 2), date(2026, 1, 1), date(2025, 3, 1), date(2025, 1, 2)] {
        c.add_time_record(&record(d));
    }
    let ds = dates_newest_first(&c);
    assert_eq!(ds, vec![date(2026, 1, 1), date(2025, 3, 1), date(2025, 1, 2), date(2025, 1, 2)]);
}

#[test]
fn load_plans() {
    assert_eq!(plan_load(None), LoadStep::Bootstrap);
    assert_eq!(plan_load(Some("")), LoadStep::Empty);
    assert_eq!(plan_load(Some("  \n\t\r ")), LoadStep::Empty);
    assert_eq!(plan_load(Some("[]")), LoadStep::Parse);
    assert_eq!(plan_load(Some(" [ ] ")), LoadStep::Parse);
}

#[test]
fn bootstrap_then_reload_is_empty() {
    // first run: no file yet
    assert_eq!(plan_load(None), LoadStep::Bootstrap);
    // the file was created empty: the second load reads it as empty
    assert_eq!(plan_load(Some("")), LoadStep::Empty);
}

#[test]
fn blank_text() {
    assert!(is_blank(""));
    assert!(is_blank(" \u{a0}\u{2003}\n"));
    assert!(!is_blank(" x "));
}
