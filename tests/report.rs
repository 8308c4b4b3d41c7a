use ptt_cli::calendar::{Date, TimeOfDay};
use ptt_cli::ledger::Config;
use ptt_cli::model::{Project, ProjectEntry, TimeRecord};
use ptt_cli::report::{
    distinct_months_in_year, distinct_years, filter_time_record_totals, month_choices,
    month_hours_fit,
};

fn seconds(h: f64) -> i64 {
    (h * 3600.0).round() as i64
}

fn entry(code: &str, h: f64) -> ProjectEntry {
    ProjectEntry {
        project_name: Project { code: String::from(code), allocation: 1000 },
        hours: seconds(h),
        activity: String::new(),
    }
}

fn record(y: i32, m: u32, d: u32, entries: Vec<ProjectEntry>) -> TimeRecord {
    TimeRecord {
        date: Date::from_ymd_opt(y, m, d).unwrap(),
        start_time: TimeOfDay::from_hms_opt(8, 0, 0).unwrap(),
        end_time: TimeOfDay::from_hms_opt(18, 0, 0).unwrap(),
        pause_minutes: seconds(0.5),
        project_entries: entries,
    }
}

fn config(records: Vec<TimeRecord>) -> Config {
    Config::build(records, vec![], String::from("data.json"), String::from("projects.json"))
}

#[test]
fn totals_for_month_group_by_code() {
    let c = config(vec![
        record(2025, 11, 3, vec![entry("A", 2.0)]),
        record(2025, 11, 4, vec![entry("A", 1.0), entry("B", 3.0)]),
    ]);
    assert!(month_hours_fit(&c, 2025, 11));
    let totals = filter_time_record_totals(&c, 2025, 11);
    assert_eq!(totals, vec![(String::from("A"), seconds(3.0)), (String::from("B"), seconds(3.0))]);
}

#[test]
fn totals_skip_other_months_and_years() {
    let c = config(vec![
        record(2025, 10, 3, vec![entry("A", 2.0)]),
        record(2024, 11, 3, vec![entry("C", 2.0)]),
        record(2025, 11, 4, vec![entry("B", 1.5)]),
    ]);
    let totals = filter_time_record_totals(&c, 2025, 11);
    assert_eq!(totals, vec![(String::from("B"), seconds(1.5))]);
    assert!(filter_time_record_totals(&c, 2023, 1).is_empty());
}

#[test]
fn month_hours_fit_detects_overflow() {
    let mut big = entry("A", 0.0);
    big.hours = i64::MAX;
    let c = config(vec![record(2025, 11, 3, vec![big.clone()]), record(2025, 11, 4, vec![big])]);
    assert!(!month_hours_fit(&c, 2025, 11));
    assert!(month_hours_fit(&c, 2025, 10));
}

#[test]
fn years_and_months_latest_first() {
    let c = config(vec![
        record(2024, 3, 1, vec![]),
        record(2025, 1, 1, vec![]),
        record(2025, 11, 1, vec![]),
        record(2025, 1, 9, vec![]),
        record(999, 5, 1, vec![]),
    ]);
    assert_eq!(distinct_years(&c), vec![2025, 2024, 999]);
    assert_eq!(distinct_months_in_year(&c, 2025), vec![11, 1]);
    assert!(distinct_months_in_year(&c, 2023).is_empty());
    let choices = month_choices(&c, 2025);
    assert_eq!(choices.len(), 2);
    assert_eq!(choices[0].month_name, "November");
    assert_eq!(choices[0].month_number, 11);
    assert_eq!(choices[1].month_name, "January");
}

#[test]
fn month_choices_skip_months_without_a_name() {
    let mut odd = record(2025, 1, 1, vec![]);
    odd.date = Date { year: 2025, month: 13, day: 1 };
    let c = config(vec![odd, record(2025, 2, 1, vec![])]);
    assert_eq!(distinct_months_in_year(&c, 2025), vec![13, 2]);
    let choices = month_choices(&c, 2025);
    assert_eq!(choices.len(), 1);
    assert_eq!(choices[0].month_number, 2);
    assert_eq!(choices[0].month_name, "February");
}
