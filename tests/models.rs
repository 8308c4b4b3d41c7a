use ptt_cli::calendar::{Date, TimeOfDay};
use ptt_cli::model::{Project, ProjectEntry, TimeRecord};

fn hours(seconds: i64) -> f64 {
    seconds as f64 / 3600.0
}

fn seconds(h: f64) -> i64 {
    (h * 3600.0).round() as i64
}

fn test_time_record() -> TimeRecord {
    TimeRecord {
        date: Date::from_ymd_opt(2025, 11, 9).unwrap(),
        start_time: TimeOfDay::from_hms_opt(8, 0, 0).unwrap(),
        end_time: TimeOfDay::from_hms_opt(18, 0, 0).unwrap(), // 10 h
        pause_minutes: seconds(0.5),                          // 9.5 h
        project_entries: vec![ProjectEntry {
            project_name: Project { code: String::from("INEK"), allocation: 1000 },
            hours: seconds(3.5),
            activity: String::from("I ran a test"),
        }],
    }
}

#[test]
fn test_get_net_hours() {
    let t_for_test = test_time_record();
    let net_hours = t_for_test.get_net_hours();
    assert_eq!(hours(net_hours), 9.5);
}

#[test]
fn test_allocated_hours() {
    let t_for_test = test_time_record();
    let allocated_hours = t_for_test.allocated_hours();
    assert_eq!(hours(allocated_hours), 3.5)
}

#[test]
fn test_remaining_hours() {
    let t_for_test = test_time_record();
    let remaining = t_for_test.remaining_hours();
    assert_eq!(6.0, hours(remaining))
}

#[test]
fn round_quarter_exact_values() {
    assert_eq!(TimeRecord::round_quarter(0), 0);
    assert_eq!(TimeRecord::round_quarter(449), 0);
    assert_eq!(TimeRecord::round_quarter(450), 900);
    assert_eq!(TimeRecord::round_quarter(1349), 900);
    assert_eq!(TimeRecord::round_quarter(1350), 1800);
    assert_eq!(TimeRecord::round_quarter(36000), 36000);
    assert_eq!(TimeRecord::round_quarter(-449), 0);
    assert_eq!(TimeRecord::round_quarter(-450), -900);
    assert_eq!(TimeRecord::round_quarter(i64::MAX), 9223372036854775800);
    assert_eq!(TimeRecord::round_quarter(i64::MIN), -9223372036854775800);
}

#[test]
fn round_quarter_is_nearest_quarter() {
    let mut h: i64 = -5000;
    while h <= 5000 {
        let r = TimeRecord::round_quarter(h);
        assert_eq!(r % 900, 0);
        assert!((r - h).abs() <= 450);
        h += 7;
    }
}

#[test]
fn net_hours_rounds_worked_time() {
    let mut t = test_time_record();
    t.end_time = TimeOfDay::from_hms_opt(17, 52, 30).unwrap(); // 9 h 52.5 min
    t.pause_minutes = 0;
    assert_eq!(hours(t.get_net_hours()), 10.0);
    t.end_time = TimeOfDay::from_hms_opt(17, 52, 29).unwrap();
    assert_eq!(hours(t.get_net_hours()), 9.75);
}

#[test]
fn net_hours_end_before_start_is_minus_pause() {
    let mut t = test_time_record();
    t.start_time = TimeOfDay::from_hms_opt(18, 0, 0).unwrap();
    t.end_time = TimeOfDay::from_hms_opt(8, 0, 0).unwrap();
    assert_eq!(hours(t.get_net_hours()), -0.5);
}

#[test]
fn hours_in_range_detects_overflow() {
    let mut t = test_time_record();
    assert!(t.hours_in_range());
    t.project_entries.push(t.project_entries[0].clone());
    t.project_entries[1].hours = i64::MAX;
    assert!(!t.hours_in_range());
    let mut u = test_time_record();
    u.pause_minutes = i64::MIN;
    assert!(!u.hours_in_range());
    let mut v = test_time_record();
    v.end_time = TimeOfDay { hour: 25, minute: 0, second: 0 };
    assert!(!v.hours_in_range());
}

#[test]
fn duplicate_entry_check() {
    let t = test_time_record();
    assert!(t.prohibit_duplicate_entry("INEK"));
    assert!(!t.prohibit_duplicate_entry("INE"));
    assert!(!t.prohibit_duplicate_entry("ABC"));
}

#[test]
fn project_check_empty() {
    assert!(Project { code: String::new(), allocation: 0 }.check_empty());
    assert!(!Project { code: String::from("A"), allocation: 0 }.check_empty());
}

#[test]
fn clone_keeps_record() {
    let t = test_time_record();
    let c = t.clone();
    assert_eq!(c.date, t.date);
    assert_eq!(c.pause_minutes, t.pause_minutes);
    assert_eq!(c.project_entries.len(), 1);
    assert_eq!(c.project_entries[0].activity, "I ran a test");
    assert_eq!(c.project_entries[0].project_name.code, "INEK");
}
