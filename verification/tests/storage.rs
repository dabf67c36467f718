use cronch::storage::{id_column, instant_column, RunRow};
use chrono::{TimeZone, Utc};
use cronch::model::{EnvVar, LastStatus, OverlapPolicy, Rule, Schedule, ShellKind};
use cronch::storage::{history_cutoff, RowError, RuleRow, DAY_MS};

fn ms(y: i32, mo: u32, d: u32, h: u32, mi: u32, s: u32) -> i64 {
    Utc.with_ymd_and_hms(y, mo, d, h, mi, s).unwrap().timestamp_millis()
}

fn sample_rule() -> Rule {
    let mut r = Rule::with_identity(
        0x0123_4567_89ab_cdef_0123_4567_89ab_cdef,
        ms(2026, 1, 2, 3, 4, 5),
        "my rule".to_string(),
        "echo hi".to_string(),
        ShellKind::Direct,
        Schedule::Interval { seconds: 5 },
    );
    r.enabled = false;
    r.catch_up = false;
    r.overlap = OverlapPolicy::Queue;
    r.working_dir = Some("/tmp".to_string());
    r.env = vec![EnvVar { key: "A".to_string(), value: "1".to_string() }];
    r.last_run = Some(ms(2026, 1, 3, 0, 0, 0) + 250);
    r.next_run = None;
    r.last_exit_code = Some(-3);
    r.last_status = LastStatus::Failed;
    r
}

#[test]
fn rule_row_roundtrip() {
    let rule = sample_rule();
    let row = RuleRow::from_rule(rule.clone());
    assert_eq!(row.id, "01234567-89ab-cdef-0123-456789abcdef");
    assert_eq!(row.enabled, 0);
    assert_eq!(row.catch_up, 0);
    assert_eq!(row.overlap, "Queue");
    assert_eq!(row.last_status, "Failed");
    assert_eq!(row.created_at, "2026-01-02T03:04:05+00:00");
    assert_eq!(row.last_run.as_deref(), Some("2026-01-03T00:00:00.250+00:00"));
    assert_eq!(row.next_run, None);
    assert_eq!(row.last_exit_code, Some(-3));

    let got = row.into_rule().unwrap();
    assert_eq!(got.id, rule.id);
    assert_eq!(got.name, "my rule");
    assert_eq!(got.command, "echo hi");
    assert!(!got.enabled);
    assert!(!got.catch_up);
    assert_eq!(got.overlap, OverlapPolicy::Queue);
    assert!(matches!(got.schedule, Schedule::Interval { seconds: 5 }));
    assert_eq!(got.working_dir.as_deref(), Some("/tmp"));
    assert_eq!(got.env, rule.env);
    assert_eq!(got.created_at, rule.created_at);
    assert_eq!(got.last_run, rule.last_run);
    assert_eq!(got.next_run, None);
    assert_eq!(got.last_exit_code, Some(-3));
    assert_eq!(got.last_status, LastStatus::Failed);
}

#[test]
fn row_with_bad_id_or_time_is_refused() {
    let mut row = RuleRow::from_rule(sample_rule());
    row.id = "not-a-uuid".to_string();
    assert_eq!(row.into_rule().err(), Some(RowError::Id));

    let mut row = RuleRow::from_rule(sample_rule());
    row.created_at = "yesterday".to_string();
    assert_eq!(row.into_rule().err(), Some(RowError::Time));

    let mut row = RuleRow::from_rule(sample_rule());
    row.next_run = Some("2026-13-01T00:00:00Z".to_string());
    assert_eq!(row.into_rule().err(), Some(RowError::Time));
}

#[test]
fn row_reading_is_lenient_where_the_store_is() {
    let mut row = RuleRow::from_rule(sample_rule());
    row.overlap = "Whatever".to_string();
    row.last_status = "???".to_string();
    row.working_dir = Some(String::new());
    row.enabled = 7;
    row.created_at = "2026-01-02T05:04:05+02:00".to_string();
    let got = row.into_rule().unwrap();
    assert_eq!(got.overlap, OverlapPolicy::Skip);
    assert_eq!(got.last_status, LastStatus::Never);
    assert_eq!(got.working_dir, None);
    assert!(got.enabled);
    assert_eq!(got.created_at, ms(2026, 1, 2, 3, 4, 5));
}

#[test]
fn history_cutoff_keeps_days() {
    let now = ms(2026, 3, 10, 12, 0, 0);
    assert_eq!(history_cutoff(0, now), None);
    assert_eq!(history_cutoff(-5, now), None);
    assert_eq!(history_cutoff(30, now), Some(ms(2026, 2, 8, 12, 0, 0)));
    assert_eq!(history_cutoff(1, now), Some(now - DAY_MS));
}

#[test]
fn run_rows_read_back() {
    let t = ms(2026, 1, 2, 3, 4, 5) + 7;
    assert_eq!(instant_column(t), "2026-01-02T03:04:05.007+00:00");
    assert_eq!(id_column(255), "00000000-0000-0000-0000-0000000000ff");
    let row = RunRow {
        id: 9,
        started_at: instant_column(t),
        finished_at: Some("2026-01-02T03:04:06Z".into()),
        exit_code: Some(4_294_967_297),
        success: 0,
        stdout: "o".into(),
        stderr: "e".into(),
        trigger: "schedule".into(),
    };
    let rec = row.clone().into_record().unwrap();
    assert_eq!(rec.id, 9);
    assert_eq!(rec.started_at, t);
    assert_eq!(rec.finished_at, Some(ms(2026, 1, 2, 3, 4, 6)));
    assert_eq!(rec.exit_code, Some(1));
    assert!(!rec.success);
    assert_eq!((rec.stdout.as_str(), rec.stderr.as_str(), rec.trigger.as_str()), ("o", "e", "schedule"));
    let running = RunRow { finished_at: None, exit_code: None, success: 1, ..row.clone() };
    let rec = running.into_record().unwrap();
    assert_eq!(rec.finished_at, None);
    assert!(rec.success);
    let bad = RunRow { started_at: "later".into(), ..row.clone() };
    assert_eq!(bad.into_record().err(), Some(RowError::Time));
    let bad = RunRow { finished_at: Some("x".into()), ..row };
    assert_eq!(bad.into_record().err(), Some(RowError::Time));
}
