use chrono::{Duration, TimeZone, Utc};
use cronch::model::{
    humanize_secs, normalize_cron, LastStatus, OverlapPolicy, Rule, RunRecord, Schedule, ShellKind,
};

fn ms(dt: chrono::DateTime<Utc>) -> i64 {
    dt.timestamp_millis()
}

#[test]
fn normalize_cron_adds_seconds_field() {
    assert_eq!(normalize_cron("0 9 * * *"), "0 0 9 * * *");
    assert_eq!(normalize_cron("0 0 9 * * *"), "0 0 9 * * *");
}

#[test]
fn interval_next_after() {
    let base = Utc.with_ymd_and_hms(2026, 1, 1, 0, 0, 0).unwrap();
    let s = Schedule::Interval { seconds: 60 };
    assert_eq!(s.next_after(ms(base)), Some(ms(base + Duration::seconds(60))));
}

#[test]
fn once_in_past_is_none() {
    let base = Utc.with_ymd_and_hms(2026, 1, 1, 0, 0, 0).unwrap();
    let s = Schedule::Once { at: ms(base - Duration::seconds(10)) };
    assert_eq!(s.next_after(ms(base)), None);
    let s2 = Schedule::Once { at: ms(base + Duration::seconds(10)) };
    assert_eq!(s2.next_after(ms(base)), Some(ms(base + Duration::seconds(10))));
}

#[test]
fn cron_validation() {
    assert!(Schedule::Cron { expr: "0 9 * * *".into() }.validate().is_ok());
    assert!(Schedule::Cron { expr: "nonsense".into() }.validate().is_err());
}

#[test]
fn rule_validation() {
    let mut r = Rule::new(
        "n".into(),
        "echo hi".into(),
        ShellKind::Direct,
        Schedule::Interval { seconds: 5 },
    );
    assert!(r.validate().is_ok());
    r.command = "  ".into();
    assert!(r.validate().is_err());
}

#[test]
fn normalize_cron_trims_and_keeps_other_counts() {
    assert_eq!(normalize_cron("  */5 * * * *  "), "0 */5 * * * *");
    assert_eq!(normalize_cron("\t@daily "), "@daily");
    assert_eq!(normalize_cron(""), "");
    // Normalizing twice changes nothing more.
    let once = normalize_cron("30 6 * * 1-5");
    assert_eq!(normalize_cron(&once), once);
}

#[test]
fn cron_next_after_is_the_next_fire_time() {
    let base = Utc.with_ymd_and_hms(2026, 1, 1, 0, 0, 0).unwrap();
    let s = Schedule::Cron { expr: "0 9 * * *".into() };
    let nine = Utc.with_ymd_and_hms(2026, 1, 1, 9, 0, 0).unwrap();
    assert_eq!(s.next_after(ms(base)), Some(ms(nine)));
    // Strictly after: at 09:00 exactly the next one is tomorrow.
    let tomorrow = Utc.with_ymd_and_hms(2026, 1, 2, 9, 0, 0).unwrap();
    assert_eq!(s.next_after(ms(nine)), Some(ms(tomorrow)));
    let bad = Schedule::Cron { expr: "nonsense".into() };
    assert_eq!(bad.next_after(ms(base)), None);
}

#[test]
fn validation_messages() {
    assert_eq!(
        Schedule::Interval { seconds: 0 }.validate(),
        Err("Interval must be at least 1 second".to_string())
    );
    assert!(Schedule::Interval { seconds: 1 }.validate().is_ok());
    assert!(Schedule::Once { at: 0 }.validate().is_ok());
    let err = Schedule::Cron { expr: "nonsense".into() }.validate().unwrap_err();
    assert!(err.starts_with("Invalid cron expression: "), "{err}");

    let mut r = Rule::new(" ".into(), "x".into(), ShellKind::Direct, Schedule::Interval { seconds: 5 });
    assert_eq!(r.validate(), Err("Name must not be empty".to_string()));
    r.name = "n".into();
    r.shell = ShellKind::Custom { path: " ".into(), arg_template: "{cmd}".into() };
    assert_eq!(r.validate(), Err("Custom shell path must not be empty".to_string()));
    r.shell = ShellKind::Custom { path: "/bin/sh".into(), arg_template: "-c cmd".into() };
    assert_eq!(r.validate(), Err("Custom argument template must contain {cmd}".to_string()));
    r.shell = ShellKind::Custom { path: "/bin/sh".into(), arg_template: "-c {cmd}".into() };
    assert!(r.validate().is_ok());
    r.schedule = Schedule::Interval { seconds: -3 };
    assert_eq!(r.validate(), Err("Interval must be at least 1 second".to_string()));
}

#[test]
fn new_rule_defaults() {
    let r = Rule::new("a".into(), "b".into(), ShellKind::Direct, Schedule::Interval { seconds: 5 });
    assert!(r.enabled);
    assert!(r.catch_up);
    assert_eq!(r.overlap, OverlapPolicy::Skip);
    assert_eq!(r.last_status, LastStatus::Never);
    assert!(r.working_dir.is_none() && r.env.is_empty());
    assert!(r.last_run.is_none() && r.next_run.is_none() && r.last_exit_code.is_none());
    let r2 = Rule::new("a".into(), "b".into(), ShellKind::Direct, Schedule::Interval { seconds: 5 });
    assert_ne!(r.id, r2.id);
    let fixed = Rule::with_identity(7, 1000, "x".into(), "y".into(), ShellKind::Direct, Schedule::Once { at: 5 });
    assert_eq!(fixed.id, 7);
    assert_eq!(fixed.created_at, 1000);
}

#[test]
fn describe_and_humanize() {
    assert_eq!(Schedule::Interval { seconds: 60 }.describe(), "Every 1 minute");
    assert_eq!(Schedule::Interval { seconds: 7200 }.describe(), "Every 2 hours");
    assert_eq!(Schedule::Interval { seconds: 86400 }.describe(), "Every 1 day");
    assert_eq!(Schedule::Interval { seconds: 90 }.describe(), "Every 90 seconds");
    assert_eq!(Schedule::Interval { seconds: 1 }.describe(), "Every 1 second");
    assert_eq!(Schedule::Cron { expr: "0 9 * * *".into() }.describe(), "Cron: 0 9 * * *");
    assert!(Schedule::Once { at: 0 }.describe().starts_with("Once at "));
    assert_eq!(humanize_secs(-5), "-5 seconds");
    assert_eq!(humanize_secs(0), "0 seconds");
    assert_eq!(humanize_secs(172800), "2 days");
    assert_eq!(humanize_secs(i64::MIN), "-9223372036854775808 seconds");
}

#[test]
fn status_and_policy_names_roundtrip() {
    for p in [OverlapPolicy::Skip, OverlapPolicy::Queue, OverlapPolicy::Parallel] {
        assert_eq!(OverlapPolicy::from_str_lossy(p.as_str()), p);
    }
    assert_eq!(OverlapPolicy::from_str_lossy("bogus"), OverlapPolicy::Skip);
    for s in [
        LastStatus::Never,
        LastStatus::Running,
        LastStatus::Success,
        LastStatus::Failed,
        LastStatus::Skipped,
        LastStatus::Expired,
    ] {
        assert_eq!(LastStatus::from_str_lossy(s.as_str()), s);
    }
    assert_eq!(LastStatus::from_str_lossy("running"), LastStatus::Never);
    assert_eq!(LastStatus::default(), LastStatus::Never);
}

#[test]
fn shell_summaries() {
    assert_eq!(ShellKind::Detected { key: "zsh".into() }.summary(), "zsh");
    assert_eq!(
        ShellKind::Custom { path: "/opt/sh".into(), arg_template: "-c {cmd}".into() }.summary(),
        "custom: /opt/sh"
    );
    assert_eq!(ShellKind::Direct.summary(), "direct");
}

#[test]
fn run_status_text() {
    let mut r = RunRecord {
        id: 1,
        started_at: 0,
        finished_at: None,
        exit_code: None,
        success: false,
        stdout: String::new(),
        stderr: String::new(),
        trigger: "manual".into(),
    };
    assert_eq!(r.status_text(), "Running");
    r.finished_at = Some(5);
    assert_eq!(r.status_text(), "Failed");
    r.success = true;
    assert_eq!(r.status_text(), "Success");
}
