use cronch::controller::build_schedule;
use cronch::controller::{
    rule_list_row, run_list_row, shell_index, shell_options, EditorForm,
};
use cronch::model::{EnvVar, LastStatus, OverlapPolicy, Rule, RunRecord, Schedule, ShellKind};
use cronch::shell::{ShellCatalog, ShellInfo};

fn catalog() -> ShellCatalog {
    ShellCatalog {
        shells: vec![
            ShellInfo { key: "zsh".into(), label: "Zsh".into(), path: "/bin/zsh".into(), arg_template: "-c {cmd}".into() },
            ShellInfo { key: "bash".into(), label: "Bash".into(), path: "/bin/bash".into(), arg_template: "-c {cmd}".into() },
        ],
    }
}

fn sample_rule() -> Rule {
    let mut r = Rule::with_identity(
        7,
        1_700_000_000_000,
        "backup".into(),
        "rsync -a src dst".into(),
        ShellKind::Detected { key: "bash".into() },
        Schedule::Interval { seconds: 7200 },
    );
    r.catch_up = false;
    r.overlap = OverlapPolicy::Parallel;
    r.working_dir = Some("/srv".into());
    r.env = vec![
        EnvVar { key: "A".into(), value: "1".into() },
        EnvVar { key: "PATH".into(), value: "/usr/bin:/bin".into() },
    ];
    r.last_run = Some(1_700_000_100_000);
    r.last_status = LastStatus::Success;
    r
}

#[test]
fn new_rule_form_defaults() {
    let f = EditorForm::new_rule();
    assert_eq!(f.name, "");
    assert!(f.enabled);
    assert_eq!(f.shell_index, 0);
    assert_eq!(f.custom_arg, "-c {cmd}");
    assert_eq!((f.schedule_mode, f.interval_value, f.interval_unit), (0, 5, 1));
    assert_eq!(f.cron, "0 9 * * *");
    assert!(f.catch_up);
    assert_eq!(f.overlap, 0);
    assert_eq!(f.env, "");
}

#[test]
fn shell_choice_for_a_rule() {
    let opts = shell_options(&catalog());
    assert_eq!(shell_index(&ShellKind::Detected { key: "bash".into() }, &opts), 1);
    assert_eq!(shell_index(&ShellKind::Detected { key: "fish".into() }, &opts), opts.direct_index);
    assert_eq!(
        shell_index(&ShellKind::Custom { path: "/x".into(), arg_template: "{cmd}".into() }, &opts),
        opts.custom_index
    );
    assert_eq!(shell_index(&ShellKind::Direct, &opts), opts.direct_index);
}

#[test]
fn editing_without_changes_keeps_the_rule() {
    let opts = shell_options(&catalog());
    let rule = sample_rule();
    let mut f = EditorForm::new_rule();
    f.load_rule(&rule, &opts);
    assert_eq!(f.name, "backup");
    assert_eq!(f.shell_index, 1);
    assert_eq!((f.schedule_mode, f.interval_value, f.interval_unit), (0, 2, 2));
    assert_eq!(f.cron, "0 9 * * *");
    assert_eq!(f.overlap, 2);
    assert_eq!(f.working_dir, "/srv");
    assert_eq!(f.env, "A=1\nPATH=/usr/bin:/bin");

    let saved = f.save(&opts, rule.clone()).unwrap();
    assert_eq!(saved.id, rule.id);
    assert_eq!(saved.name, rule.name);
    assert_eq!(saved.command, rule.command);
    assert_eq!(saved.shell, rule.shell);
    assert_eq!(saved.schedule, rule.schedule);
    assert_eq!(saved.catch_up, rule.catch_up);
    assert_eq!(saved.overlap, rule.overlap);
    assert_eq!(saved.working_dir, rule.working_dir);
    assert_eq!(saved.env, rule.env);
    assert_eq!(saved.created_at, rule.created_at);
    assert_eq!(saved.last_run, rule.last_run);
    assert_eq!(saved.last_status, LastStatus::Success);
}

#[test]
fn cron_rule_in_the_editor() {
    let opts = shell_options(&catalog());
    let mut rule = sample_rule();
    rule.schedule = Schedule::Cron { expr: "*/5 * * * *".into() };
    rule.shell = ShellKind::Custom { path: "/opt/sh".into(), arg_template: "-x {cmd}".into() };
    let mut f = EditorForm::new_rule();
    f.load_rule(&rule, &opts);
    assert_eq!(f.schedule_mode, 1);
    assert_eq!(f.cron, "*/5 * * * *");
    assert_eq!((f.interval_value, f.interval_unit), (5, 1));
    assert_eq!(f.shell_index, opts.custom_index);
    assert_eq!((f.custom_path.as_str(), f.custom_arg.as_str()), ("/opt/sh", "-x {cmd}"));
    let saved = f.save(&opts, rule.clone()).unwrap();
    assert_eq!(saved.schedule, rule.schedule);
    assert_eq!(saved.shell, rule.shell);
}

#[test]
fn saving_reports_the_first_problem() {
    let opts = shell_options(&catalog());
    let base = sample_rule();

    let mut f = EditorForm::new_rule();
    f.shell_index = 9;
    assert_eq!(f.save(&opts, base.clone()).err(), Some("Please choose a shell".to_string()));

    let mut f = EditorForm::new_rule();
    f.command = "echo".into();
    assert_eq!(f.save(&opts, base.clone()).err(), Some("Name must not be empty".to_string()));

    let mut f = EditorForm::new_rule();
    f.name = "n".into();
    f.interval_value = 0;
    assert_eq!(
        f.save(&opts, base.clone()).err(),
        Some("Interval must be at least 1 second".to_string())
    );

    let mut f = EditorForm::new_rule();
    f.name = "n".into();
    f.schedule_mode = 2;
    f.once = "soon".into();
    assert_eq!(
        f.save(&opts, base.clone()).err(),
        Some("Once time must be in the form YYYY-MM-DD HH:MM".to_string())
    );

    let mut f = EditorForm::new_rule();
    f.name = "n".into();
    f.command = "echo hi".into();
    f.working_dir = "   ".into();
    f.env = "  X = y z\n\n# note\nBAD\n".into();
    f.overlap = 1;
    let r = f.save(&opts, base.clone()).unwrap();
    assert_eq!(r.working_dir, None);
    assert_eq!(r.env, vec![EnvVar { key: "X".into(), value: " y z".into() }]);
    assert_eq!(r.overlap, OverlapPolicy::Queue);
    assert_eq!(r.shell, ShellKind::Detected { key: "zsh".into() });
    assert_eq!(r.schedule, Schedule::Interval { seconds: 300 });
    assert_eq!(r.id, base.id);
}

#[test]
fn rows_of_the_lists() {
    let mut rule = sample_rule();
    rule.enabled = false;
    rule.last_run = None;
    rule.next_run = Some(1_700_000_000_000);
    rule.shell = ShellKind::Detected { key: "fish".into() };
    let row = rule_list_row(&rule, &catalog());
    assert_eq!(row.id, "00000000-0000-0000-0000-000000000007");
    assert_eq!(row.name, "backup");
    assert_eq!(row.schedule, "Every 2 hours");
    assert_eq!(row.shell, "fish");
    assert_eq!(row.status, "Success");
    assert_eq!(row.last_run, "\u{2014}");
    assert_eq!(row.next_run, "\u{2014}");
    assert!(row.shell_missing);

    let run = RunRecord {
        id: 42,
        started_at: 1_700_000_000_000,
        finished_at: None,
        exit_code: Some(-1),
        success: false,
        stdout: "out".into(),
        stderr: String::new(),
        trigger: "manual".into(),
    };
    let r = run_list_row(&run);
    assert_eq!(r.id, "42");
    assert_eq!(r.finished, "\u{2014}");
    assert_eq!(r.status, "Running");
    assert_eq!(r.exit_code, "-1");
    assert_eq!(r.trigger, "manual");
    assert_eq!(r.stdout, "out");
    let done = RunRecord { finished_at: Some(1_700_000_005_000), exit_code: None, success: true, ..run };
    let r = run_list_row(&done);
    assert_eq!(r.status, "Success");
    assert_eq!(r.exit_code, "\u{2014}");
}

fn shaped(t: &str, pattern: &str) -> bool {
    t.len() == pattern.len()
        && t.chars().zip(pattern.chars()).all(|(c, p)| if p == 'd' { c.is_ascii_digit() } else { c == p })
}

#[test]
fn local_times_have_their_form() {
    let mut rule = sample_rule();
    rule.next_run = Some(1_700_000_200_000);
    let row = rule_list_row(&rule, &catalog());
    assert!(shaped(&row.last_run, "dd-dd dd:dd"), "{}", row.last_run);
    assert!(shaped(&row.next_run, "dd-dd dd:dd"), "{}", row.next_run);
    let run = RunRecord {
        id: 1,
        started_at: 1_700_000_000_000,
        finished_at: Some(1_700_000_001_000),
        exit_code: Some(0),
        success: true,
        stdout: String::new(),
        stderr: String::new(),
        trigger: "schedule".into(),
    };
    let r = run_list_row(&run);
    assert!(shaped(&r.started, "dd-dd dd:dd:dd"), "{}", r.started);
    assert!(shaped(&r.finished, "dd:dd:dd"), "{}", r.finished);
    let d = Schedule::Once { at: 1_700_000_000_000 }.describe();
    assert!(d.starts_with("Once at "));
    assert!(shaped(&d[8..], "dddd-dd-dd dd:dd"), "{d}");
    // A one-shot lies within a day of its text read as UTC.
    let s = build_schedule(2, 0, 0, String::new(), " 2030-06-01 12:30 ").unwrap();
    let utc = 1_906_547_400_000i64; // 2030-06-01T12:30:00Z
    match s {
        Schedule::Once { at } => assert!((at - utc).abs() < 86_400_000),
        _ => panic!("not a one-shot"),
    }
    let mut f = EditorForm::new_rule();
    let mut once = sample_rule();
    once.schedule = Schedule::Once { at: utc };
    f.load_rule(&once, &shell_options(&catalog()));
    assert_eq!(f.schedule_mode, 2);
    assert!(shaped(&f.once, "dddd-dd-dd dd:dd"), "{}", f.once);
}
