use cronch::controller::{
    build_schedule, build_shell, env_to_text, interval_schedule, overlap_from_index, overlap_index, parse_env,
    retention_days, secs_to_value_unit, shell_options,
};
use cronch::model::{EnvVar, OverlapPolicy, Schedule, ShellKind};
use cronch::shell::{ShellCatalog, ShellInfo};
use cronch::text::{parse_i32, parse_i64, str_contains, trim_str};

#[test]
fn integer_parsing_matches_from_str() {
    for s in ["0", "42", "-7", "+15", "007", "9223372036854775807", "-9223372036854775808",
        "9223372036854775808", "", "-", "+", " 1", "1 ", "1a", "--1", "99999999999999999999999"] {
        assert_eq!(parse_i64(s), s.parse::<i64>().ok(), "{s:?}");
        assert_eq!(parse_i32(s), s.parse::<i32>().ok(), "{s:?}");
    }
    assert_eq!(parse_i32("2147483648"), None);
    assert_eq!(parse_i32("-2147483648"), Some(i32::MIN));
}

#[test]
fn trimming_and_searching() {
    assert_eq!(trim_str("  a b \t\n"), "a b");
    assert_eq!(trim_str("\u{3000}x\u{a0}"), "x");
    assert_eq!(trim_str("   "), "");
    assert!(str_contains("-c {cmd}", "{cmd}"));
    assert!(!str_contains("-c {cm}", "{cmd}"));
    assert!(str_contains("abc", ""));
}

#[test]
fn env_text_roundtrip() {
    let env = vec![
        EnvVar { key: "A".into(), value: "1".into() },
        EnvVar { key: "B".into(), value: "x=y".into() },
        EnvVar { key: "C".into(), value: "".into() },
    ];
    let text = env_to_text(&env);
    assert_eq!(text, "A=1\nB=x=y\nC=");
    assert_eq!(parse_env(&text), env);
    let parsed = parse_env("  K = v \n\nnoeq\r\n=z\r\nL=w\r");
    assert_eq!(
        parsed,
        vec![
            EnvVar { key: "K".into(), value: " v".into() },
            EnvVar { key: "".into(), value: "z".into() },
            EnvVar { key: "L".into(), value: "w".into() },
        ]
    );
    assert!(parse_env("").is_empty());
    assert_eq!(env_to_text(&[]), "");
}

#[test]
fn interval_fields_roundtrip() {
    assert_eq!(secs_to_value_unit(86400 * 2), (2, 3));
    assert_eq!(secs_to_value_unit(7200), (2, 2));
    assert_eq!(secs_to_value_unit(300), (5, 1));
    assert_eq!(secs_to_value_unit(61), (61, 0));
    for secs in [1i64, 59, 60, 3600, 5400, 86400, 90000, 604800] {
        let (v, u) = secs_to_value_unit(secs);
        assert_eq!(interval_schedule(v, u), Ok(Schedule::Interval { seconds: secs }));
    }
    assert_eq!(interval_schedule(0, 1), Err("Interval must be at least 1 second".to_string()));
    assert_eq!(interval_schedule(2, 9), Ok(Schedule::Interval { seconds: 2 }));
}

#[test]
fn editor_choices() {
    for p in [OverlapPolicy::Skip, OverlapPolicy::Queue, OverlapPolicy::Parallel] {
        assert_eq!(overlap_from_index(overlap_index(p)), p);
    }
    assert_eq!(overlap_from_index(7), OverlapPolicy::Skip);
    let cat = ShellCatalog {
        shells: vec![ShellInfo { key: "zsh".into(), label: "Zsh".into(), path: "/bin/zsh".into(), arg_template: "-c {cmd}".into() }],
    };
    let o = shell_options(&cat);
    assert_eq!(o.labels, vec!["Zsh", "Custom…", "Direct (no shell)"]);
    assert_eq!((o.custom_index, o.direct_index), (1, 2));
    assert_eq!(build_shell(0, &o, "".into(), "".into()), Ok(ShellKind::Detected { key: "zsh".into() }));
    assert_eq!(
        build_shell(1, &o, "/p".into(), "-c {cmd}".into()),
        Ok(ShellKind::Custom { path: "/p".into(), arg_template: "-c {cmd}".into() })
    );
    assert_eq!(build_shell(2, &o, "".into(), "".into()), Ok(ShellKind::Direct));
    assert_eq!(build_shell(-1, &o, "".into(), "".into()), Err("Please choose a shell".to_string()));
    assert_eq!(retention_days(None), 30);
    assert_eq!(retention_days(Some("14".into())), 14);
    assert_eq!(retention_days(Some("fourteen".into())), 30);
}

#[test]
fn schedule_from_editor_fields() {
    assert_eq!(build_schedule(0, 5, 1, String::new(), ""), Ok(Schedule::Interval { seconds: 300 }));
    assert_eq!(build_schedule(0, 2, 3, String::new(), ""), Ok(Schedule::Interval { seconds: 172800 }));
    assert_eq!(build_schedule(0, 7, 9, String::new(), ""), Ok(Schedule::Interval { seconds: 7 }));
    assert_eq!(
        build_schedule(0, 0, 2, String::new(), ""),
        Err("Interval must be at least 1 second".to_string())
    );
    assert_eq!(
        build_schedule(1, 0, 0, "0 9 * * *".into(), ""),
        Ok(Schedule::Cron { expr: "0 9 * * *".into() })
    );
    let bad = build_schedule(1, 0, 0, "nonsense".into(), "");
    assert!(bad.unwrap_err().starts_with("Invalid cron expression: "));
    assert!(matches!(build_schedule(2, 0, 0, String::new(), "  2030-06-01 12:30 "), Ok(Schedule::Once { .. })));
    assert_eq!(
        build_schedule(2, 0, 0, String::new(), "tomorrow"),
        Err("Once time must be in the form YYYY-MM-DD HH:MM".to_string())
    );
    assert_eq!(build_schedule(3, 0, 0, String::new(), ""), Err("Unknown schedule mode".to_string()));
}
