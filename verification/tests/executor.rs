use cronch::envres::BaseEnv;
use cronch::executor::{
    clamp, command_env, render_template, resolve_program_args, working_dir_of, Outcome, MAX_CAPTURE,
};
use cronch::model::{EnvVar, Rule, Schedule, ShellKind};
use cronch::shell::{first_existing, locate, unix_candidates, windows_candidates, ShellCatalog, ShellInfo};

fn rule_with(shell: ShellKind, command: &str) -> Rule {
    Rule::with_identity(1, 0, "r".into(), command.into(), shell, Schedule::Interval { seconds: 5 })
}

fn catalog() -> ShellCatalog {
    ShellCatalog {
        shells: vec![
            ShellInfo { key: "sh".into(), label: "sh".into(), path: "/bin/sh".into(), arg_template: "-c {cmd}".into() },
            ShellInfo { key: "sh".into(), label: "other".into(), path: "/usr/bin/sh".into(), arg_template: "-x".into() },
        ],
    }
}

#[test]
fn template_keeps_command_as_single_arg() {
    let args = render_template("-NoProfile -Command {cmd}", "echo a b c");
    assert_eq!(args, vec!["-NoProfile", "-Command", "echo a b c"]);
}

#[test]
fn template_edge_cases() {
    assert_eq!(render_template("  -c   {cmd}  ", "x"), vec!["-c", "x"]);
    assert_eq!(render_template("{cmd}{cmd} {cmd}", "y"), vec!["{cmd}{cmd}", "y"]);
    assert!(render_template("", "z").is_empty());
}

#[test]
fn direct_commands_are_split_like_a_shell() {
    let r = rule_with(ShellKind::Direct, "echo 'a b' c");
    let (p, a) = resolve_program_args(&r, &catalog()).unwrap();
    assert_eq!(p, "echo");
    assert_eq!(a, vec!["a b", "c"]);
    let r = rule_with(ShellKind::Direct, "echo 'open");
    assert_eq!(
        resolve_program_args(&r, &catalog()),
        Err("cannot parse command: missing closing quote".to_string())
    );
    let r = rule_with(ShellKind::Direct, "   ");
    assert_eq!(resolve_program_args(&r, &catalog()), Err("empty command".to_string()));
}

#[test]
fn custom_and_detected_shells() {
    let r = rule_with(
        ShellKind::Custom { path: "/opt/fish".into(), arg_template: "-c {cmd}".into() },
        "ls -la",
    );
    assert_eq!(
        resolve_program_args(&r, &catalog()),
        Ok(("/opt/fish".to_string(), vec!["-c".to_string(), "ls -la".to_string()]))
    );
    let r = rule_with(ShellKind::Detected { key: "sh".into() }, "ls");
    assert_eq!(
        resolve_program_args(&r, &catalog()),
        Ok(("/bin/sh".to_string(), vec!["-c".to_string(), "ls".to_string()]))
    );
    let r = rule_with(ShellKind::Detected { key: "zsh".into() }, "ls");
    assert_eq!(
        resolve_program_args(&r, &catalog()),
        Err("shell 'zsh' not found on this machine".to_string())
    );
}

#[test]
fn catalog_lookup_and_detection() {
    let c = catalog();
    assert_eq!(c.get("sh").unwrap().path, "/bin/sh");
    assert!(c.get("bash").is_none());
    let cands = unix_candidates();
    let keys: Vec<&str> = cands.iter().map(|c| c.key.as_str()).collect();
    assert_eq!(keys, vec!["zsh", "bash", "sh", "fish"]);
    let found = vec![None, Some("/bin/bash".to_string()), Some("/bin/sh".to_string()), None];
    let cat = ShellCatalog::detect(cands, found);
    assert_eq!(cat.shells.len(), 2);
    assert_eq!(cat.shells[0].key, "bash");
    assert_eq!(cat.shells[0].path, "/bin/bash");
    assert_eq!(cat.shells[1].arg_template, "-c {cmd}");
    let w = windows_candidates(None, Some("D:\\cmd.exe".into()));
    assert_eq!(w[0].paths, vec!["D:\\cmd.exe".to_string(), "C:\\Windows\\System32\\cmd.exe".to_string()]);
    assert_eq!(w[1].arg_template, "-NoProfile -Command {cmd}");
    assert_eq!(w[4].arg_template, "-e bash -c {cmd}");
}

#[test]
fn outcome_error_and_clamp() {
    let o = Outcome::error("boom".into());
    assert_eq!(o.stderr, "cronch: boom");
    assert!(!o.success && o.exit_code.is_none() && o.stdout.is_empty());
    assert_eq!(clamp("short".into()), "short");
    let long = "x".repeat(MAX_CAPTURE + 10);
    let c = clamp(long);
    assert!(c.starts_with(&"x".repeat(MAX_CAPTURE)));
    assert_eq!(c.len(), MAX_CAPTURE + "\n… [output truncated]".len());
    assert!(c.ends_with("\n… [output truncated]"));
    let exact = "y".repeat(MAX_CAPTURE);
    assert_eq!(clamp(exact.clone()), exact);
}

#[test]
fn working_dir_and_env() {
    let mut r = rule_with(ShellKind::Direct, "ls");
    assert_eq!(working_dir_of(&r), None);
    r.working_dir = Some("   ".into());
    assert_eq!(working_dir_of(&r), None);
    r.working_dir = Some("/tmp".into());
    assert_eq!(working_dir_of(&r), Some("/tmp".to_string()));

    let base = BaseEnv::resolve(
        vec![("PATH".into(), "/usr/bin".into()), ("HOME".into(), "/home/u".into())],
        Some("PATH=/opt/bin:/usr/bin\nNOEQUALS\nEXTRA=a=b\r\n".into()),
    );
    let mut vars: Vec<(String, String)> = base.iter().to_vec();
    vars.sort();
    assert_eq!(
        vars,
        vec![
            ("EXTRA".to_string(), "a=b".to_string()),
            ("HOME".to_string(), "/home/u".to_string()),
            ("PATH".to_string(), "/opt/bin:/usr/bin".to_string()),
        ]
    );
    r.env = vec![EnvVar { key: "HOME".into(), value: "/x".into() }];
    let env = command_env(&base, &r);
    assert_eq!(env.last().unwrap(), &("HOME".to_string(), "/x".to_string()));
    assert_eq!(env.len(), 4);
    let plain = BaseEnv::resolve(vec![("A".into(), "1".into())], None);
    assert_eq!(plain.iter().to_vec(), vec![("A".to_string(), "1".to_string())]);
}

#[test]
fn first_existing_path_wins() {
    let paths = vec!["/a".to_string(), "/b".to_string(), "/c".to_string()];
    assert_eq!(first_existing(&paths, &[false, true, true]), Some("/b".to_string()));
    assert_eq!(first_existing(&paths, &[false, false, false]), None);
    let cands = unix_candidates();
    // zsh: its /bin path first, then the PATH search.
    assert_eq!(locate(&cands[0], &[true], Some("/usr/bin/zsh".into())), Some("/bin/zsh".to_string()));
    assert_eq!(locate(&cands[0], &[false], Some("/usr/bin/zsh".into())), Some("/usr/bin/zsh".to_string()));
    assert_eq!(locate(&cands[0], &[false], None), None);
    // fish has no fixed path.
    assert_eq!(locate(&cands[3], &[], Some("/opt/fish".into())), Some("/opt/fish".to_string()));
    // cmd has no PATH search.
    let win = windows_candidates(None, None);
    assert_eq!(locate(&win[0], &[false], Some("C:\\x\\cmd.exe".into())), None);
    assert_eq!(ShellCatalog::default().shells.len(), 0);
}

#[test]
fn base_env_names_each_variable_once() {
    let process = vec![
        ("PATH".to_string(), "/bin".to_string()),
        ("HOME".to_string(), "/h".to_string()),
        ("PATH".to_string(), "/usr/bin".to_string()),
    ];
    let env = BaseEnv::resolve(process, Some("PATH=/opt/bin:/bin\nnoise\nLANG=C=x\n".into()));
    let mut names: Vec<&str> = env.iter().iter().map(|(k, _)| k.as_str()).collect();
    names.sort();
    assert_eq!(names, vec!["HOME", "LANG", "PATH"]);
    let get = |k: &str| env.iter().iter().find(|(n, _)| n == k).map(|(_, v)| v.clone());
    assert_eq!(get("PATH").as_deref(), Some("/opt/bin:/bin"));
    assert_eq!(get("LANG").as_deref(), Some("C=x"));
    assert_eq!(BaseEnv::default().iter().len(), 0);
    assert_eq!(env.clone().iter().len(), 3);
}
