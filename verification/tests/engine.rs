use cronch::scheduler::{Control, ControlAction};
use cronch::model::{LastStatus, OverlapPolicy, Rule, Schedule, ShellKind};
use cronch::scheduler::{
    arm_fits_exec, history_retention_days, Engine, FireDecision, StoreWrite, Trigger,
};

const NOW: i64 = 1_767_225_600_000; // 2026-01-01T00:00:00Z

fn rule(id: u128, schedule: Schedule) -> Rule {
    Rule::with_identity(id, 0, format!("r{id}"), "echo hi".into(), ShellKind::Direct, schedule)
}

#[test]
fn catch_up_arms_a_missed_interval_rule_for_now() {
    let mut e = Engine::new();
    let mut r = rule(1, Schedule::Interval { seconds: 60 });
    r.last_run = Some(NOW - 3_600_000); // an hour ago: 59 runs were missed
    assert!(arm_fits_exec(&r, true, NOW));
    let w = e.arm_rule(r, true, NOW);
    assert_eq!(w, vec![StoreWrite::NextRun { id: 1, next: Some(NOW) }]);
    assert_eq!(e.armed_at(1), Some(NOW));
    // It is due once; after the fire it is armed strictly in the future.
    assert_eq!(e.due(NOW), vec![1]);
    assert_eq!(e.fire(1), FireDecision::Start);
    e.job_started(1, NOW);
    let w = e.advance(1, NOW);
    assert_eq!(w, vec![StoreWrite::NextRun { id: 1, next: Some(NOW + 60_000) }]);
    assert!(e.due(NOW).is_empty());
}

#[test]
fn without_catch_up_interval_counts_from_now() {
    let mut e = Engine::new();
    let mut r = rule(2, Schedule::Interval { seconds: 60 });
    r.last_run = Some(NOW - 3_600_000);
    e.arm_rule(r, false, NOW);
    assert_eq!(e.armed_at(2), Some(NOW + 60_000));
    // A rule that never ran counts from now either way.
    let r = rule(3, Schedule::Interval { seconds: 30 });
    e.arm_rule(r, true, NOW);
    assert_eq!(e.armed_at(3), Some(NOW + 30_000));
}

#[test]
fn missed_one_shot_runs_with_catch_up_and_expires_without() {
    let mut e = Engine::new();
    let r = rule(4, Schedule::Once { at: NOW - 1000 });
    let w = e.arm_rule(r.clone(), true, NOW);
    assert_eq!(w, vec![StoreWrite::NextRun { id: 4, next: Some(NOW) }]);
    let w = e.arm_rule(r, false, NOW);
    assert_eq!(
        w,
        vec![
            StoreWrite::Status { id: 4, status: LastStatus::Expired },
            StoreWrite::NextRun { id: 4, next: None },
        ]
    );
    assert_eq!(e.armed_at(4), None);
    // A future one-shot is armed at its time, and not re-armed after firing.
    let r = rule(5, Schedule::Once { at: NOW + 5000 });
    e.arm_rule(r, false, NOW);
    assert_eq!(e.armed_at(5), Some(NOW + 5000));
    e.advance(5, NOW + 5000);
    assert_eq!(e.armed_at(5), None);
}

#[test]
fn cron_rule_catch_up() {
    let mut e = Engine::new();
    let mut r = rule(6, Schedule::Cron { expr: "0 9 * * *".into() });
    r.last_run = Some(NOW - 2 * 86_400_000); // two days ago: missed 09:00 runs
    e.arm_rule(r.clone(), true, NOW);
    assert_eq!(e.armed_at(6), Some(NOW));
    e.arm_rule(r, false, NOW);
    assert_eq!(e.armed_at(6), Some(NOW + 9 * 3_600_000));
}

#[test]
fn disabled_rule_is_not_armed_and_does_not_fire() {
    let mut e = Engine::new();
    let mut r = rule(7, Schedule::Interval { seconds: 10 });
    r.enabled = false;
    let w = e.arm_rule(r, true, NOW);
    assert!(w.is_empty());
    assert_eq!(e.armed_at(7), None);
    assert!(e.rule(7).is_some());
    assert_eq!(e.fire(7), FireDecision::Ignore);
    assert_eq!(e.fire(99), FireDecision::Ignore);
}

#[test]
fn overlap_policies() {
    let mut e = Engine::new();
    let mut skip = rule(10, Schedule::Interval { seconds: 10 });
    skip.overlap = OverlapPolicy::Skip;
    let mut queue = rule(11, Schedule::Interval { seconds: 10 });
    queue.overlap = OverlapPolicy::Queue;
    let mut par = rule(12, Schedule::Interval { seconds: 10 });
    par.overlap = OverlapPolicy::Parallel;
    e.load_all(vec![skip, queue, par], false, NOW);
    for id in [10, 11, 12] {
        assert_eq!(e.fire(id), FireDecision::Start);
        e.job_started(id, NOW);
        assert_eq!(e.rule(id).unwrap().last_status, LastStatus::Running);
        assert_eq!(e.rule(id).unwrap().last_run, Some(NOW));
    }
    assert_eq!(e.fire(10), FireDecision::Skip);
    assert_eq!(e.fire(11), FireDecision::Queue);
    assert_eq!(e.fire(11), FireDecision::Queue);
    assert!(e.is_pending(11));
    assert_eq!(e.fire(12), FireDecision::Start);

    // The queued run starts once when the job completes.
    let c = e.job_done(11, Some(0), true);
    assert_eq!(c.status, LastStatus::Success);
    assert!(c.requeue);
    assert!(!e.is_pending(11));
    assert!(!e.is_running(11));
    e.job_started(11, NOW + 1);
    let c = e.job_done(11, Some(3), false);
    assert_eq!(c.status, LastStatus::Failed);
    assert!(!c.requeue);
    assert_eq!(e.rule(11).unwrap().last_exit_code, Some(3));
    assert_eq!(e.rule(11).unwrap().last_status, LastStatus::Failed);
}

#[test]
fn load_all_forgets_rules_no_longer_listed() {
    let mut e = Engine::new();
    e.load_all(
        vec![rule(20, Schedule::Interval { seconds: 5 }), rule(21, Schedule::Interval { seconds: 5 })],
        false,
        NOW,
    );
    assert!(e.armed_at(20).is_some() && e.armed_at(21).is_some());
    let w = e.load_all(vec![rule(21, Schedule::Interval { seconds: 7 })], false, NOW);
    assert_eq!(w, vec![StoreWrite::NextRun { id: 21, next: Some(NOW + 7000) }]);
    assert!(e.rule(20).is_none());
    assert_eq!(e.armed_at(20), None);
    e.remove_rule(21);
    assert!(e.rule(21).is_none() && e.armed_at(21).is_none());
    // Reloading a rule that is gone forgets it.
    e.arm_rule(rule(22, Schedule::Interval { seconds: 5 }), false, NOW);
    e.reload_one(22, None, NOW);
    assert!(e.rule(22).is_none());
}

#[test]
fn due_and_sleep() {
    let mut e = Engine::new();
    assert_eq!(e.next_sleep_ms(NOW), 30_000);
    e.arm_rule(rule(30, Schedule::Once { at: NOW + 5_000 }), false, NOW);
    e.arm_rule(rule(31, Schedule::Once { at: NOW + 90_000 }), false, NOW);
    assert_eq!(e.next_sleep_ms(NOW), 5_000);
    assert_eq!(e.next_sleep_ms(NOW + 4_950), 200);
    assert_eq!(e.next_sleep_ms(NOW + 10_000), 200);
    assert_eq!(e.next_sleep_ms(NOW - 60_000), 30_000);
    assert!(e.due(NOW).is_empty());
    let mut due = e.due(NOW + 100_000);
    due.sort();
    assert_eq!(due, vec![30, 31]);
    e.pause_all();
    assert!(e.is_paused());
    assert!(e.due(NOW + 100_000).is_empty());
    assert_eq!(e.next_sleep_ms(NOW), 30_000);
    e.resume_all();
    assert!(!e.is_paused());
    assert_eq!(e.due(NOW + 5_000), vec![30]);
}

#[test]
fn manual_run_takes_the_rule() {
    let mut e = Engine::new();
    let mut r = rule(40, Schedule::Interval { seconds: 5 });
    r.enabled = false;
    e.run_now(r);
    assert!(e.rule(40).is_some());
    assert_eq!(e.armed_at(40), None);
    e.job_started(40, NOW);
    assert!(e.is_running(40));
}

#[test]
fn triggers_and_retention() {
    assert_eq!(Trigger::Schedule.as_str(), "schedule");
    assert_eq!(Trigger::Manual.as_str(), "manual");
    assert_eq!(Trigger::Queued.as_str(), "queued");
    assert_eq!(history_retention_days(None), 30);
    assert_eq!(history_retention_days(Some("7".into())), 7);
    assert_eq!(history_retention_days(Some("-1".into())), -1);
    assert_eq!(history_retention_days(Some("x".into())), 30);
}

#[test]
fn arm_fits_rejects_out_of_range_arithmetic() {
    let r = rule(50, Schedule::Interval { seconds: i64::MAX });
    assert!(!arm_fits_exec(&r, true, NOW));
    let r = rule(51, Schedule::Interval { seconds: 60 });
    assert!(arm_fits_exec(&r, true, NOW));
    let e = Engine::new();
    assert!(e.advance_fits_exec(51, NOW));
}

#[test]
fn a_tick_fires_each_due_rule_once() {
    let mut e = Engine::new();
    let mut skip = rule(30, Schedule::Interval { seconds: 60 });
    skip.overlap = OverlapPolicy::Skip;
    skip.last_run = Some(NOW - 10 * 3_600_000); // far behind
    let mut queue = rule(31, Schedule::Interval { seconds: 60 });
    queue.overlap = OverlapPolicy::Queue;
    queue.last_run = Some(NOW - 120_000);
    let mut once = rule(32, Schedule::Once { at: NOW - 5 });
    once.last_run = None;
    let later = rule(33, Schedule::Interval { seconds: 600 });
    e.load_all(vec![skip, queue, once, later], true, NOW);
    e.job_started(30, NOW - 1);
    e.job_started(31, NOW - 1);
    assert!(e.tick_fits_exec(NOW));
    let (mut fired, writes) = e.tick(NOW);
    fired.sort_by_key(|p| p.0);
    assert_eq!(
        fired,
        vec![(30, FireDecision::Skip), (31, FireDecision::Queue), (32, FireDecision::Start)]
    );
    assert!(writes.contains(&StoreWrite::Status { id: 30, status: LastStatus::Skipped }));
    assert!(writes.contains(&StoreWrite::NextRun { id: 30, next: Some(NOW + 60_000) }));
    assert!(writes.contains(&StoreWrite::NextRun { id: 31, next: Some(NOW + 60_000) }));
    assert!(writes.contains(&StoreWrite::NextRun { id: 32, next: None }));
    assert_eq!(writes.len(), 4);
    assert!(e.is_pending(31));
    // Nothing is due any more at the same instant; the untouched rule keeps its time.
    assert!(e.due(NOW).is_empty());
    assert_eq!(e.armed_at(33), Some(NOW + 600_000));
    let (fired, writes) = e.tick(NOW);
    assert!(fired.is_empty() && writes.is_empty());
    // Paused: nothing fires.
    e.pause_all();
    let (fired, _) = e.tick(NOW + 3_600_000);
    assert!(fired.is_empty());
}

#[test]
fn control_messages() {
    let mut e = Engine::new();
    assert_eq!(e.control(Control::StartupLoad), ControlAction::LoadAll { catch_up: true });
    assert_eq!(e.control(Control::ReloadAll), ControlAction::LoadAll { catch_up: false });
    assert_eq!(e.control(Control::ReloadRule(5)), ControlAction::ReloadOne { id: 5, catch_up: false });
    assert_eq!(e.control(Control::RunNow(5)), ControlAction::FetchAndRun { id: 5 });
    e.load_all(vec![rule(40, Schedule::Interval { seconds: 5 })], false, NOW);
    assert_eq!(e.control(Control::RemoveRule(40)), ControlAction::Continue);
    assert!(e.rule(40).is_none());
    assert_eq!(e.armed_at(40), None);
    assert_eq!(e.control(Control::PauseAll), ControlAction::Continue);
    assert!(e.is_paused());
    assert_eq!(e.control(Control::ResumeAll), ControlAction::LoadAll { catch_up: false });
    assert!(!e.is_paused());
    assert_eq!(e.control(Control::Shutdown), ControlAction::Stop);
}

#[test]
fn a_pass_fires_then_says_how_long_to_wait() {
    let mut e = Engine::new();
    let mut r = rule(41, Schedule::Interval { seconds: 10 });
    r.last_run = Some(NOW - 60_000);
    e.load_all(vec![r], true, NOW);
    let (fired, _, wait) = e.pass(NOW);
    assert_eq!(fired, vec![(41, FireDecision::Start)]);
    assert_eq!(wait, 10_000);
    let (fired, writes, wait) = e.pass(NOW + 1);
    assert!(fired.is_empty() && writes.is_empty());
    assert_eq!(wait, 9_999);
    e.pause_all();
    let (fired, _, wait) = e.pass(NOW + 20_000);
    assert!(fired.is_empty());
    assert_eq!(wait, 30_000);
}

#[test]
fn a_rejected_cron_rule_is_never_armed() {
    let mut e = Engine::new();
    let mut bad = rule(50, Schedule::Cron { expr: "nonsense".into() });
    bad.last_run = Some(NOW - 86_400_000);
    e.load_all(vec![bad.clone()], true, NOW);
    assert_eq!(e.armed_at(50), None);
    e.arm_rule(bad, false, NOW);
    assert_eq!(e.armed_at(50), None);
    let (fired, _, _) = e.pass(NOW);
    assert!(fired.is_empty());
    assert_eq!(e.fire(50), FireDecision::Start);
    e.advance(50, NOW);
    assert_eq!(e.armed_at(50), None);
}
