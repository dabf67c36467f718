//! The scheduling engine's decisions: which rules are armed for when, what
//! happens when a rule fires (overlap policy), what one pass of the loop
//! fires, when a job completes, and how long the loop may sleep.
//!
//! The engine state is a value of this module; the loop that sleeps, receives
//! control messages, runs jobs and writes to the store lives with the caller,
//! which hands each event (with the current time) to a method here and performs
//! the writes and job starts that it returns.
//!
//! Catch-up is applied only at startup: a past-due rule is armed for `now`
//! (fires once), then advanced strictly into the future, coalescing any
//! backlog into a single run.

use crate::model::{
    next_fire, next_fire_fits, shift_fits, sub_second, shift_fits_exec, shifted, valid_instant,
    LastStatus, OverlapPolicy, Rule, Schedule, MAX_INSTANT_MS, MIN_INSTANT_MS,
};
use crate::text::{parse_i64, parsed_i64};
use std::collections::{HashMap, HashSet};
use vstd::prelude::*;

verus! {

broadcast use {vstd::std_specs::hash::group_hash_axioms};

/// A write to the store that a decision of the engine calls for.
#[derive(Clone, Copy, Debug, PartialEq, Eq, Structural)]
pub enum StoreWrite {
    /// Store the rule's next fire time (or none).
    NextRun { id: u128, next: Option<i64> },
    /// Store the rule's last status.
    Status { id: u128, status: LastStatus },
}

/// Why a job is started.
#[derive(Clone, Copy, Debug, PartialEq, Eq, Structural)]
pub enum Trigger {
    Schedule,
    Manual,
    Queued,
}

/// The name of a trigger, as run history stores it.
pub open spec fn trigger_name(t: Trigger) -> Seq<char> {
    match t {
        Trigger::Schedule => "schedule"@,
        Trigger::Manual => "manual"@,
        Trigger::Queued => "queued"@,
    }
}

impl Trigger {
    pub fn as_str(&self) -> (r: &'static str)
        ensures
            r@ == trigger_name(*self),
    {
        match self {
            Trigger::Schedule => "schedule",
            Trigger::Manual => "manual",
            Trigger::Queued => "queued",
        }
    }
}

/// What firing a rule comes to.
#[derive(Clone, Copy, Debug, PartialEq, Eq, Structural)]
pub enum FireDecision {
    /// The rule is unknown or disabled: nothing happens.
    Ignore,
    /// The previous run is still going and the policy is `Skip`: the rule's
    /// status becomes `Skipped` and no job starts.
    Skip,
    /// The previous run is still going and the policy is `Queue`: one more run
    /// starts when it completes.
    Queue,
    /// A job starts now.
    Start,
}

/// What a job's completion comes to.
#[derive(Clone, Copy, Debug, PartialEq, Eq, Structural)]
pub struct Completion {
    /// The rule's new last status.
    pub status: LastStatus,
    /// A queued run of the same rule starts now.
    pub requeue: bool,
}

/// The engine's state as mathematical values.
#[verifier::ext_equal]
pub struct EngineView {
    /// Next fire time of each armed rule.
    pub armed: Map<u128, i64>,
    /// The known rules, by id.
    pub rules: Map<u128, Rule>,
    /// Rules with a job in flight.
    pub running: Set<u128>,
    /// Rules with a queued run waiting for their job to complete.
    pub pending: Set<u128>,
    pub paused: bool,
}

impl EngineView {
    /// Every rule is filed under its own id, and only known rules are armed.
    pub open spec fn inv(self) -> bool {
        &&& forall|id: u128| #[trigger] self.rules.contains_key(id) ==> self.rules[id].id == id
        &&& forall|id: u128| #[trigger] self.armed.contains_key(id) ==> self.rules.contains_key(id)
    }
}

/// The invariant carries over a change that touches rule `id` only: the
/// other rules are as before, no other rule became armed, and rule `id`, if
/// known, is filed under its own id and, if armed, known.
pub proof fn lemma_inv_frame(v: EngineView, w: EngineView, id: u128)
    requires
        v.inv(),
        forall|k: u128| k != id ==> (#[trigger] w.rules.contains_key(k) == v.rules.contains_key(k)),
        forall|k: u128| k != id && #[trigger] w.rules.contains_key(k) ==> w.rules[k] == v.rules[k],
        forall|k: u128| k != id && #[trigger] w.armed.contains_key(k) ==> v.armed.contains_key(k),
        w.rules.contains_key(id) ==> w.rules[id].id == id,
        w.armed.contains_key(id) ==> w.rules.contains_key(id),
    ensures
        w.inv(),
{
    assert forall|k: u128| w.rules.contains_key(k) implies w.rules[k].id == k by {
        if k != id {
            assert(v.rules.contains_key(k));
        }
    }
    assert forall|k: u128| w.armed.contains_key(k) implies w.rules.contains_key(k) by {
        if k != id {
            assert(v.armed.contains_key(k));
            assert(v.rules.contains_key(k));
        }
    }
}

/// An optional mathematical instant as a machine integer.
pub open spec fn opt_i64(t: Option<int>) -> Option<i64> {
    match t {
        Some(x) => Some(x as i64),
        None => None,
    }
}

/// The instant from which an interval rule counts: its last run, else now.
pub open spec fn anchor(r: Rule, now: int) -> int {
    match r.last_run {
        Some(l) => l as int,
        None => now,
    }
}

/// When an enabled rule is armed (with or without catch-up), if at all.
pub open spec fn armed_time(r: Rule, catch_up: bool, now: int) -> Option<int> {
    match r.schedule {
        Schedule::Interval { seconds } => {
            let n = shifted(anchor(r, now), seconds as int);
            if n <= now {
                if catch_up {
                    Some(now)
                } else {
                    Some(shifted(now, seconds as int))
                }
            } else {
                Some(n)
            }
        },
        Schedule::Cron { .. } => {
            if catch_up && missed_cron(r, now) {
                Some(now)
            } else {
                next_fire(r.schedule, now)
            }
        },
        Schedule::Once { at } => {
            if at > now {
                Some(at as int)
            } else if r.last_run is None && catch_up {
                Some(now)
            } else {
                None
            }
        },
    }
}

/// A cron rule that has run before missed a fire time after its last run.
pub open spec fn missed_cron(r: Rule, now: int) -> bool {
    &&& r.last_run is Some
    &&& next_fire(r.schedule, r.last_run->0 as int) matches Some(m)
    &&& m <= now
}

/// Arming the rule without catch-up finds a one-shot that never ran and whose
/// time has passed: it is marked expired.
pub open spec fn expires_on_arm(r: Rule, catch_up: bool, now: int) -> bool {
    &&& r.schedule matches Schedule::Once { at }
    &&& at <= now
    &&& r.last_run is None
    &&& !catch_up
}

/// Arming an enabled rule keeps every instant within chrono's range (chrono
/// panics otherwise).
pub open spec fn arm_fits(r: Rule, catch_up: bool, now: int) -> bool {
    &&& valid_instant(now)
    &&& r.enabled ==> match r.schedule {
        Schedule::Interval { seconds } => {
            &&& shift_fits(anchor(r, now), seconds as int)
            &&& (shifted(anchor(r, now), seconds as int) <= now && !catch_up) ==> shift_fits(
                now,
                seconds as int,
            )
        },
        Schedule::Cron { .. } => {
            &&& (catch_up && r.last_run is Some) ==> next_fire_fits(
                r.schedule,
                r.last_run->0 as int,
            )
            &&& !(catch_up && missed_cron(r, now)) ==> next_fire_fits(r.schedule, now)
        },
        Schedule::Once { .. } => true,
    }
}

/// The state and store writes after arming `r`.
pub open spec fn arm_step(v: EngineView, r: Rule, catch_up: bool, now: int) -> (
    EngineView,
    Seq<StoreWrite>,
) {
    let rules = v.rules.insert(r.id, r);
    if !r.enabled {
        (EngineView { armed: v.armed.remove(r.id), rules, ..v }, Seq::empty())
    } else {
        let t = armed_time(r, catch_up, now);
        let armed = match t {
            Some(x) => v.armed.insert(r.id, x as i64),
            None => v.armed.remove(r.id),
        };
        let expire: Seq<StoreWrite> = if expires_on_arm(r, catch_up, now) {
            seq![StoreWrite::Status { id: r.id, status: LastStatus::Expired }]
        } else {
            Seq::empty()
        };
        (
            EngineView { armed, rules, ..v },
            expire.push(StoreWrite::NextRun { id: r.id, next: opt_i64(t) }),
        )
    }
}

/// The engine's state.
pub struct Engine {
    armed: HashMap<u128, i64>,
    rules: HashMap<u128, Rule>,
    running: HashSet<u128>,
    pending: HashSet<u128>,
    paused: bool,
}

impl View for Engine {
    type V = EngineView;

    closed spec fn view(&self) -> EngineView {
        EngineView {
            armed: self.armed@,
            rules: self.rules@,
            running: self.running@,
            pending: self.pending@,
            paused: self.paused,
        }
    }
}

/// When an enabled rule is armed, and whether it expires, computed.
fn arm_time(rule: &Rule, catch_up: bool, now: i64) -> (r: (Option<i64>, bool))
    requires
        rule.enabled,
        arm_fits(*rule, catch_up, now as int),
    ensures
        r.0 == opt_i64(armed_time(*rule, catch_up, now as int)),
        r.1 == expires_on_arm(*rule, catch_up, now as int),
        !sub_second(rule.schedule) ==> (r.0 matches Some(t) ==> t >= now && (!catch_up
            ==> t > now)),
{
    match &rule.schedule {
        Schedule::Interval { seconds } => {
            let anchor = match rule.last_run {
                Some(l) => l,
                None => now,
            };
            let mut n = anchor + *seconds * 1000;
            if n <= now {
                n = if catch_up {
                    now
                } else {
                    now + *seconds * 1000
                };
            }
            (Some(n), false)
        },
        Schedule::Cron { .. } => {
            if catch_up {
                let missed = match rule.last_run {
                    Some(last) => rule.schedule.next_after(last),
                    None => None,
                };
                match missed {
                    Some(m) if m <= now => (Some(now), false),
                    _ => (rule.schedule.next_after(now), false),
                }
            } else {
                (rule.schedule.next_after(now), false)
            }
        },
        Schedule::Once { at } => {
            if *at > now {
                (Some(*at), false)
            } else if rule.last_run.is_none() {
                if catch_up {
                    (Some(now), false)
                } else {
                    (None, true)
                }
            } else {
                (None, false)
            }
        },
    }
}

} // verus!

verus! {

/// Advancing a rule after a scheduled fire keeps every instant within chrono's
/// range (chrono panics otherwise).
pub open spec fn advance_fits(v: EngineView, id: u128, now: int) -> bool {
    v.rules.contains_key(id) && v.rules[id].enabled && !(v.rules[id].schedule is Once)
        ==> next_fire_fits(v.rules[id].schedule, now)
}

/// The state and store writes after advancing rule `id` past a scheduled fire:
/// the next occurrence strictly after `now` (a one-shot has none).
pub open spec fn advance_step(v: EngineView, id: u128, now: int) -> (EngineView, Seq<StoreWrite>) {
    if !v.rules.contains_key(id) {
        (v, Seq::empty())
    } else if !v.rules[id].enabled {
        (
            EngineView { armed: v.armed.remove(id), ..v },
            seq![StoreWrite::NextRun { id, next: None }],
        )
    } else {
        let next = if v.rules[id].schedule is Once {
            None
        } else {
            next_fire(v.rules[id].schedule, now)
        };
        let armed = match next {
            Some(t) => v.armed.insert(id, t as i64),
            None => v.armed.remove(id),
        };
        (EngineView { armed, ..v }, seq![StoreWrite::NextRun { id, next: opt_i64(next) }])
    }
}

/// The state and decision after rule `id` fires.
pub open spec fn fire_step(v: EngineView, id: u128) -> (EngineView, FireDecision) {
    if !v.rules.contains_key(id) || !v.rules[id].enabled {
        (v, FireDecision::Ignore)
    } else if v.running.contains(id) {
        match v.rules[id].overlap {
            OverlapPolicy::Skip => (v, FireDecision::Skip),
            OverlapPolicy::Queue => (
                EngineView { pending: v.pending.insert(id), ..v },
                FireDecision::Queue,
            ),
            OverlapPolicy::Parallel => (v, FireDecision::Start),
        }
    } else {
        (v, FireDecision::Start)
    }
}

/// The state once a job of rule `id` has started at `now`.
pub open spec fn started_step(v: EngineView, id: u128, now: int) -> EngineView {
    let rules = if v.rules.contains_key(id) {
        v.rules.insert(
            id,
            Rule { last_run: Some(now as i64), last_status: LastStatus::Running, ..v.rules[id] },
        )
    } else {
        v.rules
    };
    EngineView { running: v.running.insert(id), rules, ..v }
}

/// The state and outcome once a job of rule `id` has completed.
pub open spec fn done_step(v: EngineView, id: u128, exit_code: Option<i32>, success: bool) -> (
    EngineView,
    Completion,
) {
    let status = if success {
        LastStatus::Success
    } else {
        LastStatus::Failed
    };
    let rules = if v.rules.contains_key(id) {
        v.rules.insert(id, Rule { last_exit_code: exit_code, last_status: status, ..v.rules[id] })
    } else {
        v.rules
    };
    (
        EngineView { running: v.running.remove(id), pending: v.pending.remove(id), rules, ..v },
        Completion { status, requeue: v.pending.contains(id) && v.rules.contains_key(id) },
    )
}

/// The state after rule `id` is removed.
pub open spec fn remove_step(v: EngineView, id: u128) -> EngineView {
    EngineView {
        rules: v.rules.remove(id),
        armed: v.armed.remove(id),
        pending: v.pending.remove(id),
        ..v
    }
}

impl Engine {
    pub fn new() -> (e: Engine)
        ensures
            e@.inv(),
            e@.armed == Map::<u128, i64>::empty(),
            e@.rules == Map::<u128, Rule>::empty(),
            e@.running == Set::<u128>::empty(),
            e@.pending == Set::<u128>::empty(),
            !e@.paused,
    {
        Engine {
            armed: HashMap::new(),
            rules: HashMap::new(),
            running: HashSet::new(),
            pending: HashSet::new(),
            paused: false,
        }
    }

    /// Computes and stores the next fire time for a rule (with optional
    /// catch-up), returning the store writes it calls for.
    pub fn arm_rule(&mut self, rule: Rule, catch_up: bool, now: i64) -> (w: Vec<StoreWrite>)
        requires
            old(self)@.inv(),
            arm_fits(rule, catch_up, now as int),
        ensures
            final(self)@.inv(),
            (final(self)@, w@) == arm_step(old(self)@, rule, catch_up, now as int),
            !rule.enabled ==> !final(self)@.armed.contains_key(rule.id),
            // A rule is never armed in the past (unless its schedule is an
            // interval shorter than a second), and only catch-up arms it for
            // `now` itself.
            !sub_second(rule.schedule) && final(self)@.armed.contains_key(rule.id)
                ==> final(self)@.armed[rule.id] >= now && (!catch_up ==> final(self)@.armed[rule.id]
                > now),
    {
        let id = rule.id;
        let mut w: Vec<StoreWrite> = Vec::new();
        if !rule.enabled {
            self.armed.remove(&id);
            self.rules.insert(id, rule);
            proof {
                lemma_inv_frame(old(self)@, self@, id);
            }
            return w;
        }
        let (next, expire) = arm_time(&rule, catch_up, now);
        if expire {
            w.push(StoreWrite::Status { id, status: LastStatus::Expired });
        }
        match next {
            Some(t) => {
                self.armed.insert(id, t);
            },
            None => {
                self.armed.remove(&id);
            },
        }
        w.push(StoreWrite::NextRun { id, next });
        self.rules.insert(id, rule);
        w
    }

    /// After a scheduled fire, arms the next strictly-future occurrence.
    pub fn advance(&mut self, id: u128, now: i64) -> (w: Vec<StoreWrite>)
        requires
            old(self)@.inv(),
            advance_fits(old(self)@, id, now as int),
        ensures
            final(self)@.inv(),
            (final(self)@, w@) == advance_step(old(self)@, id, now as int),
            // The next arming lies strictly after `now` (unless the schedule is an
            // interval shorter than a second).
            old(self)@.rules.contains_key(id) && !sub_second(old(self)@.rules[id].schedule) && final(self)@.armed.contains_key(id) ==> final(self)@.armed[id] > now,
    {
        let mut w: Vec<StoreWrite> = Vec::new();
        let next = match self.rules.get(&id) {
            None => {
                return w;
            },
            Some(r) => {
                if !r.enabled {
                    self.armed.remove(&id);
                    w.push(StoreWrite::NextRun { id, next: None });
                    proof {
                        lemma_inv_frame(old(self)@, self@, id);
                    }
                    return w;
                }
                match &r.schedule {
                    Schedule::Once { .. } => None,
                    s => s.next_after(now),
                }
            },
        };
        match next {
            Some(t) => {
                self.armed.insert(id, t);
            },
            None => {
                self.armed.remove(&id);
            },
        }
        w.push(StoreWrite::NextRun { id, next });
        proof {
            lemma_inv_frame(old(self)@, self@, id);
        }
        w
    }

    /// Decides what firing rule `id` comes to (overlap policy).
    pub fn fire(&mut self, id: u128) -> (d: FireDecision)
        requires
            old(self)@.inv(),
        ensures
            final(self)@.inv(),
            (final(self)@, d) == fire_step(old(self)@, id),
    {
        let policy = match self.rules.get(&id) {
            None => {
                return FireDecision::Ignore;
            },
            Some(r) => {
                if !r.enabled {
                    return FireDecision::Ignore;
                }
                r.overlap
            },
        };
        if self.running.contains(&id) {
            match policy {
                OverlapPolicy::Skip => FireDecision::Skip,
                OverlapPolicy::Queue => {
                    self.pending.insert(id);
                    FireDecision::Queue
                },
                OverlapPolicy::Parallel => FireDecision::Start,
            }
        } else {
            FireDecision::Start
        }
    }

    /// Records that a job of rule `id` started at `now` (its run was opened in
    /// the store).
    pub fn job_started(&mut self, id: u128, now: i64)
        requires
            old(self)@.inv(),
        ensures
            final(self)@.inv(),
            final(self)@ == started_step(old(self)@, id, now as int),
    {
        self.running.insert(id);
        match self.rules.remove(&id) {
            Some(r) => {
                let updated = Rule { last_run: Some(now), last_status: LastStatus::Running, ..r };
                self.rules.insert(id, updated);
            },
            None => {},
        }
        proof {
            assert(old(self)@.armed.contains_key(id) ==> old(self)@.rules.contains_key(id));
            lemma_inv_frame(old(self)@, self@, id);
        }
    }

    /// Records that a job of rule `id` completed, and says whether a queued run
    /// starts now.
    pub fn job_done(&mut self, id: u128, exit_code: Option<i32>, success: bool) -> (c: Completion)
        requires
            old(self)@.inv(),
        ensures
            final(self)@.inv(),
            (final(self)@, c) == done_step(old(self)@, id, exit_code, success),
    {
        self.running.remove(&id);
        let status = if success {
            LastStatus::Success
        } else {
            LastStatus::Failed
        };
        let known = match self.rules.remove(&id) {
            Some(r) => {
                let updated = Rule { last_exit_code: exit_code, last_status: status, ..r };
                self.rules.insert(id, updated);
                true
            },
            None => false,
        };
        let was_pending = self.pending.remove(&id);
        proof {
            assert(old(self)@.armed.contains_key(id) ==> old(self)@.rules.contains_key(id));
            lemma_inv_frame(old(self)@, self@, id);
        }
        Completion { status, requeue: was_pending && known }
    }

    /// Takes a rule for a manual run: it is recorded as known (not armed anew),
    /// and the caller then starts its job.
    pub fn run_now(&mut self, rule: Rule)
        requires
            old(self)@.inv(),
        ensures
            final(self)@.inv(),
            final(self)@ == (EngineView { rules: old(self)@.rules.insert(rule.id, rule), ..old(self)@ }),
    {
        self.rules.insert(rule.id, rule);
    }

    /// Forgets rule `id`: no longer known, armed or queued.
    pub fn remove_rule(&mut self, id: u128)
        requires
            old(self)@.inv(),
        ensures
            final(self)@.inv(),
            final(self)@ == remove_step(old(self)@, id),
            !final(self)@.rules.contains_key(id),
            !final(self)@.armed.contains_key(id),
            !final(self)@.pending.contains(id),
    {
        self.rules.remove(&id);
        self.armed.remove(&id);
        self.pending.remove(&id);
        proof {
            lemma_inv_frame(old(self)@, self@, id);
        }
    }

    /// Reloads rule `id` as the store now has it (`None`: it is gone), without
    /// catch-up.
    pub fn reload_one(&mut self, id: u128, found: Option<Rule>, now: i64) -> (w: Vec<StoreWrite>)
        requires
            old(self)@.inv(),
            found matches Some(r) ==> arm_fits(r, false, now as int),
        ensures
            final(self)@.inv(),
            match found {
                Some(r) => (final(self)@, w@) == arm_step(old(self)@, r, false, now as int),
                None => final(self)@ == (EngineView {
                    rules: old(self)@.rules.remove(id),
                    armed: old(self)@.armed.remove(id),
                    ..old(self)@
                }) && w@.len() == 0,
            },
    {
        match found {
            Some(rule) => self.arm_rule(rule, false, now),
            None => {
                self.rules.remove(&id);
                self.armed.remove(&id);
                Vec::new()
            },
        }
    }

    pub fn pause_all(&mut self)
        requires
            old(self)@.inv(),
        ensures
            final(self)@.inv(),
            final(self)@ == (EngineView { paused: true, ..old(self)@ }),
    {
        self.paused = true;
    }

    /// Lifts the pause; the caller then reloads all rules without catch-up.
    pub fn resume_all(&mut self)
        requires
            old(self)@.inv(),
        ensures
            final(self)@.inv(),
            final(self)@ == (EngineView { paused: false, ..old(self)@ }),
    {
        self.paused = false;
    }

    pub fn is_paused(&self) -> (b: bool)
        ensures
            b == self@.paused,
    {
        self.paused
    }

    /// The rule known under `id`, if any.
    pub fn rule(&self, id: u128) -> (r: Option<&Rule>)
        ensures
            match r {
                Some(x) => self@.rules.contains_key(id) && *x == self@.rules[id],
                None => !self@.rules.contains_key(id),
            },
    {
        self.rules.get(&id)
    }

    /// When rule `id` is armed to fire, if it is.
    pub fn armed_at(&self, id: u128) -> (t: Option<i64>)
        ensures
            match t {
                Some(x) => self@.armed.contains_key(id) && x == self@.armed[id],
                None => !self@.armed.contains_key(id),
            },
    {
        match self.armed.get(&id) {
            Some(t) => Some(*t),
            None => None,
        }
    }

    pub fn is_running(&self, id: u128) -> (b: bool)
        ensures
            b == self@.running.contains(id),
    {
        self.running.contains(&id)
    }

    pub fn is_pending(&self, id: u128) -> (b: bool)
        ensures
            b == self@.pending.contains(id),
    {
        self.pending.contains(&id)
    }
}

} // verus!

verus! {

/// The ids of a list of rules.
pub open spec fn rule_ids(rules: Seq<Rule>) -> Set<u128> {
    Set::new(|id: u128| exists|i: int| 0 <= i < rules.len() && #[trigger] rules[i].id == id)
}

/// The state with only the rules of `ids` known, armed or queued.
pub open spec fn retain_ids(v: EngineView, ids: Set<u128>) -> EngineView {
    EngineView {
        armed: v.armed.restrict(ids),
        rules: v.rules.restrict(ids),
        pending: v.pending.intersect(ids),
        ..v
    }
}

/// The state and store writes after arming each rule of the list in turn.
pub open spec fn arm_all(v: EngineView, rules: Seq<Rule>, catch_up: bool, now: int) -> (
    EngineView,
    Seq<StoreWrite>,
)
    decreases rules.len(),
{
    if rules.len() == 0 {
        (v, Seq::empty())
    } else {
        let (v1, w1) = arm_all(v, rules.drop_last(), catch_up, now);
        let (v2, w2) = arm_step(v1, rules.last(), catch_up, now);
        (v2, w1 + w2)
    }
}

/// Every rule of the list can be armed within chrono's range.
pub open spec fn all_arm_fit(rules: Seq<Rule>, catch_up: bool, now: int) -> bool {
    forall|i: int| 0 <= i < rules.len() ==> arm_fits(#[trigger] rules[i], catch_up, now)
}

/// The ids of the armed rules due at `now` (none while paused).
pub open spec fn due_ids(v: EngineView, now: int) -> Set<u128> {
    if v.paused {
        Set::empty()
    } else {
        Set::new(|id: u128| v.armed.contains_key(id) && v.armed[id] <= now)
    }
}

/// `t` is the earliest armed time.
pub open spec fn is_earliest(m: Map<u128, i64>, t: int) -> bool {
    &&& exists|id: u128| #[trigger] m.contains_key(id) && m[id] == t
    &&& forall|id: u128| #[trigger] m.contains_key(id) ==> t <= m[id]
}

/// The earliest armed time (meaningful when something is armed).
pub open spec fn earliest(m: Map<u128, i64>) -> int {
    choose|t: int| is_earliest(m, t)
}

/// The engine loop never sleeps longer than this (milliseconds): it wakes at
/// least every 30 seconds.
pub const MAX_SLEEP_MS: u64 = 30_000u64;

/// The engine loop never sleeps shorter than this (milliseconds).
pub const MIN_SLEEP_MS: u64 = 200u64;

/// `d` brought into `[MIN_SLEEP_MS, MAX_SLEEP_MS]`.
pub open spec fn clamp_sleep(d: int) -> int {
    if d < MIN_SLEEP_MS {
        MIN_SLEEP_MS as int
    } else if d > MAX_SLEEP_MS {
        MAX_SLEEP_MS as int
    } else {
        d
    }
}

/// How long the loop sleeps: the longest while paused or with nothing armed,
/// else until the earliest armed time, within the bounds.
pub open spec fn sleep_ms(v: EngineView, now: int) -> int {
    if v.paused || v.armed.dom().len() == 0 {
        MAX_SLEEP_MS as int
    } else {
        clamp_sleep(earliest(v.armed) - now)
    }
}

/// Keeps only the entries of `m` whose key is in `keep`.
fn restrict_map<V>(m: &mut HashMap<u128, V>, keep: &HashSet<u128>)
    ensures
        final(m)@ == old(m)@.restrict(keep@),
{
    broadcast use vstd::seq_lib::group_seq_properties;

    let mut doomed: Vec<u128> = Vec::new();
    for k in it: m.keys()
        invariant
            it.seq().unref().to_set() == m@.dom(),
            forall|x: u128| #[trigger] doomed@.contains(x) ==> m@.contains_key(x) && !keep@.contains(x),
            forall|x: u128|
                #[trigger] m@.contains_key(x) && !keep@.contains(x) && !doomed@.contains(x)
                    ==> exists|j: int| it.index() <= j < it.seq().len() && *it.seq()[j] == x,
    {
        proof {
            assert(it.seq().unref()[it.index() as int] == *k);
            assert(it.seq().unref().to_set().contains(*k));
        }
        let ghost before = doomed@;
        if !keep.contains(k) {
            doomed.push(*k);
        }
        proof {
            assert(m@.contains_key(*k));
            assert forall|x: u128| #[trigger] doomed@.contains(x) implies m@.contains_key(x) && !keep@.contains(x) by {
                if x != *k {
                    assert(before.contains(x));
                }
            }
            assert forall|x: u128|
                #[trigger] m@.contains_key(x) && !keep@.contains(x) && !doomed@.contains(x)
                    implies exists|j: int|
                it.index() + 1 <= j < it.seq().len() && *it.seq()[j] == x by {
                assert(!before.contains(x)) by {
                    if before.contains(x) {
                        let i = choose|i: int| 0 <= i < before.len() && before[i] == x;
                        assert(doomed@[i] == x);
                    }
                }
                assert(x != *k) by {
                    if x == *k && !keep@.contains(*k) {
                        assert(doomed@[before.len() as int] == *k);
                    }
                }
                let j = choose|j: int| it.index() <= j < it.seq().len() && *it.seq()[j] == x;
                assert(j != it.index());
            }
        }
    }
    let n = doomed.len();
    for i in 0..n
        invariant
            n == doomed@.len(),
            forall|x: u128| #[trigger] doomed@.contains(x) ==> old(m)@.contains_key(x) && !keep@.contains(x),
            forall|x: u128| old(m)@.contains_key(x) && !keep@.contains(x) ==> #[trigger] doomed@.contains(x),
            forall|x: u128| #[trigger] m@.contains_key(x) ==> old(m)@.contains_key(x) && m@[x] == old(m)@[x],
            forall|x: u128| old(m)@.contains_key(x) && keep@.contains(x) ==> #[trigger] m@.contains_key(x),
            forall|j: int| 0 <= j < i ==> !m@.contains_key(#[trigger] doomed@[j]),
            forall|x: u128| #[trigger] m@.contains_key(x) && !keep@.contains(x) ==> exists|j: int| i <= j < n && doomed@[j] == x,
    {
        proof {
            assert(doomed@.contains(doomed@[i as int]));
        }
        m.remove(&doomed[i]);
    }
    assert(m@ =~= old(m)@.restrict(keep@));
}

/// Keeps only the members of `m` that are in `keep`.
fn restrict_set(m: &mut HashSet<u128>, keep: &HashSet<u128>)
    ensures
        final(m)@ == old(m)@.intersect(keep@),
{
    broadcast use vstd::seq_lib::group_seq_properties;

    let mut doomed: Vec<u128> = Vec::new();
    for k in it: m.iter()
        invariant
            it.seq().unref().to_set() == m@,
            forall|x: u128| #[trigger] doomed@.contains(x) ==> m@.contains(x) && !keep@.contains(x),
            forall|x: u128|
                #[trigger] m@.contains(x) && !keep@.contains(x) && !doomed@.contains(x)
                    ==> exists|j: int| it.index() <= j < it.seq().len() && *it.seq()[j] == x,
    {
        proof {
            assert(it.seq().unref()[it.index() as int] == *k);
            assert(it.seq().unref().to_set().contains(*k));
        }
        let ghost before = doomed@;
        if !keep.contains(k) {
            doomed.push(*k);
        }
        proof {
            assert(m@.contains(*k));
            assert forall|x: u128| #[trigger] doomed@.contains(x) implies m@.contains(x) && !keep@.contains(x) by {
                if x != *k {
                    assert(before.contains(x));
                }
            }
            assert forall|x: u128|
                #[trigger] m@.contains(x) && !keep@.contains(x) && !doomed@.contains(x)
                    implies exists|j: int|
                it.index() + 1 <= j < it.seq().len() && *it.seq()[j] == x by {
                assert(!before.contains(x)) by {
                    if before.contains(x) {
                        let i = choose|i: int| 0 <= i < before.len() && before[i] == x;
                        assert(doomed@[i] == x);
                    }
                }
                assert(x != *k) by {
                    if x == *k && !keep@.contains(*k) {
                        assert(doomed@[before.len() as int] == *k);
                    }
                }
                let j = choose|j: int| it.index() <= j < it.seq().len() && *it.seq()[j] == x;
                assert(j != it.index());
            }
        }
    }
    let n = doomed.len();
    for i in 0..n
        invariant
            n == doomed@.len(),
            forall|x: u128| #[trigger] doomed@.contains(x) ==> old(m)@.contains(x) && !keep@.contains(x),
            forall|x: u128| old(m)@.contains(x) && !keep@.contains(x) ==> #[trigger] doomed@.contains(x),
            forall|x: u128| #[trigger] m@.contains(x) ==> old(m)@.contains(x),
            forall|x: u128| old(m)@.contains(x) && keep@.contains(x) ==> #[trigger] m@.contains(x),
            forall|j: int| 0 <= j < i ==> !m@.contains(#[trigger] doomed@[j]),
            forall|x: u128| #[trigger] m@.contains(x) && !keep@.contains(x) ==> exists|j: int| i <= j < n && doomed@[j] == x,
    {
        proof {
            assert(doomed@.contains(doomed@[i as int]));
        }
        m.remove(&doomed[i]);
    }
    assert(m@ =~= old(m)@.intersect(keep@));
}

impl Engine {
    /// Loads the full list of rules as the store has it: rules no longer
    /// listed are forgotten (not armed, not queued), then each listed rule is
    /// armed in turn.
    pub fn load_all(&mut self, rules: Vec<Rule>, catch_up: bool, now: i64) -> (w: Vec<StoreWrite>)
        requires
            old(self)@.inv(),
            all_arm_fit(rules@, catch_up, now as int),
        ensures
            final(self)@.inv(),
            (final(self)@, w@) == arm_all(
                retain_ids(old(self)@, rule_ids(rules@)),
                rules@,
                catch_up,
                now as int,
            ),
    {
        let ghost orig = rules@;
        let n = rules.len();
        let mut ids: HashSet<u128> = HashSet::new();
        for i in 0..n
            invariant
                n == rules@.len(),
                forall|id: u128| #[trigger] ids@.contains(id) <==> exists|j: int| 0 <= j < i && rules@[j].id == id,
        {
            ids.insert(rules[i].id);
            proof {
                assert forall|id: u128| #[trigger] ids@.contains(id) <==> exists|j: int| 0 <= j < i + 1 && rules@[j].id == id by {
                    if id == rules@[i as int].id {
                        assert(rules@[i as int].id == id);
                    }
                }
            }
        }
        assert(ids@ =~= rule_ids(rules@));
        restrict_map(&mut self.armed, &ids);
        restrict_map(&mut self.rules, &ids);
        restrict_set(&mut self.pending, &ids);
        let ghost base = self@;
        assert(base == retain_ids(old(self)@, rule_ids(orig)));
        assert(base.inv()) by {
            assert forall|k: u128| base.armed.contains_key(k) implies base.rules.contains_key(k) by {
                assert(old(self)@.armed.contains_key(k));
            }
            assert forall|k: u128| base.rules.contains_key(k) implies base.rules[k].id == k by {
                assert(old(self)@.rules.contains_key(k));
            }
        }
        // Reverse the list so that popping yields the rules in order.
        let mut rest = rules;
        let mut stack: Vec<Rule> = Vec::new();
        while rest.len() > 0
            invariant
                orig.len() == n,
                rest@.len() + stack@.len() == n,
                rest@ == orig.take(rest@.len() as int),
                forall|j: int| 0 <= j < stack@.len() ==> #[trigger] stack@[j] == orig[n - 1 - j],
            decreases rest@.len(),
        {
            let r = rest.pop().unwrap();
            stack.push(r);
        }
        let mut w: Vec<StoreWrite> = Vec::new();
        let mut k: usize = 0;
        assert(orig.take(0) =~= Seq::<Rule>::empty());
        while stack.len() > 0
            invariant
                orig.len() == n,
                k + stack@.len() == n,
                forall|j: int| 0 <= j < stack@.len() ==> #[trigger] stack@[j] == orig[n - 1 - j],
                all_arm_fit(orig, catch_up, now as int),
                self@.inv(),
                (self@, w@) == arm_all(base, orig.take(k as int), catch_up, now as int),
            decreases stack@.len(),
        {
            let r = stack.pop().unwrap();
            assert(r == orig[k as int]);
            assert(arm_fits(orig[k as int], catch_up, now as int));
            let ghost before = self@;
            let ghost wb = w@;
            let more = self.arm_rule(r, catch_up, now);
            let mut more = more;
            w.append(&mut more);
            proof {
                assert(orig.take(k + 1).drop_last() =~= orig.take(k as int));
                assert(orig.take(k + 1).last() == orig[k as int]);
            }
            k = k + 1;
        }
        assert(orig.take(n as int) =~= orig);
        w
    }
}

impl Engine {
    /// The armed rules due at `now`, each once, in no particular order (none
    /// while paused).
    pub fn due(&self, now: i64) -> (ids: Vec<u128>)
        ensures
            ids@.no_duplicates(),
            ids@.to_set() == due_ids(self@, now as int),
            self@.paused ==> ids@.len() == 0,
    {
        broadcast use vstd::seq_lib::group_seq_properties;

        let mut ids: Vec<u128> = Vec::new();
        if self.paused {
            assert(ids@.to_set() =~= Set::<u128>::empty());
            return ids;
        }
        for (k, t) in it: self.armed.iter()
            invariant
                !self.paused,
                it.seq().no_duplicates(),
                forall|j: int|
                    #![trigger it.seq()[j]]
                    0 <= j < it.seq().len() ==> self.armed@.contains_key(*it.seq()[j].0)
                        && self.armed@[*it.seq()[j].0] == *it.seq()[j].1,
                forall|id: u128| #[trigger]
                    self.armed@.contains_key(id) ==> it.seq().contains((&id, &self.armed@[id])),
                ids@.no_duplicates(),
                forall|id: u128| #[trigger]
                    ids@.contains(id) ==> self.armed@.contains_key(id) && self.armed@[id] <= now
                        && exists|j: int| 0 <= j < it.index() && *it.seq()[j].0 == id,
                forall|id: u128|
                    #[trigger] self.armed@.contains_key(id) && self.armed@[id] <= now
                        && !ids@.contains(id) ==> exists|j: int|
                        it.index() <= j < it.seq().len() && *it.seq()[j].0 == id,
        {
            let ghost before = ids@;
            let ghost idx = it.index();
            proof {
                assert(it.seq()[idx] == (k, t));
            }
            if *t <= now {
                proof {
                    if before.contains(*k) {
                        let j = choose|j: int| 0 <= j < idx && *it.seq()[j].0 == *k;
                        assert(self.armed@[*it.seq()[j].0] == *it.seq()[j].1);
                        assert(it.seq()[j] == it.seq()[idx]);
                    }
                }
                ids.push(*k);
            }
            proof {
                assert forall|id: u128| #[trigger]
                    ids@.contains(id) implies self.armed@.contains_key(id) && self.armed@[id] <= now
                        && exists|j: int| 0 <= j < idx + 1 && *it.seq()[j].0 == id by {
                    if before.contains(id) {
                        let j = choose|j: int| 0 <= j < idx && *it.seq()[j].0 == id;
                        assert(0 <= j < idx + 1 && *it.seq()[j].0 == id);
                    } else {
                        assert(id == *k);
                        assert(*it.seq()[idx].0 == id);
                    }
                }
                assert forall|id: u128|
                    #[trigger] self.armed@.contains_key(id) && self.armed@[id] <= now
                        && !ids@.contains(id) implies exists|j: int|
                        idx + 1 <= j < it.seq().len() && *it.seq()[j].0 == id by {
                    assert(!before.contains(id)) by {
                        if before.contains(id) {
                            let i = choose|i: int| 0 <= i < before.len() && before[i] == id;
                            assert(ids@[i] == id);
                        }
                    }
                    let j = choose|j: int| idx <= j < it.seq().len() && *it.seq()[j].0 == id;
                    if j == idx {
                        assert(id == *k);
                        assert(*t == self.armed@[id]);
                        assert(ids@[before.len() as int] == id);
                    }
                }
            }
        }
        assert(ids@.to_set() =~= due_ids(self@, now as int));
        ids
    }
}

/// The earliest armed time is unique.
pub proof fn lemma_earliest_unique(m: Map<u128, i64>, t: int)
    requires
        is_earliest(m, t),
    ensures
        earliest(m) == t,
{
    let e = earliest(m);
    assert(is_earliest(m, e));
    let a = choose|id: u128| #[trigger] m.contains_key(id) && m[id] == t;
    let b = choose|id: u128| #[trigger] m.contains_key(id) && m[id] == e;
    assert(t <= m[b]);
    assert(e <= m[a]);
}

impl Engine {
    /// How long the loop may sleep before it must look again (milliseconds).
    pub fn next_sleep_ms(&self, now: i64) -> (d: u64)
        ensures
            d == sleep_ms(self@, now as int),
            MIN_SLEEP_MS <= d <= MAX_SLEEP_MS,
    {
        if self.paused {
            return MAX_SLEEP_MS;
        }
        let mut best: Option<i64> = None;
        for (k, t) in it: self.armed.iter()
            invariant
                forall|j: int|
                    #![trigger it.seq()[j]]
                    0 <= j < it.seq().len() ==> self.armed@.contains_key(*it.seq()[j].0)
                        && self.armed@[*it.seq()[j].0] == *it.seq()[j].1,
                forall|id: u128| #[trigger]
                    self.armed@.contains_key(id) ==> it.seq().contains((&id, &self.armed@[id])),
                it.seq().len() == self.armed@.dom().len(),
                best is None ==> it.index() == 0,
                best matches Some(b) ==> {
                    &&& exists|id: u128| #[trigger] self.armed@.contains_key(id) && self.armed@[id] == b
                    &&& forall|j: int| 0 <= j < it.index() ==> b <= *(#[trigger] it.seq()[j]).1
                },
        {
            let ghost idx = it.index();
            proof {
                assert(it.seq()[idx] == (k, t));
                assert(self.armed@.contains_key(*k));
            }
            best = match best {
                None => Some(*t),
                Some(b) => Some(if *t < b { *t } else { b }),
            };
        }
        match best {
            None => {
                MAX_SLEEP_MS
            },
            Some(b) => {
                proof {
                    assert forall|id: u128| #[trigger] self.armed@.contains_key(id) implies b <= self.armed@[id] by {
                    }
                    lemma_earliest_unique(self.armed@, b as int);
                }
                let diff: i128 = (b as i128) - (now as i128);
                if diff < MIN_SLEEP_MS as i128 {
                    MIN_SLEEP_MS
                } else if diff > MAX_SLEEP_MS as i128 {
                    MAX_SLEEP_MS
                } else {
                    diff as u64
                }
            },
        }
    }
}

/// A rule whose fire time has passed: it missed at least one run.
pub open spec fn past_due(r: Rule, now: int) -> bool {
    match r.schedule {
        Schedule::Interval { seconds } => shifted(anchor(r, now), seconds as int) <= now,
        Schedule::Cron { .. } => missed_cron(r, now),
        Schedule::Once { at } => at <= now && r.last_run is None,
    }
}

/// Catch-up at startup is coalesced: an enabled rule that missed one or many
/// runs is armed for `now` exactly, so it fires once, and nothing is marked
/// expired. A one-shot that was missed still runs.
pub proof fn lemma_catch_up_arms_now(v: EngineView, r: Rule, now: int)
    requires
        r.enabled,
        past_due(r, now),
    ensures
        arm_step(v, r, true, now).0.armed.contains_key(r.id),
        arm_step(v, r, true, now).0.armed[r.id] == now as i64,
        arm_step(v, r, true, now).1 == seq![StoreWrite::NextRun { id: r.id, next: Some(now as i64) }],
{
    assert(armed_time(r, true, now) == Some(now));
    assert(Seq::<StoreWrite>::empty().push(StoreWrite::NextRun { id: r.id, next: Some(now as i64) })
        =~= seq![StoreWrite::NextRun { id: r.id, next: Some(now as i64) }]);
}

/// Without catch-up, a one-shot whose time passed before it ever ran is not
/// armed and is marked expired.
pub proof fn lemma_missed_once_expires(v: EngineView, r: Rule, now: int)
    requires
        r.enabled,
        r.schedule matches Schedule::Once { at } && at <= now,
        r.last_run is None,
    ensures
        !arm_step(v, r, false, now).0.armed.contains_key(r.id),
        arm_step(v, r, false, now).1 == seq![
            StoreWrite::Status { id: r.id, status: LastStatus::Expired },
            StoreWrite::NextRun { id: r.id, next: None },
        ],
{
    assert(armed_time(r, false, now) is None);
    assert(seq![StoreWrite::Status { id: r.id, status: LastStatus::Expired }].push(
        StoreWrite::NextRun { id: r.id, next: None },
    ) =~= seq![
        StoreWrite::Status { id: r.id, status: LastStatus::Expired },
        StoreWrite::NextRun { id: r.id, next: None },
    ]);
}

/// A one-shot fires at most once across restarts: one whose time has come
/// and that has already run is left unarmed when rules are (re)loaded, with
/// or without catch-up, and is not marked expired.
pub proof fn lemma_ran_once_stays_unarmed(v: EngineView, r: Rule, catch_up: bool, now: int)
    requires
        r.enabled,
        r.schedule matches Schedule::Once { at } && at <= now,
        r.last_run is Some,
    ensures
        armed_time(r, catch_up, now) is None,
        !arm_step(v, r, catch_up, now).0.armed.contains_key(r.id),
        arm_step(v, r, catch_up, now).1 == seq![StoreWrite::NextRun { id: r.id, next: None }],
{
    assert(Seq::<StoreWrite>::empty().push(StoreWrite::NextRun { id: r.id, next: None }) =~= seq![
        StoreWrite::NextRun { id: r.id, next: None },
    ]);
}

/// A one-shot still to come is armed at its own time, with or without
/// catch-up.
pub proof fn lemma_future_once_armed_at_its_time(v: EngineView, r: Rule, catch_up: bool, now: int)
    requires
        r.enabled,
        r.schedule matches Schedule::Once { at } && at > now,
    ensures
        arm_step(v, r, catch_up, now).0.armed.contains_key(r.id),
        arm_step(v, r, catch_up, now).0.armed[r.id] == r.schedule->at,
{
}

/// An interval rule counts from its last run: while that run plus the
/// interval is still to come, it is armed then, with or without catch-up.
pub proof fn lemma_interval_counts_from_last_run(v: EngineView, r: Rule, catch_up: bool, now: int)
    requires
        r.enabled,
        r.schedule matches Schedule::Interval { seconds } && r.last_run matches Some(l) && l + seconds
            * 1000 > now,
    ensures
        arm_step(v, r, catch_up, now).0.armed.contains_key(r.id),
        arm_step(v, r, catch_up, now).0.armed[r.id] == (r.last_run->0 + r.schedule->seconds * 1000) as i64,
{
}

/// A one-shot fires once: after its scheduled fire it is no longer armed.
pub proof fn lemma_once_not_rearmed(v: EngineView, id: u128, now: int)
    requires
        v.rules.contains_key(id),
        v.rules[id].schedule is Once,
    ensures
        !advance_step(v, id, now).0.armed.contains_key(id),
{
}

/// A disabled rule is never armed, and firing it does nothing.
pub proof fn lemma_disabled_inert(v: EngineView, r: Rule, catch_up: bool, now: int)
    requires
        !r.enabled,
    ensures
        !arm_step(v, r, catch_up, now).0.armed.contains_key(r.id),
        fire_step(arm_step(v, r, catch_up, now).0, r.id) == (
            arm_step(v, r, catch_up, now).0,
            FireDecision::Ignore,
        ),
{
}

/// Overlap policy `Queue` coalesces: however many times the rule fires while
/// its job runs, one run is queued (firing again changes nothing), the job's
/// completion starts exactly that run and clears the queue, and the queued
/// run's own completion starts nothing more.
pub proof fn lemma_queue_coalesces(
    v: EngineView,
    id: u128,
    exit_code: Option<i32>,
    success: bool,
    now: int,
)
    requires
        v.rules.contains_key(id),
        v.rules[id].enabled,
        v.rules[id].overlap == OverlapPolicy::Queue,
        v.running.contains(id),
    ensures
        fire_step(v, id).1 == FireDecision::Queue,
        fire_step(v, id).0.pending.contains(id),
        fire_step(fire_step(v, id).0, id) == (fire_step(v, id).0, FireDecision::Queue),
        done_step(fire_step(v, id).0, id, exit_code, success).1.requeue,
        !done_step(fire_step(v, id).0, id, exit_code, success).0.pending.contains(id),
        !done_step(
            started_step(done_step(fire_step(v, id).0, id, exit_code, success).0, id, now),
            id,
            exit_code,
            success,
        ).1.requeue,
{
    let v1 = fire_step(v, id).0;
    assert(fire_step(v1, id).0 =~= v1);
}

/// Overlap policy `Skip`: a fire while the job runs starts nothing and
/// changes nothing in the engine (the rule's status becomes `Skipped`).
pub proof fn lemma_skip_while_running(v: EngineView, id: u128)
    requires
        v.rules.contains_key(id),
        v.rules[id].enabled,
        v.rules[id].overlap == OverlapPolicy::Skip,
        v.running.contains(id),
    ensures
        fire_step(v, id) == (v, FireDecision::Skip),
{
}

/// Overlap policy `Parallel`: a fire starts a job even while one runs.
pub proof fn lemma_parallel_starts(v: EngineView, id: u128)
    requires
        v.rules.contains_key(id),
        v.rules[id].enabled,
        v.rules[id].overlap == OverlapPolicy::Parallel,
    ensures
        fire_step(v, id) == (v, FireDecision::Start),
{
}

/// Whether arming the rule stays within chrono's range (see `arm_fits`).
pub fn arm_fits_exec(rule: &Rule, catch_up: bool, now: i64) -> (b: bool)
    ensures
        b == arm_fits(*rule, catch_up, now as int),
{
    if now < MIN_INSTANT_MS || now > MAX_INSTANT_MS {
        return false;
    }
    if !rule.enabled {
        return true;
    }
    match &rule.schedule {
        Schedule::Interval { seconds } => {
            let anchor = match rule.last_run {
                Some(l) => l,
                None => now,
            };
            if !shift_fits_exec(anchor, *seconds) {
                return false;
            }
            let n = anchor + *seconds * 1000;
            if n <= now && !catch_up {
                shift_fits_exec(now, *seconds)
            } else {
                true
            }
        },
        Schedule::Cron { .. } => {
            let mut missed = false;
            if catch_up {
                if let Some(last) = rule.last_run {
                    if !rule.schedule.next_after_fits(last) {
                        return false;
                    }
                    missed = match rule.schedule.next_after(last) {
                        Some(m) => m <= now,
                        None => false,
                    };
                }
            }
            if catch_up && missed {
                true
            } else {
                rule.schedule.next_after_fits(now)
            }
        },
        Schedule::Once { .. } => true,
    }
}

impl Engine {
    /// Whether advancing rule `id` at `now` stays within chrono's range (see
    /// `advance_fits`).
    pub fn advance_fits_exec(&self, id: u128, now: i64) -> (b: bool)
        ensures
            b == advance_fits(self@, id, now as int),
    {
        match self.rules.get(&id) {
            None => true,
            Some(r) => {
                if !r.enabled {
                    return true;
                }
                match &r.schedule {
                    Schedule::Once { .. } => true,
                    s => s.next_after_fits(now),
                }
            },
        }
    }
}

/// The run-history retention setting, in days: the stored number if it reads
/// as one, else 30.
pub open spec fn history_retention_of(setting: Option<String>) -> i64 {
    match setting {
        Some(s) => match parsed_i64(s@) {
            Some(d) => d,
            None => 30,
        },
        None => 30,
    }
}

pub fn history_retention_days(setting: Option<String>) -> (d: i64)
    ensures
        d == history_retention_of(setting),
{
    match &setting {
        Some(s) => match parse_i64(s.as_str()) {
            Some(d) => d,
            None => 30,
        },
        None => 30,
    }
}

/// Advancing every rule due at `now` stays within chrono's range.
pub open spec fn tick_fits(v: EngineView, now: int) -> bool {
    forall|id: u128| #[trigger] due_ids(v, now).contains(id) ==> advance_fits(v, id, now)
}

/// Rule `id`'s armed entry once it has been advanced at `now`.
pub open spec fn advanced_entry(v: EngineView, id: u128, now: int) -> Option<i64> {
    let w = advance_step(v, id, now).0;
    if w.armed.contains_key(id) {
        Some(w.armed[id])
    } else {
        None
    }
}

/// A fire of rule `id` queues a run (its job still runs, its policy queues).
pub open spec fn queues(v: EngineView, id: u128) -> bool {
    fire_step(v, id).1 == FireDecision::Queue
}

/// The state once the rules of `done` (each due at `now`) have fired and
/// been advanced: their armed entries advanced, the queued ones pending.
pub open spec fn ticked(v: EngineView, done: Set<u128>, now: int) -> EngineView {
    EngineView {
        armed: Map::new(
            |id: u128|
                if done.contains(id) {
                    advanced_entry(v, id, now) is Some
                } else {
                    v.armed.contains_key(id)
                },
            |id: u128|
                if done.contains(id) {
                    advanced_entry(v, id, now)->0
                } else {
                    v.armed[id]
                },
        ),
        pending: v.pending.union(Set::new(|id: u128| done.contains(id) && queues(v, id))),
        ..v
    }
}

/// The store writes of firing and advancing the rules of `ids` in turn: a
/// skipped fire marks the rule `Skipped`, then the next fire time is stored.
pub open spec fn tick_writes(v: EngineView, ids: Seq<u128>, now: int) -> Seq<StoreWrite>
    decreases ids.len(),
{
    if ids.len() == 0 {
        Seq::empty()
    } else {
        let id = ids.last();
        let skip: Seq<StoreWrite> = if fire_step(v, id).1 == FireDecision::Skip {
            seq![StoreWrite::Status { id, status: LastStatus::Skipped }]
        } else {
            Seq::empty()
        };
        tick_writes(v, ids.drop_last(), now) + skip + advance_step(v, id, now).1
    }
}

impl Engine {
    /// Whether advancing every due rule stays within chrono's range (see
    /// `tick_fits`).
    pub fn tick_fits_exec(&self, now: i64) -> (b: bool)
        ensures
            b == tick_fits(self@, now as int),
    {
        let ids = self.due(now);
        let n = ids.len();
        for i in 0..n
            invariant
                n == ids@.len(),
                ids@.to_set() == due_ids(self@, now as int),
                forall|j: int| 0 <= j < i ==> advance_fits(self@, #[trigger] ids@[j], now as int),
        {
            if !self.advance_fits_exec(ids[i], now) {
                proof {
                    assert(ids@.to_set().contains(ids@[i as int]));
                }
                return false;
            }
        }
        proof {
            assert forall|id: u128| #[trigger] due_ids(self@, now as int).contains(id) implies advance_fits(
                self@,
                id,
                now as int,
            ) by {
                assert(ids@.to_set().contains(id));
                let j = choose|j: int| 0 <= j < ids@.len() && ids@[j] == id;
                assert(advance_fits(self@, ids@[j], now as int));
            }
        }
        true
    }

    /// One pass of the loop at `now`: each due rule fires once (overlap
    /// policy) and is then armed for its next occurrence strictly after `now`.
    /// Gives each fired rule with its decision, and the store writes.
    pub fn tick(&mut self, now: i64) -> (r: (Vec<(u128, FireDecision)>, Vec<StoreWrite>))
        requires
            old(self)@.inv(),
            tick_fits(old(self)@, now as int),
        ensures
            final(self)@.inv(),
            r.0@.map_values(|p: (u128, FireDecision)| p.0).no_duplicates(),
            r.0@.map_values(|p: (u128, FireDecision)| p.0).to_set() == due_ids(old(self)@, now as int),
            forall|i: int| 0 <= i < r.0@.len() ==> (#[trigger] r.0@[i]).1 == fire_step(old(self)@, r.0@[i].0).1,
            final(self)@ == ticked(old(self)@, due_ids(old(self)@, now as int), now as int),
            r.1@ == tick_writes(old(self)@, r.0@.map_values(|p: (u128, FireDecision)| p.0), now as int),
            // Nothing stays due (but intervals shorter than a second): a rule
            // fires once per pass, however far behind it was.
            forall|id: u128| #[trigger] final(self)@.armed.contains_key(id) && !sub_second(final(self)@.rules[id].schedule)
                && !old(self)@.paused ==> final(self)@.armed[id] > now,
    {
        let ghost v = self@;
        let ghost due = due_ids(v, now as int);
        let ids = self.due(now);
        let n = ids.len();
        let mut fired: Vec<(u128, FireDecision)> = Vec::new();
        let mut writes: Vec<StoreWrite> = Vec::new();
        assert(ids@.take(0).to_set() =~= Set::<u128>::empty());
        assert(ticked(v, Set::<u128>::empty(), now as int) =~= v);
        for i in 0..n
            invariant
                n == ids@.len(),
                ids@.no_duplicates(),
                ids@.to_set() == due,
                v.inv(),
                self@.inv(),
                self@ == ticked(v, ids@.take(i as int).to_set(), now as int),
                fired@.map_values(|p: (u128, FireDecision)| p.0) == ids@.take(i as int),
                forall|j: int| 0 <= j < fired@.len() ==> (#[trigger] fired@[j]).1 == fire_step(v, fired@[j].0).1,
                writes@ == tick_writes(v, ids@.take(i as int), now as int),
                forall|id: u128| #[trigger] self@.armed.contains_key(id) && !sub_second(self@.rules[id].schedule)
                    && ids@.take(i as int).to_set().contains(id) ==> self@.armed[id] > now,
                tick_fits(v, now as int),
                due == due_ids(v, now as int),
        {
            let id = ids[i];
            let ghost s = self@;
            let ghost before = ids@.take(i as int).to_set();
            proof {
                assert(ids@.to_set().contains(id));
                assert(!before.contains(id)) by {
                    if before.contains(id) {
                        let j = choose|j: int| 0 <= j < i && ids@.take(i as int)[j] == id;
                        assert(ids@[j] == ids@[i as int]);
                    }
                }
                assert(s.rules == v.rules);
                assert(s.running == v.running);
            }
            let d = self.fire(id);
            proof {
                assert(fire_step(s, id).1 == fire_step(v, id).1);
                assert(advance_fits(self@, id, now as int));
            }
            let w = self.advance(id, now);
            proof {
                assert(advance_step(fire_step(s, id).0, id, now as int).1 == advance_step(v, id, now as int).1);
            }
            if d == FireDecision::Skip {
                writes.push(StoreWrite::Status { id, status: LastStatus::Skipped });
            }
            let mut w = w;
            writes.append(&mut w);
            fired.push((id, d));
            proof {
                let after = ids@.take(i + 1).to_set();
                assert(ids@.take(i + 1) =~= ids@.take(i as int).push(id));
                ids@.take(i as int).lemma_push_to_set_commute(id);
                assert(after =~= before.insert(id));
                assert(ids@.take(i + 1).drop_last() =~= ids@.take(i as int));
                assert(fired@.map_values(|p: (u128, FireDecision)| p.0) =~= ids@.take(i + 1));
                assert(self@ =~= ticked(v, after, now as int));
                assert(writes@ =~= tick_writes(v, ids@.take(i + 1), now as int));
            }
        }
        proof {
            assert(ids@.take(n as int) =~= ids@);
            assert forall|id: u128| #[trigger] self@.armed.contains_key(id) && !sub_second(self@.rules[id].schedule)
                && !v.paused implies self@.armed[id] > now by {
                if !due.contains(id) {
                    assert(v.armed.contains_key(id));
                }
            }
        }
        (fired, writes)
    }
}

/// A control message to the engine.
#[derive(Clone, Copy, Debug, PartialEq, Eq, Structural)]
pub enum Control {
    /// Load all rules with catch-up (once, at startup).
    StartupLoad,
    /// Reload all rules without catch-up.
    ReloadAll,
    /// Reload one rule without catch-up.
    ReloadRule(u128),
    /// Forget a rule.
    RemoveRule(u128),
    /// Run a rule now, whatever its schedule (and even while paused).
    RunNow(u128),
    PauseAll,
    ResumeAll,
    Shutdown,
}

/// What the caller does after a control message.
#[derive(Clone, Copy, Debug, PartialEq, Eq, Structural)]
pub enum ControlAction {
    /// Nothing more: go on with the loop.
    Continue,
    /// Read all rules from the store and hand them to `load_all`.
    LoadAll { catch_up: bool },
    /// Read the rule from the store and hand it to `reload_one`.
    ReloadOne { id: u128, catch_up: bool },
    /// Read the rule from the store and, if it is there, hand it to
    /// `run_now` and start its job.
    FetchAndRun { id: u128 },
    /// End the loop.
    Stop,
}

/// The state and action after a control message: catch-up only at startup;
/// resuming lifts the pause and reloads without catch-up; only shutdown
/// ends the loop.
pub open spec fn control_step(v: EngineView, c: Control) -> (EngineView, ControlAction) {
    match c {
        Control::StartupLoad => (v, ControlAction::LoadAll { catch_up: true }),
        Control::ReloadAll => (v, ControlAction::LoadAll { catch_up: false }),
        Control::ReloadRule(id) => (v, ControlAction::ReloadOne { id, catch_up: false }),
        Control::RemoveRule(id) => (remove_step(v, id), ControlAction::Continue),
        Control::RunNow(id) => (v, ControlAction::FetchAndRun { id }),
        Control::PauseAll => (EngineView { paused: true, ..v }, ControlAction::Continue),
        Control::ResumeAll => (
            EngineView { paused: false, ..v },
            ControlAction::LoadAll { catch_up: false },
        ),
        Control::Shutdown => (v, ControlAction::Stop),
    }
}

impl Engine {
    /// Takes a control message: changes the state and says what the caller
    /// does next.
    pub fn control(&mut self, c: Control) -> (a: ControlAction)
        requires
            old(self)@.inv(),
        ensures
            final(self)@.inv(),
            (final(self)@, a) == control_step(old(self)@, c),
    {
        match c {
            Control::StartupLoad => ControlAction::LoadAll { catch_up: true },
            Control::ReloadAll => ControlAction::LoadAll { catch_up: false },
            Control::ReloadRule(id) => ControlAction::ReloadOne { id, catch_up: false },
            Control::RemoveRule(id) => {
                self.remove_rule(id);
                ControlAction::Continue
            },
            Control::RunNow(id) => ControlAction::FetchAndRun { id },
            Control::PauseAll => {
                self.pause_all();
                ControlAction::Continue
            },
            Control::ResumeAll => {
                self.resume_all();
                ControlAction::LoadAll { catch_up: false }
            },
            Control::Shutdown => ControlAction::Stop,
        }
    }

    /// One pass of the loop at `now`: fires the due rules (see `tick`) and
    /// says how long the loop may then wait for a message or a completed
    /// job before the next pass (at most 30 seconds).
    pub fn pass(&mut self, now: i64) -> (r: (Vec<(u128, FireDecision)>, Vec<StoreWrite>, u64))
        requires
            old(self)@.inv(),
            tick_fits(old(self)@, now as int),
        ensures
            final(self)@.inv(),
            r.0@.map_values(|p: (u128, FireDecision)| p.0).no_duplicates(),
            r.0@.map_values(|p: (u128, FireDecision)| p.0).to_set() == due_ids(old(self)@, now as int),
            forall|i: int| 0 <= i < r.0@.len() ==> (#[trigger] r.0@[i]).1 == fire_step(old(self)@, r.0@[i].0).1,
            final(self)@ == ticked(old(self)@, due_ids(old(self)@, now as int), now as int),
            r.1@ == tick_writes(old(self)@, r.0@.map_values(|p: (u128, FireDecision)| p.0), now as int),
            forall|id: u128| #[trigger] final(self)@.armed.contains_key(id) && !sub_second(final(self)@.rules[id].schedule)
                && !old(self)@.paused ==> final(self)@.armed[id] > now,
            old(self)@.paused ==> r.0@.len() == 0,
            r.2 == sleep_ms(final(self)@, now as int),
            MIN_SLEEP_MS <= r.2 <= MAX_SLEEP_MS,
    {
        let (fired, writes) = self.tick(now);
        proof {
            if old(self)@.paused {
                let ks = fired@.map_values(|p: (u128, FireDecision)| p.0);
                assert(ks.to_set() =~= Set::<u128>::empty());
                if fired@.len() > 0 {
                    assert(ks.to_set().contains(ks[0]));
                }
            }
        }
        let d = self.next_sleep_ms(now);
        (fired, writes, d)
    }
}

} // verus!
