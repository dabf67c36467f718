//! The logic of the user interface: the rule editor's fields (showing a rule,
//! saving them onto a rule), the environment-variable text, interval
//! value/unit fields, shell and overlap choices, the retention setting, and
//! the rows of the rules list and of the run history. The widgets themselves
//! are the caller's.

use crate::executor::rule_pairs;
use crate::model::{
    content_check, cron_rejection, local_time_shape, local_time_text, opt_int, normalized_cron, rule_check,
    schedule_check, time_pattern, valid_instant, EnvVar, OverlapPolicy, Rule, Schedule, ShellKind,
};
use crate::model::{humanized, run_status_name, shell_summary, status_name, RunRecord};
use crate::shell::{first_with_key, ShellCatalog};
use crate::storage::{id_text, uuid_text};
use crate::text::{dec, push_dec};
use crate::text::{
    char_vecs, find_char, is_blank, is_ws, lemma_split_char_concat, lemma_split_char_none, lemma_trim_unchanged,
    lemma_split_once_at, lines, lines_of, parse_i32, parsed_i32, split_char, split_once, strip_cr,
    string_from_chars, trim, trim_bounds, trim_str,
};
use vstd::prelude::*;

verus! {

/// The variable a line of the editor's environment text sets, if any: blank
/// lines and lines without `=` set none; the name is trimmed, the value is
/// what follows the first `=` in the trimmed line.
pub open spec fn env_entry(line: Seq<char>) -> Option<(Seq<char>, Seq<char>)> {
    let t = trim(line);
    if t.len() == 0 {
        None
    } else {
        match split_once(t, '=') {
            Some((k, v)) => Some((trim(k), v)),
            None => None,
        }
    }
}

/// The variables the lines set, in order.
pub open spec fn env_entries(ls: Seq<Seq<char>>) -> Seq<(Seq<char>, Seq<char>)>
    decreases ls.len(),
{
    if ls.len() == 0 {
        Seq::empty()
    } else {
        let rest = env_entries(ls.drop_last());
        match env_entry(ls.last()) {
            Some(kv) => rest.push(kv),
            None => rest,
        }
    }
}

/// Reads the editor's environment text: one `KEY=value` per line.
pub fn parse_env(text: &str) -> (r: Vec<EnvVar>)
    ensures
        rule_pairs(r@) == env_entries(lines(text@)),
{
    let ls = lines_of(text);
    let m = ls.len();
    let mut out: Vec<EnvVar> = Vec::new();
    assert(lines(text@).take(0) =~= Seq::<Seq<char>>::empty());
    for j in 0..m
        invariant
            m == ls@.len(),
            char_vecs(ls@) == lines(text@),
            rule_pairs(out@) == env_entries(lines(text@).take(j as int)),
    {
        let line = &ls[j];
        let ghost before = env_entries(lines(text@).take(j as int));
        let ghost prev = out@;
        proof {
            assert(lines(text@).take(j + 1).drop_last() =~= lines(text@).take(j as int));
            assert(lines(text@).take(j + 1).last() == line@);
            assert(char_vecs(ls@)[j as int] == line@);
        }
        let (lo, hi) = trim_bounds(line.as_slice());
        let t = &line.as_slice()[lo..hi];
        assert(t@ == trim(line@));
        if lo < hi {
            let tl = t.len();
            match find_char(t, '=') {
                Some(at) => {
                    proof {
                        lemma_split_once_at(t@, '=', at as int);
                    }
                    let k = &t[0..at];
                    let (klo, khi) = trim_bounds(k);
                    let key = string_from_chars(&k[klo..khi]);
                    let value = string_from_chars(&t[at + 1..tl]);
                    assert(k@ =~= t@.take(at as int));
                    assert(value@ =~= t@.skip(at + 1));
                    let ghost kv = (key@, value@);
                    out.push(EnvVar { key, value });
                    proof {
                        assert(env_entry(line@) == Some(kv));
                        assert(env_entries(lines(text@).take(j + 1)) == before.push(kv));
                        assert(rule_pairs(prev).len() == prev.len());
                        assert forall|x: int| 0 <= x < prev.len() + 1 implies rule_pairs(out@)[x] == before.push(kv)[x] by {
                            if x < prev.len() {
                                assert(out@[x] == prev[x]);
                                assert(rule_pairs(prev)[x] == (prev[x].key@, prev[x].value@));
                            }
                        }
                        assert(rule_pairs(out@) =~= before.push(kv));
                    }
                },
                None => {
                    proof {
                        assert(split_once(t@, '=') is None);
                        assert(env_entries(lines(text@).take(j + 1)) == before);
                    }
                },
            }
        } else {
            assert(env_entries(lines(text@).take(j + 1)) == before);
        }
    }
    assert(lines(text@).take(m as int) =~= lines(text@));
    out
}

/// An environment line: `KEY=value`.
pub open spec fn env_line(e: EnvVar) -> Seq<char> {
    e.key@ + "="@ + e.value@
}

/// The editor's environment text: one `KEY=value` per variable, joined by
/// newlines.
pub open spec fn env_text(env: Seq<EnvVar>) -> Seq<char>
    decreases env.len(),
{
    if env.len() == 0 {
        Seq::empty()
    } else if env.len() == 1 {
        env_line(env[0])
    } else {
        env_text(env.drop_last()) + "\n"@ + env_line(env.last())
    }
}

/// Writes the editor's environment text.
pub fn env_to_text(env: &[EnvVar]) -> (r: String)
    ensures
        r@ == env_text(env@),
{
    let n = env.len();
    let mut out = String::new();
    assert(env@.take(0) =~= Seq::<EnvVar>::empty());
    for i in 0..n
        invariant
            n == env@.len(),
            out@ == env_text(env@.take(i as int)),
    {
        let e = &env[i];
        proof {
            assert(env@.take(i + 1).drop_last() =~= env@.take(i as int));
            assert(env@.take(i + 1).last() == *e);
        }
        if i > 0 {
            out.append("\n");
        }
        out.append(e.key.as_str());
        out.append("=");
        out.append(e.value.as_str());
        proof {
            if i == 0 {
                assert(env@.take(1)[0] == *e);
                assert(out@ =~= env_line(*e));
            } else {
                assert(out@ =~= env_text(env@.take(i as int)) + "\n"@ + env_line(*e));
            }
        }
    }
    assert(env@.take(n as int) =~= env@);
    out
}

/// A variable the editor's text holds as it is: its name has no `=`, no line
/// break and no whitespace at either end; its value has no line break and no
/// trailing whitespace.
pub open spec fn writable_var(e: EnvVar) -> bool {
    let k = e.key@;
    let v = e.value@;
    &&& forall|i: int| 0 <= i < k.len() ==> k[i] != '=' && k[i] != '\n'
    &&& forall|i: int| 0 <= i < v.len() ==> v[i] != '\n'
    &&& k.len() > 0 ==> !is_ws(k[0]) && !is_ws(k.last())
    &&& v.len() > 0 ==> !is_ws(v.last())
}

proof fn lemma_env_entry_line(e: EnvVar)
    requires
        writable_var(e),
    ensures
        env_entry(env_line(e)) == Some((e.key@, e.value@)),
        forall|i: int| 0 <= i < env_line(e).len() ==> env_line(e)[i] != '\n',
        env_line(e).len() > 0,
        strip_cr(env_line(e)) == env_line(e),
{
    reveal_strlit("=");
    let k = e.key@;
    let v = e.value@;
    let l = env_line(e);
    let n = k.len() as int;
    assert(l =~= k + seq!['='] + v);
    assert(!is_ws('='));
    assert(l[n] == '=');
    assert(forall|i: int| 0 <= i < n ==> l[i] == k[i]);
    assert(forall|i: int| n < i < l.len() ==> l[i] == v[i - n - 1]);
    assert(!is_ws(l[0])) by {
        if n > 0 {
            assert(l[0] == k[0]);
        }
    }
    assert(!is_ws(l.last())) by {
        if v.len() > 0 {
            assert(l.last() == v.last());
        }
    }
    assert(l.last() != '\r');
    lemma_trim_unchanged(l);
    lemma_trim_unchanged(k);
    assert forall|i: int| 0 <= i < l.len() implies l[i] != '\n' by {
        if i < n {
            assert(k[i] != '\n');
        } else if i > n {
            assert(v[i - n - 1] != '\n');
        }
    }
    assert forall|j: int| 0 <= j < n implies l[j] != '=' by {
        assert(k[j] != '=');
    }
    lemma_split_once_at(l, '=', n);
    assert(l.take(n) =~= k);
    assert(l.skip(n + 1) =~= v);
}

/// The lines of the environment text are the variables' lines.
proof fn lemma_env_text_lines(env: Seq<EnvVar>)
    requires
        env.len() > 0,
        forall|i: int| 0 <= i < env.len() ==> writable_var(#[trigger] env[i]),
    ensures
        split_char(env_text(env), '\n') == env.map_values(|e: EnvVar| env_line(e)),
    decreases env.len(),
{
    reveal_strlit("\n");
    let last = env.last();
    lemma_env_entry_line(last);
    lemma_split_char_none(env_line(last), '\n');
    if env.len() == 1 {
        assert(env.map_values(|e: EnvVar| env_line(e)) =~= seq![env_line(env[0])]);
    } else {
        let front = env.drop_last();
        assert forall|i: int| 0 <= i < front.len() implies writable_var(#[trigger] front[i]) by {
            assert(front[i] == env[i]);
        }
        lemma_env_text_lines(front);
        lemma_split_char_concat(env_text(front), env_line(last), '\n');
        assert(env_text(env) =~= env_text(front) + seq!['\n'] + env_line(last));
        assert(env.map_values(|e: EnvVar| env_line(e)) =~= front.map_values(|e: EnvVar| env_line(e))
            + seq![env_line(last)]);
    }
}

/// The variables that the lines of the variables set are the variables.
proof fn lemma_env_entries_lines(env: Seq<EnvVar>)
    requires
        forall|i: int| 0 <= i < env.len() ==> writable_var(#[trigger] env[i]),
    ensures
        env_entries(env.map_values(|e: EnvVar| env_line(e))) == rule_pairs(env),
    decreases env.len(),
{
    if env.len() > 0 {
        let front = env.drop_last();
        assert forall|i: int| 0 <= i < front.len() implies writable_var(#[trigger] front[i]) by {
            assert(front[i] == env[i]);
        }
        lemma_env_entries_lines(front);
        lemma_env_entry_line(env.last());
        let ls = env.map_values(|e: EnvVar| env_line(e));
        assert(ls.drop_last() =~= front.map_values(|e: EnvVar| env_line(e)));
        assert(rule_pairs(env) =~= rule_pairs(front).push((env.last().key@, env.last().value@)));
    } else {
        assert(rule_pairs(env) =~= Seq::<(Seq<char>, Seq<char>)>::empty());
    }
}

/// Showing a rule's environment in the editor and saving it unchanged gives
/// the same variables back, whenever each of them can be written as a line.
pub proof fn lemma_env_text_roundtrip(env: Seq<EnvVar>)
    requires
        forall|i: int| 0 <= i < env.len() ==> writable_var(#[trigger] env[i]),
    ensures
        env_entries(lines(env_text(env))) == rule_pairs(env),
{
    lemma_env_entries_lines(env);
    let ls = env.map_values(|e: EnvVar| env_line(e));
    if env.len() == 0 {
        assert(split_char(env_text(env), '\n') =~= seq![Seq::<char>::empty()]);
        assert(lines(env_text(env)) =~= ls);
    } else {
        lemma_env_text_lines(env);
        let p = split_char(env_text(env), '\n');
        assert forall|i: int| 0 <= i < ls.len() implies strip_cr(#[trigger] ls[i]) == ls[i] by {
            lemma_env_entry_line(env[i]);
        }
        lemma_env_entry_line(env.last());
        assert(p.last().len() > 0);
        assert(lines(env_text(env)) =~= ls);
    }
}

/// The seconds per interval unit: 0 seconds, 1 minutes, 2 hours, 3 days (an
/// unknown unit counts as seconds).
pub open spec fn unit_secs(unit: i32) -> int {
    if unit == 1 {
        60
    } else if unit == 2 {
        3600
    } else if unit == 3 {
        86400
    } else {
        1
    }
}

/// The value and unit the editor shows for an interval: the largest unit that
/// divides it (the value truncated to 32 bits, as `as i32` does).
pub open spec fn value_unit(secs: int) -> (i32, i32) {
    if secs % 86400 == 0 {
        ((secs / 86400) as i32, 3)
    } else if secs % 3600 == 0 {
        ((secs / 3600) as i32, 2)
    } else if secs % 60 == 0 {
        ((secs / 60) as i32, 1)
    } else {
        (secs as i32, 0)
    }
}

pub fn secs_to_value_unit(secs: i64) -> (r: (i32, i32))
    ensures
        r == value_unit(secs as int),
{
    if secs % 86400 == 0 {
        ((secs / 86400) as i32, 3)
    } else if secs % 3600 == 0 {
        ((secs / 3600) as i32, 2)
    } else if secs % 60 == 0 {
        ((secs / 60) as i32, 1)
    } else {
        (secs as i32, 0)
    }
}

/// The interval schedule the editor's value and unit describe.
pub open spec fn interval_from(value: i32, unit: i32) -> Result<Schedule, Seq<char>> {
    let seconds = value * unit_secs(unit);
    if seconds < 1 {
        Err("Interval must be at least 1 second"@)
    } else {
        Ok(Schedule::Interval { seconds: seconds as i64 })
    }
}

/// A schedule result with its error text as characters.
pub open spec fn schedule_result(r: Result<Schedule, String>) -> Result<Schedule, Seq<char>> {
    match r {
        Ok(s) => Ok(s),
        Err(e) => Err(e@),
    }
}

/// Builds the interval schedule from the editor's value and unit.
pub fn interval_schedule(value: i32, unit: i32) -> (r: Result<Schedule, String>)
    ensures
        schedule_result(r) == interval_from(value, unit),
{
    let mult: i64 = if unit == 1 {
        60
    } else if unit == 2 {
        3600
    } else if unit == 3 {
        86400
    } else {
        1
    };
    let seconds = (value as i64) * mult;
    if seconds < 1 {
        Err(String::from_str("Interval must be at least 1 second"))
    } else {
        Ok(Schedule::Interval { seconds })
    }
}

/// Showing an interval in the editor and saving it unchanged gives the same
/// interval back, whenever its value in the unit shown fits the field.
pub proof fn lemma_interval_roundtrip(secs: i64)
    requires
        secs >= 1,
        (secs as int) / unit_secs(value_unit(secs as int).1) <= i32::MAX,
    ensures
        interval_from(value_unit(secs as int).0, value_unit(secs as int).1) == Ok::<Schedule, Seq<char>>(Schedule::Interval { seconds: secs }),
{
    let s = secs as int;
    let (v, u) = value_unit(s);
    if s % 86400 == 0 {
        assert(s / 86400 <= i32::MAX);
        assert(v == s / 86400);
        assert(v * 86400 == s);
        assert(u == 3 && unit_secs(u) == 86400);
        assert(v * unit_secs(u) == s);
    } else if s % 3600 == 0 {
        assert(v == s / 3600);
        assert(v * 3600 == s);
        assert(u == 2 && unit_secs(u) == 3600);
        assert(v * unit_secs(u) == s);
    } else if s % 60 == 0 {
        assert(v == s / 60);
        assert(v * 60 == s);
        assert(u == 1 && unit_secs(u) == 60);
        assert(v * unit_secs(u) == s);
    } else {
        assert(v == s);
        assert(u == 0 && unit_secs(u) == 1);
        assert(v * unit_secs(u) == s);
    }
}

/// The editor's overlap choice: 0 Skip, 1 Queue, 2 Parallel.
pub open spec fn overlap_of_index(i: i32) -> OverlapPolicy {
    if i == 1 {
        OverlapPolicy::Queue
    } else if i == 2 {
        OverlapPolicy::Parallel
    } else {
        OverlapPolicy::Skip
    }
}

pub fn overlap_from_index(i: i32) -> (p: OverlapPolicy)
    ensures
        p == overlap_of_index(i),
{
    match i {
        1 => OverlapPolicy::Queue,
        2 => OverlapPolicy::Parallel,
        _ => OverlapPolicy::Skip,
    }
}

pub fn overlap_index(p: OverlapPolicy) -> (i: i32)
    ensures
        overlap_of_index(i) == p,
        0 <= i <= 2,
{
    match p {
        OverlapPolicy::Skip => 0,
        OverlapPolicy::Queue => 1,
        OverlapPolicy::Parallel => 2,
    }
}

/// The shell choices of the editor: each detected shell, then "Custom…",
/// then "Direct (no shell)".
#[derive(Clone, Debug)]
pub struct ShellOptions {
    pub labels: Vec<String>,
    pub keys: Vec<String>,
    pub custom_index: i32,
    pub direct_index: i32,
}

pub fn shell_options(catalog: &ShellCatalog) -> (o: ShellOptions)
    requires
        catalog.shells@.len() < i32::MAX,
    ensures
        o.labels@.len() == catalog.shells@.len() + 2,
        o.keys@.len() == catalog.shells@.len(),
        forall|i: int| 0 <= i < catalog.shells@.len() ==> #[trigger] o.keys@[i]@ == catalog.shells@[i].key@,
        forall|i: int| 0 <= i < catalog.shells@.len() ==> #[trigger] o.labels@[i]@ == catalog.shells@[i].label@,
        o.custom_index == catalog.shells@.len(),
        o.direct_index == catalog.shells@.len() + 1,
        o.labels@[o.custom_index as int]@ == "Custom\u{2026}"@,
        o.labels@[o.direct_index as int]@ == "Direct (no shell)"@,
{
    let n = catalog.shells.len();
    let mut labels: Vec<String> = Vec::new();
    let mut keys: Vec<String> = Vec::new();
    for i in 0..n
        invariant
            n == catalog.shells@.len(),
            labels@.len() == i,
            keys@.len() == i,
            forall|j: int| 0 <= j < i ==> #[trigger] keys@[j]@ == catalog.shells@[j].key@,
            forall|j: int| 0 <= j < i ==> #[trigger] labels@[j]@ == catalog.shells@[j].label@,
    {
        labels.push(catalog.shells[i].label.clone());
        keys.push(catalog.shells[i].key.clone());
    }
    let custom_index = n as i32;
    labels.push(String::from_str("Custom\u{2026}"));
    let direct_index = (n + 1) as i32;
    labels.push(String::from_str("Direct (no shell)"));
    ShellOptions { labels, keys, custom_index, direct_index }
}

/// The shell the editor's choice `idx` stands for: the custom entry (with the
/// given path and argument template), the direct entry, or a detected
/// shell's key.
pub open spec fn shell_choice(idx: i32, opts: ShellOptions, custom_path: String, custom_arg: String) -> Result<ShellKind, Seq<char>> {
    if idx == opts.custom_index {
        Ok(ShellKind::Custom { path: custom_path, arg_template: custom_arg })
    } else if idx == opts.direct_index {
        Ok(ShellKind::Direct)
    } else if 0 <= idx < opts.keys@.len() {
        Ok(ShellKind::Detected { key: opts.keys@[idx as int] })
    } else {
        Err("Please choose a shell"@)
    }
}

/// A shell result with its error text as characters.
pub open spec fn shell_result(r: Result<ShellKind, String>) -> Result<ShellKind, Seq<char>> {
    match r {
        Ok(s) => Ok(s),
        Err(e) => Err(e@),
    }
}

/// Builds the shell of the editor's choice.
pub fn build_shell(idx: i32, opts: &ShellOptions, custom_path: String, custom_arg: String) -> (r: Result<ShellKind, String>)
    ensures
        shell_result(r) == shell_choice(idx, *opts, custom_path, custom_arg),
{
    if idx == opts.custom_index {
        Ok(ShellKind::Custom { path: custom_path, arg_template: custom_arg })
    } else if idx == opts.direct_index {
        Ok(ShellKind::Direct)
    } else if idx >= 0 && (idx as usize) < opts.keys.len() {
        Ok(ShellKind::Detected { key: opts.keys[idx as usize].clone() })
    } else {
        Err(String::from_str("Please choose a shell"))
    }
}

/// The retention setting, in days: the stored number if it reads as one,
/// else 30.
pub open spec fn retention_of(setting: Option<String>) -> i32 {
    match setting {
        Some(s) => match parsed_i32(s@) {
            Some(d) => d,
            None => 30,
        },
        None => 30,
    }
}

pub fn retention_days(setting: Option<String>) -> (d: i32)
    ensures
        d == retention_of(setting),
{
    match &setting {
        Some(s) => match parse_i32(s.as_str()) {
            Some(d) => d,
            None => 30,
        },
        None => 30,
    }
}

/// The instant (Unix milliseconds) of the date and time (a whole minute) that chrono's
/// `NaiveDateTime::parse_from_str` reads from the text with the pattern
/// `%Y-%m-%d %H:%M`, taken as UTC; `None` when it does not read it.
pub uninterp spec fn minute_text_utc_ms(text: Seq<char>) -> Option<int>;

/// Reads `YYYY-MM-DD HH:MM` with chrono's `NaiveDateTime::parse_from_str`
/// and gives that date and time as a UTC instant (`and_utc().timestamp_millis()`).
/// The contract names the result; every date and time chrono holds is an
/// instant chrono holds.
#[verifier::external_body]
fn parse_minute_text(text: &str) -> (r: Option<i64>)
    ensures
        opt_int(r) == minute_text_utc_ms(text@),
        r matches Some(n) ==> valid_instant(n as int) && n % 60_000 == 0,
{
    chrono::NaiveDateTime::parse_from_str(text, "%Y-%m-%d %H:%M").ok().map(|n| n.and_utc().timestamp_millis())
}

/// Milliseconds per day.
pub open spec fn day_ms() -> int {
    86_400_000
}

/// The instant of a date and time of the machine's local time zone, the date
/// and time given as the UTC instant `naive_ms` with the same fields:
/// chrono's `Local.from_local_datetime(..).single()`, none when that local
/// time does not exist or is ambiguous there. Both depend on the machine's
/// time zone. What holds whatever the zone: chrono's offsets (`FixedOffset`)
/// are less than a day, so the instant lies within a day of `naive_ms`, and
/// it is one chrono holds; the offsets are whole seconds.
#[verifier::external_body]
fn local_instant(naive_ms: i64) -> (r: Option<i64>)
    requires
        valid_instant(naive_ms as int),
    ensures
        r matches Some(t) ==> naive_ms - day_ms() < t < naive_ms + day_ms() && valid_instant(
            t as int,
        ) && (t - naive_ms) % 1000 == 0,
{
    let naive = chrono::DateTime::<chrono::Utc>::from_timestamp_millis(naive_ms).unwrap().naive_utc();
    chrono::TimeZone::from_local_datetime(&chrono::Local, &naive).single().map(|t| t.timestamp_millis())
}

/// The schedule the editor's fields stand for in every mode but the one-shot
/// (whose time is read in the machine's time zone): mode 0 an interval from
/// value and unit, mode 1 the cron expression (validated), any other mode an
/// error.
pub open spec fn schedule_choice(mode: i32, value: i32, unit: i32, cron: String) -> Result<Schedule, Seq<char>> {
    if mode == 0 {
        interval_from(value, unit)
    } else if mode == 1 {
        match cron_rejection(normalized_cron(cron@)) {
            None => Ok(Schedule::Cron { expr: cron }),
            Some(m) => Err("Invalid cron expression: "@ + m),
        }
    } else {
        Err("Unknown schedule mode"@)
    }
}

/// A one-shot at a whole second within a day of `n` (the one-shot's date and
/// time read as UTC), and one chrono holds.
pub open spec fn once_near(s: Schedule, n: int) -> bool {
    s matches Schedule::Once { at } && n - day_ms() < at < n + day_ms() && valid_instant(at as int)
        && at % 1000 == 0
}

/// The one-shot time is not written as `YYYY-MM-DD HH:MM`.
pub open spec fn once_form_error() -> Seq<char> {
    "Once time must be in the form YYYY-MM-DD HH:MM"@
}

/// The one-shot time does not exist, or is ambiguous, in local time.
pub open spec fn once_local_error() -> Seq<char> {
    "Ambiguous or invalid local time"@
}

/// Builds the schedule from the editor's fields: mode 0 an interval from value
/// and unit, mode 1 the cron expression (validated), mode 2 a one-shot at the
/// trimmed `YYYY-MM-DD HH:MM` local time.
pub fn build_schedule(mode: i32, value: i32, unit: i32, cron: String, once: &str) -> (r: Result<
    Schedule,
    String,
>)
    ensures
        mode != 2 ==> schedule_result(r) == schedule_choice(mode, value, unit, cron),
        mode == 2 && minute_text_utc_ms(trim(once@)) is None ==> (r matches Err(e) && e@
            == once_form_error()),
        mode == 2 && minute_text_utc_ms(trim(once@)) is Some ==> match r {
            Ok(s) => once_near(s, minute_text_utc_ms(trim(once@))->0),
            Err(e) => e@ == once_local_error(),
        },
{
    if mode == 0 {
        interval_schedule(value, unit)
    } else if mode == 1 {
        let s = Schedule::Cron { expr: cron };
        match s.validate() {
            Ok(()) => Ok(s),
            Err(e) => Err(e),
        }
    } else if mode == 2 {
        let raw = trim_str(once);
        match parse_minute_text(raw.as_str()) {
            None => Err(String::from_str("Once time must be in the form YYYY-MM-DD HH:MM")),
            Some(naive) => match local_instant(naive) {
                Some(at) => Ok(Schedule::Once { at }),
                None => Err(String::from_str("Ambiguous or invalid local time")),
            },
        }
    } else {
        Err(String::from_str("Unknown schedule mode"))
    }
}

/// The rule editor's fields.
#[derive(Clone, Debug)]
pub struct EditorForm {
    pub name: String,
    pub enabled: bool,
    pub command: String,
    /// The shell choice (see `ShellOptions`).
    pub shell_index: i32,
    pub custom_path: String,
    pub custom_arg: String,
    /// 0 interval, 1 cron, 2 one-shot.
    pub schedule_mode: i32,
    pub interval_value: i32,
    /// 0 seconds, 1 minutes, 2 hours, 3 days.
    pub interval_unit: i32,
    pub cron: String,
    /// `YYYY-MM-DD HH:MM`, local time.
    pub once: String,
    pub catch_up: bool,
    /// 0 Skip, 1 Queue, 2 Parallel.
    pub overlap: i32,
    pub working_dir: String,
    /// One `KEY=value` per line.
    pub env: String,
}

/// Where `key` first occurs among the editor's shell keys, or -1.
pub open spec fn key_position(keys: Seq<String>, key: Seq<char>) -> int
    decreases keys.len(),
{
    if keys.len() == 0 {
        -1
    } else {
        let before = key_position(keys.drop_last(), key);
        if before >= 0 {
            before
        } else if keys.last()@ == key {
            keys.len() - 1
        } else {
            -1
        }
    }
}

proof fn lemma_key_position(keys: Seq<String>, key: Seq<char>)
    ensures
        -1 <= key_position(keys, key) < keys.len(),
        key_position(keys, key) >= 0 ==> keys[key_position(keys, key)]@ == key,
        key_position(keys, key) == -1 <==> forall|j: int| 0 <= j < keys.len() ==> keys[j]@ != key,
    decreases keys.len(),
{
    if keys.len() > 0 {
        lemma_key_position(keys.drop_last(), key);
        if key_position(keys, key) == -1 {
            assert forall|j: int| 0 <= j < keys.len() implies keys[j]@ != key by {
                if j < keys.len() - 1 {
                    assert(keys.drop_last()[j] == keys[j]);
                }
            }
        }
        if key_position(keys.drop_last(), key) == -1 && key_position(keys, key) >= 0 {
            assert(keys[keys.len() - 1]@ == key);
        }
        if key_position(keys.drop_last(), key) >= 0 {
            let p = key_position(keys.drop_last(), key);
            assert(keys.drop_last()[p] == keys[p]);
        }
    }
}

/// The editor's shell choice for a rule's shell: the detected shell's entry
/// (the direct entry when this machine has no such shell), the custom entry,
/// or the direct entry.
pub open spec fn shell_index_of(shell: ShellKind, opts: ShellOptions) -> i32 {
    match shell {
        ShellKind::Detected { key } => if key_position(opts.keys@, key@) >= 0 {
            key_position(opts.keys@, key@) as i32
        } else {
            opts.direct_index
        },
        ShellKind::Custom { .. } => opts.custom_index,
        ShellKind::Direct => opts.direct_index,
    }
}

/// The editor's shell choice for a rule's shell.
pub fn shell_index(shell: &ShellKind, opts: &ShellOptions) -> (i: i32)
    ensures
        i == shell_index_of(*shell, *opts),
{
    match shell {
        ShellKind::Detected { key } => {
            let n = opts.keys.len();
            assert(opts.keys@.take(0) =~= Seq::<String>::empty());
            for p in 0..n
                invariant
                    n == opts.keys@.len(),
                    *shell == (ShellKind::Detected { key: *key }),
                    key_position(opts.keys@.take(p as int), key@) == -1,
            {
                proof {
                    assert(opts.keys@.take(p + 1).drop_last() =~= opts.keys@.take(p as int));
                }
                if opts.keys[p] == *key {
                    proof {
                        assert(key_position(opts.keys@.take(p + 1), key@) == p);
                        lemma_key_prefix(opts.keys@, key@, p + 1);
                    }
                    return p as i32;
                }
            }
            assert(opts.keys@.take(n as int) =~= opts.keys@);
            opts.direct_index
        },
        ShellKind::Custom { .. } => opts.custom_index,
        ShellKind::Direct => opts.direct_index,
    }
}

/// A key found in a prefix is found at the same place in the whole.
proof fn lemma_key_prefix(keys: Seq<String>, key: Seq<char>, m: int)
    requires
        0 <= m <= keys.len(),
        key_position(keys.take(m), key) >= 0,
    ensures
        key_position(keys, key) == key_position(keys.take(m), key),
    decreases keys.len() - m,
{
    if m < keys.len() {
        assert(keys.take(m + 1).drop_last() =~= keys.take(m));
        lemma_key_prefix(keys, key, m + 1);
    } else {
        assert(keys.take(m) =~= keys);
    }
}

/// The editor after showing `rule`: its content, its shell's choice, its
/// schedule's mode and fields (those of the other kinds keep their values;
/// a one-shot's time is local text), its policies, working directory and
/// variables as text.
pub open spec fn loaded(before: EditorForm, rule: Rule, opts: ShellOptions, f: EditorForm) -> bool {
    &&& f.name == rule.name
    &&& f.enabled == rule.enabled
    &&& f.command == rule.command
    &&& f.shell_index == shell_index_of(rule.shell, opts)
    &&& match rule.shell {
        ShellKind::Custom { path, arg_template } => f.custom_path == path && f.custom_arg == arg_template,
        _ => f.custom_path@ == Seq::<char>::empty() && f.custom_arg@ == "-c {cmd}"@,
    }
    &&& match rule.schedule {
        Schedule::Interval { seconds } => {
            &&& f.schedule_mode == 0
            &&& (f.interval_value, f.interval_unit) == value_unit(seconds as int)
            &&& f.cron == before.cron
            &&& f.once == before.once
        },
        Schedule::Cron { expr } => {
            &&& f.schedule_mode == 1
            &&& f.cron == expr
            &&& f.interval_value == before.interval_value
            &&& f.interval_unit == before.interval_unit
            &&& f.once == before.once
        },
        Schedule::Once { .. } => {
            &&& f.schedule_mode == 2
            &&& local_time_shape("%Y-%m-%d %H:%M"@, f.once@)
            &&& f.interval_value == before.interval_value
            &&& f.interval_unit == before.interval_unit
            &&& f.cron == before.cron
        },
    }
    &&& f.catch_up == rule.catch_up
    &&& overlap_of_index(f.overlap) == rule.overlap
    &&& 0 <= f.overlap <= 2
    &&& match rule.working_dir {
        Some(d) => f.working_dir == d,
        None => f.working_dir@ == Seq::<char>::empty(),
    }
    &&& f.env@ == env_text(rule.env@)
}

/// The rule with the editor's fields put on `base` (whose identity and run
/// state stay), given the shell and schedule the fields stand for: a blank
/// working directory is none, the variables are read from their text.
pub open spec fn filled(base: Rule, f: EditorForm, shell: ShellKind, schedule: Schedule, r: Rule) -> bool {
    &&& r.id == base.id
    &&& r.created_at == base.created_at
    &&& r.last_run == base.last_run
    &&& r.next_run == base.next_run
    &&& r.last_exit_code == base.last_exit_code
    &&& r.last_status == base.last_status
    &&& r.name == f.name
    &&& r.enabled == f.enabled
    &&& r.command == f.command
    &&& r.shell == shell
    &&& r.schedule == schedule
    &&& r.catch_up == f.catch_up
    &&& r.overlap == overlap_of_index(f.overlap)
    &&& r.working_dir == (if trim(f.working_dir@).len() == 0 {
        None
    } else {
        Some(f.working_dir)
    })
    &&& rule_pairs(r.env@) == env_entries(lines(f.env@))
}

/// What saving the editor onto `base` gives: the shell choice's error, else
/// the schedule's, else the validation's, else the filled rule. A one-shot's
/// local time is read in the machine's time zone, so in that mode its
/// instant, and whether that local time exists, are not fixed.
pub open spec fn saved(f: EditorForm, opts: ShellOptions, base: Rule, r: Result<Rule, String>) -> bool {
    match shell_choice(f.shell_index, opts, f.custom_path, f.custom_arg) {
        Err(e) => r matches Err(m) && m@ == e,
        Ok(sh) => if f.schedule_mode != 2 {
            match schedule_choice(f.schedule_mode, f.interval_value, f.interval_unit, f.cron) {
                Err(e) => r matches Err(m) && m@ == e,
                Ok(s) => match content_check(f.name@, f.command@, sh) {
                    Err(e) => r matches Err(m) && m@ == e,
                    Ok(()) => match schedule_check(s) {
                        Err(e) => r matches Err(m) && m@ == e,
                        Ok(()) => r matches Ok(rule) && filled(base, f, sh, s, rule),
                    },
                },
            }
        } else {
            match minute_text_utc_ms(trim(f.once@)) {
                None => r matches Err(m) && m@ == once_form_error(),
                Some(n) => match r {
                    Ok(rule) => once_near(rule.schedule, n) && content_check(f.name@, f.command@, sh)
                        is Ok && filled(base, f, sh, rule.schedule, rule),
                    Err(m) => m@ == once_local_error() || content_check(f.name@, f.command@, sh)
                        == Err::<(), Seq<char>>(m@),
                },
            }
        },
    }
}

impl EditorForm {
    /// The fields of a new rule: enabled, the first shell choice, an
    /// interval of 5 minutes, `0 9 * * *` ready as cron, catching up,
    /// skipping overlapping runs.
    pub fn new_rule() -> (f: EditorForm)
        ensures
            f.name@ == Seq::<char>::empty(),
            f.enabled,
            f.command@ == Seq::<char>::empty(),
            f.shell_index == 0,
            f.custom_path@ == Seq::<char>::empty(),
            f.custom_arg@ == "-c {cmd}"@,
            f.schedule_mode == 0,
            f.interval_value == 5,
            f.interval_unit == 1,
            f.cron@ == "0 9 * * *"@,
            f.once@ == Seq::<char>::empty(),
            f.catch_up,
            f.overlap == 0,
            f.working_dir@ == Seq::<char>::empty(),
            f.env@ == Seq::<char>::empty(),
    {
        EditorForm {
            name: String::new(),
            enabled: true,
            command: String::new(),
            shell_index: 0,
            custom_path: String::new(),
            custom_arg: String::from_str("-c {cmd}"),
            schedule_mode: 0,
            interval_value: 5,
            interval_unit: 1,
            cron: String::from_str("0 9 * * *"),
            once: String::new(),
            catch_up: true,
            overlap: 0,
            working_dir: String::new(),
            env: String::new(),
        }
    }

    /// Shows a rule in the editor.
    pub fn load_rule(&mut self, rule: &Rule, opts: &ShellOptions)
        requires
            rule.schedule matches Schedule::Once { at } ==> valid_instant(at as int),
        ensures
            loaded(*old(self), *rule, *opts, *final(self)),
    {
        self.name = rule.name.clone();
        self.enabled = rule.enabled;
        self.command = rule.command.clone();
        self.custom_path = String::new();
        self.custom_arg = String::from_str("-c {cmd}");
        self.shell_index = shell_index(&rule.shell, opts);
        match &rule.shell {
            ShellKind::Custom { path, arg_template } => {
                self.custom_path = path.clone();
                self.custom_arg = arg_template.clone();
            },
            _ => {},
        }
        match &rule.schedule {
            Schedule::Interval { seconds } => {
                self.schedule_mode = 0;
                let (v, u) = secs_to_value_unit(*seconds);
                self.interval_value = v;
                self.interval_unit = u;
            },
            Schedule::Cron { expr } => {
                self.schedule_mode = 1;
                self.cron = expr.clone();
            },
            Schedule::Once { at } => {
                self.schedule_mode = 2;
                self.once = local_time_text(*at, "%Y-%m-%d %H:%M");
            },
        }
        self.catch_up = rule.catch_up;
        self.overlap = overlap_index(rule.overlap);
        self.working_dir = match &rule.working_dir {
            Some(d) => d.clone(),
            None => String::new(),
        };
        self.env = env_to_text(rule.env.as_slice());
    }

    /// Saves the editor's fields onto `base` (the rule being edited, or a
    /// new one): builds the shell and the schedule, puts the fields on the
    /// rule and validates it.
    pub fn save(&self, opts: &ShellOptions, base: Rule) -> (r: Result<Rule, String>)
        ensures
            saved(*self, *opts, base, r),
    {
        let shell = match build_shell(
            self.shell_index,
            opts,
            self.custom_path.clone(),
            self.custom_arg.clone(),
        ) {
            Ok(s) => s,
            Err(e) => {
                return Err(e);
            },
        };
        let schedule = match build_schedule(
            self.schedule_mode,
            self.interval_value,
            self.interval_unit,
            self.cron.clone(),
            self.once.as_str(),
        ) {
            Ok(s) => s,
            Err(e) => {
                return Err(e);
            },
        };
        let wd = self.working_dir.clone();
        let working_dir = if is_blank(wd.as_str()) {
            None
        } else {
            Some(wd)
        };
        let rule = Rule {
            name: self.name.clone(),
            enabled: self.enabled,
            command: self.command.clone(),
            shell,
            schedule,
            catch_up: self.catch_up,
            overlap: overlap_from_index(self.overlap),
            working_dir,
            env: parse_env(self.env.as_str()),
            ..base
        };
        match rule.validate() {
            Ok(()) => Ok(rule),
            Err(e) => Err(e),
        }
    }
}

/// Choices as `shell_options` makes them: the custom and the direct entry
/// follow the detected shells.
pub open spec fn options_wf(opts: ShellOptions) -> bool {
    &&& opts.custom_index == opts.keys@.len()
    &&& opts.direct_index == opts.keys@.len() + 1
}

/// A rule the editor shows and saves back as it is: valid, its schedule not a
/// one-shot (whose time goes through the machine's time zone) and, for an
/// interval, a value that fits the editor's field, its shell one of the
/// choices, its working directory unset or not blank, and each of its
/// variables one the editor's text holds.
pub open spec fn editable(r: Rule, opts: ShellOptions) -> bool {
    &&& rule_check(r) is Ok
    &&& !(r.schedule is Once)
    &&& r.schedule matches Schedule::Interval { seconds } ==> (seconds as int) / unit_secs(
        value_unit(seconds as int).1,
    ) <= i32::MAX
    &&& r.shell matches ShellKind::Detected { key } ==> key_position(opts.keys@, key@) >= 0
    &&& r.working_dir matches Some(d) ==> trim(d@).len() > 0
    &&& forall|i: int| 0 <= i < r.env@.len() ==> writable_var(#[trigger] r.env@[i])
}

/// `a` is `b` as the editor gives it back: the same in every field, the
/// detected shell's key and the variables compared as text.
pub open spec fn same_rule(a: Rule, b: Rule) -> bool {
    &&& a.id == b.id
    &&& a.name == b.name
    &&& a.enabled == b.enabled
    &&& a.command == b.command
    &&& match b.shell {
        ShellKind::Detected { key } => a.shell matches ShellKind::Detected { key: k } && k@ == key@,
        _ => a.shell == b.shell,
    }
    &&& a.schedule == b.schedule
    &&& a.catch_up == b.catch_up
    &&& a.overlap == b.overlap
    &&& a.working_dir == b.working_dir
    &&& rule_pairs(a.env@) == rule_pairs(b.env@)
    &&& a.created_at == b.created_at
    &&& a.last_run == b.last_run
    &&& a.next_run == b.next_run
    &&& a.last_exit_code == b.last_exit_code
    &&& a.last_status == b.last_status
}

/// Opening a rule in the editor and saving it without changes gives the same
/// rule back.
pub proof fn lemma_edit_roundtrip(
    rule: Rule,
    opts: ShellOptions,
    before: EditorForm,
    f: EditorForm,
    r: Result<Rule, String>,
)
    requires
        options_wf(opts),
        editable(rule, opts),
        loaded(before, rule, opts, f),
        saved(f, opts, rule, r),
    ensures
        r matches Ok(x) && same_rule(x, rule),
{
    lemma_key_position(opts.keys@, Seq::<char>::empty());
    let sh = match rule.shell {
        ShellKind::Detected { key } => {
            lemma_key_position(opts.keys@, key@);
            ShellKind::Detected { key: opts.keys@[key_position(opts.keys@, key@)] }
        },
        _ => rule.shell,
    };
    assert(shell_choice(f.shell_index, opts, f.custom_path, f.custom_arg) == Ok::<ShellKind, Seq<char>>(sh));
    match rule.schedule {
        Schedule::Interval { seconds } => {
            lemma_interval_roundtrip(seconds);
        },
        _ => {},
    }
    assert(schedule_choice(f.schedule_mode, f.interval_value, f.interval_unit, f.cron) == Ok::<Schedule, Seq<char>>(rule.schedule));
    assert(content_check(f.name@, f.command@, sh) == content_check(rule.name@, rule.command@, rule.shell));
    lemma_env_text_roundtrip(rule.env@);
}

/// The text shown for a missing time.
pub open spec fn no_time() -> Seq<char> {
    "\u{2014}"@
}

fn time_or_dash(t: Option<i64>, pattern: &str) -> (r: String)
    requires
        t matches Some(x) ==> valid_instant(x as int),
        time_pattern(pattern@),
    ensures
        t is None ==> r@ == no_time(),
        t is Some ==> local_time_shape(pattern@, r@),
{
    match t {
        Some(x) => local_time_text(x, pattern),
        None => String::from_str("\u{2014}"),
    }
}

/// A row of the rules list.
#[derive(Clone, Debug)]
pub struct RuleListRow {
    pub id: String,
    pub name: String,
    pub schedule: String,
    pub shell: String,
    pub status: String,
    pub enabled: bool,
    /// Local `MM-DD HH:MM`, or a dash.
    pub last_run: String,
    /// Local `MM-DD HH:MM`, or a dash (always for a disabled rule).
    pub next_run: String,
    /// The rule's detected shell is not on this machine.
    pub shell_missing: bool,
}

/// How a rule shows in the rules list.
pub fn rule_list_row(rule: &Rule, catalog: &ShellCatalog) -> (row: RuleListRow)
    requires
        rule.schedule matches Schedule::Once { at } ==> valid_instant(at as int),
        rule.last_run matches Some(t) ==> valid_instant(t as int),
        rule.next_run matches Some(t) ==> valid_instant(t as int),
    ensures
        row.id@ == uuid_text(rule.id),
        row.name == rule.name,
        rule.schedule matches Schedule::Interval { seconds } ==> row.schedule@ == "Every "@
            + humanized(seconds as int),
        rule.schedule matches Schedule::Cron { expr } ==> row.schedule@ == "Cron: "@ + expr@,
        rule.schedule matches Schedule::Once { .. } ==> "Once at "@.is_prefix_of(row.schedule@)
            && local_time_shape("%Y-%m-%d %H:%M"@, row.schedule@.skip(8)),
        row.shell@ == shell_summary(rule.shell),
        row.status@ == status_name(rule.last_status),
        row.enabled == rule.enabled,
        rule.last_run is None ==> row.last_run@ == no_time(),
        rule.last_run is Some ==> local_time_shape("%m-%d %H:%M"@, row.last_run@),
        !rule.enabled || rule.next_run is None ==> row.next_run@ == no_time(),
        rule.enabled && rule.next_run is Some ==> local_time_shape("%m-%d %H:%M"@, row.next_run@),
        row.shell_missing == (rule.shell matches ShellKind::Detected { key } && !exists|i: int|
            first_with_key(catalog.shells@, key@, i)),
{
    let shell_missing = match &rule.shell {
        ShellKind::Detected { key } => catalog.get(key.as_str()).is_none(),
        _ => false,
    };
    let next_run = if rule.enabled {
        time_or_dash(rule.next_run, "%m-%d %H:%M")
    } else {
        String::from_str("\u{2014}")
    };
    RuleListRow {
        id: id_text(rule.id),
        name: rule.name.clone(),
        schedule: rule.schedule.describe(),
        shell: rule.shell.summary(),
        status: String::from_str(rule.last_status.as_str()),
        enabled: rule.enabled,
        last_run: time_or_dash(rule.last_run, "%m-%d %H:%M"),
        next_run,
        shell_missing,
    }
}

/// A row of a rule's run history.
#[derive(Clone, Debug)]
pub struct RunListRow {
    pub id: String,
    /// Local `MM-DD HH:MM:SS`.
    pub started: String,
    /// Local `HH:MM:SS`, or a dash while running.
    pub finished: String,
    pub status: String,
    /// The exit code, or a dash.
    pub exit_code: String,
    pub trigger: String,
    pub stdout: String,
    pub stderr: String,
    pub success: bool,
}

/// How a run shows in the history.
pub fn run_list_row(run: &RunRecord) -> (row: RunListRow)
    requires
        valid_instant(run.started_at as int),
        run.finished_at matches Some(t) ==> valid_instant(t as int),
    ensures
        row.id@ == dec(run.id as int),
        local_time_shape("%m-%d %H:%M:%S"@, row.started@),
        run.finished_at is None ==> row.finished@ == no_time(),
        run.finished_at is Some ==> local_time_shape("%H:%M:%S"@, row.finished@),
        row.status@ == run_status_name(*run),
        row.exit_code@ == match run.exit_code {
            Some(c) => dec(c as int),
            None => no_time(),
        },
        row.trigger == run.trigger,
        row.stdout == run.stdout,
        row.stderr == run.stderr,
        row.success == run.success,
{
    let mut id = String::new();
    push_dec(&mut id, run.id);
    let exit_code = match run.exit_code {
        Some(c) => {
            let mut t = String::new();
            push_dec(&mut t, c as i64);
            t
        },
        None => String::from_str("\u{2014}"),
    };
    RunListRow {
        id,
        started: local_time_text(run.started_at, "%m-%d %H:%M:%S"),
        finished: time_or_dash(run.finished_at, "%H:%M:%S"),
        status: String::from_str(run.status_text()),
        exit_code,
        trigger: run.trigger.clone(),
        stdout: run.stdout.clone(),
        stderr: run.stderr.clone(),
        success: run.success,
    }
}

} // verus!
