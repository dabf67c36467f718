//! Core domain types: rules, schedules, shells, run records.
//!
//! Instants are Unix timestamps in milliseconds (UTC) and rule ids are the
//! 128-bit values of their UUIDs. Times are kept to the millisecond: the
//! sub-millisecond part of a clock reading or of a parsed time is dropped
//! (nanoseconds in an `i64` would not span chrono's range of dates).

use crate::text::{
    chars_of, concat_str, contains_seq, dec, is_blank, is_digit, is_ws, lemma_split_ws_concat,
    lemma_trim_ends, lemma_trim_idempotent, lemma_trim_unchanged, push_dec, split_ws,
    split_ws_chars, str_contains, str_eq, string_from_chars, trim, trim_bounds,
};
use vstd::prelude::*;

verus! {

/// The earliest instant (Unix milliseconds) that chrono's `DateTime<Utc>` holds.
pub const MIN_INSTANT_MS: i64 = -8_334_601_315_200_000i64;

/// The latest whole millisecond that chrono's `DateTime<Utc>` holds.
pub const MAX_INSTANT_MS: i64 = 8_210_266_876_799_999i64;

/// `t` is an instant that chrono's `DateTime<Utc>` can hold.
pub open spec fn valid_instant(t: int) -> bool {
    MIN_INSTANT_MS <= t <= MAX_INSTANT_MS
}

/// An optional machine integer as a mathematical one.
pub open spec fn opt_int(r: Option<i64>) -> Option<int> {
    match r {
        Some(t) => Some(t as int),
        None => None,
    }
}

/// `t` moved by `seconds` seconds (chrono's `DateTime + Duration::seconds`).
pub open spec fn shifted(t: int, seconds: int) -> int {
    t + seconds * 1000
}

/// `t + Duration::seconds(seconds)` stays within chrono's range (chrono panics
/// otherwise).
pub open spec fn shift_fits(t: int, seconds: int) -> bool {
    valid_instant(t) && valid_instant(shifted(t, seconds))
}

/// Whether `t + Duration::seconds(seconds)` stays within chrono's range.
pub fn shift_fits_exec(t: i64, seconds: i64) -> (b: bool)
    ensures
        b == shift_fits(t as int, seconds as int),
{
    if t < MIN_INSTANT_MS || t > MAX_INSTANT_MS {
        return false;
    }
    if seconds > 17_000_000_000_000i64 || seconds < -17_000_000_000_000i64 {
        return false;
    }
    let u = t + seconds * 1000;
    MIN_INSTANT_MS <= u && u <= MAX_INSTANT_MS
}

/// What `cron::Schedule::from_str` makes of an expression: `None` when it
/// accepts it, the text of its error when it rejects it.
pub uninterp spec fn cron_rejection(expr: Seq<char>) -> Option<Seq<char>>;

/// The first instant strictly after `after` at which the cron expression fires,
/// as the `cron` crate computes it in UTC (`Schedule::after(..).next()`).
pub uninterp spec fn cron_next(expr: Seq<char>, after: int) -> Option<int>;

/// Calls `cron::Schedule::from_str` and keeps whether it accepted the
/// expression and, if not, the `Display` text of its error.
#[verifier::external_body]
fn cron_parse(expr: &str) -> (r: Result<(), String>)
    ensures
        match r {
            Ok(()) => cron_rejection(expr@) is None,
            Err(e) => cron_rejection(expr@) == Some(e@),
        },
{
    match <cron::Schedule as std::str::FromStr>::from_str(expr) {
        Ok(_) => Ok(()),
        Err(e) => Err(e.to_string()),
    }
}

/// Parses the expression with `cron::Schedule::from_str` and asks the parsed
/// schedule for its first fire time after `after` (`Schedule::after(..).next()`
/// in UTC), from plain values to plain values. The contract names the result;
/// the `cron` source shows that it is `None` when the expression is rejected,
/// and that a fire time lies strictly after `after` (the search starts one second
/// later, at whole seconds).
#[verifier::external_body]
fn cron_next_after(expr: &str, after: i64) -> (r: Option<i64>)
    requires
        MIN_INSTANT_MS <= after <= MAX_INSTANT_MS - 1000,
    ensures
        opt_int(r) == cron_next(expr@, after as int),
        cron_rejection(expr@) is Some ==> r is None,
        r matches Some(t) ==> after < t && valid_instant(t as int),
{
    let start = chrono::DateTime::<chrono::Utc>::from_timestamp_millis(after).unwrap();
    let parsed = <cron::Schedule as std::str::FromStr>::from_str(expr).ok()?;
    parsed.after(&start).next().map(|t| t.timestamp_millis())
}

/// The `strftime` patterns the library shows times with.
pub open spec fn time_pattern(p: Seq<char>) -> bool {
    ||| p == "%Y-%m-%d %H:%M"@
    ||| p == "%m-%d %H:%M"@
    ||| p == "%m-%d %H:%M:%S"@
    ||| p == "%H:%M:%S"@
}

/// Two decimal digits at `i`.
pub open spec fn two_digits(t: Seq<char>, i: int) -> bool {
    is_digit(t[i]) && is_digit(t[i + 1])
}

/// `HH:MM` at `i`.
pub open spec fn clock_at(t: Seq<char>, i: int) -> bool {
    two_digits(t, i) && t[i + 2] == ':' && two_digits(t, i + 3)
}

/// `MM-DD HH:MM` at `i`.
pub open spec fn day_minute_at(t: Seq<char>, i: int) -> bool {
    two_digits(t, i) && t[i + 2] == '-' && two_digits(t, i + 3) && t[i + 5] == ' ' && clock_at(t, i + 6)
}

/// The form of a time formatted with one of the library's patterns: fields
/// of two digits (the month, day, hour, minute and second are zero-padded)
/// between the pattern's separators; the year (`%Y`) is at least four
/// characters (four digits, more and a sign outside years 0 to 9999).
pub open spec fn local_time_shape(pattern: Seq<char>, t: Seq<char>) -> bool {
    if pattern == "%H:%M:%S"@ {
        t.len() == 8 && clock_at(t, 0) && t[5] == ':' && two_digits(t, 6)
    } else if pattern == "%m-%d %H:%M:%S"@ {
        t.len() == 14 && day_minute_at(t, 0) && t[11] == ':' && two_digits(t, 12)
    } else if pattern == "%m-%d %H:%M"@ {
        t.len() == 11 && day_minute_at(t, 0)
    } else {
        t.len() >= 16 && t[t.len() - 12] == '-' && day_minute_at(t, t.len() - 11)
    }
}

/// Formats `at` with `pattern` in the machine's local time zone (chrono's
/// `with_timezone(&Local)`, then `format(pattern).to_string()`). Which local
/// time it shows depends on the machine's time zone, so of the text only its
/// form is stated.
#[verifier::external_body]
pub(crate) fn local_time_text(at: i64, pattern: &str) -> (r: String)
    requires
        valid_instant(at as int),
        time_pattern(pattern@),
    ensures
        local_time_shape(pattern@, r@),
{
    let t = chrono::DateTime::<chrono::Utc>::from_timestamp_millis(at).unwrap();
    t.with_timezone(&chrono::Local).format(pattern).to_string()
}

/// A fresh random rule id: `uuid::Uuid::new_v4`, as its 128-bit value. It is
/// random, so nothing is stated of it.
#[verifier::external_body]
fn new_rule_id() -> u128 {
    uuid::Uuid::new_v4().as_u128()
}

/// The current time (`chrono::Utc::now`) in Unix milliseconds. Of a clock
/// reading only that it is an instant chrono holds is stated.
#[verifier::external_body]
fn now_ms() -> (t: i64)
    ensures
        valid_instant(t as int),
{
    chrono::Utc::now().timestamp_millis()
}

/// How often / when a rule fires.
#[derive(Clone, Debug, PartialEq)]
pub enum Schedule {
    /// Fire every `seconds` seconds.
    Interval { seconds: i64 },
    /// Fire on a cron expression (5-field standard or 6-field with seconds).
    Cron { expr: String },
    /// Fire exactly once at an absolute instant (Unix milliseconds).
    Once { at: i64 },
}

/// The cron crate expects a seconds field: a standard 5-field expression gets
/// a leading `0 ` (fire at second 0); the expression is trimmed either way.
pub open spec fn normalized_cron(expr: Seq<char>) -> Seq<char> {
    let t = trim(expr);
    if split_ws(t).len() == 5 {
        "0 "@ + t
    } else {
        t
    }
}

/// A cron schedule's next fire time is the `cron` crate's first fire time of
/// the normalized expression strictly after the instant itself (the search is
/// not moved), and an interval's is the instant plus the interval.
pub proof fn lemma_next_fire_from_the_instant(s: Schedule, after: int)
    ensures
        s matches Schedule::Cron { expr } ==> next_fire(s, after) == cron_next(normalized_cron(expr@), after),
        s matches Schedule::Interval { seconds } ==> next_fire(s, after) == Some(after + seconds * 1000),
        s matches Schedule::Once { at } ==> (next_fire(s, after) is Some <==> at > after),
        s matches Schedule::Once { at } ==> (at > after ==> next_fire(s, after) == Some(at as int)),
{
}

/// Normalizing an expression twice is normalizing it once: a standard
/// expression gets its seconds field only once.
pub proof fn lemma_normalize_cron_idempotent(expr: Seq<char>)
    ensures
        normalized_cron(normalized_cron(expr)) == normalized_cron(expr),
{
    let t = trim(expr);
    lemma_trim_ends(expr);
    if split_ws(t).len() == 5 {
        reveal_strlit("0 ");
        let p = seq!['0', ' '];
        let n = "0 "@ + t;
        assert(t.len() > 0);
        assert(n =~= p + t);
        assert(!is_ws('0'));
        assert(n[0] == '0');
        assert(n.last() == t.last());
        lemma_trim_unchanged(n);
        lemma_split_ws_concat(p, t);
        assert(p.drop_last() =~= seq!['0']);
        assert(seq!['0'].drop_last() =~= Seq::<char>::empty());
        assert(split_ws(Seq::<char>::empty()) =~= Seq::<Seq<char>>::empty());
        assert(seq!['0'].last() == '0');
        assert(split_ws(seq!['0']) =~= seq![seq!['0']]);
        assert(split_ws(p) =~= seq![seq!['0']]);
        assert(split_ws(n).len() == 6);
    } else {
        lemma_trim_idempotent(expr);
    }
}

/// An interval shorter than one second: the one schedule whose next fire
/// time is not strictly later.
pub open spec fn sub_second(s: Schedule) -> bool {
    s matches Schedule::Interval { seconds } && seconds < 1
}

/// The next fire time strictly after `after`, if any.
pub open spec fn next_fire(s: Schedule, after: int) -> Option<int> {
    match s {
        Schedule::Interval { seconds } => Some(shifted(after, seconds as int)),
        Schedule::Cron { expr } => cron_next(normalized_cron(expr@), after),
        Schedule::Once { at } => if at > after {
            Some(at as int)
        } else {
            None
        },
    }
}

/// The inputs on which computing the next fire time stays within chrono's
/// range (outside it chrono panics).
pub open spec fn next_fire_fits(s: Schedule, after: int) -> bool {
    match s {
        Schedule::Interval { seconds } => shift_fits(after, seconds as int),
        Schedule::Cron { .. } => MIN_INSTANT_MS <= after <= MAX_INSTANT_MS - 1000,
        Schedule::Once { .. } => true,
    }
}

/// The outcome of validating a schedule, with the error text.
pub open spec fn schedule_check(s: Schedule) -> Result<(), Seq<char>> {
    match s {
        Schedule::Interval { seconds } => if seconds < 1 {
            Err("Interval must be at least 1 second"@)
        } else {
            Ok(())
        },
        Schedule::Cron { expr } => match cron_rejection(normalized_cron(expr@)) {
            None => Ok(()),
            Some(e) => Err("Invalid cron expression: "@ + e),
        },
        Schedule::Once { .. } => Ok(()),
    }
}

/// A unit result with its error text as characters.
pub open spec fn unit_result(r: Result<(), String>) -> Result<(), Seq<char>> {
    match r {
        Ok(()) => Ok(()),
        Err(e) => Err(e@),
    }
}

/// `"s"` unless `n` is one.
pub open spec fn plural_suffix(n: int) -> Seq<char> {
    if n == 1 {
        ""@
    } else {
        "s"@
    }
}

/// A number of seconds in the largest whole unit that divides it.
pub open spec fn humanized(s: int) -> Seq<char> {
    if s >= 86400 && s % 86400 == 0 {
        dec(s / 86400) + " day"@ + plural_suffix(s / 86400)
    } else if s >= 3600 && s % 3600 == 0 {
        dec(s / 3600) + " hour"@ + plural_suffix(s / 3600)
    } else if s >= 60 && s % 60 == 0 {
        dec(s / 60) + " minute"@ + plural_suffix(s / 60)
    } else {
        dec(s) + " second"@ + plural_suffix(s)
    }
}

/// The seconds in a unit of the interval description: 0 second, 1 minute,
/// 2 hour, 3 day.
pub open spec fn unit_seconds(u: int) -> int {
    if u == 3 {
        86400
    } else if u == 2 {
        3600
    } else if u == 1 {
        60
    } else {
        1
    }
}

/// The word of a unit of the interval description.
pub open spec fn unit_word(u: int) -> Seq<char> {
    if u == 3 {
        " day"@
    } else if u == 2 {
        " hour"@
    } else if u == 1 {
        " minute"@
    } else {
        " second"@
    }
}

/// An interval is described as a count of one unit that is exactly the
/// interval (`n` units of `u` make `s` seconds), the largest unit of which
/// the interval is a whole, non-zero count, pluralized unless the count is
/// one.
pub proof fn lemma_humanized_exact(s: int)
    ensures
        exists|n: int, u: int|
            #![trigger unit_seconds(u), dec(n)]
            0 <= u <= 3 && n * unit_seconds(u) == s && humanized(s) == dec(n) + unit_word(u)
                + plural_suffix(n) && forall|w: int|
                u < w <= 3 ==> !(s >= unit_seconds(w) && #[trigger] (s % unit_seconds(w)) == 0),
{
    if s >= 86400 && s % 86400 == 0 {
        let n = s / 86400;
        assert(n * unit_seconds(3) == s);
        assert(humanized(s) == dec(n) + unit_word(3) + plural_suffix(n));
    } else if s >= 3600 && s % 3600 == 0 {
        let n = s / 3600;
        assert(n * unit_seconds(2) == s);
        assert(humanized(s) == dec(n) + unit_word(2) + plural_suffix(n));
        assert(unit_seconds(3) == 86400);
    } else if s >= 60 && s % 60 == 0 {
        let n = s / 60;
        assert(n * unit_seconds(1) == s);
        assert(humanized(s) == dec(n) + unit_word(1) + plural_suffix(n));
        assert(unit_seconds(3) == 86400 && unit_seconds(2) == 3600);
    } else {
        assert(s * unit_seconds(0) == s);
        assert(humanized(s) == dec(s) + unit_word(0) + plural_suffix(s));
        assert(unit_seconds(3) == 86400 && unit_seconds(2) == 3600 && unit_seconds(1) == 60);
    }
}

pub fn plural(n: i64) -> (r: &'static str)
    ensures
        r@ == plural_suffix(n as int),
{
    if n == 1 {
        ""
    } else {
        "s"
    }
}

fn count_with_unit(n: i64, unit: &str) -> (r: String)
    ensures
        r@ == dec(n as int) + unit@ + plural_suffix(n as int),
{
    let mut out = String::new();
    push_dec(&mut out, n);
    out.append(unit);
    out.append(plural(n));
    assert(Seq::<char>::empty() + dec(n as int) == dec(n as int));
    out
}

pub fn humanize_secs(s: i64) -> (r: String)
    ensures
        r@ == humanized(s as int),
{
    if s >= 86400 && s % 86400 == 0 {
        count_with_unit(s / 86400, " day")
    } else if s >= 3600 && s % 3600 == 0 {
        count_with_unit(s / 3600, " hour")
    } else if s >= 60 && s % 60 == 0 {
        count_with_unit(s / 60, " minute")
    } else {
        count_with_unit(s, " second")
    }
}

/// The cron crate expects a seconds field. Standard 5-field expressions get a
/// leading `0 ` (fire at second 0).
pub fn normalize_cron(expr: &str) -> (r: String)
    ensures
        r@ == normalized_cron(expr@),
{
    let v = chars_of(expr);
    let (lo, hi) = trim_bounds(v.as_slice());
    let t = &v.as_slice()[lo..hi];
    let words = split_ws_chars(t);
    let trimmed = string_from_chars(t);
    if words.len() == 5 {
        concat_str("0 ", trimmed.as_str())
    } else {
        trimmed
    }
}

impl Schedule {
    pub fn validate(&self) -> (r: Result<(), String>)
        ensures
            unit_result(r) == schedule_check(*self),
    {
        match self {
            Schedule::Interval { seconds } => {
                if *seconds < 1 {
                    Err(String::from_str("Interval must be at least 1 second"))
                } else {
                    Ok(())
                }
            },
            Schedule::Cron { expr } => {
                let normalized = normalize_cron(expr.as_str());
                match cron_parse(normalized.as_str()) {
                    Ok(()) => Ok(()),
                    Err(e) => Err(concat_str("Invalid cron expression: ", e.as_str())),
                }
            },
            Schedule::Once { .. } => Ok(()),
        }
    }

    /// The next fire time strictly after `after`, if any.
    pub fn next_after(&self, after: i64) -> (r: Option<i64>)
        requires
            next_fire_fits(*self, after as int),
        ensures
            opt_int(r) == next_fire(*self, after as int),
            self matches Schedule::Interval { seconds } ==> r == Some((after + seconds * 1000) as i64),
            self matches Schedule::Cron { expr } ==> opt_int(r) == cron_next(
                normalized_cron(expr@),
                after as int,
            ),
            self matches Schedule::Once { at } ==> opt_int(r) == (if at > after {
                Some(at as int)
            } else {
                None
            }),
            r is Some && !sub_second(*self) ==> r->0 > after,
            r is Some && !(*self is Once) ==> valid_instant(r->0 as int),
    {
        match self {
            Schedule::Interval { seconds } => Some(after + *seconds * 1000),
            Schedule::Cron { expr } => {
                let normalized = normalize_cron(expr.as_str());
                cron_next_after(normalized.as_str(), after)
            },
            Schedule::Once { at } => {
                if *at > after {
                    Some(*at)
                } else {
                    None
                }
            },
        }
    }

    /// Whether computing the next fire time after `after` stays within
    /// chrono's range.
    pub fn next_after_fits(&self, after: i64) -> (b: bool)
        ensures
            b == next_fire_fits(*self, after as int),
    {
        match self {
            Schedule::Interval { seconds } => shift_fits_exec(after, *seconds),
            Schedule::Cron { .. } => MIN_INSTANT_MS <= after && after <= MAX_INSTANT_MS - 1000,
            Schedule::Once { .. } => true,
        }
    }

    pub fn describe(&self) -> (r: String)
        requires
            self matches Schedule::Once { at } ==> valid_instant(at as int),
        ensures
            self matches Schedule::Interval { seconds } ==> r@ == "Every "@ + humanized(
                seconds as int,
            ),
            self matches Schedule::Cron { expr } ==> r@ == "Cron: "@ + expr@,
            self matches Schedule::Once { .. } ==> "Once at "@.is_prefix_of(r@) && local_time_shape(
                "%Y-%m-%d %H:%M"@,
                r@.skip(8),
            ),
    {
        match self {
            Schedule::Interval { seconds } => {
                let h = humanize_secs(*seconds);
                concat_str("Every ", h.as_str())
            },
            Schedule::Cron { expr } => concat_str("Cron: ", expr.as_str()),
            Schedule::Once { at } => {
                let t = local_time_text(*at, "%Y-%m-%d %H:%M");
                let r = concat_str("Once at ", t.as_str());
                assert(r@.subrange(0, "Once at "@.len() as int) =~= "Once at "@);
                proof {
                    reveal_strlit("Once at ");
                }
                assert(r@.skip(8) =~= t@);
                r
            },
        }
    }
}

} // verus!

verus! {

/// How the rule's command is executed.
#[derive(Clone, Debug, PartialEq)]
pub enum ShellKind {
    /// A shell auto-detected on this machine, referenced by catalog key.
    Detected { key: String },
    /// An arbitrary shell binary plus an argument template (must contain `{cmd}`).
    Custom { path: String, arg_template: String },
    /// Run the command directly (split into program + args), no shell wrapper.
    Direct,
}

/// The one-line summary of a shell choice.
pub open spec fn shell_summary(s: ShellKind) -> Seq<char> {
    match s {
        ShellKind::Detected { key } => key@,
        ShellKind::Custom { path, .. } => "custom: "@ + path@,
        ShellKind::Direct => "direct"@,
    }
}

impl ShellKind {
    pub fn summary(&self) -> (r: String)
        ensures
            r@ == shell_summary(*self),
    {
        match self {
            ShellKind::Detected { key } => key.clone(),
            ShellKind::Custom { path, .. } => concat_str("custom: ", path.as_str()),
            ShellKind::Direct => String::from_str("direct"),
        }
    }
}

/// What happens when a rule fires while its previous run is still going.
#[derive(Clone, Copy, Debug, PartialEq, Eq, Structural)]
pub enum OverlapPolicy {
    Skip,
    Queue,
    Parallel,
}

/// The stored name of an overlap policy.
pub open spec fn overlap_name(p: OverlapPolicy) -> Seq<char> {
    match p {
        OverlapPolicy::Skip => "Skip"@,
        OverlapPolicy::Queue => "Queue"@,
        OverlapPolicy::Parallel => "Parallel"@,
    }
}

/// The overlap policy a stored name stands for; anything unknown is `Skip`.
pub open spec fn overlap_from_name(s: Seq<char>) -> OverlapPolicy {
    if s == "Queue"@ {
        OverlapPolicy::Queue
    } else if s == "Parallel"@ {
        OverlapPolicy::Parallel
    } else {
        OverlapPolicy::Skip
    }
}

impl OverlapPolicy {
    pub fn as_str(&self) -> (r: &'static str)
        ensures
            r@ == overlap_name(*self),
    {
        match self {
            OverlapPolicy::Skip => "Skip",
            OverlapPolicy::Queue => "Queue",
            OverlapPolicy::Parallel => "Parallel",
        }
    }

    pub fn from_str_lossy(s: &str) -> (r: OverlapPolicy)
        ensures
            r == overlap_from_name(s@),
    {
        if str_eq(s, "Queue") {
            OverlapPolicy::Queue
        } else if str_eq(s, "Parallel") {
            OverlapPolicy::Parallel
        } else {
            OverlapPolicy::Skip
        }
    }
}

/// Reading back the stored name of an overlap policy gives the same policy.
pub proof fn lemma_overlap_name_roundtrip(p: OverlapPolicy)
    ensures
        overlap_from_name(overlap_name(p)) == p,
{
    reveal_strlit("Skip");
    reveal_strlit("Queue");
    reveal_strlit("Parallel");
    assert("Skip"@.len() == 4);
    assert("Skip"@[0] == 'S' && "Skip"@[1] == 'k');
    assert("Queue"@.len() == 5);
    assert("Queue"@[0] == 'Q' && "Queue"@[1] == 'u');
    assert("Parallel"@.len() == 8);
    assert("Parallel"@[0] == 'P' && "Parallel"@[1] == 'a');
    assert("Skip"@ != "Queue"@);
    assert("Skip"@ != "Parallel"@);
    assert("Queue"@ != "Parallel"@);
}

/// The outcome of a rule's most recent run.
#[derive(Clone, Copy, Debug, PartialEq, Eq, Structural)]
pub enum LastStatus {
    Never,
    Running,
    Success,
    Failed,
    Skipped,
    Expired,
}

impl Default for LastStatus {
    fn default() -> (r: LastStatus)
        ensures
            r == LastStatus::Never,
    {
        LastStatus::Never
    }
}

/// The stored name of a run status.
pub open spec fn status_name(s: LastStatus) -> Seq<char> {
    match s {
        LastStatus::Never => "Never"@,
        LastStatus::Running => "Running"@,
        LastStatus::Success => "Success"@,
        LastStatus::Failed => "Failed"@,
        LastStatus::Skipped => "Skipped"@,
        LastStatus::Expired => "Expired"@,
    }
}

/// The run status a stored name stands for; anything unknown is `Never`.
pub open spec fn status_from_name(s: Seq<char>) -> LastStatus {
    if s == "Running"@ {
        LastStatus::Running
    } else if s == "Success"@ {
        LastStatus::Success
    } else if s == "Failed"@ {
        LastStatus::Failed
    } else if s == "Skipped"@ {
        LastStatus::Skipped
    } else if s == "Expired"@ {
        LastStatus::Expired
    } else {
        LastStatus::Never
    }
}

impl LastStatus {
    pub fn as_str(&self) -> (r: &'static str)
        ensures
            r@ == status_name(*self),
    {
        match self {
            LastStatus::Never => "Never",
            LastStatus::Running => "Running",
            LastStatus::Success => "Success",
            LastStatus::Failed => "Failed",
            LastStatus::Skipped => "Skipped",
            LastStatus::Expired => "Expired",
        }
    }

    pub fn from_str_lossy(s: &str) -> (r: LastStatus)
        ensures
            r == status_from_name(s@),
    {
        if str_eq(s, "Running") {
            LastStatus::Running
        } else if str_eq(s, "Success") {
            LastStatus::Success
        } else if str_eq(s, "Failed") {
            LastStatus::Failed
        } else if str_eq(s, "Skipped") {
            LastStatus::Skipped
        } else if str_eq(s, "Expired") {
            LastStatus::Expired
        } else {
            LastStatus::Never
        }
    }
}

/// Reading back the stored name of a run status gives the same status.
pub proof fn lemma_status_name_roundtrip(s: LastStatus)
    ensures
        status_from_name(status_name(s)) == s,
{
    reveal_strlit("Never");
    reveal_strlit("Running");
    reveal_strlit("Success");
    reveal_strlit("Failed");
    reveal_strlit("Skipped");
    reveal_strlit("Expired");
    assert("Never"@.len() == 5);
    assert("Never"@[0] == 'N' && "Never"@[1] == 'e');
    assert("Running"@.len() == 7);
    assert("Running"@[0] == 'R' && "Running"@[1] == 'u');
    assert("Success"@.len() == 7);
    assert("Success"@[0] == 'S' && "Success"@[1] == 'u');
    assert("Failed"@.len() == 6);
    assert("Failed"@[0] == 'F' && "Failed"@[1] == 'a');
    assert("Skipped"@.len() == 7);
    assert("Skipped"@[0] == 'S' && "Skipped"@[1] == 'k');
    assert("Expired"@.len() == 7);
    assert("Expired"@[0] == 'E' && "Expired"@[1] == 'x');
    assert("Never"@ != "Running"@);
    assert("Never"@ != "Success"@);
    assert("Never"@ != "Failed"@);
    assert("Never"@ != "Skipped"@);
    assert("Never"@ != "Expired"@);
    assert("Running"@ != "Success"@);
    assert("Running"@ != "Failed"@);
    assert("Running"@ != "Skipped"@);
    assert("Running"@ != "Expired"@);
    assert("Success"@ != "Failed"@);
    assert("Success"@ != "Skipped"@);
    assert("Success"@ != "Expired"@);
    assert("Failed"@ != "Skipped"@);
    assert("Failed"@ != "Expired"@);
    assert("Skipped"@ != "Expired"@);
}

/// One environment variable set for a rule's runs.
#[derive(Clone, Debug, PartialEq, Eq)]
pub struct EnvVar {
    pub key: String,
    pub value: String,
}

/// A scheduled task.
#[derive(Clone, Debug)]
pub struct Rule {
    pub id: u128,
    pub name: String,
    pub enabled: bool,
    pub command: String,
    pub shell: ShellKind,
    pub schedule: Schedule,
    pub catch_up: bool,
    pub overlap: OverlapPolicy,
    /// Working directory; `None`/empty means the user's home directory.
    pub working_dir: Option<String>,
    pub env: Vec<EnvVar>,
    pub created_at: i64,
    // Runtime state (persisted).
    pub last_run: Option<i64>,
    pub next_run: Option<i64>,
    pub last_exit_code: Option<i32>,
    pub last_status: LastStatus,
}

/// A fresh rule with the given identity and content: enabled, catching up,
/// skipping overlapping runs, no working directory or variables, never run.
pub open spec fn fresh_rule(
    r: Rule,
    name: Seq<char>,
    command: Seq<char>,
    shell: ShellKind,
    schedule: Schedule,
) -> bool {
    &&& r.name@ == name
    &&& r.enabled
    &&& r.command@ == command
    &&& r.shell == shell
    &&& r.schedule == schedule
    &&& r.catch_up
    &&& r.overlap == OverlapPolicy::Skip
    &&& r.working_dir is None
    &&& r.env@.len() == 0
    &&& r.last_run is None
    &&& r.next_run is None
    &&& r.last_exit_code is None
    &&& r.last_status == LastStatus::Never
}

/// The checks of a rule's name, command and shell, in that order, with the
/// error text.
pub open spec fn content_check(name: Seq<char>, command: Seq<char>, shell: ShellKind) -> Result<(), Seq<char>> {
    if trim(name).len() == 0 {
        Err("Name must not be empty"@)
    } else if trim(command).len() == 0 {
        Err("Command must not be empty"@)
    } else if shell matches ShellKind::Custom { path, .. } && trim(path@).len() == 0 {
        Err("Custom shell path must not be empty"@)
    } else if shell matches ShellKind::Custom { arg_template, .. } && !contains_seq(
        arg_template@,
        "{cmd}"@,
    ) {
        Err("Custom argument template must contain {cmd}"@)
    } else {
        Ok(())
    }
}

/// The outcome of validating a rule, with the error text: its content, then
/// its schedule.
pub open spec fn rule_check(r: Rule) -> Result<(), Seq<char>> {
    match content_check(r.name@, r.command@, r.shell) {
        Err(e) => Err(e),
        Ok(()) => schedule_check(r.schedule),
    }
}

impl Rule {
    /// A new rule with a fresh random id, created now.
    pub fn new(name: String, command: String, shell: ShellKind, schedule: Schedule) -> (r: Rule)
        ensures
            fresh_rule(r, name@, command@, shell, schedule),
            valid_instant(r.created_at as int),
    {
        let id = new_rule_id();
        let created_at = now_ms();
        Rule::with_identity(id, created_at, name, command, shell, schedule)
    }

    /// A new rule with the given id and creation instant.
    pub fn with_identity(
        id: u128,
        created_at: i64,
        name: String,
        command: String,
        shell: ShellKind,
        schedule: Schedule,
    ) -> (r: Rule)
        ensures
            r.id == id,
            r.created_at == created_at,
            fresh_rule(r, name@, command@, shell, schedule),
    {
        Rule {
            id,
            name,
            enabled: true,
            command,
            shell,
            schedule,
            catch_up: true,
            overlap: OverlapPolicy::Skip,
            working_dir: None,
            env: Vec::new(),
            created_at,
            last_run: None,
            next_run: None,
            last_exit_code: None,
            last_status: LastStatus::Never,
        }
    }

    pub fn validate(&self) -> (r: Result<(), String>)
        ensures
            unit_result(r) == rule_check(*self),
    {
        if is_blank(self.name.as_str()) {
            return Err(String::from_str("Name must not be empty"));
        }
        if is_blank(self.command.as_str()) {
            return Err(String::from_str("Command must not be empty"));
        }
        if let ShellKind::Custom { path, arg_template } = &self.shell {
            if is_blank(path.as_str()) {
                return Err(String::from_str("Custom shell path must not be empty"));
            }
            if !str_contains(arg_template.as_str(), "{cmd}") {
                return Err(String::from_str("Custom argument template must contain {cmd}"));
            }
        }
        self.schedule.validate()
    }
}

/// How a run shows in the history: still running, succeeded or failed.
pub open spec fn run_status_name(r: RunRecord) -> Seq<char> {
    if r.finished_at is None {
        "Running"@
    } else if r.success {
        "Success"@
    } else {
        "Failed"@
    }
}

/// A single execution record (history).
#[derive(Clone, Debug)]
pub struct RunRecord {
    pub id: i64,
    pub started_at: i64,
    pub finished_at: Option<i64>,
    pub exit_code: Option<i32>,
    pub success: bool,
    pub stdout: String,
    pub stderr: String,
    pub trigger: String,
}

impl RunRecord {
    /// How the run shows in the history.
    pub fn status_text(&self) -> (r: &'static str)
        ensures
            r@ == run_status_name(*self),
    {
        if self.finished_at.is_none() {
            "Running"
        } else if self.success {
            "Success"
        } else {
            "Failed"
        }
    }
}

} // verus!
