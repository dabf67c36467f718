//! The rule codec of the store: what a `rules` row holds for a rule, and the
//! rule a row reads back as; and where run history is cut. Running SQL and the
//! JSON of the shell, schedule and environment columns are the caller's; they
//! reach this module as values.

use crate::model::{
    lemma_overlap_name_roundtrip, lemma_status_name_roundtrip, opt_int, overlap_from_name,
    overlap_name, status_from_name, status_name, valid_instant, EnvVar, LastStatus,
    OverlapPolicy, Rule, RunRecord, Schedule, ShellKind, MIN_INSTANT_MS,
};
use vstd::prelude::*;

verus! {

/// The earliest instant that RFC 3339 text (a four-digit year) can express:
/// 0000-01-01T00:00:00Z.
pub const RFC3339_MIN_MS: i64 = -62_167_219_200_000i64;

/// The latest whole millisecond that RFC 3339 text can express:
/// 9999-12-31T23:59:59.999Z.
pub const RFC3339_MAX_MS: i64 = 253_402_300_799_999i64;

/// The lowercase hexadecimal digit for `d` (`0 <= d < 16`).
pub open spec fn hex_char(d: int) -> char {
    if d < 10 {
        (48 + d) as char
    } else {
        (87 + d) as char
    }
}

/// The last `k` hexadecimal digits of `n`, most significant first.
pub open spec fn hex_digits(n: nat, k: nat) -> Seq<char>
    decreases k,
{
    if k == 0 {
        Seq::empty()
    } else {
        hex_digits(n / 16, (k - 1) as nat).push(hex_char((n % 16) as int))
    }
}

/// The text `uuid::Uuid::to_string` writes for a 128-bit id: its 32
/// lowercase hexadecimal digits in hyphen-separated groups of 8, 4, 4, 4
/// and 12.
pub open spec fn uuid_text(id: u128) -> Seq<char> {
    let h = hex_digits(id as nat, 32);
    h.subrange(0, 8) + seq!['-'] + h.subrange(8, 12) + seq!['-'] + h.subrange(12, 16) + seq!['-']
        + h.subrange(16, 20) + seq!['-'] + h.subrange(20, 32)
}

/// The id `uuid::Uuid::parse_str` reads from a text, if any.
pub uninterp spec fn uuid_parse(s: Seq<char>) -> Option<u128>;

/// The text chrono's `DateTime::<Utc>::to_rfc3339` writes for an instant.
pub uninterp spec fn rfc3339_text(t: int) -> Seq<char>;

/// The instant (Unix milliseconds) chrono's `DateTime::parse_from_rfc3339`
/// reads from a text, if any.
pub uninterp spec fn rfc3339_parse(s: Seq<char>) -> Option<int>;

/// Writes an id with `uuid::Uuid::from_u128(..).to_string()`. The `uuid`
/// crate reads its own hyphenated text back as the same id.
#[verifier::external_body]
pub(crate) fn id_text(id: u128) -> (r: String)
    ensures
        r@ == uuid_text(id),
        uuid_parse(r@) == Some(id),
{
    uuid::Uuid::from_u128(id).to_string()
}

/// Reads an id with `uuid::Uuid::parse_str`.
#[verifier::external_body]
fn parse_id(s: &str) -> (r: Option<u128>)
    ensures
        r == uuid_parse(s@),
{
    uuid::Uuid::parse_str(s).ok().map(|u| u.as_u128())
}

/// Writes an instant with chrono's `to_rfc3339` (UTC). Within the four-digit
/// years chrono reads that text back as the same instant.
#[verifier::external_body]
fn instant_text(t: i64) -> (r: String)
    requires
        valid_instant(t as int),
    ensures
        r@ == rfc3339_text(t as int),
        RFC3339_MIN_MS <= t <= RFC3339_MAX_MS ==> rfc3339_parse(r@) == Some(t as int),
{
    chrono::DateTime::<chrono::Utc>::from_timestamp_millis(t).unwrap().to_rfc3339()
}

/// Reads an instant with chrono's `DateTime::parse_from_rfc3339`, in Unix
/// milliseconds.
#[verifier::external_body]
fn parse_instant(s: &str) -> (r: Option<i64>)
    ensures
        opt_int(r) == rfc3339_parse(s@),
        r matches Some(t) ==> valid_instant(t as int),
{
    chrono::DateTime::parse_from_rfc3339(s).ok().map(|t| t.timestamp_millis())
}

/// The columns of a `rules` row, with the JSON columns (shell, schedule,
/// environment) as values.
#[derive(Clone, Debug)]
pub struct RuleRow {
    pub id: String,
    pub name: String,
    pub enabled: i64,
    pub command: String,
    pub shell: ShellKind,
    pub schedule: Schedule,
    pub catch_up: i64,
    pub overlap: String,
    pub working_dir: Option<String>,
    pub env: Vec<EnvVar>,
    pub created_at: String,
    pub last_run: Option<String>,
    pub next_run: Option<String>,
    pub last_exit_code: Option<i64>,
    pub last_status: String,
}

/// Why a row does not read back as a rule.
#[derive(Clone, Copy, Debug, PartialEq, Eq, Structural)]
pub enum RowError {
    /// The id column is not a UUID.
    Id,
    /// A time column is not RFC 3339 text.
    Time,
}

/// An optional time column read back.
pub open spec fn opt_time(s: Option<String>) -> Option<Option<int>> {
    match s {
        None => Some(None),
        Some(t) => match rfc3339_parse(t@) {
            Some(x) => Some(Some(x)),
            None => None,
        },
    }
}

/// Why the row does not read back, if it does not: the id first, then the
/// creation time, the last run and the next run.
pub open spec fn row_error(row: RuleRow) -> Option<RowError> {
    if uuid_parse(row.id@) is None {
        Some(RowError::Id)
    } else if rfc3339_parse(row.created_at@) is None || opt_time(row.last_run) is None
        || opt_time(row.next_run) is None {
        Some(RowError::Time)
    } else {
        None
    }
}

/// The rule a readable row stands for.
pub open spec fn row_rule(row: RuleRow, r: Rule) -> bool {
    &&& Some(r.id) == uuid_parse(row.id@)
    &&& r.name == row.name
    &&& r.enabled == (row.enabled != 0)
    &&& r.command == row.command
    &&& r.shell == row.shell
    &&& r.schedule == row.schedule
    &&& r.catch_up == (row.catch_up != 0)
    &&& r.overlap == overlap_from_name(row.overlap@)
    &&& r.working_dir == match row.working_dir {
        Some(d) => if d@.len() == 0 {
            None
        } else {
            Some(d)
        },
        None => None,
    }
    &&& r.env == row.env
    &&& Some(r.created_at as int) == rfc3339_parse(row.created_at@)
    &&& Some(opt_int(r.last_run)) == opt_time(row.last_run)
    &&& Some(opt_int(r.next_run)) == opt_time(row.next_run)
    &&& r.last_exit_code == match row.last_exit_code {
        Some(c) => Some(c as i32),
        None => None,
    }
    &&& r.last_status == status_from_name(row.last_status@)
}

fn read_time(s: &Option<String>) -> (r: Result<Option<i64>, RowError>)
    ensures
        match r {
            Ok(t) => opt_time(*s) == Some(opt_int(t)),
            Err(e) => opt_time(*s) is None && e == RowError::Time,
        },
{
    match s {
        None => Ok(None),
        Some(t) => match parse_instant(t.as_str()) {
            Some(x) => Ok(Some(x)),
            None => Err(RowError::Time),
        },
    }
}

impl RuleRow {
    /// The rule the row reads back as.
    pub fn into_rule(self) -> (r: Result<Rule, RowError>)
        ensures
            match r {
                Ok(rule) => row_error(self) is None && row_rule(self, rule),
                Err(e) => row_error(self) == Some(e),
            },
    {
        let ghost row = self;
        let id = match parse_id(self.id.as_str()) {
            Some(id) => id,
            None => {
                return Err(RowError::Id);
            },
        };
        let created_at = match parse_instant(self.created_at.as_str()) {
            Some(t) => t,
            None => {
                return Err(RowError::Time);
            },
        };
        let last_run = match read_time(&self.last_run) {
            Ok(t) => t,
            Err(e) => {
                return Err(e);
            },
        };
        let next_run = match read_time(&self.next_run) {
            Ok(t) => t,
            Err(e) => {
                return Err(e);
            },
        };
        let overlap = OverlapPolicy::from_str_lossy(self.overlap.as_str());
        let last_status = LastStatus::from_str_lossy(self.last_status.as_str());
        let working_dir = match self.working_dir {
            Some(d) => if d.as_str().is_empty() {
                None
            } else {
                Some(d)
            },
            None => None,
        };
        let last_exit_code = match self.last_exit_code {
            Some(c) => Some(c as i32),
            None => None,
        };
        Ok(
            Rule {
                id,
                name: self.name,
                enabled: self.enabled != 0,
                command: self.command,
                shell: self.shell,
                schedule: self.schedule,
                catch_up: self.catch_up != 0,
                overlap,
                working_dir,
                env: self.env,
                created_at,
                last_run,
                next_run,
                last_exit_code,
                last_status,
            },
        )
    }
}

/// An optional time column written.
fn write_time(t: Option<i64>) -> (r: Option<String>)
    requires
        t matches Some(x) ==> valid_instant(x as int),
    ensures
        match t {
            Some(x) => r matches Some(s) && s@ == rfc3339_text(x as int) && (RFC3339_MIN_MS <= x
                <= RFC3339_MAX_MS ==> rfc3339_parse(s@) == Some(x as int)),
            None => r is None,
        },
{
    match t {
        Some(x) => Some(instant_text(x)),
        None => None,
    }
}

/// A rule's instants are ones chrono holds.
pub open spec fn instants_valid(r: Rule) -> bool {
    &&& valid_instant(r.created_at as int)
    &&& r.last_run matches Some(t) ==> valid_instant(t as int)
    &&& r.next_run matches Some(t) ==> valid_instant(t as int)
}

/// `row` is what stores `r`: the columns as written, and, for instants that
/// RFC 3339 text can express, times that read back as the same instants.
pub open spec fn row_stores(row: RuleRow, r: Rule) -> bool {
    &&& row.id@ == uuid_text(r.id)
    &&& uuid_parse(row.id@) == Some(r.id)
    &&& row.name == r.name
    &&& row.enabled == (if r.enabled { 1i64 } else { 0i64 })
    &&& row.command == r.command
    &&& row.shell == r.shell
    &&& row.schedule == r.schedule
    &&& row.catch_up == (if r.catch_up { 1i64 } else { 0i64 })
    &&& row.overlap@ == overlap_name(r.overlap)
    &&& row.working_dir == r.working_dir
    &&& row.env == r.env
    &&& row.created_at@ == rfc3339_text(r.created_at as int)
    &&& RFC3339_MIN_MS <= r.created_at <= RFC3339_MAX_MS ==> rfc3339_parse(row.created_at@)
        == Some(r.created_at as int)
    &&& r.last_run matches Some(t) ==> (RFC3339_MIN_MS <= t <= RFC3339_MAX_MS ==> opt_time(
        row.last_run,
    ) == Some(Some(t as int)))
    &&& r.last_run is None ==> row.last_run is None
    &&& r.next_run matches Some(t) ==> (RFC3339_MIN_MS <= t <= RFC3339_MAX_MS ==> opt_time(
        row.next_run,
    ) == Some(Some(t as int)))
    &&& r.next_run is None ==> row.next_run is None
    &&& row.last_exit_code == match r.last_exit_code {
        Some(c) => Some(c as i64),
        None => None,
    }
    &&& row.last_status@ == status_name(r.last_status)
}

impl RuleRow {
    /// The row that stores a rule.
    pub fn from_rule(rule: Rule) -> (row: RuleRow)
        requires
            instants_valid(rule),
        ensures
            row_stores(row, rule),
    {
        let id = id_text(rule.id);
        let created_at = instant_text(rule.created_at);
        let last_run = write_time(rule.last_run);
        let next_run = write_time(rule.next_run);
        RuleRow {
            id,
            name: rule.name,
            enabled: if rule.enabled {
                1
            } else {
                0
            },
            command: rule.command,
            shell: rule.shell,
            schedule: rule.schedule,
            catch_up: if rule.catch_up {
                1
            } else {
                0
            },
            overlap: String::from_str(rule.overlap.as_str()),
            working_dir: rule.working_dir,
            env: rule.env,
            created_at,
            last_run,
            next_run,
            last_exit_code: match rule.last_exit_code {
                Some(c) => Some(c as i64),
                None => None,
            },
            last_status: String::from_str(rule.last_status.as_str()),
        }
    }
}

/// A rule the store can hold as it is: its instants fit RFC 3339 text and an
/// empty working directory is written as none.
pub open spec fn storable(r: Rule) -> bool {
    &&& RFC3339_MIN_MS <= r.created_at <= RFC3339_MAX_MS
    &&& r.last_run matches Some(t) ==> RFC3339_MIN_MS <= t <= RFC3339_MAX_MS
    &&& r.next_run matches Some(t) ==> RFC3339_MIN_MS <= t <= RFC3339_MAX_MS
    &&& r.working_dir matches Some(d) ==> d@.len() > 0
}

/// What a read gives back of a write: the row that stores a storable rule
/// reads back as that same rule.
pub proof fn lemma_row_roundtrip(rule: Rule, row: RuleRow)
    requires
        storable(rule),
        row_stores(row, rule),
    ensures
        row_error(row) is None,
        row_rule(row, rule),
{
    lemma_overlap_name_roundtrip(rule.overlap);
    lemma_status_name_roundtrip(rule.last_status);
}

/// Milliseconds per day.
pub const DAY_MS: i64 = 86_400_000i64;

/// Where run history is cut when it is kept for `days` days: runs started
/// before the returned instant are deleted; `None` (for `days <= 0`) keeps
/// everything.
pub fn history_cutoff(days: i64, now: i64) -> (r: Option<i64>)
    requires
        days > 0 ==> valid_instant(now as int) && valid_instant(now - days * DAY_MS),
    ensures
        days <= 0 ==> r is None,
        days > 0 ==> r == Some((now - days * DAY_MS) as i64),
{
    if days <= 0 {
        None
    } else {
        assert(days * DAY_MS <= now - MIN_INSTANT_MS) by (nonlinear_arith)
            requires
                valid_instant(now as int),
                valid_instant(now - days * DAY_MS),
        ;
        assert(0 < days * DAY_MS) by (nonlinear_arith)
            requires
                days > 0,
        ;
        Some(now - days * DAY_MS)
    }
}

/// The text column of a rule id, as the store writes it.
pub fn id_column(id: u128) -> (s: String)
    ensures
        s@ == uuid_text(id),
        uuid_parse(s@) == Some(id),
{
    id_text(id)
}

/// The text column of an instant, as the store writes it (RFC 3339, UTC).
pub fn instant_column(t: i64) -> (s: String)
    requires
        valid_instant(t as int),
    ensures
        s@ == rfc3339_text(t as int),
        RFC3339_MIN_MS <= t <= RFC3339_MAX_MS ==> rfc3339_parse(s@) == Some(t as int),
{
    instant_text(t)
}

/// The columns of a `runs` row.
#[derive(Clone, Debug)]
pub struct RunRow {
    pub id: i64,
    pub started_at: String,
    pub finished_at: Option<String>,
    pub exit_code: Option<i64>,
    pub success: i64,
    pub stdout: String,
    pub stderr: String,
    pub trigger: String,
}

/// The run record a readable `runs` row stands for.
pub open spec fn row_record(row: RunRow, rec: RunRecord) -> bool {
    &&& rec.id == row.id
    &&& rfc3339_parse(row.started_at@) == Some(rec.started_at as int)
    &&& opt_time(row.finished_at) == Some(opt_int(rec.finished_at))
    &&& rec.exit_code == match row.exit_code {
        Some(c) => Some(c as i32),
        None => None,
    }
    &&& rec.success == (row.success != 0)
    &&& rec.stdout == row.stdout
    &&& rec.stderr == row.stderr
    &&& rec.trigger == row.trigger
}

impl RunRow {
    /// The run record the row reads back as: refused when a time column is
    /// not RFC 3339 text.
    pub fn into_record(self) -> (r: Result<RunRecord, RowError>)
        ensures
            match r {
                Ok(rec) => row_record(self, rec),
                Err(e) => e == RowError::Time && (rfc3339_parse(self.started_at@) is None || opt_time(
                    self.finished_at,
                ) is None),
            },
            r is Ok <==> (rfc3339_parse(self.started_at@) is Some && opt_time(self.finished_at) is Some),
    {
        let started_at = match parse_instant(self.started_at.as_str()) {
            Some(t) => t,
            None => {
                return Err(RowError::Time);
            },
        };
        let finished_at = match read_time(&self.finished_at) {
            Ok(t) => t,
            Err(e) => {
                return Err(e);
            },
        };
        let exit_code = match self.exit_code {
            Some(c) => Some(c as i32),
            None => None,
        };
        Ok(
            RunRecord {
                id: self.id,
                started_at,
                finished_at,
                exit_code,
                success: self.success != 0,
                stdout: self.stdout,
                stderr: self.stderr,
                trigger: self.trigger,
            },
        )
    }
}

} // verus!
