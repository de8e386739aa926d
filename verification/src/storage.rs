//! Storage failures, the rows the engine keeps about strategies and their
//! assignment to accounts, and the connection rules of the database.

use vstd::prelude::*;
use vstd::string::*;
use crate::text::{contains, has_infix, is_digit, occurs_at, starts_with};

verus! {

/// Why a storage operation failed.
#[derive(Debug)]
pub enum StorageError {
    Connection(String),
    Query(String),
    NotFound,
}

/// The human-readable text of a storage error.
pub open spec fn storage_error_text(e: StorageError) -> Seq<char> {
    match e {
        StorageError::Connection(msg) => "Connection error: "@ + msg@,
        StorageError::Query(msg) => "Query error: "@ + msg@,
        StorageError::NotFound => "Not found"@,
    }
}

impl StorageError {
    /// The human-readable text of the error.
    pub fn to_string(&self) -> (s: String)
        ensures
            s@ == storage_error_text(*self),
    {
        match self {
            StorageError::Connection(msg) => String::from_str("Connection error: ").concat(msg.as_str()),
            StorageError::Query(msg) => String::from_str("Query error: ").concat(msg.as_str()),
            StorageError::NotFound => String::from_str("Not found"),
        }
    }
}

/// The connection string actually opened: a SQLite URL that names no
/// `mode=` gets `mode=rwc` (create the file when missing) as one more query
/// parameter; any other URL is used as given.
pub open spec fn connect_url(url: Seq<char>) -> Seq<char> {
    if occurs_at(url, "sqlite:"@, 0) && !has_infix(url, "mode="@) {
        url + (if has_infix(url, "?"@) {
            "&"@
        } else {
            "?"@
        }) + "mode=rwc"@
    } else {
        url
    }
}

/// The connection string to open for a configured database URL.
pub fn sqlite_connect_url(database_url: &str) -> (url: String)
    ensures
        url@ == connect_url(database_url@),
{
    if starts_with(database_url, "sqlite:") && !contains(database_url, "mode=") {
        let mut url = String::from_str(database_url);
        if contains(database_url, "?") {
            url.append("&");
        } else {
            url.append("?");
        }
        url.append("mode=rwc");
        url
    } else {
        String::from_str(database_url)
    }
}

/// The family a stored strategy belongs to.
#[derive(Clone, Copy, Debug, PartialEq, Eq, Structural)]
pub enum StrategyKind {
    Momentum,
    MeanReversion,
    Custom,
}

/// The `strategy_type` column value of a strategy family.
pub open spec fn kind_name(kind: StrategyKind) -> Seq<char> {
    match kind {
        StrategyKind::Momentum => "momentum"@,
        StrategyKind::MeanReversion => "mean_reversion"@,
        StrategyKind::Custom => "custom"@,
    }
}

impl StrategyKind {
    /// The `strategy_type` column value of this family.
    pub fn column_value(&self) -> (s: &'static str)
        ensures
            s@ == kind_name(*self),
    {
        match self {
            StrategyKind::Momentum => "momentum",
            StrategyKind::MeanReversion => "mean_reversion",
            StrategyKind::Custom => "custom",
        }
    }
}

/// A stored strategy definition; its parameters are kept as JSON.
#[derive(Debug, Clone)]
pub struct DbStrategy {
    pub id: String,
    pub name: String,
    pub strategy_type: String,
    pub params_json: String,
    pub created_at: String,
    pub updated_at: String,
}

/// The assignment of a strategy to an account, with the symbols it trades.
#[derive(Debug, Clone)]
pub struct DbAccountStrategy {
    pub account_id: String,
    pub strategy_id: String,
    pub symbols_json: String,
    pub enabled: bool,
    pub assigned_at: String,
}

/// A fresh random identifier in the hyphenated form of a version-4 UUID
/// (`uuid::Uuid::new_v4().to_string()`): 36 characters, hyphens at
/// positions 8, 13, 18 and 23. Which identifier comes out is chance.
#[verifier::external_body]
fn new_uuid() -> (id: String)
    ensures
        id@.len() == 36,
        id@[8] == '-' && id@[13] == '-' && id@[18] == '-' && id@[23] == '-',
{
    uuid::Uuid::new_v4().to_string()
}

/// Whether `s[from..to]` are all decimal digits.
pub open spec fn all_digits(s: Seq<char>, from: int, to: int) -> bool {
    forall|i: int| from <= i < to ==> is_digit(#[trigger] s[i])
}

/// The shape of a UTC time in RFC 3339 form as chrono writes it: a year of
/// four digits (or, past 9999, a `+` and at least five digits), `-MM-DD`,
/// `T`, `HH:MM:SS`, a fraction of 3, 6 or 9 digits only when the
/// nanoseconds are not zero, and the offset `+00:00`.
pub open spec fn rfc3339_utc_shape(s: Seq<char>) -> bool {
    exists|k: int| #![trigger s[k]] {
        &&& (k == 4 && all_digits(s, 0, 4)) || (k >= 6 && s[0] == '+' && all_digits(s, 1, k))
        &&& k + 15 <= s.len()
        &&& s[k] == '-' && s[k + 3] == '-' && s[k + 6] == 'T' && s[k + 9] == ':' && s[k + 12] == ':'
        &&& all_digits(s, k + 1, k + 3) && all_digits(s, k + 4, k + 6) && all_digits(s, k + 7, k + 9)
        &&& all_digits(s, k + 10, k + 12) && all_digits(s, k + 13, k + 15)
        &&& ({
            let rest = s.subrange(k + 15, s.len() as int);
            ||| rest == "+00:00"@
            ||| exists|n: int| #![trigger rest[n]]
                (n == 3 || n == 6 || n == 9) && rest.len() == n + 7 && rest[0] == '.'
                    && all_digits(rest, 1, n + 1) && rest.subrange(n + 1, n + 7) == "+00:00"@
        })
    }
}

/// The current time in RFC 3339 form (`chrono::Utc::now().to_rfc3339()`).
/// Which time it is depends on the clock; every outcome has the shape
/// `rfc3339_utc_shape` describes. chrono panics when the clock reads before
/// 1970, as the library would then too.
#[verifier::external_body]
fn now_rfc3339() -> (s: String)
    ensures
        rfc3339_utc_shape(s@),
{
    chrono::Utc::now().to_rfc3339()
}

impl DbStrategy {
    /// A new definition with a fresh identifier, created and updated now.
    /// Like the identifier and clock it draws on, it panics only if the
    /// operating system's random source fails or the clock reads before 1970.
    pub fn new(name: String, kind: StrategyKind, params_json: String) -> (s: DbStrategy)
        ensures
            s.name@ == name@,
            s.strategy_type@ == kind_name(kind),
            s.params_json@ == params_json@,
            s.created_at@ == s.updated_at@,
            rfc3339_utc_shape(s.created_at@),
            s.id@.len() == 36,
            s.id@[8] == '-' && s.id@[13] == '-' && s.id@[18] == '-' && s.id@[23] == '-',
    {
        let now = now_rfc3339();
        let updated_at = now.clone();
        DbStrategy {
            id: new_uuid(),
            name,
            strategy_type: String::from_str(kind.column_value()),
            params_json,
            created_at: now,
            updated_at,
        }
    }
}

} // verus!
