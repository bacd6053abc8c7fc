use vstd::prelude::*;
use vstd::arithmetic::div_mod::lemma_fundamental_div_mod_converse;
use crate::error::DbError;

verus! {

/// Seconds in one UTC calendar day.
pub const SECS_PER_DAY: i64 = 86400;

/// The UTC calendar day (days since 1970-01-01) that holds second `t`.
pub open spec fn day_number(t: int) -> int {
    t / (SECS_PER_DAY as int)
}

/// What `DateTime::parse_from_rfc3339` followed by `timestamp` gives for a text:
/// the Unix second it denotes, or nothing when the text does not parse.
pub uninterp spec fn rfc3339_seconds(s: Seq<char>) -> Option<i64>;

/// Relies on chrono's `DateTime::parse_from_rfc3339` and `DateTime::timestamp`:
/// a pure function of the text.
#[verifier::external_body]
fn parse_rfc3339(s: &str) -> (r: Option<i64>)
    ensures
        r == rfc3339_seconds(s@),
{
    chrono::DateTime::parse_from_rfc3339(s).ok().map(|d| d.timestamp())
}

/// Relies on chrono's `From<SystemTime> for DateTime<Utc>` (which also takes
/// clock readings before 1970) and `DateTime::timestamp`: the current Unix
/// second, of which nothing is promised. The conversion unwraps only for a
/// clock reading beyond chrono's range of about 262,000 years either side of
/// year 0.
#[verifier::external_body]
fn current_unix_seconds() -> (r: i64) {
    chrono::DateTime::<chrono::Utc>::from(std::time::SystemTime::now()).timestamp()
}

/// The UTC calendar day that holds second `t`, rounding toward minus infinity.
pub fn day_of(t: i64) -> (r: i64)
    ensures
        r == day_number(t as int),
{
    if t >= 0 {
        let q = (t as u64) / 86400;
        proof {
            lemma_fundamental_div_mod_converse(t as int, 86400, q as int, (t as u64 % 86400) as int);
        }
        q as i64
    } else {
        let m = (-(t + 1)) as u64;
        let q = m / 86400;
        let rem = m % 86400;
        proof {
            assert(m as int == (q as int) * 86400 + rem as int);
            lemma_fundamental_div_mod_converse(
                t as int,
                86400,
                -(q as int) - 1,
                86400 - 1 - rem as int,
            );
        }
        -(q as i64) - 1
    }
}

/// A point in time, held as whole seconds since the Unix epoch (UTC).
#[derive(Clone, Copy, Debug, PartialEq, Eq, Structural)]
pub struct DbTimestamp {
    pub secs: i64,
}

impl DbTimestamp {
    /// The current time; nothing is promised of its value.
    pub fn now() -> (r: DbTimestamp) {
        DbTimestamp { secs: current_unix_seconds() }
    }

    pub fn from_secs(secs: i64) -> (r: DbTimestamp)
        ensures
            r.secs == secs,
    {
        DbTimestamp { secs }
    }

    /// Decodes an RFC 3339 text; one that does not decode is a validation failure.
    pub fn from_rfc3339(s: &str) -> (r: Result<DbTimestamp, DbError>)
        ensures
            match rfc3339_seconds(s@) {
                Some(t) => r == Ok::<DbTimestamp, DbError>(DbTimestamp { secs: t }),
                None => r matches Err(DbError::InvalidTimestamp(e)) && e@ == s@,
            },
    {
        match parse_rfc3339(s) {
            Some(t) => Ok(DbTimestamp { secs: t }),
            None => Err(DbError::InvalidTimestamp(s.to_owned())),
        }
    }

    /// Seconds since the Unix epoch.
    pub fn inner(&self) -> (r: i64)
        ensures
            r == self.secs,
    {
        self.secs
    }

    /// The UTC calendar day of this instant.
    pub fn day(&self) -> (r: i64)
        ensures
            r == day_number(self.secs as int),
    {
        day_of(self.secs)
    }
}

} // verus!
