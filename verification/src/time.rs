//! Moments, the text they are stored as, and whether they lie ahead.
use vstd::prelude::*;

use crate::text::chars_of;

verus! {

/// A moment in UTC: whole seconds since 1970 and the nanoseconds past them.
#[derive(Debug, Clone, Copy, PartialEq, Eq, Structural)]
pub struct Moment {
    pub secs: i64,
    pub nanos: u32,
}

/// The last second of the year 9999, past which no stored timestamp goes.
pub const LAST_SECOND: i64 = 253_402_300_799;

impl Moment {
    /// The moment can be written as a stored timestamp.
    pub open spec fn valid(self) -> bool {
        0 <= self.secs <= LAST_SECOND
    }

    /// The moment lies strictly after `other`.
    pub open spec fn after(self, other: Moment) -> bool {
        self.secs > other.secs || (self.secs == other.secs && self.nanos > other.nanos)
    }

    /// Whether the moment lies strictly after `other`.
    pub fn is_after(self, other: Moment) -> (after: bool)
        ensures
            after == self.after(other),
    {
        self.secs > other.secs || (self.secs == other.secs && self.nanos > other.nanos)
    }

    /// The moment is one that a clock can show: not before 1970, and with less than a second of
    /// nanoseconds.
    pub open spec fn shown(self) -> bool {
        0 <= self.secs && self.nanos < 1_000_000_000
    }

    /// The moment with its second held back to the last that can be stored.
    pub open spec fn capped(self) -> Moment {
        Moment {
            secs: if self.secs > LAST_SECOND {
                LAST_SECOND
            } else {
                self.secs
            },
            nanos: self.nanos,
        }
    }

    /// Holds the moment back to the last second that can be stored.
    pub fn cap(self) -> (kept: Moment)
        ensures
            kept == self.capped(),
    {
        if self.secs > LAST_SECOND {
            Moment { secs: LAST_SECOND, nanos: self.nanos }
        } else {
            self
        }
    }
}

/// The moment that an RFC 3339 text names, as `chrono::DateTime::parse_from_rfc3339` reads it:
/// its seconds since 1970 and its nanoseconds past them; `None` for any other text.
pub uninterp spec fn rfc3339_moment(text: Seq<char>) -> Option<(i64, u32)>;

/// A second since 1970 as `YYYY-MM-DD HH:MM:SS`, as `chrono` formats it.
pub uninterp spec fn datetime_text(secs: i64) -> Seq<char>;

/// The second is written so that it reads back as itself.
pub open spec fn written_time(secs: i64) -> bool {
    rfc3339_moment(rfc3339_form(datetime_text(secs))) == Some((secs, 0u32))
}

/// Calls `chrono::DateTime::parse_from_rfc3339`. Claimed of it: its result depends on the text
/// alone.
#[verifier::external_body]
fn parse_rfc3339(text: &str) -> (moment: Option<(i64, u32)>)
    ensures
        moment == rfc3339_moment(text@),
{
    chrono::DateTime::parse_from_rfc3339(text)
        .ok()
        .map(|at| (at.timestamp(), at.timestamp_subsec_nanos()))
}

/// Calls `chrono::DateTime::from_timestamp` and formats the result as `%Y-%m-%d %H:%M:%S`.
/// Claimed of it: the text depends on the second alone, and read as RFC 3339 in UTC it names that
/// second again.
#[verifier::external_body]
fn format_datetime(secs: i64) -> (text: String)
    requires
        0 <= secs <= LAST_SECOND,
    ensures
        text@ == datetime_text(secs),
        rfc3339_moment(rfc3339_form(text@)) == Some((secs, 0u32)),
{
    chrono::DateTime::from_timestamp(secs, 0)
        .unwrap_or_default()
        .format("%Y-%m-%d %H:%M:%S")
        .to_string()
}

/// Calls `chrono::Utc::now`. Claimed of it: never before 1970, and less than a second of
/// nanoseconds.
#[verifier::external_body]
fn utc_now() -> (now: Moment)
    ensures
        now.shown(),
{
    let now = chrono::Utc::now();
    Moment { secs: now.timestamp(), nanos: now.timestamp_subsec_nanos() }
}

/// The current moment, no later than the last that can be stored. Which moment is current rests on
/// the machine's clock.
pub fn clock() -> (now: Moment)
    ensures
        now.valid(),
        now.nanos < 1_000_000_000,
        exists|shown: Moment| #[trigger] shown.shown() && now == shown.capped(),
{
    let shown = utc_now();
    shown.cap()
}

/// The stored form of a moment: its second.
pub fn timestamp(now: Moment) -> (text: String)
    requires
        now.valid(),
    ensures
        text@ == datetime_text(now.secs),
        written_time(now.secs),
{
    format_datetime(now.secs)
}

/// The stored form of the current moment.
pub fn now() -> (text: String)
    ensures
        exists|at: Moment|
            at.valid() && text@ == #[trigger] datetime_text(at.secs) && written_time(at.secs),
{
    let at = clock();
    assert(at.valid());
    timestamp(at)
}

/// The stored form of the moment `secs` seconds after `now`, or nothing when that lies past the
/// year 9999.
pub open spec fn datetime_after(now: Moment, secs: nat) -> Option<Seq<char>> {
    if now.secs + secs <= LAST_SECOND {
        Some(datetime_text((now.secs + secs) as i64))
    } else {
        None
    }
}

/// Writes the moment `secs` seconds after `now`.
pub fn timestamp_after(now: Moment, secs: u64) -> (text: Option<String>)
    requires
        now.valid(),
    ensures
        crate::text::opt_text(text) == datetime_after(now, secs as nat),
        text is Some ==> written_time((now.secs + secs) as i64),
{
    if secs <= LAST_SECOND as u64 && now.secs as u64 + secs <= LAST_SECOND as u64 {
        Some(format_datetime(now.secs + secs as i64))
    } else {
        None
    }
}

/// The SQL that renders a timestamp column as RFC 3339 text in UTC, under the column's own name.
pub open spec fn ts_column(col: Seq<char>) -> Seq<char> {
    "to_char("@ + col
        + " AT TIME ZONE 'UTC', 'YYYY-MM-DD\"T\"HH24:MI:SS.US\"+00:00\"') AS "@ + col
}

/// Renders a timestamp column as RFC 3339 text in the database.
pub fn ts_text(col: &str) -> (sql: String)
    ensures
        sql@ == ts_column(col@),
{
    let mut sql = crate::text::text_of("to_char(");
    sql.append(col);
    sql.append(" AT TIME ZONE 'UTC', 'YYYY-MM-DD\"T\"HH24:MI:SS.US\"+00:00\"') AS ");
    sql.append(col);
    sql
}

/// RFC 3339 text in UTC as it is stored: down to the second, with a blank for each `T`.
pub open spec fn stored_form(text: Seq<char>) -> Seq<char> {
    Seq::new(
        if text.len() < 19 {
            text.len()
        } else {
            19
        },
        |i: int|
            if text[i] == 'T' {
                ' '
            } else {
                text[i]
            },
    )
}

/// Takes a timestamp as `ts_text` renders it to the form in which it is stored.
pub fn stored_time(text: &str) -> (timestamp: String)
    ensures
        timestamp@ == stored_form(text@),
{
    let chars = chars_of(text);
    let length: usize = if chars.len() < 19 {
        chars.len()
    } else {
        19
    };
    let mut timestamp = String::new();
    for i in 0..length
        invariant
            length == stored_form(chars@).len(),
            length <= chars@.len(),
            timestamp@ == stored_form(chars@).take(i as int),
    {
        let c = chars[i];
        if c == 'T' {
            timestamp.push(' ');
        } else {
            timestamp.push(c);
        }
        assert(timestamp@ =~= stored_form(chars@).take(i + 1));
    }
    assert(timestamp@ =~= stored_form(chars@));
    timestamp
}

/// A stored timestamp, taken to RFC 3339 and back, is the same again.
pub proof fn stored_times_come_back(timestamp: Seq<char>)
    requires
        timestamp.len() == 19,
        !timestamp.contains('T'),
    ensures
        stored_form(rfc3339_form(timestamp)) == timestamp,
{
    assert forall|i: int| 0 <= i < 19 implies timestamp[i] != 'T' by {}
    assert(stored_form(rfc3339_form(timestamp)) =~= timestamp);
}

/// The text with a `T` for each blank.
pub open spec fn blanks_as_t(text: Seq<char>) -> Seq<char> {
    Seq::new(
        text.len(),
        |i: int|
            if text[i] == ' ' {
                'T'
            } else {
                text[i]
            },
    )
}

/// A stored timestamp as RFC 3339 has it: a `T` for each blank, and `Z` for UTC at the end.
pub open spec fn rfc3339_form(timestamp: Seq<char>) -> Seq<char> {
    blanks_as_t(timestamp).push('Z')
}

fn normalized(timestamp: &str) -> (text: String)
    ensures
        text@ == rfc3339_form(timestamp@),
{
    let chars = chars_of(timestamp);
    let mut text = String::new();
    for i in 0..chars.len()
        invariant
            text@ == blanks_as_t(chars@.take(i as int)),
    {
        let c = chars[i];
        if c == ' ' {
            text.push('T');
        } else {
            text.push(c);
        }
        assert(text@ =~= blanks_as_t(chars@.take(i + 1)));
    }
    assert(chars@.take(chars@.len() as int) =~= chars@);
    text.push('Z');
    text
}

/// The stored timestamp lies ahead of `now`. One that cannot be read does not.
pub open spec fn ahead_of(timestamp: Seq<char>, now: Moment) -> bool {
    match rfc3339_moment(rfc3339_form(timestamp)) {
        Some((secs, nanos)) => (Moment { secs, nanos }).after(now),
        None => false,
    }
}

/// Whether a stored timestamp lies ahead of `now`.
pub fn in_future_at(timestamp: &str, now: Moment) -> (ahead: bool)
    ensures
        ahead == ahead_of(timestamp@, now),
{
    match parse_rfc3339(normalized(timestamp).as_str()) {
        Some((secs, nanos)) => (Moment { secs, nanos }).is_after(now),
        None => false,
    }
}

/// Whether a stored timestamp lies ahead of the current moment.
pub fn in_future(timestamp: &str) -> (ahead: bool)
    ensures
        exists|now: Moment| now.valid() && ahead == #[trigger] ahead_of(timestamp@, now),
{
    let now = clock();
    in_future_at(timestamp, now)
}

/// A lease with that expiry holds at `now`. Without an expiry none does.
pub open spec fn lease_holds(lease_expires_at: Option<Seq<char>>, now: Moment) -> bool {
    match lease_expires_at {
        Some(timestamp) => ahead_of(timestamp, now),
        None => false,
    }
}

/// Whether a lease with that expiry holds at `now`.
pub fn lease_active_at(lease_expires_at: &Option<String>, now: Moment) -> (active: bool)
    ensures
        active == lease_holds(crate::text::opt_text(*lease_expires_at), now),
{
    match lease_expires_at {
        Some(timestamp) => in_future_at(timestamp.as_str(), now),
        None => false,
    }
}

/// Whether a lease with that expiry holds at the current moment.
pub fn lease_active(lease_expires_at: &Option<String>) -> (active: bool)
    ensures
        exists|now: Moment|
            now.valid() && active == #[trigger] lease_holds(
                crate::text::opt_text(*lease_expires_at),
                now,
            ),
{
    let now = clock();
    lease_active_at(lease_expires_at, now)
}

/// Whether a retry scheduled for that timestamp still has to wait at the current moment.
pub fn retry_pending(retry_at: &str) -> (pending: bool)
    ensures
        exists|now: Moment| now.valid() && pending == #[trigger] ahead_of(retry_at@, now),
{
    in_future(retry_at)
}

/// The seed that `now` gives for the jitter of retries: the nanoseconds past its second.
pub fn jitter_seed_at(now: Moment) -> (seed: u64)
    ensures
        seed == now.nanos,
{
    now.nanos as u64
}

/// A seed for the jitter of retries: the nanoseconds past the current second. How many
/// they are rests on the machine's clock.
pub fn jitter_seed() -> (seed: u64)
    ensures
        exists|now: Moment| #[trigger] now.shown() && seed == now.nanos,
{
    let now = utc_now();
    jitter_seed_at(now)
}

} // verus!
