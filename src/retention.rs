use vstd::prelude::*;

use crate::error::{DeleteItemError, ScanTableError};

verus! {

/// Seconds in a day.
pub const DAY_SECS: i64 = 86_400;

/// How far back the table service's listing looks: one day.
pub const FRESHNESS_SECS: i64 = 86_400;

/// A bound on the seconds since the epoch inside which chrono represents every
/// instant: its years run to 262142 either side of year zero, about 8.2e12
/// seconds from the epoch.
pub const UTC_SECS_BOUND: i64 = 8_000_000_000_000;

/// Nanoseconds in a second.
pub const NANOS_PER_SEC: u32 = 1_000_000_000;

/// chrono represents the instant `secs` seconds and `nanos` nanoseconds after
/// the epoch.
pub open spec fn utc_representable(secs: int, nanos: int) -> bool {
    &&& -UTC_SECS_BOUND <= secs <= UTC_SECS_BOUND
    &&& 0 <= nanos < NANOS_PER_SEC
}

/// The text that chrono writes for an instant in UTC, given as seconds since the
/// epoch and nanoseconds within the second.
pub uninterp spec fn utc_text(secs: int, nanos: int) -> Seq<char>;

/// Relies on chrono's `DateTime::<Utc>::from_timestamp` and the `Display` of the
/// instant it returns: the text depends on the instant alone; `None` comes only
/// for a day number outside chrono's years or a nanosecond count of a second or
/// more.
#[verifier::external_body]
fn format_utc(secs: i64, nanos: u32) -> (r: Option<String>)
    ensures
        utc_representable(secs as int, nanos as int) ==> r is Some,
        r is Some ==> r->0@ == utc_text(secs as int, nanos as int),
{
    chrono::DateTime::<chrono::Utc>::from_timestamp(secs, nanos).map(|t| t.to_string())
}

/// `now - span` when it fits in an `i64`.
pub fn seconds_before(now_secs: i64, span_secs: i64) -> (r: Option<i64>)
    ensures
        i64::MIN <= now_secs - span_secs <= i64::MAX <==> r is Some,
        r is Some ==> r->0 == now_secs - span_secs,
{
    now_secs.checked_sub(span_secs)
}

/// `days` days, in seconds, and the instant that many seconds before `now`
/// both fit in an `i64`.
pub open spec fn days_before_fits(now_secs: i64, days: i64) -> bool {
    &&& i64::MIN <= days * DAY_SECS <= i64::MAX
    &&& i64::MIN <= now_secs - days * DAY_SECS <= i64::MAX
}

/// The instant `days` days before `now`, in seconds.
pub fn days_before(now_secs: i64, days: i64) -> (r: Option<i64>)
    ensures
        days_before_fits(now_secs, days) <==> r is Some,
        r is Some ==> r->0 == now_secs - days * DAY_SECS,
{
    match days.checked_mul(DAY_SECS) {
        Some(span) => seconds_before(now_secs, span),
        None => None,
    }
}

/// The text against which the embedded store compares `last_seen` when it prunes
/// records older than `days` days: the instant `days` days before `now`.
pub fn prune_cutoff(now_secs: i64, now_nanos: u32, days: i64) -> (r: Result<String, DeleteItemError>)
    ensures
        !days_before_fits(now_secs, days) ==> r == Err::<String, DeleteItemError>(
            DeleteItemError::CutoffOutOfRange(),
        ),
        days_before_fits(now_secs, days) && utc_representable(
            now_secs - days * DAY_SECS,
            now_nanos as int,
        ) ==> r is Ok,
        r is Ok ==> days_before_fits(now_secs, days) && r->Ok_0@ == utc_text(
            now_secs - days * DAY_SECS,
            now_nanos as int,
        ),
        r is Err ==> r->Err_0 == DeleteItemError::CutoffOutOfRange(),
{
    match days_before(now_secs, days) {
        Some(secs) => match format_utc(secs, now_nanos) {
            Some(t) => Ok(t),
            None => Err(DeleteItemError::CutoffOutOfRange()),
        },
        None => Err(DeleteItemError::CutoffOutOfRange()),
    }
}

/// The text against which the table service's listing compares `last_seen`:
/// the instant one day before `now`.
pub fn freshness_cutoff(now_secs: i64, now_nanos: u32) -> (r: Result<String, ScanTableError>)
    ensures
        !(i64::MIN <= now_secs - FRESHNESS_SECS) ==> r == Err::<String, ScanTableError>(
            ScanTableError::CutoffOutOfRange(),
        ),
        utc_representable(now_secs - FRESHNESS_SECS, now_nanos as int) ==> r is Ok,
        r is Ok ==> r->Ok_0@ == utc_text(now_secs - FRESHNESS_SECS, now_nanos as int),
        r is Err ==> r->Err_0 == ScanTableError::CutoffOutOfRange(),
{
    match seconds_before(now_secs, FRESHNESS_SECS) {
        Some(secs) => match format_utc(secs, now_nanos) {
            Some(t) => Ok(t),
            None => Err(ScanTableError::CutoffOutOfRange()),
        },
        None => Err(ScanTableError::CutoffOutOfRange()),
    }
}

/// `a` comes strictly before `b` in the order of their characters, a proper
/// prefix first.
pub open spec fn text_before(a: Seq<char>, b: Seq<char>) -> bool
    decreases a.len(),
{
    if b.len() == 0 {
        false
    } else if a.len() == 0 {
        true
    } else if a[0] != b[0] {
        a[0] < b[0]
    } else {
        text_before(a.drop_first(), b.drop_first())
    }
}

/// Whether a record last seen at `last_seen` is pruned against `cutoff`: the
/// embedded store deletes exactly the records whose `last_seen` text sorts
/// before the cutoff's, as its text comparison orders them.
pub fn is_stale(last_seen: &str, cutoff: &str) -> (r: bool)
    ensures
        r == text_before(last_seen@, cutoff@),
{
    let n = last_seen.unicode_len();
    let m = cutoff.unicode_len();
    let mut i: usize = 0;
    assert(last_seen@.skip(0) =~= last_seen@);
    assert(cutoff@.skip(0) =~= cutoff@);
    while i < n && i < m
        invariant
            n == last_seen@.len(),
            m == cutoff@.len(),
            i <= n,
            i <= m,
            text_before(last_seen@, cutoff@) == text_before(
                last_seen@.skip(i as int),
                cutoff@.skip(i as int),
            ),
        decreases n - i,
    {
        let a = last_seen.get_char(i);
        let b = cutoff.get_char(i);
        assert(last_seen@.skip(i as int)[0] == a);
        assert(cutoff@.skip(i as int)[0] == b);
        if a != b {
            return a < b;
        }
        assert(last_seen@.skip(i as int).drop_first() =~= last_seen@.skip(i + 1));
        assert(cutoff@.skip(i as int).drop_first() =~= cutoff@.skip(i + 1));
        i = i + 1;
    }
    i < m
}

} // verus!
