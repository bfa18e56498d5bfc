//! High-water marks of incremental loads: reading timestamps out of rows,
//! and advancing the stored mark without ever moving it back.

use vstd::prelude::*;
use crate::json::{JsonModel, JsonValue, lookup};
use crate::source::{LogicalRow, rows_model};
use crate::named::{named_lookup, lemma_named_lookup_index, lemma_named_lookup_update, lemma_named_lookup_push};

verus! {

/// An instant in UTC: seconds since the Unix epoch and the nanoseconds
/// past that second (at least 1e9 only inside a leap second).
#[derive(PartialEq, Eq, Structural, Clone, Copy, Debug)]
pub struct Instant {
    pub secs: i64,
    pub nanos: u32,
}

/// `a` is strictly later than `b`.
pub open spec fn later(a: Instant, b: Instant) -> bool {
    a.secs > b.secs || (a.secs == b.secs && a.nanos > b.nanos)
}

/// The instant that chrono's RFC 3339 parser reads from a text, as
/// (seconds, nanoseconds) in UTC.
pub uninterp spec fn rfc3339_instant(s: Seq<char>) -> Option<(i64, u32)>;

/// The instant that chrono's naive date-time parser reads from a text under
/// a format, taken as UTC.
pub uninterp spec fn naive_instant(s: Seq<char>, fmt: Seq<char>) -> Option<(i64, u32)>;

/// chrono's RFC 3339 rendering of an instant in UTC; none when the instant
/// is out of chrono's range.
pub uninterp spec fn rfc3339_text(secs: i64, nanos: u32) -> Option<Seq<char>>;

/// Relies on chrono::DateTime::parse_from_rfc3339 and the UTC timestamp of
/// its result.
#[verifier::external_body]
fn parse_rfc3339(s: &str) -> (r: Option<(i64, u32)>)
    ensures
        r == rfc3339_instant(s@),
{
    match chrono::DateTime::parse_from_rfc3339(s) {
        Ok(dt) => Some((dt.timestamp(), dt.timestamp_subsec_nanos())),
        Err(_) => None,
    }
}

/// Relies on chrono::NaiveDateTime::parse_from_str, with the result read as UTC.
#[verifier::external_body]
fn parse_naive(s: &str, fmt: &str) -> (r: Option<(i64, u32)>)
    ensures
        r == naive_instant(s@, fmt@),
{
    match chrono::NaiveDateTime::parse_from_str(s, fmt) {
        Ok(n) => Some((n.and_utc().timestamp(), n.and_utc().timestamp_subsec_nanos())),
        Err(_) => None,
    }
}

/// Relies on chrono::DateTime::<Utc>::from_timestamp (none out of range) and
/// DateTime::to_rfc3339.
#[verifier::external_body]
fn format_rfc3339(secs: i64, nanos: u32) -> (r: Option<String>)
    ensures
        match r {
            Some(t) => rfc3339_text(secs, nanos) == Some(t@),
            None => rfc3339_text(secs, nanos) is None,
        },
{
    match chrono::DateTime::<chrono::Utc>::from_timestamp(secs, nanos) {
        Some(dt) => Some(dt.to_rfc3339()),
        None => None,
    }
}

/// The second timestamp form that rows may carry: `YYYY-MM-DD HH:MM:SS[.fraction]`.
pub open spec fn naive_format() -> Seq<char> {
    "%Y-%m-%d %H:%M:%S%.f"@
}

pub open spec fn as_instant(p: Option<(i64, u32)>) -> Option<Instant> {
    match p {
        Some(p) => Some(Instant { secs: p.0, nanos: p.1 }),
        None => None,
    }
}

/// The instant a text denotes: RFC 3339 first, then the naive form in UTC.
pub open spec fn text_instant(s: Seq<char>) -> Option<Instant> {
    if rfc3339_instant(s) is Some {
        as_instant(rfc3339_instant(s))
    } else {
        as_instant(naive_instant(s, naive_format()))
    }
}

/// Chooses between the two parses of one text: RFC 3339 wins.
pub fn pick_instant(rfc: Option<(i64, u32)>, naive: Option<(i64, u32)>) -> (r: Option<Instant>)
    ensures
        r == (if rfc is Some {
            as_instant(rfc)
        } else {
            as_instant(naive)
        }),
{
    match rfc {
        Some(p) => Some(Instant { secs: p.0, nanos: p.1 }),
        None => match naive {
            Some(p) => Some(Instant { secs: p.0, nanos: p.1 }),
            None => None,
        },
    }
}

/// The instant a timestamp text denotes, if it parses.
pub fn parse_timestamp(s: &str) -> (r: Option<Instant>)
    ensures
        r == text_instant(s@),
{
    let rfc = parse_rfc3339(s);
    if rfc.is_some() {
        return pick_instant(rfc, None);
    }
    let naive = parse_naive(s, "%Y-%m-%d %H:%M:%S%.f");
    pick_instant(None, naive)
}

/// The later of two optional instants; an absent one never wins.
pub open spec fn later_of(a: Option<Instant>, b: Option<Instant>) -> Option<Instant> {
    match (a, b) {
        (None, y) => y,
        (x, None) => x,
        (Some(x), Some(y)) => if later(y, x) {
            Some(y)
        } else {
            Some(x)
        },
    }
}

/// The later of two optional instants.
pub fn max_instant(a: Option<Instant>, b: Option<Instant>) -> (r: Option<Instant>)
    ensures
        r == later_of(a, b),
{
    match (a, b) {
        (None, y) => y,
        (x, None) => x,
        (Some(x), Some(y)) => if y.secs > x.secs || (y.secs == x.secs && y.nanos > x.nanos) {
            Some(y)
        } else {
            Some(x)
        },
    }
}

/// The instant a row carries in `col`: a string that parses; anything else
/// (absent, not a string, unparseable) carries none.
pub open spec fn row_instant(row: Seq<(Seq<char>, JsonModel)>, col: Seq<char>) -> Option<Instant> {
    match lookup(row, col) {
        Some(JsonModel::Str(s)) => text_instant(s),
        _ => None,
    }
}

/// The latest instant carried by any of the rows in `col`.
pub open spec fn rows_max_instant(rows: Seq<Seq<(Seq<char>, JsonModel)>>, col: Seq<char>) -> Option<
    Instant,
>
    decreases rows.len(),
{
    if rows.len() == 0 {
        None
    } else {
        later_of(rows_max_instant(rows.drop_last(), col), row_instant(rows.last(), col))
    }
}

/// The latest parseable timestamp of the rows in `updated_at_column`.
pub fn compute_max_watermark(rows: &[LogicalRow], updated_at_column: &str) -> (r: Option<Instant>)
    ensures
        r == rows_max_instant(rows_model(rows@), updated_at_column@),
{
    let ghost all = rows_model(rows@);
    let mut best: Option<Instant> = None;
    let mut i: usize = 0;
    while i < rows.len()
        invariant
            i <= rows.len(),
            all == rows_model(rows@),
            best == rows_max_instant(all.subrange(0, i as int), updated_at_column@),
        decreases rows.len() - i,
    {
        let ghost sub = all.subrange(0, i + 1);
        assert(sub.drop_last() =~= all.subrange(0, i as int));
        let candidate = match rows[i].get(updated_at_column) {
            Some(JsonValue::String(s)) => parse_timestamp(s.as_str()),
            _ => None,
        };
        assert(candidate == row_instant(sub.last(), updated_at_column@));
        best = max_instant(best, candidate);
        i += 1;
    }
    assert(all.subrange(0, i as int) =~= all);
    best
}

/// The watermark to write after a mapping saw `observed`: the observed
/// instant when it is later than the stored one (or none is stored); none
/// means the stored watermark stays.
pub open spec fn watermark_update(stored: Option<Instant>, observed: Option<Instant>) -> Option<Instant> {
    match observed {
        Some(o) => if stored is None || later(o, stored->0) {
            Some(o)
        } else {
            None
        },
        None => None,
    }
}

/// Decides whether and to what the stored watermark advances.
pub fn next_watermark(stored: Option<Instant>, observed: Option<Instant>) -> (r: Option<Instant>)
    ensures
        r == watermark_update(stored, observed),
{
    match observed {
        Some(o) => match stored {
            None => Some(o),
            Some(s) => if o.secs > s.secs || (o.secs == s.secs && o.nanos > s.nanos) {
                Some(o)
            } else {
                None
            },
        },
        None => None,
    }
}

/// The stored watermark after an update.
pub open spec fn stored_after(stored: Option<Instant>, observed: Option<Instant>) -> Option<Instant> {
    match watermark_update(stored, observed) {
        Some(w) => Some(w),
        None => stored,
    }
}

/// Watermarks never move back: whatever a run observed, the watermark stored
/// after it is no earlier than the one stored before, and one stays stored.
pub proof fn lemma_watermark_monotonic(stored: Option<Instant>, observed: Option<Instant>)
    ensures
        stored is Some ==> stored_after(stored, observed) is Some && !later(
            stored->0,
            stored_after(stored, observed)->0,
        ),
        observed is None ==> stored_after(stored, observed) == stored,
{
}

/// The instant of a stored watermark text.
pub open spec fn stored_instant(text: Option<Seq<char>>) -> Option<Instant> {
    match text {
        Some(t) => text_instant(t),
        None => None,
    }
}

/// Per-mapping watermarks: mapping name -> RFC 3339 text, names unique.
pub struct WatermarkStore {
    pub entries: Vec<(String, String)>,
}

pub open spec fn entries_view(s: Seq<(String, String)>) -> Seq<(Seq<char>, Seq<char>)> {
    s.map_values(|e: (String, String)| (e.0@, e.1@))
}

impl WatermarkStore {
    pub open spec fn lookup(&self, name: Seq<char>) -> Option<Seq<char>> {
        named_lookup(entries_view(self.entries@), name)
    }

    pub fn new() -> (r: WatermarkStore)
        ensures
            forall|n: Seq<char>| #[trigger] r.lookup(n) is None,
    {
        WatermarkStore { entries: Vec::new() }
    }

    fn position(&self, name: &str) -> (r: Option<usize>)
        ensures
            match r {
                Some(i) => i < self.entries.len() && self.entries@[i as int].0@ == name@
                    && self.lookup(name@) == Some(self.entries@[i as int].1@) && forall|j: int|
                    0 <= j < i ==> (#[trigger] self.entries@[j]).0@ != name@,
                None => self.lookup(name@) is None,
            },
    {
        let ghost v = entries_view(self.entries@);
        let mut i: usize = 0;
        while i < self.entries.len()
            invariant
                i <= self.entries.len(),
                v == entries_view(self.entries@),
                forall|j: int| 0 <= j < i ==> (#[trigger] self.entries@[j]).0@ != name@,
            decreases self.entries.len() - i,
        {
            if self.entries[i].0.as_str().eq(name) {
                proof {
                    assert forall|j: int| 0 <= j < i implies v[j].0 != name@ by {
                        assert(self.entries@[j].0@ != name@);
                    }
                    lemma_named_lookup_index(v, name@, i as int);
                }
                return Some(i);
            }
            i += 1;
        }
        proof {
            assert forall|j: int| 0 <= j < i implies v[j].0 != name@ by {
                assert(self.entries@[j].0@ != name@);
            }
            lemma_named_lookup_index(v, name@, i as int);
        }
        None
    }

    /// The stored watermark text of a mapping.
    pub fn get(&self, name: &str) -> (r: Option<&str>)
        ensures
            match r {
                Some(t) => self.lookup(name@) == Some(t@),
                None => self.lookup(name@) is None,
            },
    {
        match self.position(name) {
            Some(i) => Some(self.entries[i].1.as_str()),
            None => None,
        }
    }

    /// Stores `text` as the watermark of `name`, leaving the others.
    pub fn put(&mut self, name: &str, text: String)
        ensures
            final(self).lookup(name@) == Some(text@),
            forall|n: Seq<char>| n != name@ ==> #[trigger] final(self).lookup(n) == old(self).lookup(n),
    {
        let ghost v = entries_view(self.entries@);
        let ghost t = text@;
        match self.position(name) {
            Some(i) => {
                self.entries.set(i, (String::from_str(name), text));
                proof {
                    assert(entries_view(self.entries@) =~= v.update(i as int, (name@, t)));
                    assert forall|n: Seq<char>| #[trigger] named_lookup(v.update(i as int, (name@, t)), n) == (if n == name@ {
                        Some(t)
                    } else {
                        named_lookup(v, n)
                    }) by {
                        lemma_named_lookup_update(v, i as int, name@, t, n);
                    }
                }
            },
            None => {
                self.entries.push((String::from_str(name), text));
                proof {
                    assert(entries_view(self.entries@) =~= v.push((name@, t)));
                    assert forall|n: Seq<char>| #[trigger] named_lookup(v.push((name@, t)), n) == (if n == name@ {
                        Some(t)
                    } else {
                        named_lookup(v, n)
                    }) by {
                        lemma_named_lookup_push(v, name@, t, n);
                    }
                }
            },
        }
    }
}

/// After a mapping succeeded: moves its stored watermark to `observed` when
/// that is later than the stored one (or none is stored, or the stored text
/// does not parse). Returns whether the store changed.
pub fn advance_watermark(store: &mut WatermarkStore, name: &str, observed: Option<Instant>) -> (changed: bool)
    ensures
        ({
            let up = watermark_update(stored_instant(old(store).lookup(name@)), observed);
            &&& changed == (up is Some && rfc3339_text(up->0.secs, up->0.nanos) is Some)
            &&& changed ==> final(store).lookup(name@) == rfc3339_text(up->0.secs, up->0.nanos)
            &&& !changed ==> final(store).lookup(name@) == old(store).lookup(name@)
        }),
        forall|n: Seq<char>| n != name@ ==> #[trigger] final(store).lookup(n) == old(store).lookup(n),
{
    let stored = match store.get(name) {
        Some(t) => parse_timestamp(t),
        None => None,
    };
    match next_watermark(stored, observed) {
        Some(w) => match format_rfc3339(w.secs, w.nanos) {
            Some(text) => {
                store.put(name, text);
                true
            },
            None => false,
        },
        None => false,
    }
}

} // verus!
