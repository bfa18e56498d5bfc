//! Run counters, global and per mapping, and their text exposition.

use vstd::prelude::*;
use crate::named::{named_lookup, lemma_named_lookup_index, lemma_named_lookup_update, lemma_named_lookup_push};
use crate::text::{append_decimal, decimal};

verus! {

/// Counters of one mapping.
#[derive(PartialEq, Eq, Structural, Clone, Copy, Debug)]
pub struct MappingStats {
    pub runs: u64,
    pub failed_runs: u64,
    pub rows_fetched: u64,
    pub rows_written: u64,
    pub rows_deleted: u64,
}

/// Which counter to raise.
#[derive(PartialEq, Eq, Structural, Clone, Copy, Debug)]
pub enum Counter {
    Runs,
    FailedRuns,
    RowsFetched,
    RowsWritten,
    RowsDeleted,
}

/// `x + n`, held at `u64::MAX` so that counters never decrease.
pub open spec fn bump(x: u64, n: u64) -> u64 {
    if x + n > u64::MAX {
        u64::MAX
    } else {
        (x + n) as u64
    }
}

fn add_saturating(x: u64, n: u64) -> (r: u64)
    ensures
        r == bump(x, n),
{
    if x > u64::MAX - n {
        u64::MAX
    } else {
        x + n
    }
}

impl MappingStats {
    pub open spec fn zero_spec() -> MappingStats {
        MappingStats { runs: 0, failed_runs: 0, rows_fetched: 0, rows_written: 0, rows_deleted: 0 }
    }

    /// All counters at zero.
    pub fn zero() -> (r: MappingStats)
        ensures
            r == MappingStats::zero_spec(),
    {
        MappingStats { runs: 0, failed_runs: 0, rows_fetched: 0, rows_written: 0, rows_deleted: 0 }
    }

    pub open spec fn raised(self, c: Counter, n: u64) -> MappingStats {
        match c {
            Counter::Runs => MappingStats { runs: bump(self.runs, n), ..self },
            Counter::FailedRuns => MappingStats { failed_runs: bump(self.failed_runs, n), ..self },
            Counter::RowsFetched => MappingStats { rows_fetched: bump(self.rows_fetched, n), ..self },
            Counter::RowsWritten => MappingStats { rows_written: bump(self.rows_written, n), ..self },
            Counter::RowsDeleted => MappingStats { rows_deleted: bump(self.rows_deleted, n), ..self },
        }
    }

    fn raise(&mut self, c: Counter, n: u64)
        ensures
            *final(self) == old(self).raised(c, n),
    {
        match c {
            Counter::Runs => self.runs = add_saturating(self.runs, n),
            Counter::FailedRuns => self.failed_runs = add_saturating(self.failed_runs, n),
            Counter::RowsFetched => self.rows_fetched = add_saturating(self.rows_fetched, n),
            Counter::RowsWritten => self.rows_written = add_saturating(self.rows_written, n),
            Counter::RowsDeleted => self.rows_deleted = add_saturating(self.rows_deleted, n),
        }
    }
}

/// Process-wide counters and per-mapping counters (mapping name -> stats,
/// in order of first use). Counters never decrease.
pub struct Metrics {
    pub runs: u64,
    pub failed_runs: u64,
    pub rows_fetched: u64,
    pub rows_written: u64,
    pub rows_deleted: u64,
    pub per_mapping: Vec<(String, MappingStats)>,
}

pub open spec fn stats_view(s: Seq<(String, MappingStats)>) -> Seq<(Seq<char>, MappingStats)> {
    s.map_values(|e: (String, MappingStats)| (e.0@, e.1))
}

impl Metrics {
    /// The counters of a mapping; zero for one never seen.
    pub open spec fn stats(&self, name: Seq<char>) -> MappingStats {
        match named_lookup(stats_view(self.per_mapping@), name) {
            Some(s) => s,
            None => MappingStats::zero_spec(),
        }
    }

    /// The process-wide counters, in the order runs, failed runs, rows
    /// fetched, written, deleted.
    pub open spec fn totals(&self) -> (u64, u64, u64, u64, u64) {
        (self.runs, self.failed_runs, self.rows_fetched, self.rows_written, self.rows_deleted)
    }

    /// All counters at zero.
    pub fn new() -> (r: Metrics)
        ensures
            r.totals() == (0u64, 0u64, 0u64, 0u64, 0u64),
            forall|n: Seq<char>| #[trigger] r.stats(n) == MappingStats::zero_spec(),
    {
        Metrics {
            runs: 0,
            failed_runs: 0,
            rows_fetched: 0,
            rows_written: 0,
            rows_deleted: 0,
            per_mapping: Vec::new(),
        }
    }

    pub fn inc_runs(&mut self)
        ensures
            final(self).totals() == (bump(old(self).runs, 1), old(self).failed_runs, old(self).rows_fetched, old(self).rows_written, old(self).rows_deleted),
            final(self).per_mapping == old(self).per_mapping,
    {
        self.runs = add_saturating(self.runs, 1);
    }

    pub fn inc_failed_runs(&mut self)
        ensures
            final(self).totals() == (old(self).runs, bump(old(self).failed_runs, 1), old(self).rows_fetched, old(self).rows_written, old(self).rows_deleted),
            final(self).per_mapping == old(self).per_mapping,
    {
        self.failed_runs = add_saturating(self.failed_runs, 1);
    }

    pub fn add_rows_fetched(&mut self, n: u64)
        ensures
            final(self).totals() == (old(self).runs, old(self).failed_runs, bump(old(self).rows_fetched, n), old(self).rows_written, old(self).rows_deleted),
            final(self).per_mapping == old(self).per_mapping,
    {
        self.rows_fetched = add_saturating(self.rows_fetched, n);
    }

    pub fn add_rows_written(&mut self, n: u64)
        ensures
            final(self).totals() == (old(self).runs, old(self).failed_runs, old(self).rows_fetched, bump(old(self).rows_written, n), old(self).rows_deleted),
            final(self).per_mapping == old(self).per_mapping,
    {
        self.rows_written = add_saturating(self.rows_written, n);
    }

    pub fn add_rows_deleted(&mut self, n: u64)
        ensures
            final(self).totals() == (old(self).runs, old(self).failed_runs, old(self).rows_fetched, old(self).rows_written, bump(old(self).rows_deleted, n)),
            final(self).per_mapping == old(self).per_mapping,
    {
        self.rows_deleted = add_saturating(self.rows_deleted, n);
    }

    /// Raises one counter of one mapping, creating its entry on first use.
    pub fn with_mapping(&mut self, mapping: &str, counter: Counter, n: u64)
        ensures
            final(self).totals() == old(self).totals(),
            final(self).stats(mapping@) == old(self).stats(mapping@).raised(counter, n),
            forall|m: Seq<char>| m != mapping@ ==> #[trigger] final(self).stats(m) == old(self).stats(m),
    {
        let ghost v = stats_view(self.per_mapping@);
        let mut i: usize = 0;
        while i < self.per_mapping.len()
            invariant
                i <= self.per_mapping.len(),
                self.totals() == old(self).totals(),
                self.per_mapping@ == old(self).per_mapping@,
                v == stats_view(self.per_mapping@),
                forall|j: int| 0 <= j < i ==> (#[trigger] self.per_mapping@[j]).0@ != mapping@,
            decreases self.per_mapping.len() - i,
        {
            if self.per_mapping[i].0.as_str().eq(mapping) {
                proof {
                    assert forall|j: int| 0 <= j < i implies v[j].0 != mapping@ by {
                        assert(self.per_mapping@[j].0@ != mapping@);
                    }
                    lemma_named_lookup_index(v, mapping@, i as int);
                }
                let mut stats = self.per_mapping[i].1;
                stats.raise(counter, n);
                self.per_mapping.set(i, (String::from_str(mapping), stats));
                proof {
                    assert(stats_view(self.per_mapping@) =~= v.update(i as int, (mapping@, stats)));
                    assert forall|m: Seq<char>| #[trigger] named_lookup(v.update(i as int, (mapping@, stats)), m) == (if m == mapping@ {
                        Some(stats)
                    } else {
                        named_lookup(v, m)
                    }) by {
                        lemma_named_lookup_update(v, i as int, mapping@, stats, m);
                    }
                }
                return;
            }
            i += 1;
        }
        proof {
            assert forall|j: int| 0 <= j < i implies v[j].0 != mapping@ by {
                assert(self.per_mapping@[j].0@ != mapping@);
            }
            lemma_named_lookup_index(v, mapping@, i as int);
        }
        let mut stats = MappingStats::zero();
        stats.raise(counter, n);
        self.per_mapping.push((String::from_str(mapping), stats));
        proof {
            assert(stats_view(self.per_mapping@) =~= v.push((mapping@, stats)));
            assert forall|m: Seq<char>| #[trigger] named_lookup(v.push((mapping@, stats)), m) == (if m == mapping@ {
                Some(stats)
            } else {
                named_lookup(v, m)
            }) by {
                lemma_named_lookup_push(v, mapping@, stats, m);
            }
        }
    }

    pub fn inc_mapping_run(&mut self, mapping: &str)
        ensures
            final(self).totals() == old(self).totals(),
            final(self).stats(mapping@) == old(self).stats(mapping@).raised(Counter::Runs, 1),
            forall|m: Seq<char>| m != mapping@ ==> #[trigger] final(self).stats(m) == old(self).stats(m),
    {
        self.with_mapping(mapping, Counter::Runs, 1);
    }

    pub fn inc_mapping_failed_run(&mut self, mapping: &str)
        ensures
            final(self).totals() == old(self).totals(),
            final(self).stats(mapping@) == old(self).stats(mapping@).raised(Counter::FailedRuns, 1),
            forall|m: Seq<char>| m != mapping@ ==> #[trigger] final(self).stats(m) == old(self).stats(m),
    {
        self.with_mapping(mapping, Counter::FailedRuns, 1);
    }

    pub fn add_mapping_rows_fetched(&mut self, mapping: &str, n: u64)
        ensures
            final(self).totals() == old(self).totals(),
            final(self).stats(mapping@) == old(self).stats(mapping@).raised(Counter::RowsFetched, n),
            forall|m: Seq<char>| m != mapping@ ==> #[trigger] final(self).stats(m) == old(self).stats(m),
    {
        self.with_mapping(mapping, Counter::RowsFetched, n);
    }

    pub fn add_mapping_rows_written(&mut self, mapping: &str, n: u64)
        ensures
            final(self).totals() == old(self).totals(),
            final(self).stats(mapping@) == old(self).stats(mapping@).raised(Counter::RowsWritten, n),
            forall|m: Seq<char>| m != mapping@ ==> #[trigger] final(self).stats(m) == old(self).stats(m),
    {
        self.with_mapping(mapping, Counter::RowsWritten, n);
    }

    pub fn add_mapping_rows_deleted(&mut self, mapping: &str, n: u64)
        ensures
            final(self).totals() == old(self).totals(),
            final(self).stats(mapping@) == old(self).stats(mapping@).raised(Counter::RowsDeleted, n),
            forall|m: Seq<char>| m != mapping@ ==> #[trigger] final(self).stats(m) == old(self).stats(m),
    {
        self.with_mapping(mapping, Counter::RowsDeleted, n);
    }
}

/// `snowflake_to_falkordb_<metric> <value>` and a line feed.
pub open spec fn total_line(metric: Seq<char>, value: u64) -> Seq<char> {
    "snowflake_to_falkordb_"@ + metric + " "@ + decimal(value as nat) + "\n"@
}

/// `snowflake_to_falkordb_mapping_<metric>{mapping="<name>"} <value>` and a line feed.
pub open spec fn mapping_line(metric: Seq<char>, name: Seq<char>, value: u64) -> Seq<char> {
    "snowflake_to_falkordb_mapping_"@ + metric + "{mapping=\""@ + name + "\"} "@ + decimal(
        value as nat,
    ) + "\n"@
}

pub open spec fn mapping_block(name: Seq<char>, s: MappingStats) -> Seq<char> {
    mapping_line("runs"@, name, s.runs) + mapping_line("failed_runs"@, name, s.failed_runs)
        + mapping_line("rows_fetched"@, name, s.rows_fetched) + mapping_line(
        "rows_written"@,
        name,
        s.rows_written,
    ) + mapping_line("rows_deleted"@, name, s.rows_deleted)
}

pub open spec fn mapping_blocks(s: Seq<(Seq<char>, MappingStats)>) -> Seq<char>
    decreases s.len(),
{
    if s.len() == 0 {
        Seq::empty()
    } else {
        mapping_blocks(s.drop_last()) + mapping_block(s.last().0, s.last().1)
    }
}

/// The text exposition: the five totals, then five lines per mapping.
pub open spec fn exposition(m: &Metrics) -> Seq<char> {
    total_line("runs"@, m.runs) + total_line("failed_runs"@, m.failed_runs) + total_line(
        "rows_fetched"@,
        m.rows_fetched,
    ) + total_line("rows_written"@, m.rows_written) + total_line("rows_deleted"@, m.rows_deleted)
        + mapping_blocks(stats_view(m.per_mapping@))
}

fn append_total(out: &mut String, metric: &str, value: u64)
    ensures
        final(out)@ == old(out)@ + total_line(metric@, value),
{
    let ghost start = out@;
    out.append("snowflake_to_falkordb_");
    out.append(metric);
    out.append(" ");
    append_decimal(out, value);
    out.append("\n");
    assert(out@ =~= start + total_line(metric@, value));
}

fn append_mapping_line(out: &mut String, metric: &str, name: &str, value: u64)
    ensures
        final(out)@ == old(out)@ + mapping_line(metric@, name@, value),
{
    let ghost start = out@;
    out.append("snowflake_to_falkordb_mapping_");
    out.append(metric);
    out.append("{mapping=\"");
    out.append(name);
    out.append("\"} ");
    append_decimal(out, value);
    out.append("\n");
    assert(out@ =~= start + mapping_line(metric@, name@, value));
}

impl Metrics {
    /// The counters in the Prometheus text format.
    pub fn render(&self) -> (r: String)
        ensures
            r@ == exposition(self),
    {
        let mut out = String::new();
        append_total(&mut out, "runs", self.runs);
        append_total(&mut out, "failed_runs", self.failed_runs);
        append_total(&mut out, "rows_fetched", self.rows_fetched);
        append_total(&mut out, "rows_written", self.rows_written);
        append_total(&mut out, "rows_deleted", self.rows_deleted);
        let ghost head = out@;
        let ghost v = stats_view(self.per_mapping@);
        let mut i: usize = 0;
        while i < self.per_mapping.len()
            invariant
                i <= self.per_mapping.len(),
                v == stats_view(self.per_mapping@),
                out@ == head + mapping_blocks(v.subrange(0, i as int)),
            decreases self.per_mapping.len() - i,
        {
            let name = self.per_mapping[i].0.as_str();
            let st = self.per_mapping[i].1;
            let ghost before = out@;
            append_mapping_line(&mut out, "runs", name, st.runs);
            append_mapping_line(&mut out, "failed_runs", name, st.failed_runs);
            append_mapping_line(&mut out, "rows_fetched", name, st.rows_fetched);
            append_mapping_line(&mut out, "rows_written", name, st.rows_written);
            append_mapping_line(&mut out, "rows_deleted", name, st.rows_deleted);
            proof {
                let sub = v.subrange(0, i + 1);
                assert(sub.drop_last() =~= v.subrange(0, i as int));
                assert(sub.last() == (name@, st));
                assert(out@ =~= before + mapping_block(name@, st));
            }
            i += 1;
        }
        assert(v.subrange(0, i as int) =~= v);
        out
    }
}

} // verus!
