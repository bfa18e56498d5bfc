//! Batch boundaries and the retry policy of batch submission.

use vstd::prelude::*;
use crate::config::FalkorConfig;

verus! {

/// The batch size used when the configuration names none.
pub const DEFAULT_BATCH_SIZE: usize = 1000;

/// The batch size of a run: the configured one (default 1000), at least 1.
pub fn effective_batch_size(cfg: &FalkorConfig) -> (r: usize)
    ensures
        r == (match cfg.max_unwind_batch_size {
            Some(0) => 1,
            Some(b) => b,
            None => DEFAULT_BATCH_SIZE,
        }),
        r >= 1,
{
    match cfg.max_unwind_batch_size {
        Some(b) => if b == 0 {
            1
        } else {
            b
        },
        None => DEFAULT_BATCH_SIZE,
    }
}

/// The half-open index ranges of the batches of `total` records from
/// `start` on, each of `size` records but a shorter last one.
pub open spec fn batch_ranges(start: nat, total: nat, size: nat) -> Seq<(nat, nat)>
    decreases total - start,
{
    if start >= total || size == 0 {
        Seq::empty()
    } else {
        let end = if total - start > size {
            start + size
        } else {
            total
        };
        seq![(start, end)] + batch_ranges(end, total, size)
    }
}

/// The pieces of `s` that the ranges cut out.
pub open spec fn cut<A>(s: Seq<A>, ranges: Seq<(nat, nat)>) -> Seq<Seq<A>> {
    ranges.map_values(|r: (nat, nat)| s.subrange(r.0 as int, r.1 as int))
}

pub open spec fn ranges_view(r: Seq<(usize, usize)>) -> Seq<(nat, nat)> {
    r.map_values(|p: (usize, usize)| (p.0 as nat, p.1 as nat))
}

/// The batch ranges of `total` records in batches of at most `size`.
pub fn batch_bounds(total: usize, size: usize) -> (r: Vec<(usize, usize)>)
    requires
        size >= 1,
    ensures
        ranges_view(r@) == batch_ranges(0, total as nat, size as nat),
{
    let mut out: Vec<(usize, usize)> = Vec::new();
    let mut start: usize = 0;
    assert(ranges_view(out@) + batch_ranges(0, total as nat, size as nat) =~= batch_ranges(
        0,
        total as nat,
        size as nat,
    ));
    while start < total
        invariant
            start <= total,
            size >= 1,
            ranges_view(out@) + batch_ranges(start as nat, total as nat, size as nat) == batch_ranges(
                0,
                total as nat,
                size as nat,
            ),
        decreases total - start,
    {
        let end: usize = if total - start > size {
            start + size
        } else {
            total
        };
        let ghost before = out@;
        out.push((start, end));
        assert(ranges_view(out@) =~= ranges_view(before).push((start as nat, end as nat)));
        assert(ranges_view(out@) + batch_ranges(end as nat, total as nat, size as nat) =~= ranges_view(
            before,
        ) + batch_ranges(start as nat, total as nat, size as nat));
        start = end;
    }
    assert(ranges_view(out@) =~= ranges_view(out@) + batch_ranges(
        start as nat,
        total as nat,
        size as nat,
    ));
    out
}

proof fn lemma_cut_concatenates<A>(s: Seq<A>, start: nat, size: nat)
    requires
        size >= 1,
        start <= s.len(),
    ensures
        cut(s, batch_ranges(start, s.len(), size)).flatten() == s.subrange(start as int, s.len() as int),
        forall|i: int|
            0 <= i < batch_ranges(start, s.len(), size).len() ==> {
                let r = #[trigger] batch_ranges(start, s.len(), size)[i];
                start <= r.0 < r.1 <= s.len() && r.1 - r.0 <= size
            },
    decreases s.len() - start,
{
    let ranges = batch_ranges(start, s.len(), size);
    if start >= s.len() {
        assert(cut(s, ranges) =~= Seq::<Seq<A>>::empty());
        assert(s.subrange(start as int, s.len() as int) =~= Seq::<A>::empty());
    } else {
        let end: nat = if s.len() - start > size {
            start + size
        } else {
            s.len()
        };
        lemma_cut_concatenates(s, end, size);
        let rest = batch_ranges(end, s.len(), size);
        assert(ranges == seq![(start, end)] + rest);
        assert(cut(s, ranges) =~= seq![s.subrange(start as int, end as int)] + cut(s, rest));
        assert((seq![s.subrange(start as int, end as int)] + cut(s, rest)).drop_first() =~= cut(
            s,
            rest,
        ));
        assert(s.subrange(start as int, s.len() as int) =~= s.subrange(start as int, end as int)
            + s.subrange(end as int, s.len() as int));
        assert forall|i: int| 0 <= i < ranges.len() implies {
            let r = #[trigger] ranges[i];
            start <= r.0 < r.1 <= s.len() && r.1 - r.0 <= size
        } by {
            if i > 0 {
                assert(ranges[i] == rest[i - 1]);
            }
        }
    }
}

/// Batching loses and duplicates nothing: for any records and any batch size
/// of at least 1, the batches, in order, concatenate to the records; each
/// batch is non-empty and holds at most `size` records.
pub proof fn lemma_batches_cover<A>(s: Seq<A>, size: nat)
    requires
        size >= 1,
    ensures
        cut(s, batch_ranges(0, s.len(), size)).flatten() == s,
        forall|i: int|
            0 <= i < batch_ranges(0, s.len(), size).len() ==> {
                let r = #[trigger] batch_ranges(0, s.len(), size)[i];
                r.0 < r.1 <= s.len() && r.1 - r.0 <= size
            },
{
    lemma_cut_concatenates(s, 0, size);
    assert(s.subrange(0, s.len() as int) =~= s);
}

/// `2^e`.
pub open spec fn doubling(e: nat) -> nat
    decreases e,
{
    if e == 0 {
        1
    } else {
        2 * doubling((e - 1) as nat)
    }
}

/// The pause before retry number `attempt` (1-based): `50 ms * 2^min(attempt, 5)`.
pub open spec fn backoff_ms(attempt: nat) -> nat {
    50 * doubling(if attempt < 5 {
        attempt
    } else {
        5
    })
}

/// The pause in milliseconds before retry number `attempt`.
pub fn backoff_delay_ms(attempt: u32) -> (r: u64)
    ensures
        r == backoff_ms(attempt as nat),
{
    proof {
        reveal_with_fuel(doubling, 6);
    }
    if attempt == 0 {
        50
    } else if attempt == 1 {
        100
    } else if attempt == 2 {
        200
    } else if attempt == 3 {
        400
    } else if attempt == 4 {
        800
    } else {
        1600
    }
}

/// What to do after a batch failed.
#[derive(PartialEq, Eq, Structural, Clone, Copy, Debug)]
pub enum RetryDecision {
    /// Pause `delay_ms`, then make retry number `attempt`.
    Retry { attempt: u32, delay_ms: u64 },
    /// Surface the error, annotated with the number of attempts made.
    GiveUp { attempts: u64 },
}

pub open spec fn retry_decision(retries_done: nat, max_retries: nat) -> RetryDecision {
    if retries_done < max_retries {
        RetryDecision::Retry {
            attempt: (retries_done + 1) as u32,
            delay_ms: backoff_ms(retries_done + 1) as u64,
        }
    } else {
        RetryDecision::GiveUp { attempts: (max_retries + 1) as u64 }
    }
}

/// After a failed submission with `retries_done` retries already made:
/// retry while fewer than `max_retries` were made, else give up.
pub fn after_failure(retries_done: u32, max_retries: u32) -> (r: RetryDecision)
    ensures
        r == retry_decision(retries_done as nat, max_retries as nat),
{
    if retries_done < max_retries {
        let attempt = retries_done + 1;
        RetryDecision::Retry { attempt, delay_ms: backoff_delay_ms(attempt) }
    } else {
        RetryDecision::GiveUp { attempts: max_retries as u64 + 1 }
    }
}

/// A batch that succeeds after at most `max_retries` failures is never given
/// up on: every failure before the success is followed by a retry, the k-th
/// after a pause of `backoff_ms(k)`.
pub proof fn lemma_retry_until_success(failures: nat, max_retries: u32)
    requires
        failures <= max_retries,
    ensures
        forall|j: nat|
            j < failures ==> #[trigger] retry_decision(j, max_retries as nat) == (RetryDecision::Retry {
                attempt: (j + 1) as u32,
                delay_ms: backoff_ms(j + 1) as u64,
            }),
{
}

} // verus!
