//! The bulk loader's plan: a batch is split into fixed-size chunks, each
//! sent as one bulk request of one index-or-replace operation per record,
//! and per-item failures of a chunk are counted, not retried.

use vstd::prelude::*;

use crate::indexing::bulk_header;
use crate::indexing::spec_bulk_header;
use crate::indexing::spec_tweet_json;
use crate::indexing::tweet_json;
use crate::tweet::Tweet;
use vstd::arithmetic::div_mod::lemma_fundamental_div_mod;
use vstd::arithmetic::div_mod::lemma_mod_division_less_than_divisor;

verus! {

/// The fixed number of records in one bulk request.
pub const CHUNK_SIZE: usize = 1000;

/// How many bulk requests a batch of `n` records takes.
pub open spec fn spec_chunk_count(n: nat) -> nat {
    (((n + CHUNK_SIZE) as int - 1) / (CHUNK_SIZE as int)) as nat
}

/// Where chunk `k` starts.
pub open spec fn spec_chunk_start(k: int) -> int {
    k * (CHUNK_SIZE as int)
}

/// Where chunk `k` of a batch of `n` records ends: a full chunk, or the end
/// of the batch.
pub open spec fn spec_chunk_end(k: int, n: int) -> int {
    if spec_chunk_start(k) + (CHUNK_SIZE as int) <= n {
        spec_chunk_start(k) + (CHUNK_SIZE as int)
    } else {
        n
    }
}

/// Chunking law: the plan for `n` records has exactly enough chunks to
/// cover the batch: every chunk before the last is full, the last ends at
/// `n`, and a batch needs no chunks only when it is empty.
pub proof fn lemma_chunks_cover(n: nat)
    ensures
        (spec_chunk_count(n) as int) * (CHUNK_SIZE as int) >= n as int,
        n > 0 ==> (spec_chunk_count(n) - 1) * (CHUNK_SIZE as int) < n,
        spec_chunk_count(n) == 0 <==> n == 0,
        n > 0 ==> spec_chunk_end((spec_chunk_count(n) - 1) as int, n as int) == n,
        forall|k: int| 0 <= k < spec_chunk_count(n) - 1 ==> spec_chunk_end(k, n as int)
            == spec_chunk_start(k + 1),
{
    let c = CHUNK_SIZE as int;
    let x = n as int + c - 1;
    lemma_fundamental_div_mod(x, c);
    lemma_mod_division_less_than_divisor(x, c);
    let q = x / c;
    let r = x % c;
    assert(x == c * q + r);
    assert(q >= 0) by (nonlinear_arith)
        requires
            c * q + r == x,
            x >= c - 1,
            0 <= r < c,
            c == 1000,
    {
    }
    assert(spec_chunk_count(n) as int == q);
    assert(q * c >= n as int) by (nonlinear_arith)
        requires
            c * q + r == n as int + c - 1,
            0 <= r < c,
    {
    }
    if n > 0 {
        assert((q - 1) * c < n as int) by (nonlinear_arith)
            requires
                c * q + r == n as int + c - 1,
                0 <= r < c,
        {
        }
    }
    if n == 0 {
        assert(q == 0) by (nonlinear_arith)
            requires
                c * q + r == c - 1,
                0 <= r < c,
                c == 1000,
                q >= 0,
        {
        }
    }
    assert forall|k: int| 0 <= k < spec_chunk_count(n) - 1 implies spec_chunk_end(k, n as int)
        == spec_chunk_start(k + 1) by {
        assert((k + 1) * c <= (q - 1) * c) by (nonlinear_arith)
            requires
                k + 1 <= q - 1,
                c > 0,
        {
        }
    }
}

/// How many records the first `k` chunks of a batch of `n` records hold.
pub open spec fn spec_covered(n: int, k: int) -> int
    decreases k when k >= 0
{
    if k <= 0 {
        0
    } else {
        spec_covered(n, k - 1) + (spec_chunk_end(k - 1, n) - spec_chunk_start(k - 1))
    }
}

proof fn lemma_covered_prefix(n: int, k: int)
    requires
        n >= 0,
        0 <= k <= spec_chunk_count(n as nat),
    ensures
        spec_covered(n, k) == if k * (CHUNK_SIZE as int) <= n {
            k * (CHUNK_SIZE as int)
        } else {
            n
        },
    decreases k,
{
    let c = CHUNK_SIZE as int;
    if k > 0 {
        lemma_covered_prefix(n, k - 1);
        lemma_chunks_cover(n as nat);
        if k * c > n {
            assert((k - 1) * c <= (spec_chunk_count(n as nat) - 1) * c) by (nonlinear_arith)
                requires
                    k - 1 <= spec_chunk_count(n as nat) - 1,
                    c > 0,
            {
            }
        }
    }
}

/// Coverage law: the chunk sizes of a batch of `n` records add up to `n`,
/// so a load whose chunks all report zero errors has sent every one of the
/// `n` records exactly once.
pub proof fn lemma_chunk_sizes_sum(n: nat)
    ensures
        spec_covered(n as int, spec_chunk_count(n) as int) == n as int,
{
    lemma_chunks_cover(n);
    lemma_covered_prefix(n as int, spec_chunk_count(n) as int);
}

/// The chunk plan for `n` records: consecutive half-open ranges, each of
/// `CHUNK_SIZE` records but the last, which holds what remains.
pub fn chunk_bounds(n: usize) -> (r: Vec<(usize, usize)>)
    ensures
        r@.len() == spec_chunk_count(n as nat),
        forall|k: int| 0 <= k < r@.len() ==> r@[k].0 as int == spec_chunk_start(k)
            && r@[k].1 as int == spec_chunk_end(k, n as int),
{
    let mut r: Vec<(usize, usize)> = Vec::new();
    let mut start: usize = 0;
    while start < n
        invariant
            start <= n,
            start as int == if r@.len() * (CHUNK_SIZE as int) <= n as int {
                r@.len() * (CHUNK_SIZE as int)
            } else {
                n as int
            },
            r@.len() == 0 || (r@.len() - 1) * (CHUNK_SIZE as int) < n as int,
            forall|k: int| 0 <= k < r@.len() ==> r@[k].0 as int == spec_chunk_start(k)
                && r@[k].1 as int == spec_chunk_end(k, n as int),
        decreases n - start,
    {
        let end: usize = if n - start < CHUNK_SIZE {
            n
        } else {
            start + CHUNK_SIZE
        };
        r.push((start, end));
        start = end;
    }
    proof {
        let len = r@.len() as int;
        let c = CHUNK_SIZE as int;
        let x = n as int + c - 1;
        lemma_fundamental_div_mod(x, c);
        lemma_mod_division_less_than_divisor(x, c);
        let q = x / c;
        let rr = x % c;
        assert(len * c >= n as int);
        if len == 0 {
            assert(q == 0) by (nonlinear_arith)
                requires
                    c * q + rr == c - 1,
                    0 <= rr < c,
                    c == 1000,
            {
            }
        } else {
            assert(q == len) by (nonlinear_arith)
                requires
                    c * q + rr == n as int + c - 1,
                    0 <= rr < c,
                    c == 1000,
                    len * c >= n as int,
                    (len - 1) * c < n as int,
            {
            }
        }
        assert(spec_chunk_count(n as nat) as int == q);
    }
    r
}

/// Line `j` of a chunk's request: the action line of record `start + j/2`
/// when `j` is even, that record's document when `j` is odd.
pub open spec fn spec_op_line(ts: Seq<Tweet>, start: int, j: int) -> Seq<char> {
    if j % 2 == 0 {
        spec_bulk_header(ts[start + j / 2].id)
    } else {
        spec_tweet_json(ts[start + (j - 1) / 2]@)
    }
}

/// The request lines of one bulk chunk: for each record of
/// `tweets[start..end]`, its action line and then its document, in order.
pub fn bulk_chunk_ops(tweets: &Vec<Tweet>, start: usize, end: usize) -> (r: Vec<String>)
    requires
        start <= end <= tweets@.len(),
    ensures
        r@.len() == 2 * (end - start),
        forall|j: int| 0 <= j < r@.len() ==> (#[trigger] r@[j])@ == spec_op_line(
            tweets@,
            start as int,
            j,
        ),
{
    let mut r: Vec<String> = Vec::new();
    let mut i: usize = start;
    while i < end
        invariant
            start <= i <= end <= tweets@.len(),
            r@.len() == 2 * (i - start),
            forall|j: int| 0 <= j < r@.len() ==> (#[trigger] r@[j])@ == spec_op_line(
                tweets@,
                start as int,
                j,
            ),
        decreases end - i,
    {
        let t = &tweets[i];
        r.push(bulk_header(t.id));
        r.push(tweet_json(t));
        proof {
            let m = i - start;
            assert((2 * m) % 2 == 0 && (2 * m) / 2 == m);
            assert((2 * m + 1) % 2 == 1 && ((2 * m + 1) - 1) / 2 == m);
        }
        i = i + 1;
    }
    r
}

/// How many of a chunk's item error flags are set.
pub open spec fn spec_count_true(s: Seq<bool>) -> nat
    decreases s.len(),
{
    if s.len() == 0 {
        0
    } else {
        spec_count_true(s.drop_last()) + if s.last() {
            1nat
        } else {
            0nat
        }
    }
}

/// Counts the failed operations of one bulk response, given for each item
/// whether the engine reported an error for it. Failures are counted, never
/// retried, and do not stop later chunks.
pub fn count_failures(flags: &Vec<bool>) -> (r: usize)
    ensures
        r == spec_count_true(flags@),
{
    let mut r: usize = 0;
    let mut i: usize = 0;
    while i < flags.len()
        invariant
            i <= flags@.len(),
            r <= i,
            r == spec_count_true(flags@.subrange(0, i as int)),
        decreases flags@.len() - i,
    {
        proof {
            assert(flags@.subrange(0, (i + 1) as int).drop_last() =~= flags@.subrange(0, i as int));
        }
        if flags[i] {
            r = r + 1;
        }
        i = i + 1;
    }
    proof {
        assert(flags@.subrange(0, flags@.len() as int) =~= flags@);
    }
    r
}

} // verus!
