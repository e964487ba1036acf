use vstd::prelude::*;

verus! {

/// One contiguous, inclusive byte interval of the resource.
#[derive(Clone, Copy, Debug, PartialEq, Eq, Structural)]
pub struct Chunk {
    pub start: u64,
    pub end: u64,
    pub completed: bool,
}

/// Number of ranges a plan uses: the requested count clamped to `1..=total_size`,
/// and none at all for an empty resource.
pub open spec fn effective_workers(total_size: u64, num_threads: u64) -> nat {
    if total_size == 0 {
        0
    } else if num_threads == 0 {
        1
    } else if num_threads > total_size {
        total_size as nat
    } else {
        num_threads as nat
    }
}

/// Length of every range but the last.
pub open spec fn base_size(total_size: u64, num_threads: u64) -> nat {
    if effective_workers(total_size, num_threads) == 0 {
        0
    } else {
        total_size as nat / effective_workers(total_size, num_threads)
    }
}

/// Range `i` of the plan: it starts at `i * base`; the last one runs to the end.
pub open spec fn planned_chunk(total_size: u64, num_threads: u64, i: int) -> Chunk {
    let w = effective_workers(total_size, num_threads);
    let b = base_size(total_size, num_threads);
    Chunk {
        start: (i * b) as u64,
        end: if i == w - 1 {
            (total_size - 1) as u64
        } else {
            (i * b + b - 1) as u64
        },
        completed: false,
    }
}

pub open spec fn plan(total_size: u64, num_threads: u64) -> Seq<Chunk> {
    Seq::new(
        effective_workers(total_size, num_threads),
        |i: int| planned_chunk(total_size, num_threads, i),
    )
}

/// The ranges are sorted, each non-empty, each starting right after the previous
/// one ends, the first at byte 0 and the last ending at `total_size - 1`.
pub open spec fn is_partition(chunks: Seq<Chunk>, total_size: nat) -> bool {
    &&& chunks.len() > 0
    &&& chunks[0].start == 0
    &&& chunks.last().end + 1 == total_size
    &&& forall|i: int| 0 <= i < chunks.len() ==> chunks[i].start <= chunks[i].end
    &&& forall|i: int|
        0 <= i < chunks.len() - 1 ==> #[trigger] chunks[i + 1].start == chunks[i].end + 1
}

proof fn lemma_range_fits(total: nat, w: nat, i: nat)
    requires
        1 <= w <= total,
        i < w,
    ensures
        total / w >= 1,
        i * (total / w) + total / w <= total,
        i * (total / w) <= total,
{
    let b = total / w;
    assert(w * b <= total) by {
        vstd::arithmetic::div_mod::lemma_fundamental_div_mod(total as int, w as int);
    }
    assert(b >= 1) by {
        vstd::arithmetic::div_mod::lemma_div_is_ordered(w as int, total as int, w as int);
        vstd::arithmetic::div_mod::lemma_div_by_self(w as int);
    }
    assert(i * b + b <= w * b) by (nonlinear_arith)
        requires
            i < w,
            b >= 1,
    ;
}

/// Splits `[0, total_size)` into `num_threads` contiguous ranges (clamped to
/// `1..=total_size`); the last range absorbs the remainder of the division.
pub fn calculate_chunks(total_size: u64, num_threads: u64) -> (chunks: Vec<Chunk>)
    ensures
        chunks@ == plan(total_size, num_threads),
{
    let mut chunks: Vec<Chunk> = Vec::new();
    if total_size == 0 {
        assert(chunks@ =~= plan(total_size, num_threads));
        return chunks;
    }
    let workers: u64 = if num_threads == 0 {
        1
    } else if num_threads > total_size {
        total_size
    } else {
        num_threads
    };
    let chunk_size: u64 = total_size / workers;
    let mut i: u64 = 0;
    while i < workers
        invariant
            1 <= workers <= total_size,
            workers as nat == effective_workers(total_size, num_threads),
            chunk_size as nat == base_size(total_size, num_threads),
            i <= workers,
            chunks@ =~= plan(total_size, num_threads).take(i as int),
        decreases workers - i,
    {
        proof {
            lemma_range_fits(total_size as nat, workers as nat, i as nat);
        }
        let start: u64 = i * chunk_size;
        let end: u64 = if i == workers - 1 {
            total_size - 1
        } else {
            start + chunk_size - 1
        };
        chunks.push(Chunk { start, end, completed: false });
        i = i + 1;
    }
    assert(chunks@ =~= plan(total_size, num_threads));
    chunks
}

/// For every non-empty resource and any worker count, the plan partitions
/// `[0, total_size)` into sorted, disjoint, contiguous ranges.
pub proof fn lemma_plan_is_partition(total_size: u64, num_threads: u64)
    requires
        total_size > 0,
    ensures
        is_partition(plan(total_size, num_threads), total_size as nat),
{
    let p = plan(total_size, num_threads);
    let w = effective_workers(total_size, num_threads);
    let b = base_size(total_size, num_threads);
    lemma_range_fits(total_size as nat, w, 0);
    assert forall|i: int| 0 <= i < p.len() implies p[i].start <= p[i].end by {
        lemma_range_fits(total_size as nat, w, i as nat);
    }
    assert forall|i: int| 0 <= i < p.len() - 1 implies #[trigger] p[i + 1].start == p[i].end + 1 by {
        lemma_range_fits(total_size as nat, w, i as nat);
        lemma_range_fits(total_size as nat, w, (i + 1) as nat);
        assert((i + 1) * b == i * b + b) by (nonlinear_arith);
    }
    lemma_range_fits(total_size as nat, w, (w - 1) as nat);
}

/// No plan holds a range that is empty or reversed, and a plan never has more
/// ranges than the resource has bytes.
pub proof fn lemma_plan_no_empty_range(total_size: u64, num_threads: u64)
    ensures
        plan(total_size, num_threads).len() <= total_size,
        forall|i: int|
            0 <= i < plan(total_size, num_threads).len() ==> #[trigger] plan(
                total_size,
                num_threads,
            )[i].start <= plan(total_size, num_threads)[i].end,
{
    if total_size > 0 {
        lemma_plan_is_partition(total_size, num_threads);
    }
}

/// In a partition, every range ends before any later range starts.
pub proof fn lemma_partition_sorted_disjoint(chunks: Seq<Chunk>, total_size: nat, i: int, j: int)
    requires
        is_partition(chunks, total_size),
        0 <= i < j < chunks.len(),
    ensures
        chunks[i].end < chunks[j].start,
    decreases j - i,
{
    assert(chunks[j - 1 + 1].start == chunks[j - 1].end + 1);
    if j - 1 > i {
        lemma_partition_sorted_disjoint(chunks, total_size, i, j - 1);
    }
}

proof fn lemma_find_range(chunks: Seq<Chunk>, total_size: nat, b: nat, k: int) -> (i: int)
    requires
        is_partition(chunks, total_size),
        b < total_size,
        0 <= k < chunks.len(),
        chunks[k].start <= b,
    ensures
        k <= i < chunks.len(),
        chunks[i].start <= b <= chunks[i].end,
    decreases chunks.len() - k,
{
    if b <= chunks[k].end {
        k
    } else {
        assert(chunks[k + 1].start == chunks[k].end + 1);
        lemma_find_range(chunks, total_size, b, k + 1)
    }
}

/// In a partition of `[0, total_size)`, each byte below `total_size` lies in
/// exactly one range, and no range reaches past it.
pub proof fn lemma_partition_covers_once(chunks: Seq<Chunk>, total_size: nat, b: nat)
    requires
        is_partition(chunks, total_size),
        b < total_size,
    ensures
        exists|i: int| 0 <= i < chunks.len() && (#[trigger] chunks[i]).start <= b <= chunks[i].end,
        forall|i: int, j: int|
            0 <= i < chunks.len() && 0 <= j < chunks.len() && (#[trigger] chunks[i]).start <= b
                <= chunks[i].end && (#[trigger] chunks[j]).start <= b <= chunks[j].end ==> i == j,
        forall|i: int| 0 <= i < chunks.len() ==> (#[trigger] chunks[i]).end < total_size,
{
    let i = lemma_find_range(chunks, total_size, b, 0);
    assert(chunks[i].start <= b <= chunks[i].end);
    assert forall|i: int, j: int|
        0 <= i < chunks.len() && 0 <= j < chunks.len() && (#[trigger] chunks[i]).start <= b
            <= chunks[i].end && (#[trigger] chunks[j]).start <= b <= chunks[j].end implies i == j by {
        if i < j {
            lemma_partition_sorted_disjoint(chunks, total_size, i, j);
        } else if j < i {
            lemma_partition_sorted_disjoint(chunks, total_size, j, i);
        }
    }
    assert forall|i: int| 0 <= i < chunks.len() implies (#[trigger] chunks[i]).end < total_size by {
        if i < chunks.len() - 1 {
            lemma_partition_sorted_disjoint(chunks, total_size, i, chunks.len() - 1);
        }
    }
}

} // verus!
