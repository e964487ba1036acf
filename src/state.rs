use vstd::prelude::*;

use crate::plan::{
    calculate_chunks, is_partition, lemma_partition_sorted_disjoint, lemma_plan_is_partition, plan,
    Chunk,
};

verus! {

/// The persisted record of one job: its source and its ranges with their
/// completion flags.
#[derive(Debug)]
pub struct DownloadState {
    pub url: String,
    pub chunks: Vec<Chunk>,
}

/// A loaded record is reused when it names the same source and its ranges still
/// partition the resource; otherwise the job starts from a fresh plan.
pub open spec fn resumable(loaded: DownloadState, url: Seq<char>, total_size: u64) -> bool {
    loaded.url@ == url && is_partition(loaded.chunks@, total_size as nat)
}

pub open spec fn resumed_chunks(
    loaded: Option<DownloadState>,
    url: Seq<char>,
    total_size: u64,
    num_threads: u64,
) -> Seq<Chunk> {
    match loaded {
        Some(s) => if resumable(s, url, total_size) {
            s.chunks@
        } else {
            plan(total_size, num_threads)
        },
        None => plan(total_size, num_threads),
    }
}

/// Bytes covered by the completed ranges.
pub open spec fn completed_bytes_of(chunks: Seq<Chunk>) -> nat
    decreases chunks.len(),
{
    if chunks.len() == 0 {
        0
    } else {
        completed_bytes_of(chunks.drop_last()) + if chunks.last().completed {
            (chunks.last().end - chunks.last().start + 1) as nat
        } else {
            0
        }
    }
}

pub open spec fn all_completed(chunks: Seq<Chunk>) -> bool {
    forall|i: int| 0 <= i < chunks.len() ==> #[trigger] chunks[i].completed
}

/// Whether `chunks` partitions `[0, total_size)`.
pub fn chunks_partition(chunks: &Vec<Chunk>, total_size: u64) -> (r: bool)
    ensures
        r == is_partition(chunks@, total_size as nat),
{
    let n: usize = chunks.len();
    if n == 0 || chunks[0].start != 0 {
        return false;
    }
    let last_end: u64 = chunks[n - 1].end;
    if last_end == u64::MAX || last_end + 1 != total_size {
        return false;
    }
    let mut i: usize = 0;
    while i < n
        invariant
            n == chunks@.len(),
            0 < n,
            i <= n,
            forall|j: int| 0 <= j < i ==> chunks@[j].start <= chunks@[j].end,
            forall|j: int| 0 <= j < i && j < n - 1 ==> #[trigger] chunks@[j + 1].start == chunks@[j].end + 1,
        decreases n - i,
    {
        let c: Chunk = chunks[i];
        if c.start > c.end {
            return false;
        }
        if i + 1 < n {
            if c.end == u64::MAX || chunks[i + 1].start != c.end + 1 {
                assert(chunks@[i as int + 1].start != chunks@[i as int].end + 1);
                return false;
            }
        }
        i = i + 1;
    }
    true
}

impl DownloadState {
    /// No ranges at all, or ranges that partition `[0, last end + 1)` with that
    /// size representable.
    pub open spec fn well_formed(&self) -> bool {
        self.chunks@.len() == 0 || (self.chunks@.last().end < u64::MAX && is_partition(
            self.chunks@,
            (self.chunks@.last().end + 1) as nat,
        ))
    }

    /// The size of the resource this record covers.
    pub open spec fn total_size_spec(&self) -> nat {
        if self.chunks@.len() == 0 {
            0
        } else {
            (self.chunks@.last().end + 1) as nat
        }
    }

    pub fn is_well_formed(&self) -> (r: bool)
        ensures
            r == self.well_formed(),
    {
        let n: usize = self.chunks.len();
        if n == 0 {
            return true;
        }
        let last: u64 = self.chunks[n - 1].end;
        last < u64::MAX && chunks_partition(&self.chunks, last + 1)
    }

    /// The size of the resource: one past the last range's end.
    pub fn total_size(&self) -> (r: u64)
        requires
            self.well_formed(),
        ensures
            r == self.total_size_spec(),
    {
        let n: usize = self.chunks.len();
        if n == 0 {
            0
        } else {
            self.chunks[n - 1].end + 1
        }
    }

    /// Bytes already fetched: the total length of the completed ranges.
    pub fn completed_bytes(&self) -> (r: u64)
        requires
            self.well_formed(),
        ensures
            r == completed_bytes_of(self.chunks@),
            r <= self.total_size_spec(),
    {
        let n: usize = self.chunks.len();
        let mut acc: u64 = 0;
        let mut i: usize = 0;
        while i < n
            invariant
                n == self.chunks@.len(),
                self.well_formed(),
                i <= n,
                acc == completed_bytes_of(self.chunks@.take(i as int)),
                i == 0 ==> acc == 0,
                i > 0 ==> acc <= self.chunks@[i - 1].end + 1,
            decreases n - i,
        {
            let c: Chunk = self.chunks[i];
            assert(self.chunks@.take(i + 1).drop_last() =~= self.chunks@.take(i as int));
            if i > 0 {
                assert(self.chunks@[i - 1 + 1].start == self.chunks@[i - 1].end + 1);
            }
            proof {
                if i + 1 < n {
                    lemma_partition_sorted_disjoint(
                        self.chunks@,
                        (self.chunks@.last().end + 1) as nat,
                        i as int,
                        n - 1,
                    );
                }
                assert(c.start <= c.end);
            }
            if c.completed {
                acc = acc + (c.end - c.start + 1);
            }
            i = i + 1;
        }
        assert(self.chunks@.take(n as int) =~= self.chunks@);
        acc
    }

    /// A fresh record for `url` with every planned range still to fetch.
    pub fn new(url: String, total_size: u64, num_threads: u64) -> (s: DownloadState)
        ensures
            s.url@ == url@,
            s.chunks@ == plan(total_size, num_threads),
    {
        DownloadState { url, chunks: calculate_chunks(total_size, num_threads) }
    }

    /// Picks the record a job runs from: the loaded one when it belongs to `url`
    /// and is well formed, a fresh plan otherwise. A missing, foreign or
    /// damaged record is never an error.
    pub fn resume_or_plan(
        loaded: Option<DownloadState>,
        url: String,
        total_size: u64,
        num_threads: u64,
    ) -> (s: DownloadState)
        ensures
            s.url@ == url@,
            s.chunks@ == resumed_chunks(loaded, url@, total_size, num_threads),
    {
        match loaded {
            Some(prev) => {
                if prev.url == url && chunks_partition(&prev.chunks, total_size) {
                    prev
                } else {
                    DownloadState::new(url, total_size, num_threads)
                }
            },
            None => DownloadState::new(url, total_size, num_threads),
        }
    }

    /// Indices of the ranges still to fetch, in increasing order.
    pub fn pending_chunks(&self) -> (r: Vec<usize>)
        ensures
            forall|k: int| 0 <= k < r@.len() ==> #[trigger] r@[k] < self.chunks@.len(),
            forall|k: int| 0 <= k < r@.len() ==> !self.chunks@[#[trigger] r@[k] as int].completed,
            forall|k: int, l: int| 0 <= k < l < r@.len() ==> r@[k] < r@[l],
            forall|i: int|
                0 <= i < self.chunks@.len() && !(#[trigger] self.chunks@[i]).completed ==> r@.contains(
                    i as usize,
                ),
    {
        let mut r: Vec<usize> = Vec::new();
        let n: usize = self.chunks.len();
        let mut i: usize = 0;
        while i < n
            invariant
                n == self.chunks@.len(),
                i <= n,
                forall|k: int| 0 <= k < r@.len() ==> #[trigger] r@[k] < i,
                forall|k: int| 0 <= k < r@.len() ==> !self.chunks@[#[trigger] r@[k] as int].completed,
                forall|k: int, l: int| 0 <= k < l < r@.len() ==> r@[k] < r@[l],
                forall|j: int|
                    0 <= j < i && !(#[trigger] self.chunks@[j]).completed ==> r@.contains(j as usize),
            decreases n - i,
        {
            if !self.chunks[i].completed {
                let ghost prev = r@;
                r.push(i);
                proof {
                    assert forall|j: int|
                        0 <= j <= i && !(#[trigger] self.chunks@[j]).completed implies r@.contains(
                        j as usize,
                    ) by {
                        if j < i {
                            let k = choose|k: int| 0 <= k < prev.len() && prev[k] == j as usize;
                            assert(r@[k] == j as usize);
                        } else {
                            assert(r@[r@.len() - 1] == i);
                        }
                    }
                }
            }
            i = i + 1;
        }
        r
    }

    /// Records that range `index` has been fetched in full.
    pub fn mark_completed(&mut self, index: usize)
        requires
            index < old(self).chunks@.len(),
        ensures
            final(self).url@ == old(self).url@,
            final(self).chunks@ == old(self).chunks@.update(
                index as int,
                Chunk { completed: true, ..old(self).chunks@[index as int] },
            ),
    {
        let c: Chunk = self.chunks[index];
        self.chunks.set(index, Chunk { start: c.start, end: c.end, completed: true });
    }

    /// Whether every range has been fetched.
    pub fn is_complete(&self) -> (r: bool)
        ensures
            r == all_completed(self.chunks@),
    {
        let mut i: usize = 0;
        while i < self.chunks.len()
            invariant
                i <= self.chunks@.len(),
                forall|j: int| 0 <= j < i ==> #[trigger] self.chunks@[j].completed,
            decreases self.chunks@.len() - i,
        {
            if !self.chunks[i].completed {
                return false;
            }
            i = i + 1;
        }
        true
    }
}

/// Resuming a record of the same source keeps its ranges as they were, so the
/// ranges already completed stay completed and only the others are fetched;
/// completing those then completes the job over the same partition.
pub proof fn lemma_resume_fetches_only_pending(
    loaded: DownloadState,
    url: Seq<char>,
    total_size: u64,
    num_threads: u64,
)
    requires
        resumable(loaded, url, total_size),
    ensures
        resumed_chunks(Some(loaded), url, total_size, num_threads) == loaded.chunks@,
        all_completed(
            Seq::new(
                loaded.chunks@.len(),
                |i: int| Chunk { completed: true, ..loaded.chunks@[i] },
            ),
        ),
        is_partition(
            Seq::new(
                loaded.chunks@.len(),
                |i: int| Chunk { completed: true, ..loaded.chunks@[i] },
            ),
            total_size as nat,
        ),
{
    let done = Seq::new(
        loaded.chunks@.len(),
        |i: int| Chunk { completed: true, ..loaded.chunks@[i] },
    );
    assert forall|i: int| 0 <= i < done.len() - 1 implies #[trigger] done[i + 1].start == done[i].end
        + 1 by {
        assert(loaded.chunks@[i + 1].start == loaded.chunks@[i].end + 1);
    }
}

/// A record that does not name the requested source is replaced by a fresh plan.
pub proof fn lemma_foreign_record_replanned(
    loaded: DownloadState,
    url: Seq<char>,
    total_size: u64,
    num_threads: u64,
)
    requires
        loaded.url@ != url,
    ensures
        resumed_chunks(Some(loaded), url, total_size, num_threads) == plan(total_size, num_threads),
{
}

/// Whatever was loaded, a job over a non-empty resource runs on ranges that
/// partition it.
pub proof fn lemma_resumed_is_partition(
    loaded: Option<DownloadState>,
    url: Seq<char>,
    total_size: u64,
    num_threads: u64,
)
    requires
        total_size > 0,
    ensures
        is_partition(resumed_chunks(loaded, url, total_size, num_threads), total_size as nat),
{
    lemma_plan_is_partition(total_size, num_threads);
}

} // verus!
