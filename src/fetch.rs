use vstd::prelude::*;

use crate::plan::Chunk;
use crate::state::{lemma_resumed_is_partition, resumed_chunks, DownloadState};

verus! {

/// Why a job, or one of its ranges, could not go on.
#[derive(Clone, Copy, Debug, PartialEq, Eq, Structural)]
pub enum DownloadError {
    /// The size request failed or answered with this non-success status.
    SourceUnavailable(u16),
    /// The source reported no usable size.
    SizeUnknown,
    /// A range exhausted its retries.
    RangeFetchFailed,
    /// A range answered with a status other than 200 or 206.
    UnexpectedStatus(u16),
    /// Opening, seeking or writing the local file failed.
    IoFailure,
    /// The resume record could not be read; recovered by planning afresh.
    StateCorrupt,
    /// The background process could not be reached.
    ControlChannelUnreachable,
}

/// The human-readable reason given for each error.
pub open spec fn reason_text(e: DownloadError) -> Seq<char> {
    match e {
        DownloadError::SourceUnavailable(_) => "source unavailable: the size request failed"@,
        DownloadError::SizeUnknown => "the source did not report a size"@,
        DownloadError::RangeFetchFailed => "a range could not be fetched after all retries"@,
        DownloadError::UnexpectedStatus(_) => "a range request answered with an unexpected status"@,
        DownloadError::IoFailure => "local file error"@,
        DownloadError::StateCorrupt => "the resume record is unreadable"@,
        DownloadError::ControlChannelUnreachable => "Could not connect to daemon. Is it running?"@,
    }
}

impl DownloadError {
    /// A human-readable reason.
    pub fn reason(&self) -> (r: &'static str)
        ensures
            r@ == reason_text(*self),
            r@.len() > 0,
    {
        match self {
            DownloadError::SourceUnavailable(_) => {
                proof {
                    reveal_strlit("source unavailable: the size request failed");
                }
                "source unavailable: the size request failed"
            },
            DownloadError::SizeUnknown => {
                proof {
                    reveal_strlit("the source did not report a size");
                }
                "the source did not report a size"
            },
            DownloadError::RangeFetchFailed => {
                proof {
                    reveal_strlit("a range could not be fetched after all retries");
                }
                "a range could not be fetched after all retries"
            },
            DownloadError::UnexpectedStatus(_) => {
                proof {
                    reveal_strlit("a range request answered with an unexpected status");
                }
                "a range request answered with an unexpected status"
            },
            DownloadError::IoFailure => {
                proof {
                    reveal_strlit("local file error");
                }
                "local file error"
            },
            DownloadError::StateCorrupt => {
                proof {
                    reveal_strlit("the resume record is unreadable");
                }
                "the resume record is unreadable"
            },
            DownloadError::ControlChannelUnreachable => {
                proof {
                    reveal_strlit("Could not connect to daemon. Is it running?");
                }
                "Could not connect to daemon. Is it running?"
            },
        }
    }
}

pub open spec fn is_digit(b: u8) -> bool {
    0x30 <= b <= 0x39
}

/// The value of a string of decimal digits.
pub open spec fn decimal_value(s: Seq<u8>) -> nat
    decreases s.len(),
{
    if s.len() == 0 {
        0
    } else {
        decimal_value(s.drop_last()) * 10 + (s.last() - 0x30) as nat
    }
}

pub open spec fn all_digits(s: Seq<u8>) -> bool {
    forall|i: int| 0 <= i < s.len() ==> is_digit(#[trigger] s[i])
}

/// The digits of an unsigned decimal number, after an optional leading `+`.
pub open spec fn digits_of(s: Seq<u8>) -> Seq<u8> {
    if s.len() > 0 && s[0] == 0x2b {
        s.drop_first()
    } else {
        s
    }
}

/// What parsing `s` as a `u64` yields: the number when `s` is an optional `+`
/// and at least one digit and the value fits, nothing otherwise.
pub open spec fn parsed_u64(s: Seq<u8>) -> Option<u64> {
    let d = digits_of(s);
    if d.len() > 0 && all_digits(d) && decimal_value(d) <= u64::MAX {
        Some(decimal_value(d) as u64)
    } else {
        None
    }
}

proof fn lemma_decimal_monotone(s: Seq<u8>, i: int)
    requires
        0 <= i <= s.len(),
        all_digits(s),
    ensures
        decimal_value(s.take(i)) <= decimal_value(s),
    decreases s.len() - i,
{
    if i < s.len() {
        lemma_decimal_monotone(s, i + 1);
        assert(s.take(i + 1).drop_last() =~= s.take(i));
    } else {
        assert(s.take(i) =~= s);
    }
}

/// Reads a header value as an unsigned decimal byte count.
pub fn parse_u64(s: &[u8]) -> (r: Option<u64>)
    ensures
        r == parsed_u64(s@),
{
    let n: usize = s.len();
    let mut i: usize = 0;
    if n > 0 && s[0] == 0x2b {
        i = 1;
    }
    let ghost d = digits_of(s@);
    assert(d =~= s@.subrange(i as int, n as int));
    if i == n {
        return None;
    }
    let first: usize = i;
    let mut v: u64 = 0;
    while i < n
        invariant
            first <= i <= n,
            n == s@.len(),
            d =~= s@.subrange(first as int, n as int),
            d == digits_of(s@),
            forall|j: int| first <= j < i ==> is_digit(#[trigger] s@[j]),
            v == decimal_value(d.take(i - first)),
        decreases n - i,
    {
        let b: u8 = s[i];
        if b < 0x30 || b > 0x39 {
            assert(d[i - first] == b);
            assert(!is_digit(d[i - first]));
            assert(!all_digits(d));
            return None;
        }
        let digit: u64 = (b - 0x30) as u64;
        assert(d.take(i + 1 - first).drop_last() =~= d.take(i - first));
        assert(d.take(i + 1 - first).last() == b);
        assert(decimal_value(d.take(i + 1 - first)) == v * 10 + digit);
        if v > (u64::MAX - digit) / 10 {
            proof {
                if all_digits(d) {
                    lemma_decimal_monotone(d, i + 1 - first);
                    assert(v * 10 + digit > u64::MAX) by (nonlinear_arith)
                        requires
                            v > (u64::MAX - digit) / 10,
                            digit <= 9,
                    ;
                    assert(decimal_value(d) > u64::MAX);
                }
            }
            return None;
        }
        v = v * 10 + digit;
        i = i + 1;
    }
    assert(d.take(n - first) =~= d);
    Some(v)
}

/// Checks the answer to the size request made before any range is planned:
/// a non-success status is `SourceUnavailable`, a missing or unreadable
/// length is `SizeUnknown`.
pub fn preflight(status: u16, content_length: Option<&[u8]>) -> (r: Result<u64, DownloadError>)
    ensures
        r == preflight_result(status, content_length),
{
    if status < 200 || status >= 300 {
        return Err(DownloadError::SourceUnavailable(status));
    }
    match content_length {
        None => Err(DownloadError::SizeUnknown),
        Some(v) => match parse_u64(v) {
            Some(n) => Ok(n),
            None => Err(DownloadError::SizeUnknown),
        },
    }
}

/// Starts a job from the answer to the size request: on success, the record
/// the workers run from (resumed or freshly planned); on a failed preflight,
/// the error and no record, so no range is fetched and nothing is written.
pub fn start_job(
    status: u16,
    content_length: Option<&[u8]>,
    url: String,
    loaded: Option<DownloadState>,
    num_threads: u64,
) -> (r: Result<DownloadState, DownloadError>)
    ensures
        match preflight_result(status, content_length) {
            Ok(total) => r is Ok && r->Ok_0.url@ == url@ && r->Ok_0.chunks@ == resumed_chunks(
                loaded,
                url@,
                total,
                num_threads,
            ),
            Err(e) => r == Err::<DownloadState, DownloadError>(e),
        },
        r is Ok ==> r->Ok_0.well_formed(),
{
    match preflight(status, content_length) {
        Ok(total) => {
            let st = DownloadState::resume_or_plan(loaded, url, total, num_threads);
            proof {
                if total > 0 {
                    lemma_resumed_is_partition(loaded, url@, total, num_threads);
                }
            }
            Ok(st)
        },
        Err(e) => Err(e),
    }
}

/// What `preflight` returns, as a spec function.
pub open spec fn preflight_result(status: u16, content_length: Option<&[u8]>) -> Result<
    u64,
    DownloadError,
> {
    if !(200 <= status < 300) {
        Err(DownloadError::SourceUnavailable(status))
    } else {
        match content_length {
            None => Err(DownloadError::SizeUnknown),
            Some(v) => match parsed_u64(v@) {
                Some(n) => Ok(n),
                None => Err(DownloadError::SizeUnknown),
            },
        }
    }
}

/// Whether a range request's answer may be consumed: partial content (206)
/// or full content (200).
pub fn accept_status(status: u16) -> (r: bool)
    ensures
        r == (status == 200 || status == 206),
{
    status == 200 || status == 206
}

/// How many leading body bytes to drop before writing at `offset`: a 206
/// answer starts at the requested byte, a 200 answer (the server ignored the
/// range) starts at byte 0 of the resource.
pub fn body_skip(status: u16, offset: u64) -> (r: u64)
    ensures
        r == if status == 200 {
            offset
        } else {
            0
        },
{
    if status == 200 {
        offset
    } else {
        0
    }
}

pub const BASE_BACKOFF_MS: u64 = 500;

pub const MAX_BACKOFF_MS: u64 = 30000;

/// Delay before retry number `k + 1`: it doubles from the base up to a ceiling.
pub open spec fn backoff_ms(k: nat) -> nat
    decreases k,
{
    if k == 0 {
        BASE_BACKOFF_MS as nat
    } else {
        vstd::math::min(MAX_BACKOFF_MS as int, 2 * backoff_ms((k - 1) as nat) as int) as nat
    }
}

/// Retry delays never shrink.
pub proof fn lemma_backoff_grows(k: nat)
    ensures
        backoff_ms(k) <= backoff_ms(k + 1),
        backoff_ms(k) <= MAX_BACKOFF_MS,
    decreases k,
{
    if k > 0 {
        lemma_backoff_grows((k - 1) as nat);
    }
}

fn backoff_delay(k: u32) -> (r: u64)
    ensures
        r == backoff_ms(k as nat),
{
    let mut d: u64 = BASE_BACKOFF_MS;
    let mut i: u32 = 0;
    while i < k
        invariant
            i <= k,
            d == backoff_ms(i as nat),
            d <= MAX_BACKOFF_MS,
        decreases k - i,
    {
        d = if 2 * d > MAX_BACKOFF_MS {
            MAX_BACKOFF_MS
        } else {
            2 * d
        };
        i = i + 1;
    }
    d
}

/// What a worker does after a failed attempt on its range.
#[derive(Clone, Copy, Debug, PartialEq, Eq, Structural)]
pub enum RetryDecision {
    /// Ask again for the bytes from `from` on, after `delay_ms`.
    Retry { from: u64, delay_ms: u64 },
    /// Attempts are exhausted: the range, and with it the job, has failed.
    GiveUp,
}

/// Progress of one worker through its range: the next byte to write, and the
/// failed attempts so far.
#[derive(Clone, Copy, Debug)]
pub struct ChunkFetch {
    pub start: u64,
    pub end: u64,
    pub offset: u64,
    pub attempts: u32,
    pub max_attempts: u32,
}

impl ChunkFetch {
    pub open spec fn wf(&self) -> bool {
        &&& self.start <= self.offset <= self.end + 1
        &&& self.end < u64::MAX
        &&& self.attempts <= self.max_attempts
    }

    /// A worker at the start of `chunk`, allowed `max_attempts` failed attempts.
    pub fn new(chunk: Chunk, max_attempts: u32) -> (r: ChunkFetch)
        requires
            chunk.start <= chunk.end < u64::MAX,
        ensures
            r.wf(),
            r.start == chunk.start,
            r.end == chunk.end,
            r.offset == chunk.start,
            r.attempts == 0,
            r.max_attempts == max_attempts,
    {
        ChunkFetch { start: chunk.start, end: chunk.end, offset: chunk.start, attempts: 0, max_attempts }
    }

    /// Bytes of the range not yet written.
    pub fn remaining(&self) -> (r: u64)
        requires
            self.wf(),
        ensures
            r == self.end + 1 - self.offset,
    {
        self.end + 1 - self.offset
    }

    /// Whether the whole range has been written.
    pub fn is_finished(&self) -> (r: bool)
        requires
            self.wf(),
        ensures
            r == (self.offset == self.end + 1),
    {
        self.offset == self.end + 1
    }

    /// Takes a received buffer of `len` bytes: returns the file offset to write
    /// it at and how many of its bytes belong to the range, and advances past them.
    pub fn on_data(&mut self, len: u64) -> (r: (u64, u64))
        requires
            old(self).wf(),
        ensures
            final(self).wf(),
            r.0 == old(self).offset,
            r.1 == vstd::math::min(len as int, old(self).end + 1 - old(self).offset),
            final(self).offset == old(self).offset + r.1,
            final(self).start == old(self).start,
            final(self).end == old(self).end,
            final(self).attempts == old(self).attempts,
            final(self).max_attempts == old(self).max_attempts,
    {
        let at: u64 = self.offset;
        let room: u64 = self.end + 1 - self.offset;
        let take: u64 = if len < room {
            len
        } else {
            room
        };
        self.offset = self.offset + take;
        (at, take)
    }

    /// Records a failed attempt: retry from the last written byte after a
    /// growing delay, or give up once `max_attempts` attempts have failed.
    pub fn on_error(&mut self) -> (r: RetryDecision)
        requires
            old(self).wf(),
        ensures
            final(self).start == old(self).start,
            final(self).end == old(self).end,
            final(self).offset == old(self).offset,
            final(self).max_attempts == old(self).max_attempts,
            old(self).attempts + 1 >= old(self).max_attempts ==> r == RetryDecision::GiveUp
                && final(self).attempts == old(self).max_attempts,
            old(self).attempts + 1 < old(self).max_attempts ==> r == (RetryDecision::Retry {
                from: old(self).offset,
                delay_ms: backoff_ms(old(self).attempts as nat) as u64,
            }) && final(self).attempts == old(self).attempts + 1,
            final(self).wf(),
    {
        if self.attempts >= self.max_attempts || self.max_attempts - self.attempts <= 1 {
            self.attempts = self.max_attempts;
            RetryDecision::GiveUp
        } else {
            let delay: u64 = backoff_delay(self.attempts);
            self.attempts = self.attempts + 1;
            RetryDecision::Retry { from: self.offset, delay_ms: delay }
        }
    }
}

} // verus!
