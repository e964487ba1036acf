use vstd::prelude::*;

verus! {

/// Outcome of one request for transfer budget.
#[derive(Clone, Copy, Debug, PartialEq, Eq, Structural)]
pub enum Admission {
    /// This many bytes may be transferred now; they have been debited.
    Granted(u64),
    /// Not enough budget: try again after this many milliseconds.
    Wait(u64),
}

/// Token-bucket throughput governor. The budget refills continuously at `rate`
/// bytes per second up to `capacity` bytes, the size of the largest buffer a
/// worker transfers at once (no grant is larger); it is held in thousandths of a byte
/// so that refills over whole milliseconds lose nothing. Time is handed in by
/// the caller as milliseconds on a monotonic clock.
pub struct RateLimiter {
    rate: u64,
    capacity: u64,
    budget: u128,
    last_ms: u64,
    start_ms: Ghost<u64>,
    granted: Ghost<nat>,
}

pub open spec fn ceil_div(a: int, b: int) -> int {
    (a + b - 1) / b
}

impl RateLimiter {
    pub closed spec fn rate_spec(&self) -> nat {
        self.rate as nat
    }

    pub closed spec fn capacity_spec(&self) -> nat {
        self.capacity as nat
    }

    /// Available budget, in thousandths of a byte.
    pub closed spec fn budget_spec(&self) -> nat {
        self.budget as nat
    }

    /// The latest time the limiter has been told of.
    pub closed spec fn clock_spec(&self) -> nat {
        self.last_ms as nat
    }

    /// The time the limiter was created.
    pub closed spec fn start_spec(&self) -> nat {
        self.start_ms@ as nat
    }

    /// All bytes granted since creation.
    pub closed spec fn granted_spec(&self) -> nat {
        self.granted@
    }

    pub closed spec fn wf(&self) -> bool {
        &&& self.rate > 0
        &&& self.capacity > 0
        &&& self.budget <= self.capacity * 1000
        &&& self.start_ms@ <= self.last_ms
        &&& self.granted@ * 1000 + self.budget <= self.capacity * 1000 + self.rate * (self.last_ms
            - self.start_ms@)
    }

    /// A limiter of `rate` bytes per second with a full bucket of `capacity` bytes.
    pub fn new(rate: u64, capacity: u64, now_ms: u64) -> (r: RateLimiter)
        requires
            rate > 0,
            capacity > 0,
        ensures
            r.wf(),
            r.rate_spec() == rate,
            r.capacity_spec() == capacity,
            r.budget_spec() == capacity * 1000,
            r.clock_spec() == now_ms,
            r.start_spec() == now_ms,
            r.granted_spec() == 0,
    {
        RateLimiter {
            rate,
            capacity,
            budget: capacity as u128 * 1000,
            last_ms: now_ms,
            start_ms: Ghost(now_ms),
            granted: Ghost(0),
        }
    }

    /// Adds what accrued since the last call, capped at the bucket's capacity.
    /// A clock that has not moved forward adds nothing.
    pub fn refill(&mut self, now_ms: u64)
        requires
            old(self).wf(),
        ensures
            final(self).wf(),
            final(self).rate_spec() == old(self).rate_spec(),
            final(self).capacity_spec() == old(self).capacity_spec(),
            final(self).start_spec() == old(self).start_spec(),
            final(self).granted_spec() == old(self).granted_spec(),
            now_ms > old(self).clock_spec() ==> {
                &&& final(self).clock_spec() == now_ms
                &&& final(self).budget_spec() == vstd::math::min(
                    (old(self).capacity_spec() * 1000) as int,
                    old(self).budget_spec() + old(self).rate_spec() * (now_ms - old(self).clock_spec()),
                )
            },
            now_ms <= old(self).clock_spec() ==> final(self).clock_spec() == old(self).clock_spec()
                && final(self).budget_spec() == old(self).budget_spec(),
    {
        if now_ms > self.last_ms {
            let dt: u64 = now_ms - self.last_ms;
            assert(self.rate as u128 * dt as u128 <= 0xffff_ffff_ffff_ffffu128 * 0xffff_ffff_ffff_ffffu128)
                by (nonlinear_arith);
            let add: u128 = self.rate as u128 * dt as u128;
            let cap: u128 = self.capacity as u128 * 1000;
            proof {
                assert(self.rate * (now_ms - self.start_ms@) == self.rate * (self.last_ms
                    - self.start_ms@) + self.rate * dt) by (nonlinear_arith)
                    requires
                        dt == now_ms - self.last_ms,
                ;
            }
            if add >= cap - self.budget {
                self.budget = cap;
            } else {
                self.budget = self.budget + add;
            }
            self.last_ms = now_ms;
        }
    }

    /// Refills, then grants up to `capacity` bytes of a request of `n` bytes
    /// (a larger request is served in several grants), or says how long to wait
    /// until that much budget has accrued.
    pub fn acquire(&mut self, n: u64, now_ms: u64) -> (r: Admission)
        requires
            old(self).wf(),
        ensures
            final(self).wf(),
            final(self).rate_spec() == old(self).rate_spec(),
            final(self).capacity_spec() == old(self).capacity_spec(),
            final(self).start_spec() == old(self).start_spec(),
            final(self).clock_spec() == vstd::math::max(old(self).clock_spec() as int, now_ms as int),
            ({
                let want = vstd::math::min(n as int, old(self).capacity_spec() as int);
                let avail = if now_ms > old(self).clock_spec() {
                    vstd::math::min(
                        (old(self).capacity_spec() * 1000) as int,
                        old(self).budget_spec() + old(self).rate_spec() * (now_ms
                            - old(self).clock_spec()),
                    )
                } else {
                    old(self).budget_spec() as int
                };
                match r {
                    Admission::Granted(g) => {
                        &&& avail >= want * 1000
                        &&& g == want
                        &&& final(self).granted_spec() == old(self).granted_spec() + g
                        &&& final(self).budget_spec() == avail - want * 1000
                    },
                    Admission::Wait(ms) => {
                        &&& avail < want * 1000
                        &&& ms == vstd::math::min(
                            ceil_div(want * 1000 - avail, old(self).rate_spec() as int),
                            u64::MAX as int,
                        )
                        &&& final(self).granted_spec() == old(self).granted_spec()
                        &&& final(self).budget_spec() == avail
                    },
                }
            }),
    {
        self.refill(now_ms);
        let want: u64 = if n < self.capacity {
            n
        } else {
            self.capacity
        };
        let need: u128 = want as u128 * 1000;
        if self.budget >= need {
            self.budget = self.budget - need;
            self.granted = Ghost((self.granted@ + want) as nat);
            Admission::Granted(want)
        } else {
            let deficit: u128 = need - self.budget;
            let rate: u128 = self.rate as u128;
            let wait: u128 = (deficit + rate - 1) / rate;
            if wait > u64::MAX as u128 {
                Admission::Wait(u64::MAX)
            } else {
                Admission::Wait(wait as u64)
            }
        }
    }
}

/// Over any span of time, the bytes the limiter has granted never exceed what
/// the configured rate allows over that span plus one buffer (`capacity`).
pub proof fn lemma_throughput_bounded(l: &RateLimiter)
    requires
        l.wf(),
    ensures
        l.granted_spec() * 1000 <= l.capacity_spec() * 1000 + l.rate_spec() * (l.clock_spec()
            - l.start_spec()),
{
}

/// A `Wait(ms)` answer is long enough: over `ms` milliseconds at least the
/// missing budget accrues, so the worker is not kept waiting beyond that.
pub proof fn lemma_wait_suffices(deficit: nat, rate: nat)
    requires
        rate > 0,
    ensures
        rate * ceil_div(deficit as int, rate as int) >= deficit,
        rate * (ceil_div(deficit as int, rate as int) - 1) < deficit || deficit == 0,
{
    let q = ceil_div(deficit as int, rate as int);
    vstd::arithmetic::div_mod::lemma_fundamental_div_mod(deficit + rate - 1, rate as int);
    vstd::arithmetic::div_mod::lemma_mod_bound(deficit + rate - 1, rate as int);
    assert(rate * q == q * rate) by (nonlinear_arith);
    assert(rate * (q - 1) == rate * q - rate) by (nonlinear_arith);
}

} // verus!
