//! The measurement protocol: warm up, then time a fixed number of runs.

use std::time::Instant;
use vstd::prelude::*;

verus! {

/// How long a run measures: a quick pass for feedback, or a full one.
#[derive(Clone, Copy, Debug, PartialEq, Eq, Structural)]
pub enum Profile {
    Quick,
    Full,
}

impl Profile {
    /// The profile's name.
    pub fn as_str(&self) -> (r: &'static str)
        ensures
            *self == Profile::Quick ==> r@ == "quick"@,
            *self == Profile::Full ==> r@ == "full"@,
    {
        match self {
            Profile::Quick => "quick",
            Profile::Full => "full",
        }
    }
}

/// Settings shared by every benchmark of a run.
#[derive(Clone, Copy, Debug)]
pub struct BenchConfig {
    pub profile: Profile,
    pub seed: u64,
}

impl BenchConfig {
    /// Unmeasured runs before the timed ones.
    pub fn warmup_iters(&self) -> (r: u64)
        ensures
            r == (match self.profile {
                Profile::Quick => 32u64,
                Profile::Full => 200u64,
            }),
    {
        match self.profile {
            Profile::Quick => 32,
            Profile::Full => 200,
        }
    }

    /// Timed runs.
    pub fn iters(&self) -> (r: u64)
        ensures
            r == (match self.profile {
                Profile::Quick => 300u64,
                Profile::Full => 3_000u64,
            }),
    {
        match self.profile {
            Profile::Quick => 300,
            Profile::Full => 3_000,
        }
    }
}

/// The outcome of one measurement. The time per run is
/// `total_ns / ns_per_iter_divisor()`.
#[derive(Clone, Copy, Debug)]
pub struct Measured {
    pub iters: u64,
    pub warmup_iters: u64,
    pub total_ns: u128,
}

impl Measured {
    /// What the total time is divided by to give the time per run: the
    /// number of timed runs, or 1 where there were none.
    pub fn ns_per_iter_divisor(&self) -> (r: u64)
        ensures
            r == if self.iters == 0 {
                1
            } else {
                self.iters
            },
    {
        if self.iters == 0 {
            1
        } else {
            self.iters
        }
    }
}

#[verifier::external_type_specification]
#[verifier::external_body]
pub struct ExInstant(Instant);

/// Relies on `Instant::now`: the current reading of the monotonic clock.
#[verifier::external_body]
fn clock_now() -> Instant {
    Instant::now()
}

/// Relies on `Instant::elapsed`: the time since `start`, in nanoseconds.
#[verifier::external_body]
fn nanos_since(start: &Instant) -> u128 {
    start.elapsed().as_nanos()
}

/// Relies on `std::hint::black_box`: the compiler must assume that the value
/// is used, so the call that made it is not optimised away.
#[verifier::external_body]
fn consume<T>(value: T) {
    std::hint::black_box(value);
}

/// Runs `f` `warmup_iters` times untimed, then `iters` times under the
/// clock, each result consumed so that no run is optimised away.
pub fn measure_fn<T, F: FnMut() -> T>(iters: u64, warmup_iters: u64, f: F) -> (r: Measured)
    requires
        f.requires(()),
    ensures
        r.iters == iters,
        r.warmup_iters == warmup_iters,
{
    let mut f = f;
    let mut i: u64 = 0;
    while i < warmup_iters
        invariant
            f.requires(()),
        decreases warmup_iters - i,
    {
        consume(f());
        i = i + 1;
    }
    let start = clock_now();
    let mut j: u64 = 0;
    while j < iters
        invariant
            f.requires(()),
        decreases iters - j,
    {
        consume(f());
        j = j + 1;
    }
    let total_ns = nanos_since(&start);
    Measured { iters, warmup_iters, total_ns }
}

} // verus!
