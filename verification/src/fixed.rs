//! Fixed-point quantities. Costs, invocation counts and durations are held in
//! millionths ("micro units"), so that the derived metrics are exact integer
//! arithmetic rather than floating point. Division by a zero quantity has no
//! defined value; it is reported as an absent result rather than a non-finite
//! number.

use vstd::prelude::*;

verus! {

/// One whole unit, in micro units.
pub const SCALE: u128 = 1_000_000;

/// The largest quantity the pipeline works with: 10^18 whole units.
pub const MAX_MICRO: u128 = 1_000_000_000_000_000_000_000_000;

/// cost_per_100m = cost / invocations * 10^8; in micro units the factor
/// becomes 10^8 * 10^6.
pub const RATIO_FACTOR: u128 = 100_000_000_000_000;

/// The largest possible cost-per-100M value: MAX_MICRO * RATIO_FACTOR.
pub const RATIO_MAX: u128 = 100_000_000_000_000_000_000_000_000_000_000_000_000;

/// Percentage change scales by 100; in micro units the factor is 10^8.
pub const PCT_FACTOR: u128 = 100_000_000;

/// A non-negative quantity in micro units (value = micro / 10^6).
#[derive(Clone, Copy, Debug, PartialEq, Eq, Structural)]
pub struct Fixed {
    pub micro: u128,
}

impl Fixed {
    pub open spec fn wf(self) -> bool {
        self.micro <= MAX_MICRO
    }

    /// The quantity n, for a whole number n.
    pub fn from_whole(n: u64) -> (r: Fixed)
        requires
            n <= 1_000_000_000_000_000_000,
        ensures
            r.micro == n * SCALE,
            r.wf(),
    {
        Fixed { micro: n as u128 * SCALE }
    }

    pub fn zero() -> (r: Fixed)
        ensures
            r.micro == 0,
            r.wf(),
    {
        Fixed { micro: 0 }
    }
}

/// A derived cost-per-100M-requests value, in micro units. Values reach
/// MAX_MICRO * RATIO_FACTOR, beyond the range of `Fixed`.
#[derive(Clone, Copy, Debug, PartialEq, Eq, Structural)]
pub struct Ratio {
    pub micro: u128,
}

impl Ratio {
    pub open spec fn wf(self) -> bool {
        self.micro <= RATIO_MAX
    }
}

/// A percentage change, as a sign and a magnitude in micro units.
#[derive(Clone, Copy, Debug, PartialEq, Eq, Structural)]
pub struct PctChange {
    pub negative: bool,
    pub micro: u128,
}

/// cost / invocations * 10^8, in micro units, rounded toward zero.
pub open spec fn ratio_micro(cost_micro: nat, invocations_micro: nat) -> nat
    recommends
        invocations_micro > 0,
{
    cost_micro * (RATIO_FACTOR as nat) / invocations_micro
}

/// The derived cost-per-100M-requests metric. A bucket without invocations
/// has no defined ratio, so the result is absent exactly when the invocation
/// count is zero.
pub fn cost_per_100m(cost: Fixed, invocations: Fixed) -> (r: Option<Ratio>)
    requires
        cost.wf(),
    ensures
        r is None <==> invocations.micro == 0,
        r matches Some(q) ==> q.micro == ratio_micro(
            cost.micro as nat,
            invocations.micro as nat,
        ) && q.wf(),
{
    if invocations.micro == 0 {
        None
    } else {
        proof {
            assert(cost.micro * RATIO_FACTOR <= MAX_MICRO * RATIO_FACTOR) by (nonlinear_arith)
                requires
                    cost.micro <= MAX_MICRO,
            ;
            assert(MAX_MICRO * RATIO_FACTOR == RATIO_MAX) by (nonlinear_arith);
            assert(cost.micro * RATIO_FACTOR / (invocations.micro as int) <= cost.micro
                * RATIO_FACTOR) by (nonlinear_arith)
                requires
                    invocations.micro >= 1,
            ;
        }
        Some(Ratio { micro: cost.micro * RATIO_FACTOR / invocations.micro })
    }
}

/// |current - prior| / prior * 100, in micro units, rounded toward zero.
pub open spec fn pct_change_micro(prior_micro: nat, current_micro: nat) -> nat
    recommends
        prior_micro > 0,
{
    if current_micro >= prior_micro {
        ((current_micro - prior_micro) as nat) * (PCT_FACTOR as nat) / prior_micro
    } else {
        ((prior_micro - current_micro) as nat) * (PCT_FACTOR as nat) / prior_micro
    }
}

/// Percentage change from `prior` to `current`. A zero prior cost has no
/// defined change, so the result is absent exactly then.
pub fn cost_pct_change(prior: Fixed, current: Fixed) -> (r: Option<PctChange>)
    requires
        prior.wf(),
        current.wf(),
    ensures
        r is None <==> prior.micro == 0,
        r matches Some(p) ==> p.micro == pct_change_micro(prior.micro as nat, current.micro as nat)
            && p.negative == (current.micro < prior.micro),
{
    if prior.micro == 0 {
        None
    } else if current.micro >= prior.micro {
        let diff = current.micro - prior.micro;
        proof {
            assert(diff * PCT_FACTOR <= MAX_MICRO * PCT_FACTOR) by (nonlinear_arith)
                requires
                    diff <= MAX_MICRO,
            ;
        }
        Some(PctChange { negative: false, micro: diff * PCT_FACTOR / prior.micro })
    } else {
        let diff = prior.micro - current.micro;
        proof {
            assert(diff * PCT_FACTOR <= MAX_MICRO * PCT_FACTOR) by (nonlinear_arith)
                requires
                    diff <= MAX_MICRO,
            ;
        }
        Some(PctChange { negative: true, micro: diff * PCT_FACTOR / prior.micro })
    }
}

} // verus!
