//! Optional observations of requirement convergence work.

use std::time::Duration;
use vstd::prelude::*;

verus! {

/// Total nanoseconds of a duration, as `Duration::as_nanos` reports them.
pub uninterp spec fn duration_nanos(duration: Duration) -> u128;

/// The largest number of nanoseconds a duration can hold: `u64::MAX` seconds and
/// 999 999 999 nanoseconds.
pub open spec fn max_duration_nanos() -> int {
    u64::MAX as int * 1_000_000_000 + 999_999_999
}

/// Calls `Duration::as_nanos`, which returns the total number of whole nanoseconds; no
/// duration holds more than `Duration::MAX`, `u64::MAX` seconds and 999 999 999 nanoseconds.
#[verifier::external_body]
fn duration_as_nanos(duration: Duration) -> (nanos: u128)
    ensures
        nanos == duration_nanos(duration),
        nanos <= max_duration_nanos(),
{
    duration.as_nanos()
}

/// Calls `Duration::default`, the zero-length duration.
#[verifier::external_body]
fn zero_duration() -> (duration: Duration)
    ensures
        duration_nanos(duration) == 0,
{
    Duration::default()
}

/// Calls `Duration::saturating_add`, which adds exactly unless the sum exceeds
/// `Duration::MAX`, and then returns `Duration::MAX`.
#[verifier::external_body]
fn duration_saturating_add(a: Duration, b: Duration) -> (sum: Duration)
    ensures
        duration_nanos(a) + duration_nanos(b) <= max_duration_nanos() ==> duration_nanos(sum)
            == duration_nanos(a) + duration_nanos(b),
        duration_nanos(a) + duration_nanos(b) > max_duration_nanos() ==> duration_nanos(sum)
            == max_duration_nanos(),
{
    a.saturating_add(b)
}

/// `a + b`, or `u64::MAX` when the sum does not fit.
pub open spec fn saturating_sum(a: u64, b: u64) -> u64 {
    if a + b > u64::MAX { u64::MAX } else { (a + b) as u64 }
}

/// `a + b` in nanoseconds, or the largest duration when the sum does not fit.
pub open spec fn saturating_nanos(a: Duration, b: Duration) -> int {
    if duration_nanos(a) + duration_nanos(b) > max_duration_nanos() {
        max_duration_nanos()
    } else {
        duration_nanos(a) + duration_nanos(b)
    }
}

/// Accumulated observations from measured requirement-convergence calls.
#[derive(Debug, Clone, Copy)]
pub struct EffectRequirementMetrics {
    /// Number of completed convergence calls.
    pub convergence_calls: u64,
    /// Number of requirement decision passes, including the final unchanged pass.
    pub decision_passes: u64,
    /// Active effects visited while building cycle-detection signatures.
    pub signature_effect_visits: u64,
    /// Active effects visited while deciding requirement transitions.
    pub decision_effect_visits: u64,
    /// Complete effect snapshots copied for requirement decisions.
    pub effect_snapshots: u64,
    /// Requirement transitions applied across all passes.
    pub transitions: u64,
    /// Non-converging cycles detected and removed.
    pub cycles: u64,
    /// Total time spent inside measured convergence calls.
    pub elapsed: Duration,
}

impl EffectRequirementMetrics {
    /// Whether every count and the elapsed time are zero.
    pub open spec fn is_zero(self) -> bool {
        &&& self.convergence_calls == 0
        &&& self.decision_passes == 0
        &&& self.signature_effect_visits == 0
        &&& self.decision_effect_visits == 0
        &&& self.effect_snapshots == 0
        &&& self.transitions == 0
        &&& self.cycles == 0
        &&& duration_nanos(self.elapsed) == 0
    }

    /// Whether `sum` is `a` plus `b`, field by field, each sum saturating.
    pub open spec fn is_saturating_sum(sum: Self, a: Self, b: Self) -> bool {
        &&& sum.convergence_calls == saturating_sum(a.convergence_calls, b.convergence_calls)
        &&& sum.decision_passes == saturating_sum(a.decision_passes, b.decision_passes)
        &&& sum.signature_effect_visits == saturating_sum(a.signature_effect_visits, b.signature_effect_visits)
        &&& sum.decision_effect_visits == saturating_sum(a.decision_effect_visits, b.decision_effect_visits)
        &&& sum.effect_snapshots == saturating_sum(a.effect_snapshots, b.effect_snapshots)
        &&& sum.transitions == saturating_sum(a.transitions, b.transitions)
        &&& sum.cycles == saturating_sum(a.cycles, b.cycles)
        &&& duration_nanos(sum.elapsed) == saturating_nanos(a.elapsed, b.elapsed)
    }

    /// Returns the elapsed time in whole nanoseconds.
    pub fn elapsed_nanos(&self) -> (nanos: u128)
        ensures
            nanos == duration_nanos(self.elapsed),
    {
        duration_as_nanos(self.elapsed)
    }
}

/// Recording a sample never lowers an accumulated measurement: each count is at least what it
/// was, and so is the elapsed time, which no duration holds beyond its maximum.
pub proof fn lemma_record_accumulates(
    sum: EffectRequirementMetrics,
    accumulated: EffectRequirementMetrics,
    sample: EffectRequirementMetrics,
)
    requires
        EffectRequirementMetrics::is_saturating_sum(sum, accumulated, sample),
        duration_nanos(accumulated.elapsed) <= max_duration_nanos(),
    ensures
        sum.convergence_calls >= accumulated.convergence_calls,
        sum.decision_passes >= accumulated.decision_passes,
        sum.signature_effect_visits >= accumulated.signature_effect_visits,
        sum.decision_effect_visits >= accumulated.decision_effect_visits,
        sum.effect_snapshots >= accumulated.effect_snapshots,
        sum.transitions >= accumulated.transitions,
        sum.cycles >= accumulated.cycles,
        duration_nanos(sum.elapsed) >= duration_nanos(accumulated.elapsed),
{
}

impl Default for EffectRequirementMetrics {
    /// Creates metrics with every count and the elapsed time at zero.
    fn default() -> (metrics: Self)
        ensures
            metrics.is_zero(),
    {
        EffectRequirementMetrics {
            convergence_calls: 0,
            decision_passes: 0,
            signature_effect_visits: 0,
            decision_effect_visits: 0,
            effect_snapshots: 0,
            transitions: 0,
            cycles: 0,
            elapsed: zero_duration(),
        }
    }
}

/// Optional requirement-convergence measurements, disabled by default.
///
/// Timing is observational only and never controls gameplay decisions.
#[derive(Debug)]
pub struct EffectRequirementDiagnostics {
    enabled: bool,
    metrics: EffectRequirementMetrics,
}

impl EffectRequirementDiagnostics {
    /// Whether measurements are recorded.
    pub closed spec fn enabled(self) -> bool {
        self.enabled
    }

    /// The accumulated measurements.
    pub closed spec fn accumulated(self) -> EffectRequirementMetrics {
        self.metrics
    }

    /// Enables or disables recording without changing the accumulated measurements.
    pub fn set_enabled(&mut self, enabled: bool)
        ensures
            final(self).enabled() == enabled,
            final(self).accumulated() == old(self).accumulated(),
    {
        self.enabled = enabled;
    }

    /// Returns whether subsequent convergence calls record measurements.
    pub fn is_enabled(&self) -> (enabled: bool)
        ensures
            enabled == self.enabled(),
    {
        self.enabled
    }

    /// Returns the accumulated measurements.
    pub fn metrics(&self) -> (metrics: &EffectRequirementMetrics)
        ensures
            *metrics == self.accumulated(),
    {
        &self.metrics
    }

    /// Clears all accumulated measurements without changing the enabled state.
    pub fn reset(&mut self)
        ensures
            final(self).enabled() == old(self).enabled(),
            final(self).accumulated().is_zero(),
    {
        self.metrics = EffectRequirementMetrics::default();
    }

    /// Adds one sample to the accumulated measurements, each field saturating.
    pub fn record(&mut self, sample: EffectRequirementMetrics)
        ensures
            final(self).enabled() == old(self).enabled(),
            EffectRequirementMetrics::is_saturating_sum(
                final(self).accumulated(),
                old(self).accumulated(),
                sample,
            ),
    {
        self.metrics.convergence_calls = self.metrics.convergence_calls.saturating_add(sample.convergence_calls);
        self.metrics.decision_passes = self.metrics.decision_passes.saturating_add(sample.decision_passes);
        self.metrics.signature_effect_visits = self.metrics.signature_effect_visits.saturating_add(
            sample.signature_effect_visits,
        );
        self.metrics.decision_effect_visits = self.metrics.decision_effect_visits.saturating_add(
            sample.decision_effect_visits,
        );
        self.metrics.effect_snapshots = self.metrics.effect_snapshots.saturating_add(sample.effect_snapshots);
        self.metrics.transitions = self.metrics.transitions.saturating_add(sample.transitions);
        self.metrics.cycles = self.metrics.cycles.saturating_add(sample.cycles);
        self.metrics.elapsed = duration_saturating_add(self.metrics.elapsed, sample.elapsed);
    }
}

impl Default for EffectRequirementDiagnostics {
    /// Creates disabled diagnostics with zero measurements.
    fn default() -> (diagnostics: Self)
        ensures
            !diagnostics.enabled(),
            diagnostics.accumulated().is_zero(),
    {
        EffectRequirementDiagnostics { enabled: false, metrics: EffectRequirementMetrics::default() }
    }
}

} // verus!
