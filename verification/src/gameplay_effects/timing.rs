use vstd::prelude::*;

verus! {

/// Configured duration of an effect, with a magnitude formula of type `M` for finite durations.
///
/// Evaluating the formula for one application yields an [`EffectDurationTicksSpec`].
pub enum EffectDurationTicks<M> {
    /// Applies once and is not stored.
    Instant,
    /// Stays active for the ticks that the magnitude evaluates to.
    DurationTicks(M),
    /// Stays active until removed.
    Infinite,
}

/// Configured period of a periodic effect, with a magnitude formula of type `M` for its length.
pub struct EffectPeriodTicks<M> {
    period_ticks: M,
    execute_on_applied: bool,
}

impl<M> EffectPeriodTicks<M> {
    /// The magnitude formula of the period length.
    pub closed spec fn period_magnitude(self) -> M {
        self.period_ticks
    }

    /// Whether the effect executes once when it is applied.
    pub closed spec fn executes_on_applied(self) -> bool {
        self.execute_on_applied
    }

    /// Creates a period from its magnitude formula, optionally executing once on application.
    pub fn new(period_ticks: M, execute_on_applied: bool) -> (period: Self)
        ensures
            period.period_magnitude() == period_ticks,
            period.executes_on_applied() == execute_on_applied,
    {
        EffectPeriodTicks { period_ticks, execute_on_applied }
    }

    /// Returns the magnitude formula of the period length.
    pub fn get_period_magnitude(&self) -> (magnitude: &M)
        ensures
            *magnitude == self.period_magnitude(),
    {
        &self.period_ticks
    }

    /// Returns whether the effect executes once when it is applied.
    pub fn get_execute_on_applied(&self) -> (execute: bool)
        ensures
            execute == self.executes_on_applied(),
    {
        self.execute_on_applied
    }
}

/// Evaluated duration of one effect application, in fixed ticks.
#[derive(Debug, Clone, Copy, PartialEq, Eq, Structural)]
pub enum EffectDurationTicksSpec {
    /// Applies once and is not stored.
    Instant,
    /// Stays active for the given number of ticks.
    DurationTicks(u32),
    /// Stays active until removed.
    Infinite,
}

impl EffectDurationTicksSpec {
    /// Returns whether the effect applies once without being stored.
    pub fn is_instant(&self) -> (instant: bool)
        ensures
            instant == (*self is Instant),
    {
        match self {
            EffectDurationTicksSpec::Instant => true,
            _ => false,
        }
    }
}

/// Evaluated period of one periodic effect application, in fixed ticks.
#[derive(Debug, Clone, Copy, PartialEq, Eq, Structural)]
pub struct EffectPeriodTicksSpec {
    pub period_ticks: u32,
    pub execute_on_applied: bool,
}

impl EffectPeriodTicksSpec {
    /// Creates a period of `period_ticks` ticks, optionally executing once on application.
    pub fn new(period_ticks: u32, execute_on_applied: bool) -> (period: Self)
        ensures
            period == (EffectPeriodTicksSpec { period_ticks, execute_on_applied }),
    {
        EffectPeriodTicksSpec { period_ticks, execute_on_applied }
    }

    /// Returns the period in fixed ticks.
    pub fn get_period_ticks(&self) -> (ticks: u32)
        ensures
            ticks == self.period_ticks,
    {
        self.period_ticks
    }

    /// Returns whether the effect executes once when it is applied.
    pub fn get_execute_on_applied(&self) -> (execute: bool)
        ensures
            execute == self.execute_on_applied,
    {
        self.execute_on_applied
    }
}

} // verus!
