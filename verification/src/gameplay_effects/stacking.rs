use vstd::prelude::*;

verus! {

/// How repeated applications of one definition are grouped into stacks.
#[derive(Debug, Clone, Copy, PartialEq, Eq, Structural)]
pub enum StackingType {
    NoStacking,
    AggregateBySource,
    AggregateByTarget,
}

/// How modifier magnitudes scale with the stack count.
#[derive(Debug, Clone, Copy, PartialEq, Eq, Structural)]
pub enum StackMagnitudePolicy {
    NoScaling,
    Linear,
}

/// Whether a successful stack refreshes the remaining duration.
#[derive(Debug, Clone, Copy, PartialEq, Eq, Structural)]
pub enum StackDurationPolicy {
    KeepExisting,
    RefreshOnSuccessfulStack,
}

/// Whether a successful stack restarts the current period.
#[derive(Debug, Clone, Copy, PartialEq, Eq, Structural)]
pub enum StackPeriodPolicy {
    KeepCurrentTick,
    ResetOnSuccessfulStack,
}

/// What happens to an application beyond the stack limit.
#[derive(Debug, Clone, Copy, PartialEq, Eq, Structural)]
pub enum StackOverflowPolicy {
    RejectApplication,
    RefreshDuration,
}

/// What expires when a stacked effect's duration ends.
#[derive(Debug, Clone, Copy, PartialEq, Eq, Structural)]
pub enum StackExpirationPolicy {
    RemoveAllStacks,
    RemoveSingleStack,
}

/// Stacking behavior configured for an effect definition.
#[derive(Debug, Clone, Copy, PartialEq, Eq, Structural)]
pub struct StackingPolicy {
    pub stacking_type: StackingType,
    pub stack_limit: u32,
    pub magnitude_policy: StackMagnitudePolicy,
    pub duration_policy: StackDurationPolicy,
    pub period_policy: StackPeriodPolicy,
    pub overflow_policy: StackOverflowPolicy,
    pub expiration_policy: StackExpirationPolicy,
}

impl StackingPolicy {
    /// Creates a policy from all its settings.
    pub fn new(
        stacking_type: StackingType,
        stack_limit: u32,
        magnitude_policy: StackMagnitudePolicy,
        duration_policy: StackDurationPolicy,
        period_policy: StackPeriodPolicy,
        overflow_policy: StackOverflowPolicy,
        expiration_policy: StackExpirationPolicy,
    ) -> (policy: Self)
        ensures
            policy == (StackingPolicy {
                stacking_type,
                stack_limit,
                magnitude_policy,
                duration_policy,
                period_policy,
                overflow_policy,
                expiration_policy,
            }),
    {
        StackingPolicy {
            stacking_type,
            stack_limit,
            magnitude_policy,
            duration_policy,
            period_policy,
            overflow_policy,
            expiration_policy,
        }
    }

    /// Creates a policy for effects whose applications never stack.
    pub fn non_stacking() -> (policy: Self)
        ensures
            policy == (StackingPolicy {
                stacking_type: StackingType::NoStacking,
                stack_limit: 0,
                magnitude_policy: StackMagnitudePolicy::NoScaling,
                duration_policy: StackDurationPolicy::KeepExisting,
                period_policy: StackPeriodPolicy::KeepCurrentTick,
                overflow_policy: StackOverflowPolicy::RejectApplication,
                expiration_policy: StackExpirationPolicy::RemoveAllStacks,
            }),
    {
        Self::new(
            StackingType::NoStacking,
            0,
            StackMagnitudePolicy::NoScaling,
            StackDurationPolicy::KeepExisting,
            StackPeriodPolicy::KeepCurrentTick,
            StackOverflowPolicy::RejectApplication,
            StackExpirationPolicy::RemoveAllStacks,
        )
    }

    /// Creates a policy whose stacks scale linearly, refresh their duration and period on
    /// each successful stack, reject overflow, and expire together.
    pub fn linear_refreshing(stacking_type: StackingType, stack_limit: u32) -> (policy: Self)
        ensures
            policy == (StackingPolicy {
                stacking_type,
                stack_limit,
                magnitude_policy: StackMagnitudePolicy::Linear,
                duration_policy: StackDurationPolicy::RefreshOnSuccessfulStack,
                period_policy: StackPeriodPolicy::ResetOnSuccessfulStack,
                overflow_policy: StackOverflowPolicy::RejectApplication,
                expiration_policy: StackExpirationPolicy::RemoveAllStacks,
            }),
    {
        Self::new(
            stacking_type,
            stack_limit,
            StackMagnitudePolicy::Linear,
            StackDurationPolicy::RefreshOnSuccessfulStack,
            StackPeriodPolicy::ResetOnSuccessfulStack,
            StackOverflowPolicy::RejectApplication,
            StackExpirationPolicy::RemoveAllStacks,
        )
    }

    /// Returns the `stacking_type` setting.
    pub fn get_stacking_type(&self) -> (value: StackingType)
        ensures
            value == self.stacking_type,
    {
        self.stacking_type
    }

    /// Returns the `stack_limit` setting.
    pub fn get_stack_limit(&self) -> (value: u32)
        ensures
            value == self.stack_limit,
    {
        self.stack_limit
    }

    /// Returns the `magnitude_policy` setting.
    pub fn get_magnitude_policy(&self) -> (value: StackMagnitudePolicy)
        ensures
            value == self.magnitude_policy,
    {
        self.magnitude_policy
    }

    /// Returns the `duration_policy` setting.
    pub fn get_duration_policy(&self) -> (value: StackDurationPolicy)
        ensures
            value == self.duration_policy,
    {
        self.duration_policy
    }

    /// Returns the `period_policy` setting.
    pub fn get_period_policy(&self) -> (value: StackPeriodPolicy)
        ensures
            value == self.period_policy,
    {
        self.period_policy
    }

    /// Returns the `overflow_policy` setting.
    pub fn get_overflow_policy(&self) -> (value: StackOverflowPolicy)
        ensures
            value == self.overflow_policy,
    {
        self.overflow_policy
    }

    /// Returns the `expiration_policy` setting.
    pub fn get_expiration_policy(&self) -> (value: StackExpirationPolicy)
        ensures
            value == self.expiration_policy,
    {
        self.expiration_policy
    }

    /// Returns the factor by which modifier magnitudes are multiplied for `stack_count` stacks.
    pub fn stack_multiplier(&self, stack_count: u32) -> (multiplier: u32)
        ensures
            multiplier == match self.magnitude_policy {
                StackMagnitudePolicy::NoScaling => 1u32,
                StackMagnitudePolicy::Linear => stack_count,
            },
    {
        match self.magnitude_policy {
            StackMagnitudePolicy::NoScaling => 1,
            StackMagnitudePolicy::Linear => stack_count,
        }
    }
}

} // verus!
