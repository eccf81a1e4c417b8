use super::{
    EffectDurationTicksSpec, GameplayEffectSpec, StackDurationPolicy, StackExpirationPolicy,
    StackPeriodPolicy,
};
use crate::identifiers::EntityId;
use vstd::prelude::*;

verus! {

/// Stable generational handle for an active effect stored on its target.
#[derive(Debug, Clone, Copy, PartialEq, Eq, Hash, Structural)]
pub struct ActiveEffectHandle {
    target: EntityId,
    slot: u32,
    generation: u32,
}

impl ActiveEffectHandle {
    /// The entity that owns the effect.
    pub closed spec fn target(self) -> EntityId {
        self.target
    }

    /// The slot index within the target's storage.
    pub closed spec fn slot(self) -> u32 {
        self.slot
    }

    /// The slot generation the handle was issued for.
    pub closed spec fn generation(self) -> u32 {
        self.generation
    }

    /// The handle with the given target, slot, and generation.
    pub closed spec fn from_parts(target: EntityId, slot: u32, generation: u32) -> Self {
        ActiveEffectHandle { target, slot, generation }
    }

    /// A handle built from parts has those parts.
    pub proof fn lemma_from_parts(target: EntityId, slot: u32, generation: u32)
        ensures
            Self::from_parts(target, slot, generation).target() == target,
            Self::from_parts(target, slot, generation).slot() == slot,
            Self::from_parts(target, slot, generation).generation() == generation,
    {
    }

    /// Handles with equal targets, slots, and generations are equal.
    pub proof fn lemma_eq(a: Self, b: Self)
        requires
            a.target() == b.target(),
            a.slot() == b.slot(),
            a.generation() == b.generation(),
        ensures
            a == b,
    {
    }

    /// Handles are ordered by target bits, then slot, then generation.
    pub open spec fn precedes(self, other: Self) -> bool {
        ||| self.target().bits() < other.target().bits()
        ||| (self.target().bits() == other.target().bits() && self.slot() < other.slot())
        ||| (self.target().bits() == other.target().bits() && self.slot() == other.slot()
            && self.generation() < other.generation())
    }

    /// Creates a handle from its target, slot, and generation.
    pub fn new(target: EntityId, slot: u32, generation: u32) -> (handle: Self)
        ensures
            handle == Self::from_parts(target, slot, generation),
            handle.target() == target,
            handle.slot() == slot,
            handle.generation() == generation,
    {
        ActiveEffectHandle { target, slot, generation }
    }

    /// Returns the entity that owns the active-effect storage.
    pub fn get_target(self) -> (target: EntityId)
        ensures
            target == self.target(),
    {
        self.target
    }

    /// Returns the stable slot index within the target storage.
    pub fn get_slot(self) -> (slot: u32)
        ensures
            slot == self.slot(),
    {
        self.slot
    }

    /// Returns the slot generation used to reject stale handles.
    pub fn get_generation(self) -> (generation: u32)
        ensures
            generation == self.generation(),
    {
        self.generation
    }

    /// Returns whether `self` orders strictly before `other`.
    pub fn is_before(self, other: Self) -> (before: bool)
        ensures
            before == self.precedes(other),
    {
        let a = self.target.to_bits();
        let b = other.target.to_bits();
        a < b || (a == b && self.slot < other.slot) || (a == b && self.slot == other.slot
            && self.generation < other.generation)
    }

    /// Returns whether both handles name the same target, slot, and generation.
    pub fn same_as(self, other: Self) -> (same: bool)
        ensures
            same == (self == other),
    {
        self == other
    }
}

/// Remaining fixed ticks for a finite active effect.
#[derive(Debug, Clone, Copy, PartialEq, Eq, Structural)]
pub struct ActiveEffectDurationTicks {
    remain_ticks: u32,
}

impl ActiveEffectDurationTicks {
    /// The remaining fixed ticks.
    pub closed spec fn remaining(self) -> u32 {
        self.remain_ticks
    }

    /// Returns the remaining fixed ticks.
    pub fn get_remaining_ticks(&self) -> (ticks: u32)
        ensures
            ticks == self.remaining(),
    {
        self.remain_ticks
    }
}

/// Fixed-tick state for a periodic active effect.
#[derive(Debug, Clone, Copy, PartialEq, Eq, Structural)]
pub struct ActiveEffectPeriodTicks {
    period_ticks: u32,
    current_tick: u32,
}

impl ActiveEffectPeriodTicks {
    #[verifier::type_invariant]
    spec fn tick_within_period(self) -> bool {
        self.current_tick < self.period_ticks
    }

    /// The configured period in fixed ticks.
    pub closed spec fn length(self) -> u32 {
        self.period_ticks
    }

    /// The elapsed ticks in the current period.
    pub closed spec fn elapsed(self) -> u32 {
        self.current_tick
    }

    /// Returns the configured period in fixed ticks.
    pub fn get_period_ticks(&self) -> (ticks: u32)
        ensures
            ticks == self.length(),
    {
        self.period_ticks
    }

    /// Returns the elapsed ticks in the current period.
    pub fn get_current_tick(&self) -> (tick: u32)
        ensures
            tick == self.elapsed(),
    {
        self.current_tick
    }
}

/// Whether `duration` is the remaining-duration state a new application of `spec` starts
/// with: the full evaluated duration for finite effects, and none otherwise.
pub open spec fn initial_duration(spec: GameplayEffectSpec, duration: Option<ActiveEffectDurationTicks>) -> bool {
    match spec.duration() {
        EffectDurationTicksSpec::DurationTicks(ticks) => duration matches Some(d) && d.remaining() == ticks,
        _ => duration is None,
    }
}

/// Whether `period` is the period state a new application of `spec` starts with: only a
/// positive period runs, starting at tick zero.
pub open spec fn initial_period(spec: GameplayEffectSpec, period: Option<ActiveEffectPeriodTicks>) -> bool {
    if spec.runs_periodically() {
        period matches Some(p) && p.length() == spec.period()->0.period_ticks && p.elapsed() == 0
    } else {
        period is None
    }
}

/// What one fixed tick did to an effect's remaining duration.
#[derive(Debug, Clone, Copy, PartialEq, Eq, Structural)]
pub enum DurationTickOutcome {
    /// The effect has no finite duration.
    Unlimited,
    /// Ticks remain.
    Running,
    /// One stack expired and the duration restarted; `refresh_modifiers` says whether the
    /// retained attribute modifiers must be reapplied for the new stack count.
    StackExpired { refresh_modifiers: bool },
    /// The effect expired and must be removed.
    Expired,
}

/// The remaining ticks after one tick, never below zero.
pub open spec fn ticked(remaining: u32) -> u32 {
    if remaining > 0 { (remaining - 1) as u32 } else { 0 }
}

/// The duration ticks a stack restart resets to.
pub open spec fn restart_ticks(spec: GameplayEffectSpec, fallback: u32) -> u32 {
    match spec.duration() {
        EffectDurationTicksSpec::DurationTicks(ticks) => ticks,
        _ => fallback,
    }
}

/// Runtime state for a gameplay effect stored in [`ActiveGameplayEffects`].
pub struct ActiveGameplayEffect {
    spec: GameplayEffectSpec,
    source: EntityId,
    target: EntityId,
    stack_count: u32,
    inhibited: bool,
    duration: Option<ActiveEffectDurationTicks>,
    period: Option<ActiveEffectPeriodTicks>,
}

impl ActiveGameplayEffect {
    /// The captured effect specification.
    pub closed spec fn spec_of(self) -> GameplayEffectSpec {
        self.spec
    }

    /// The entity that applied the effect.
    pub closed spec fn source(self) -> EntityId {
        self.source
    }

    /// The entity that owns the effect.
    pub closed spec fn target(self) -> EntityId {
        self.target
    }

    /// The current stack count.
    pub closed spec fn stacks(self) -> u32 {
        self.stack_count
    }

    /// Whether ongoing requirements currently inhibit the effect.
    pub closed spec fn inhibited(self) -> bool {
        self.inhibited
    }

    /// The remaining-duration state, if finite.
    pub closed spec fn duration_state(self) -> Option<ActiveEffectDurationTicks> {
        self.duration
    }

    /// The period state, if periodic.
    pub closed spec fn period_state(self) -> Option<ActiveEffectPeriodTicks> {
        self.period
    }

    /// Creates the runtime state of a newly applied effect: one stack, not inhibited, the
    /// full evaluated duration, and a positive period starting at tick zero.
    pub fn new(spec: GameplayEffectSpec, source: EntityId, target: EntityId) -> (effect: Self)
        ensures
            effect.spec_of() == spec,
            effect.source() == source,
            effect.target() == target,
            effect.stacks() == 1,
            !effect.inhibited(),
            initial_duration(spec, effect.duration_state()),
            initial_period(spec, effect.period_state()),
    {
        let duration = match spec.get_duration_spec() {
            EffectDurationTicksSpec::DurationTicks(remain_ticks) => Some(ActiveEffectDurationTicks { remain_ticks }),
            EffectDurationTicksSpec::Instant => None,
            EffectDurationTicksSpec::Infinite => None,
        };
        let period = match spec.get_period_spec() {
            Some(p) => if p.get_period_ticks() > 0 {
                Some(ActiveEffectPeriodTicks { period_ticks: p.get_period_ticks(), current_tick: 0 })
            } else {
                None
            },
            None => None,
        };
        ActiveGameplayEffect { spec, source, target, stack_count: 1, inhibited: false, duration, period }
    }

    /// Returns the captured effect specification.
    pub fn get_spec(&self) -> (spec: &GameplayEffectSpec)
        ensures
            *spec == self.spec_of(),
    {
        &self.spec
    }

    /// Returns the entity that applied the effect.
    pub fn get_source(&self) -> (source: EntityId)
        ensures
            source == self.source(),
    {
        self.source
    }

    /// Returns the entity that owns the effect.
    pub fn get_target(&self) -> (target: EntityId)
        ensures
            target == self.target(),
    {
        self.target
    }

    /// Returns the current stack count.
    pub fn get_stack_count(&self) -> (count: u32)
        ensures
            count == self.stacks(),
    {
        self.stack_count
    }

    /// Sets the stack count, raising zero to one.
    pub fn set_stack_count(&mut self, stack_count: u32)
        ensures
            final(self).stacks() == (if stack_count == 0 { 1 } else { stack_count }),
            final(self).spec_of() == old(self).spec_of(),
            final(self).source() == old(self).source(),
            final(self).target() == old(self).target(),
            final(self).inhibited() == old(self).inhibited(),
            final(self).duration_state() == old(self).duration_state(),
            final(self).period_state() == old(self).period_state(),
    {
        self.stack_count = if stack_count == 0 { 1 } else { stack_count };
    }

    /// Returns whether ongoing tag requirements currently inhibit the effect.
    pub fn is_inhibited(&self) -> (inhibited: bool)
        ensures
            inhibited == self.inhibited(),
    {
        self.inhibited
    }

    /// Marks the effect inhibited or active.
    pub fn set_inhibited(&mut self, inhibited: bool)
        ensures
            *final(self) == old(self).with_inhibited(inhibited),
            final(self).inhibited() == inhibited,
            final(self).spec_of() == old(self).spec_of(),
            final(self).source() == old(self).source(),
            final(self).target() == old(self).target(),
            final(self).stacks() == old(self).stacks(),
            final(self).duration_state() == old(self).duration_state(),
            final(self).period_state() == old(self).period_state(),
    {
        self.inhibited = inhibited;
    }

    /// Whether the retained attribute modifiers depend on the stack count and must be
    /// reapplied when it changes: the effect is active, not periodic, and has modifiers.
    pub open spec fn retains_stacked_modifiers(self) -> bool {
        !self.inhibited() && self.period_state() is None && self.spec_of().modifier_count() > 0
    }

    /// Whether `self` and `other` agree on everything but the duration, stacks, and period.
    pub open spec fn same_identity(self, other: Self) -> bool {
        &&& self.spec_of() == other.spec_of()
        &&& self.source() == other.source()
        &&& self.target() == other.target()
        &&& self.inhibited() == other.inhibited()
    }

    /// Whether this effect expires one stack at a time and holds more than one stack.
    pub open spec fn expires_single_stack(self) -> bool {
        self.spec_of().stacking().expiration_policy == StackExpirationPolicy::RemoveSingleStack
            && self.stacks() > 1
    }

    /// The state after one duration tick.
    pub closed spec fn after_duration_tick(self) -> Self {
        match self.duration {
            None => self,
            Some(d) => {
                let r = ticked(d.remain_ticks);
                if r != 0 {
                    ActiveGameplayEffect { duration: Some(ActiveEffectDurationTicks { remain_ticks: r }), ..self }
                } else if self.expires_single_stack() {
                    ActiveGameplayEffect {
                        stack_count: (self.stack_count - 1) as u32,
                        duration: Some(ActiveEffectDurationTicks { remain_ticks: restart_ticks(self.spec, 0) }),
                        ..self
                    }
                } else {
                    ActiveGameplayEffect { duration: Some(ActiveEffectDurationTicks { remain_ticks: 0 }), ..self }
                }
            },
        }
    }

    /// A duration tick keeps the effect's specification, source, target, and inhibited state.
    pub proof fn lemma_duration_tick_keeps_identity(self)
        ensures
            self.after_duration_tick().same_identity(self),
    {
    }

    /// What one duration tick does to this effect.
    pub open spec fn duration_tick_outcome(self) -> DurationTickOutcome {
        match self.duration_state() {
            None => DurationTickOutcome::Unlimited,
            Some(d) => if ticked(d.remaining()) != 0 {
                DurationTickOutcome::Running
            } else if self.expires_single_stack() {
                DurationTickOutcome::StackExpired { refresh_modifiers: self.retains_stacked_modifiers() }
            } else {
                DurationTickOutcome::Expired
            },
        }
    }

    /// The state after one period tick.
    pub closed spec fn after_period_tick(self) -> Self {
        if self.inhibited {
            self
        } else {
            match self.period {
                None => self,
                Some(p) => if p.current_tick + 1 < p.period_ticks {
                    ActiveGameplayEffect {
                        period: Some(ActiveEffectPeriodTicks { period_ticks: p.period_ticks, current_tick: (p.current_tick + 1) as u32 }),
                        ..self
                    }
                } else {
                    ActiveGameplayEffect { period: Some(ActiveEffectPeriodTicks { period_ticks: p.period_ticks, current_tick: 0 }), ..self }
                },
            }
        }
    }

    /// Whether one period tick executes this effect.
    pub open spec fn period_tick_executes(self) -> bool {
        !self.inhibited() && (self.period_state() matches Some(p) && p.elapsed() + 1 >= p.length())
    }

    /// The state after marking the effect inhibited or active.
    pub closed spec fn with_inhibited(self, inhibited: bool) -> Self {
        ActiveGameplayEffect { inhibited, ..self }
    }

    /// Marking an effect inhibited or active changes nothing else, and the last mark wins.
    pub proof fn lemma_with_inhibited(self, a: bool, b: bool)
        ensures
            self.with_inhibited(self.inhibited()) == self,
            self.with_inhibited(a).with_inhibited(b) == self.with_inhibited(b),
            self.with_inhibited(a).inhibited() == a,
    {
    }

    /// The state after a successful stack to `new_stack_count` from an application of `incoming`.
    pub closed spec fn after_stack(self, new_stack_count: u32, incoming: GameplayEffectSpec) -> Self {
        let duration = if incoming.stacking().duration_policy == StackDurationPolicy::RefreshOnSuccessfulStack
            && incoming.duration() is DurationTicks && self.duration is Some {
            Some(ActiveEffectDurationTicks { remain_ticks: restart_ticks(incoming, 0) })
        } else {
            self.duration
        };
        let period = match self.period {
            Some(p) => if incoming.stacking().period_policy == StackPeriodPolicy::ResetOnSuccessfulStack {
                Some(ActiveEffectPeriodTicks { period_ticks: p.period_ticks, current_tick: 0 })
            } else {
                Some(p)
            },
            None => None,
        };
        ActiveGameplayEffect {
            stack_count: if new_stack_count == 0 { 1 } else { new_stack_count },
            duration,
            period,
            ..self
        }
    }

    /// Advances the remaining duration by one fixed tick.
    ///
    /// When it reaches zero, an effect that expires one stack at a time and holds more than one
    /// stack loses one stack and restarts its duration; otherwise the whole effect expires.
    pub fn tick_duration(&mut self) -> (outcome: DurationTickOutcome)
        ensures
            *final(self) == old(self).after_duration_tick(),
            outcome == old(self).duration_tick_outcome(),
            final(self).same_identity(*old(self)),
            final(self).period_state() == old(self).period_state(),
            old(self).duration_state() is None ==> outcome == DurationTickOutcome::Unlimited
                && final(self).duration_state() is None && final(self).stacks() == old(self).stacks(),
            old(self).duration_state() matches Some(d) ==> {
                let r = ticked(d.remaining());
                &&& final(self).duration_state() is Some
                &&& r != 0 ==> outcome == DurationTickOutcome::Running && final(self).stacks()
                    == old(self).stacks() && final(self).duration_state()->0.remaining() == r
                &&& (r == 0 && old(self).spec_of().stacking().expiration_policy
                    == StackExpirationPolicy::RemoveSingleStack && old(self).stacks() > 1) ==> {
                    &&& final(self).stacks() == old(self).stacks() - 1
                    &&& final(self).duration_state()->0.remaining() == restart_ticks(old(self).spec_of(), 0)
                    &&& outcome == (DurationTickOutcome::StackExpired {
                        refresh_modifiers: old(self).retains_stacked_modifiers(),
                    })
                }
                &&& (r == 0 && !(old(self).spec_of().stacking().expiration_policy
                    == StackExpirationPolicy::RemoveSingleStack && old(self).stacks() > 1)) ==> outcome
                    == DurationTickOutcome::Expired && final(self).stacks() == old(self).stacks()
                    && final(self).duration_state()->0.remaining() == 0
            },
    {
        let d = match self.duration {
            None => {
                return DurationTickOutcome::Unlimited;
            },
            Some(d) => d,
        };
        let remain = if d.remain_ticks > 0 { d.remain_ticks - 1 } else { 0 };
        if remain != 0 {
            self.duration = Some(ActiveEffectDurationTicks { remain_ticks: remain });
            return DurationTickOutcome::Running;
        }
        let single = match self.spec.get_stacking_policy().expiration_policy {
            StackExpirationPolicy::RemoveSingleStack => true,
            StackExpirationPolicy::RemoveAllStacks => false,
        };
        if single && self.stack_count > 1 {
            self.stack_count = self.stack_count - 1;
            let restart = match self.spec.get_duration_spec() {
                EffectDurationTicksSpec::DurationTicks(ticks) => ticks,
                _ => 0,
            };
            self.duration = Some(ActiveEffectDurationTicks { remain_ticks: restart });
            let refresh_modifiers = !self.inhibited && self.period.is_none() && self.spec.has_modifiers();
            return DurationTickOutcome::StackExpired { refresh_modifiers };
        }
        self.duration = Some(ActiveEffectDurationTicks { remain_ticks: 0 });
        DurationTickOutcome::Expired
    }

    /// Advances the period by one fixed tick and returns whether the effect executes now.
    ///
    /// Inhibited and non-periodic effects do not advance. A period executes when its elapsed
    /// ticks reach its length, and then starts over.
    pub fn tick_period(&mut self) -> (execute: bool)
        ensures
            *final(self) == old(self).after_period_tick(),
            execute == old(self).period_tick_executes(),
            final(self).same_identity(*old(self)),
            final(self).stacks() == old(self).stacks(),
            final(self).duration_state() == old(self).duration_state(),
            (old(self).inhibited() || old(self).period_state() is None) ==> !execute
                && final(self).period_state() == old(self).period_state(),
            (!old(self).inhibited() && old(self).period_state() is Some) ==> {
                let p = old(self).period_state()->0;
                &&& final(self).period_state() matches Some(q) && q.length() == p.length()
                &&& execute == (p.elapsed() + 1 >= p.length())
                &&& final(self).period_state()->0.elapsed() == (if execute { 0 } else { p.elapsed() + 1 })
            },
    {
        if self.inhibited {
            return false;
        }
        match self.period {
            None => false,
            Some(p) => {
                proof {
                    use_type_invariant(&p);
                }
                let next = p.current_tick + 1;
                if next < p.period_ticks {
                    self.period = Some(ActiveEffectPeriodTicks { period_ticks: p.period_ticks, current_tick: next });
                    false
                } else {
                    self.period = Some(ActiveEffectPeriodTicks { period_ticks: p.period_ticks, current_tick: 0 });
                    true
                }
            },
        }
    }

    /// Records a successful stack from an application of `incoming`.
    ///
    /// Sets the stack count (raising zero to one), restarts a finite duration to the incoming
    /// duration when the incoming policy refreshes durations, and restarts a running period
    /// when the incoming policy resets periods. Returns whether the retained attribute modifiers
    /// must be reapplied for the new stack count.
    pub fn apply_stack(&mut self, new_stack_count: u32, incoming: &GameplayEffectSpec) -> (refresh_modifiers: bool)
        ensures
            *final(self) == old(self).after_stack(new_stack_count, *incoming),
            final(self).same_identity(*old(self)),
            final(self).stacks() == (if new_stack_count == 0 { 1 } else { new_stack_count }),
            refresh_modifiers == old(self).retains_stacked_modifiers(),
            (incoming.stacking().duration_policy == StackDurationPolicy::RefreshOnSuccessfulStack
                && incoming.duration() is DurationTicks && old(self).duration_state() is Some)
                ==> (final(self).duration_state() matches Some(d) && d.remaining() == restart_ticks(*incoming, 0)),
            !(incoming.stacking().duration_policy == StackDurationPolicy::RefreshOnSuccessfulStack
                && incoming.duration() is DurationTicks && old(self).duration_state() is Some)
                ==> final(self).duration_state() == old(self).duration_state(),
            (incoming.stacking().period_policy == StackPeriodPolicy::ResetOnSuccessfulStack
                && old(self).period_state() is Some) ==> (final(self).period_state() matches Some(q)
                && q.length() == old(self).period_state()->0.length() && q.elapsed() == 0),
            !(incoming.stacking().period_policy == StackPeriodPolicy::ResetOnSuccessfulStack
                && old(self).period_state() is Some) ==> final(self).period_state() == old(self).period_state(),
    {
        self.stack_count = if new_stack_count == 0 { 1 } else { new_stack_count };
        let policy = incoming.get_stacking_policy();
        let refresh_duration = match policy.duration_policy {
            StackDurationPolicy::RefreshOnSuccessfulStack => true,
            StackDurationPolicy::KeepExisting => false,
        };
        if refresh_duration && self.duration.is_some() {
            match incoming.get_duration_spec() {
                EffectDurationTicksSpec::DurationTicks(ticks) => {
                    self.duration = Some(ActiveEffectDurationTicks { remain_ticks: ticks });
                },
                _ => {},
            }
        }
        let reset_period = match policy.period_policy {
            StackPeriodPolicy::ResetOnSuccessfulStack => true,
            StackPeriodPolicy::KeepCurrentTick => false,
        };
        if reset_period {
            match self.period {
                Some(p) => {
                    proof {
                        use_type_invariant(&p);
                    }
                    self.period = Some(ActiveEffectPeriodTicks { period_ticks: p.period_ticks, current_tick: 0 });
                },
                None => {},
            }
        }
        !self.inhibited && self.period.is_none() && self.spec.has_modifiers()
    }

    /// Returns the remaining-duration state, if finite.
    pub fn get_duration(&self) -> (duration: Option<&ActiveEffectDurationTicks>)
        ensures
            duration == match self.duration_state() {
                Some(d) => Some(&d),
                None => None::<&ActiveEffectDurationTicks>,
            },
    {
        self.duration.as_ref()
    }

    /// Returns the period state, if periodic.
    pub fn get_period(&self) -> (period: Option<&ActiveEffectPeriodTicks>)
        ensures
            period == match self.period_state() {
                Some(p) => Some(&p),
                None => None::<&ActiveEffectPeriodTicks>,
            },
    {
        self.period.as_ref()
    }
}

} // verus!
