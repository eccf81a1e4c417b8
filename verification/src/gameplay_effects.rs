//! Gameplay-effect tags, stacking, timing, active-effect storage, and lifecycle decisions.

mod active;
mod application_queue;
mod convergence;
mod definition;
mod diagnostics;
mod effect_tags;
mod execution;
mod payload;
mod planning;
mod requirements;
mod spec;
mod stacking;
mod storage;
mod timing;
mod world;
mod world_application;
mod world_convergence;
mod world_count;

pub use active::{
    initial_duration, initial_period, restart_ticks, ticked, ActiveEffectDurationTicks, ActiveEffectHandle,
    ActiveEffectPeriodTicks, ActiveGameplayEffect, DurationTickOutcome,
};
pub use application_queue::GameplayEffectApplicationQueue;
pub use convergence::{
    bool_lt, entries_sorted, entry_le, entry_lt, first_seen, same_signature, signature_entry,
    sort_signature, sorted_unique_handles, RequirementConvergence, RequirementSignatureEntry,
    SeenSignature,
};
pub use definition::GameplayEffect;
pub use diagnostics::{
    duration_nanos, lemma_record_accumulates, max_duration_nanos, saturating_nanos, saturating_sum, EffectRequirementDiagnostics,
    EffectRequirementMetrics,
};
pub use effect_tags::{EffectTags, GameplayEffectImmunityQuery};
pub use execution::{
    apply_inhibit_transition, cleanup_effect_tags, cleanups_valid, create_active_effect,
    execute_gameplay_effect_plan, execution_outcome, lemma_release_bounds, releases_on_expiry, explicit_after_release, granted, stack_live, install_effect_tags, released, tags_consistent,
    force_remove_effect, remove_active_effect, remove_active_effects_with_tags,
    release_discarded_effect_tags, validate_effect_cleanup, PlanExecution,
};
pub use payload::{effect_payload_from_ability_context, payload_from_context, EffectPayload};
pub use planning::{
    active_effect_has_any_tags, all_registered, collect_active_effects_with_tags, effect_matches_tags,
    has_active_effect_with_tags, prepare_outcome, tag_check_fails_with, tags_checkable, application_kind, contains_handle,
    find_stackable_active_effect, first_unregistered, get_active_effects_on_target, plan_application_kind, share_tag, stacks_onto,
    prepare_gameplay_effect, removal_matching_ok, GameplayEffectApplicationError,
    GameplayEffectApplicationKind, GameplayEffectApplicationPlan,
};
pub use requirements::{
    blocks_incoming, decision_for, grants_immunity, is_blocked_by_application_immunity,
    is_blocked_by_immunity_bits, ongoing_allowed, passes_application_requirements,
    passes_ongoing_requirements, removal_matches, removal_requested, removal_requirement_matches,
    requirement_decision, should_remove_active_effect, ActiveEffectRequirementDecision,
};
pub use spec::GameplayEffectSpec;
pub use storage::{
    ActiveEffectStorageError, ActiveEffectStorageRegistry, ActiveGameplayEffects, DurationTickReport, ExpiredEffect,
    PeriodicExecution, StackRefresh,
};
pub use stacking::{
    StackDurationPolicy, StackExpirationPolicy, StackMagnitudePolicy, StackOverflowPolicy,
    StackPeriodPolicy, StackingPolicy, StackingType,
};
pub use world::{
    sorted_unique_entities, EffectStorageEntry, EffectWorld, RequirementDecisionEntry, TagContainerEntry,
};
pub use world_count::{bounded_sequences, entries_over, lemma_bounded_sequences, lemma_entries_over_finite};
pub use timing::{EffectDurationTicks, EffectDurationTicksSpec, EffectPeriodTicks, EffectPeriodTicksSpec};
