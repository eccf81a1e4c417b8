//! Ability chains, activation contexts and state, additional costs, tag rules, and task state.

mod ability;
mod ability_tags;
mod activation;
mod active_ability;
mod additional_cost;
mod chain;
mod task;
mod task_dispatch;

pub use ability::GameplayAbility;
pub use ability_tags::AbilityTags;
pub use activation::{chained_from, AbilityActivationContext, AbilityActivationReason};
pub use active_ability::{AbilityActivationData, ActiveGameplayAbility};
pub use additional_cost::{AdditionalCost, AdditionalCostError};
pub use chain::{
    chain_extension, chain_max_depth, chain_validation, chain_well_built,
    lemma_extension_validates, lemma_root_chain_validates, AbilityChainContext, AbilityChainError,
};
pub use task::{
    batch_plan, completion_plan, instantiates, on_finished_copied, plan_ability_task_completion, AbilityActivationStatus,
    AbilityTask, AbilityTaskAction, AbilityTaskCompletion, AbilityTaskDef, AbilityTaskExecutionContext,
    AbilityTaskKind, AbilityTaskOnFinished, AbilityTaskOnFinishedDef,
};
pub use task_dispatch::{
    lemma_batch_events_in_order, lemma_event_plans_emit_their_ids, lemma_events_in_plan_order,
    lemma_silent_actions_emit_nothing, lemma_single_application_targets_primary,
    accepted, action_requests, advance_ability_task, chain_allows, dispatch_ability_task_completion, plan_events,
    plan_requests, queued_after, request_matches, ticked_task, AbilityTaskEvent, AbilityTaskStep, QueuedRequest,
};
