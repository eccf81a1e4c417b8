use bevy_gas::gameplay_effects::GameplayEffectApplicationQueue;
use bevy_gas::gameplay_execution::GameplayEffectApplicationRequest;
use bevy_gas::gameplay_execution::{GameplayExecutionError, GameplayExecutionOutcome};
use bevy_gas::gameplay_effects::{
    active_effect_has_any_tags, collect_active_effects_with_tags, create_active_effect,
    execute_gameplay_effect_plan, find_stackable_active_effect, get_active_effects_on_target, has_active_effect_with_tags,
    is_blocked_by_application_immunity, passes_application_requirements,
    passes_ongoing_requirements, plan_application_kind, prepare_gameplay_effect,
    release_discarded_effect_tags, remove_active_effect, remove_active_effects_with_tags,
    requirement_decision, should_remove_active_effect, ActiveEffectHandle,
    ActiveEffectRequirementDecision, ActiveEffectStorageError, ActiveEffectStorageRegistry,
    ActiveGameplayEffect, ActiveGameplayEffects, DurationTickOutcome, EffectDurationTicks,
    EffectDurationTicksSpec, EffectPeriodTicks, EffectPeriodTicksSpec, EffectRequirementDiagnostics,
    EffectRequirementMetrics, EffectTags, GameplayEffect, GameplayEffectApplicationError,
    GameplayEffectApplicationKind, GameplayEffectImmunityQuery, GameplayEffectSpec, PlanExecution,
    StackDurationPolicy, StackExpirationPolicy, StackMagnitudePolicy, StackOverflowPolicy,
    StackPeriodPolicy, StackingPolicy, StackingType,
};
use bevy_gas::{
    tag_bits_from_tags_with_manager, EntityId, GameplayTag, GameplayTagContainer, GameplayTagError,
    GameplayTagManager, TagRequirements, UniqueName,
};
use std::time::Duration;

fn entity(bits: u64) -> EntityId {
    EntityId::from_bits(bits)
}

fn tags() -> (GameplayTagManager, GameplayTag, GameplayTag, GameplayTag) {
    let mut manager = GameplayTagManager::new();
    let status = manager.register_tag_internal(UniqueName::new(1), None).unwrap();
    let burning = manager.register_tag_internal(UniqueName::new(2), Some(0)).unwrap();
    let shield = manager.register_tag_internal(UniqueName::new(3), None).unwrap();
    (manager, status, burning, shield)
}

fn spec_with(def_id: u64, tags: EffectTags, stacking: StackingPolicy, duration: EffectDurationTicksSpec) -> GameplayEffectSpec {
    GameplayEffectSpec::new(def_id, tags, stacking, duration, None, 1)
}

fn plain_spec(def_id: u64, duration: EffectDurationTicksSpec) -> GameplayEffectSpec {
    spec_with(def_id, EffectTags::new(vec![], vec![]), StackingPolicy::non_stacking(), duration)
}

fn single_stack_policy() -> StackingPolicy {
    StackingPolicy::new(
        StackingType::AggregateByTarget,
        3,
        StackMagnitudePolicy::Linear,
        StackDurationPolicy::RefreshOnSuccessfulStack,
        StackPeriodPolicy::ResetOnSuccessfulStack,
        StackOverflowPolicy::RefreshDuration,
        StackExpirationPolicy::RemoveSingleStack,
    )
}

#[test]
fn new_effects_start_with_one_active_stack() {
    let spec = GameplayEffectSpec::new(
        7,
        EffectTags::new(vec![], vec![]),
        StackingPolicy::non_stacking(),
        EffectDurationTicksSpec::DurationTicks(5),
        Some(EffectPeriodTicksSpec::new(3, true)),
        2,
    );
    let effect = ActiveGameplayEffect::new(spec, entity(1), entity(2));
    assert_eq!(effect.get_stack_count(), 1);
    assert!(!effect.is_inhibited());
    assert_eq!(effect.get_duration().unwrap().get_remaining_ticks(), 5);
    assert_eq!(effect.get_period().unwrap().get_period_ticks(), 3);
    assert_eq!(effect.get_period().unwrap().get_current_tick(), 0);
    assert_eq!(effect.get_source(), entity(1));
    assert_eq!(effect.get_target(), entity(2));
    assert_eq!(effect.get_spec().get_def_id(), 7);
}

#[test]
fn instant_infinite_and_zero_period_effects_have_no_timers() {
    let instant = ActiveGameplayEffect::new(plain_spec(1, EffectDurationTicksSpec::Instant), entity(1), entity(1));
    assert!(instant.get_duration().is_none());
    let infinite = GameplayEffectSpec::new(
        1,
        EffectTags::new(vec![], vec![]),
        StackingPolicy::non_stacking(),
        EffectDurationTicksSpec::Infinite,
        Some(EffectPeriodTicksSpec::new(0, true)),
        0,
    );
    let infinite = ActiveGameplayEffect::new(infinite, entity(1), entity(1));
    assert!(infinite.get_duration().is_none());
    assert!(infinite.get_period().is_none());
    assert!(EffectDurationTicksSpec::Instant.is_instant());
    assert!(!EffectDurationTicksSpec::Infinite.is_instant());
}

#[test]
fn stack_count_is_at_least_one() {
    let mut effect = ActiveGameplayEffect::new(plain_spec(1, EffectDurationTicksSpec::Infinite), entity(1), entity(1));
    effect.set_stack_count(0);
    assert_eq!(effect.get_stack_count(), 1);
    effect.set_stack_count(4);
    assert_eq!(effect.get_stack_count(), 4);
}

#[test]
fn duration_counts_down_and_expires() {
    let mut effect = ActiveGameplayEffect::new(plain_spec(1, EffectDurationTicksSpec::DurationTicks(2)), entity(1), entity(1));
    assert_eq!(effect.tick_duration(), DurationTickOutcome::Running);
    assert_eq!(effect.get_duration().unwrap().get_remaining_ticks(), 1);
    assert_eq!(effect.tick_duration(), DurationTickOutcome::Expired);
    let mut infinite = ActiveGameplayEffect::new(plain_spec(1, EffectDurationTicksSpec::Infinite), entity(1), entity(1));
    assert_eq!(infinite.tick_duration(), DurationTickOutcome::Unlimited);
}

#[test]
fn single_stack_expiration_restarts_the_duration() {
    let spec = spec_with(1, EffectTags::new(vec![], vec![]), single_stack_policy(), EffectDurationTicksSpec::DurationTicks(2));
    let mut effect = ActiveGameplayEffect::new(spec, entity(1), entity(1));
    effect.set_stack_count(2);
    assert_eq!(effect.tick_duration(), DurationTickOutcome::Running);
    assert_eq!(effect.tick_duration(), DurationTickOutcome::StackExpired { refresh_modifiers: true });
    assert_eq!(effect.get_stack_count(), 1);
    assert_eq!(effect.get_duration().unwrap().get_remaining_ticks(), 2);
    effect.tick_duration();
    assert_eq!(effect.tick_duration(), DurationTickOutcome::Expired);
}

#[test]
fn periods_execute_when_they_complete() {
    let spec = GameplayEffectSpec::new(
        1,
        EffectTags::new(vec![], vec![]),
        StackingPolicy::non_stacking(),
        EffectDurationTicksSpec::Infinite,
        Some(EffectPeriodTicksSpec::new(3, false)),
        1,
    );
    let mut effect = ActiveGameplayEffect::new(spec, entity(1), entity(1));
    assert!(!effect.tick_period());
    assert!(!effect.tick_period());
    assert!(effect.tick_period());
    assert_eq!(effect.get_period().unwrap().get_current_tick(), 0);
    effect.set_inhibited(true);
    assert!(!effect.tick_period());
    assert_eq!(effect.get_period().unwrap().get_current_tick(), 0);
}

#[test]
fn stacking_refreshes_duration_and_period() {
    let spec = GameplayEffectSpec::new(
        1,
        EffectTags::new(vec![], vec![]),
        single_stack_policy(),
        EffectDurationTicksSpec::DurationTicks(5),
        Some(EffectPeriodTicksSpec::new(4, false)),
        1,
    );
    let incoming = GameplayEffectSpec::new(
        1,
        EffectTags::new(vec![], vec![]),
        single_stack_policy(),
        EffectDurationTicksSpec::DurationTicks(9),
        None,
        1,
    );
    let mut effect = ActiveGameplayEffect::new(spec, entity(1), entity(1));
    effect.tick_duration();
    effect.tick_period();
    let refresh = effect.apply_stack(2, &incoming);
    assert!(!refresh);
    assert_eq!(effect.get_stack_count(), 2);
    assert_eq!(effect.get_duration().unwrap().get_remaining_ticks(), 9);
    assert_eq!(effect.get_period().unwrap().get_current_tick(), 0);
}

#[test]
fn storage_hands_out_handles_in_slot_order() {
    let mut storage = ActiveGameplayEffects::new();
    let target = entity(5);
    let a = storage.insert(target, ActiveGameplayEffect::new(plain_spec(1, EffectDurationTicksSpec::Infinite), target, target)).unwrap();
    let b = storage.insert(target, ActiveGameplayEffect::new(plain_spec(2, EffectDurationTicksSpec::Infinite), target, target)).unwrap();
    assert_eq!((a.get_slot(), a.get_generation()), (0, 1));
    assert_eq!((b.get_slot(), b.get_generation()), (1, 1));
    assert_eq!(storage.handles(target), vec![a, b]);
    assert_eq!(storage.stored_handles(), vec![a, b]);
    assert_eq!(storage.len(), 2);
    assert!(!storage.is_empty());
    assert_eq!(storage.get(a).unwrap().get_spec().get_def_id(), 1);
    assert!(storage.handles(entity(6)).is_empty());
    assert_eq!(get_active_effects_on_target(target, &storage), vec![a, b]);
    assert!(get_active_effects_on_target(entity(6), &storage).is_empty());
}

#[test]
fn removed_handles_never_name_an_effect_again() {
    let mut storage = ActiveGameplayEffects::new();
    let target = entity(5);
    let first = storage.insert(target, ActiveGameplayEffect::new(plain_spec(1, EffectDurationTicksSpec::Infinite), target, target)).unwrap();
    let removed = storage.remove(first).unwrap();
    assert_eq!(removed.get_spec().get_def_id(), 1);
    assert!(storage.get(first).is_none());
    assert!(storage.remove(first).is_none());
    let second = storage.insert(target, ActiveGameplayEffect::new(plain_spec(2, EffectDurationTicksSpec::Infinite), target, target)).unwrap();
    assert_eq!(second.get_slot(), first.get_slot());
    assert_eq!(second.get_generation(), 2);
    assert!(storage.get(first).is_none());
    assert_eq!(storage.get(second).unwrap().get_spec().get_def_id(), 2);
    assert!(storage.is_empty() == false);
}

#[test]
fn foreign_handles_are_rejected() {
    let mut storage = ActiveGameplayEffects::new();
    let target = entity(5);
    let handle = storage.insert(target, ActiveGameplayEffect::new(plain_spec(1, EffectDurationTicksSpec::Infinite), target, target)).unwrap();
    let foreign = ActiveEffectHandle::new(entity(6), handle.get_slot(), handle.get_generation());
    assert!(storage.get(foreign).is_none());
    assert!(storage.remove(foreign).is_none());
    assert_eq!(storage.len(), 1);
}

#[test]
fn storage_ticks_remove_expired_effects() {
    let mut storage = ActiveGameplayEffects::new();
    let target = entity(5);
    let short = storage.insert(target, ActiveGameplayEffect::new(plain_spec(1, EffectDurationTicksSpec::DurationTicks(1)), target, target)).unwrap();
    let long = storage.insert(target, ActiveGameplayEffect::new(plain_spec(2, EffectDurationTicksSpec::DurationTicks(3)), target, target)).unwrap();
    let report = storage.tick_durations(target);
    assert_eq!(report.expired.len(), 1);
    assert_eq!(report.expired[0].handle, short);
    assert!(report.refreshed.is_empty());
    assert!(storage.get(short).is_none());
    assert_eq!(storage.get(long).unwrap().get_duration().unwrap().get_remaining_ticks(), 2);
}

#[test]
fn storage_period_ticks_report_executions() {
    let mut storage = ActiveGameplayEffects::new();
    let target = entity(5);
    let spec = GameplayEffectSpec::new(
        1,
        EffectTags::new(vec![], vec![]),
        StackingPolicy::non_stacking(),
        EffectDurationTicksSpec::Infinite,
        Some(EffectPeriodTicksSpec::new(1, false)),
        2,
    );
    let handle = storage.insert(target, ActiveGameplayEffect::new(spec, target, target)).unwrap();
    let executions = storage.tick_periods(target);
    assert_eq!(executions.len(), 1);
    assert_eq!(executions[0].handle, handle);
    assert_eq!(executions[0].stack_count, 1);
}

#[test]
fn take_effects_empties_the_storage() {
    let mut storage = ActiveGameplayEffects::new();
    let target = entity(5);
    let handle = storage.insert(target, ActiveGameplayEffect::new(plain_spec(1, EffectDurationTicksSpec::Infinite), target, target)).unwrap();
    let taken = storage.take_effects();
    assert_eq!(taken.len(), 1);
    assert_eq!(taken[0].handle, handle);
    assert!(storage.is_empty());
    assert_eq!(storage.len(), 0);
}

#[test]
fn discarded_effects_release_their_granted_tags() {
    let (manager, status, burning, _) = tags();
    let mut storage = ActiveGameplayEffects::new();
    let target = entity(5);
    let spec = spec_with(1, EffectTags::new(vec![], vec![burning]), StackingPolicy::non_stacking(), EffectDurationTicksSpec::Infinite);
    let mut container = Some(GameplayTagContainer::default());
    create_active_effect(&mut storage, target, target, spec, &mut container, &manager).unwrap();
    let mut container = container.unwrap();
    assert!(container.has_tag(&status));
    let taken = storage.take_effects();
    release_discarded_effect_tags(&taken, &mut container, &manager);
    assert!(!container.has_tag(&burning));
    assert!(!container.has_tag(&status));
}

#[test]
fn storage_identities_are_allocated_in_order() {
    let mut registry = ActiveEffectStorageRegistry::default();
    assert_eq!(registry.allocate(), 1);
    assert_eq!(registry.allocate(), 2);
}

#[test]
fn stacking_plans_follow_the_overflow_policy() {
    let handle = ActiveEffectHandle::new(entity(1), 0, 1);
    let mut policy = single_stack_policy();
    assert_eq!(
        plan_application_kind(Some((handle, 1)), policy, false),
        Ok(GameplayEffectApplicationKind::StackExisting { handle, new_stack_count: 2 })
    );
    assert_eq!(
        plan_application_kind(Some((handle, 3)), policy, false),
        Ok(GameplayEffectApplicationKind::StackExisting { handle, new_stack_count: 3 })
    );
    policy.overflow_policy = StackOverflowPolicy::RejectApplication;
    assert_eq!(
        plan_application_kind(Some((handle, 3)), policy, false),
        Err(GameplayEffectApplicationError::StackOverflowRejected)
    );
    policy.stack_limit = 0;
    assert_eq!(
        plan_application_kind(Some((handle, u32::MAX)), policy, false),
        Ok(GameplayEffectApplicationKind::StackExisting { handle, new_stack_count: u32::MAX })
    );
    assert_eq!(plan_application_kind(None, policy, true), Ok(GameplayEffectApplicationKind::Instant));
    assert_eq!(plan_application_kind(None, policy, false), Ok(GameplayEffectApplicationKind::CreateActive));
}

#[test]
fn stack_partners_match_definition_and_source() {
    let mut storage = ActiveGameplayEffects::new();
    let target = entity(9);
    let by_source = StackingPolicy::linear_refreshing(StackingType::AggregateBySource, 0);
    let first = storage.insert(target, ActiveGameplayEffect::new(spec_with(4, EffectTags::new(vec![], vec![]), by_source, EffectDurationTicksSpec::Infinite), entity(1), target)).unwrap();
    let second = storage.insert(target, ActiveGameplayEffect::new(spec_with(4, EffectTags::new(vec![], vec![]), by_source, EffectDurationTicksSpec::Infinite), entity(2), target)).unwrap();
    let incoming = spec_with(4, EffectTags::new(vec![], vec![]), by_source, EffectDurationTicksSpec::Infinite);
    assert_eq!(find_stackable_active_effect(entity(2), target, &incoming, Some(&storage), &[]), Some((second, 1)));
    assert_eq!(find_stackable_active_effect(entity(1), target, &incoming, Some(&storage), &[first]), None);
    let other_def = spec_with(5, EffectTags::new(vec![], vec![]), by_source, EffectDurationTicksSpec::Infinite);
    assert_eq!(find_stackable_active_effect(entity(1), target, &other_def, Some(&storage), &[]), None);
    let none = plain_spec(4, EffectDurationTicksSpec::Infinite);
    assert_eq!(find_stackable_active_effect(entity(1), target, &none, Some(&storage), &[]), None);
}

#[test]
fn effects_match_query_tags_through_inheritance() {
    let (manager, status, burning, shield) = tags();
    let target = entity(3);
    let effect = ActiveGameplayEffect::new(
        spec_with(1, EffectTags::new(vec![burning], vec![]), StackingPolicy::non_stacking(), EffectDurationTicksSpec::Infinite),
        target,
        target,
    );
    assert_eq!(active_effect_has_any_tags(&effect, &[status], &manager), Ok(true));
    assert_eq!(active_effect_has_any_tags(&effect, &[shield], &manager), Ok(false));
    let mut small = GameplayTagManager::new();
    small.register_tag_internal(UniqueName::new(1), None).unwrap();
    assert_eq!(active_effect_has_any_tags(&effect, &[status], &small), Err(GameplayTagError::InvalidTagIndex { index: 1 }));
    let mut storage = ActiveGameplayEffects::new();
    let handle = storage.insert(target, effect).unwrap();
    assert_eq!(collect_active_effects_with_tags(target, &[status], Some(&storage), &manager), Ok(vec![handle]));
    assert_eq!(collect_active_effects_with_tags(target, &[], Some(&storage), &manager), Ok(vec![]));
    assert_eq!(has_active_effect_with_tags(&storage, &[status], &manager), Ok(true));
    assert_eq!(has_active_effect_with_tags(&storage, &[shield], &manager), Ok(false));
    assert_eq!(has_active_effect_with_tags(&storage, &[], &manager), Ok(false));
}

#[test]
fn removing_effects_by_tag_releases_granted_tags() {
    let (manager, status, burning, shield) = tags();
    let target = entity(3);
    let mut storage = ActiveGameplayEffects::new();
    let mut container = Some(GameplayTagContainer::default());
    let spec = spec_with(1, EffectTags::new(vec![burning], vec![shield]), StackingPolicy::non_stacking(), EffectDurationTicksSpec::Infinite);
    let handle = create_active_effect(&mut storage, target, target, spec, &mut container, &manager).unwrap();
    assert!(container.as_ref().unwrap().has_tag(&shield));
    assert_eq!(remove_active_effects_with_tags(&mut storage, target, &[status], &mut container, &manager), Ok(1));
    assert!(storage.get(handle).is_none());
    assert!(!container.as_ref().unwrap().has_tag(&shield));
    assert_eq!(remove_active_effects_with_tags(&mut storage, target, &[], &mut container, &manager), Ok(0));
}

#[test]
fn removing_one_effect_reports_stale_handles() {
    let (manager, _, _, shield) = tags();
    let target = entity(3);
    let mut storage = ActiveGameplayEffects::new();
    let mut container = Some(GameplayTagContainer::default());
    let spec = spec_with(1, EffectTags::new(vec![], vec![shield]), StackingPolicy::non_stacking(), EffectDurationTicksSpec::Infinite);
    let handle = create_active_effect(&mut storage, target, target, spec, &mut container, &manager).unwrap();
    assert_eq!(remove_active_effect(&mut storage, handle, &mut container, &manager), Ok(true));
    assert!(!container.as_ref().unwrap().has_tag(&shield));
    assert_eq!(remove_active_effect(&mut storage, handle, &mut container, &manager), Ok(false));
}

#[test]
fn granting_tags_needs_a_container() {
    let (manager, _, _, shield) = tags();
    let target = entity(3);
    let mut storage = ActiveGameplayEffects::new();
    let mut container: Option<GameplayTagContainer> = None;
    let spec = spec_with(1, EffectTags::new(vec![], vec![shield]), StackingPolicy::non_stacking(), EffectDurationTicksSpec::Infinite);
    assert_eq!(
        create_active_effect(&mut storage, target, target, spec, &mut container, &manager),
        Err(GameplayEffectApplicationError::MissingTagContainer { target })
    );
    assert!(storage.is_empty());
}

#[test]
fn ongoing_and_removal_requirements_decide_transitions() {
    let (manager, _, burning, shield) = tags();
    let target = entity(3);
    let effect_tags = EffectTags::new(vec![], vec![])
        .with_ongoing_requirements(TagRequirements::default(), TagRequirements::new(vec![], vec![shield]).unwrap())
        .with_removal_requirements(TagRequirements::default(), TagRequirements::new(vec![burning], vec![]).unwrap());
    let mut effect = ActiveGameplayEffect::new(spec_with(1, effect_tags, StackingPolicy::non_stacking(), EffectDurationTicksSpec::Infinite), target, target);
    let mut container = GameplayTagContainer::default();
    assert_eq!(requirement_decision(&effect, None, Some(&container)), None);
    container.add_tag(&shield, &manager).unwrap();
    assert!(!passes_ongoing_requirements(&effect, None, Some(&container)));
    assert_eq!(requirement_decision(&effect, None, Some(&container)), Some(ActiveEffectRequirementDecision::Inhibit));
    effect.set_inhibited(true);
    assert_eq!(requirement_decision(&effect, None, Some(&container)), None);
    container.remove_tag(&shield, &manager).unwrap();
    assert_eq!(requirement_decision(&effect, None, Some(&container)), Some(ActiveEffectRequirementDecision::Uninhibit));
    container.add_tag(&burning, &manager).unwrap();
    assert!(should_remove_active_effect(&effect, None, Some(&container)));
    assert_eq!(requirement_decision(&effect, None, Some(&container)), Some(ActiveEffectRequirementDecision::Remove));
}

#[test]
fn application_requirements_check_source_and_target() {
    let (manager, status, _, _) = tags();
    let incoming = EffectTags::new(vec![], vec![])
        .with_application_requirements(TagRequirements::new(vec![status], vec![]).unwrap(), TagRequirements::default());
    let mut source = GameplayTagContainer::default();
    assert!(!passes_application_requirements(&incoming, Some(&source), None));
    source.add_tag(&status, &manager).unwrap();
    assert!(passes_application_requirements(&incoming, Some(&source), None));
    assert_eq!(incoming.get_required_tags().len(), 0);
    assert_eq!(incoming.get_source_application_tags().get_required_tags(), &[status]);
}

#[test]
fn immunity_blocks_matching_incoming_effects() {
    let (manager, status, burning, shield) = tags();
    let target = entity(3);
    let immunity = GameplayEffectImmunityQuery::new(TagRequirements::default(), TagRequirements::new(vec![status], vec![]).unwrap());
    let granting = EffectTags::new(vec![shield], vec![]).with_granted_application_immunity(vec![immunity]);
    let mut storage = ActiveGameplayEffects::new();
    let handle = storage
        .insert(target, ActiveGameplayEffect::new(spec_with(1, granting, StackingPolicy::non_stacking(), EffectDurationTicksSpec::Infinite), target, target))
        .unwrap();
    let fire = EffectTags::new(vec![burning], vec![]);
    let water = EffectTags::new(vec![shield], vec![]);
    assert_eq!(is_blocked_by_application_immunity(Some(&storage), target, None, &fire, &manager), Ok(true));
    assert_eq!(is_blocked_by_application_immunity(Some(&storage), target, None, &water, &manager), Ok(false));
    assert_eq!(is_blocked_by_application_immunity(None, target, None, &fire, &manager), Ok(false));
    let mut small = GameplayTagManager::new();
    small.register_tag_internal(UniqueName::new(1), None).unwrap();
    assert_eq!(
        is_blocked_by_application_immunity(Some(&storage), target, None, &fire, &small),
        Err(GameplayTagError::InvalidTagIndex { index: 1 })
    );
    assert!(storage.set_inhibited_at(handle, true));
    assert_eq!(is_blocked_by_application_immunity(Some(&storage), target, None, &fire, &manager), Ok(false));
}

#[test]
fn immunity_queries_match_asset_bits() {
    let (manager, status, burning, _) = tags();
    let query = GameplayEffectImmunityQuery::new(TagRequirements::default(), TagRequirements::new(vec![status], vec![]).unwrap());
    let bits = tag_bits_from_tags_with_manager(&[burning], &manager).unwrap();
    assert!(query.matches_tag_bits(None, Some(&bits)));
    assert!(!query.matches_tag_bits(None, None));
    assert_eq!(query.matches(None, &[burning], &manager), Ok(true));
    assert!(GameplayEffectImmunityQuery::default().matches_tag_bits(None, Some(&bits)));
}

#[test]
fn preparation_rejects_in_order() {
    let (manager, status, _, shield) = tags();
    let target = entity(3);
    let storage = ActiveGameplayEffects::new();
    let needy = EffectTags::new(vec![], vec![]).with_application_requirements(TagRequirements::default(), TagRequirements::new(vec![status], vec![]).unwrap());
    let rejected = prepare_gameplay_effect(target, target, &needy, plain_spec(1, EffectDurationTicksSpec::Infinite), false, Some(&storage), None, None, true, &manager);
    assert_eq!(rejected.err(), Some(GameplayEffectApplicationError::ProbabilityRejected));
    let unmet = prepare_gameplay_effect(target, target, &needy, plain_spec(1, EffectDurationTicksSpec::Infinite), true, Some(&storage), None, None, true, &manager);
    assert_eq!(unmet.err(), Some(GameplayEffectApplicationError::ApplicationRequirementsNotMet));
    let plain = EffectTags::new(vec![], vec![]);
    let zero = prepare_gameplay_effect(target, target, &plain, plain_spec(1, EffectDurationTicksSpec::DurationTicks(0)), true, Some(&storage), None, None, true, &manager);
    assert_eq!(zero.err(), Some(GameplayEffectApplicationError::InvalidDuration));
    let homeless = prepare_gameplay_effect(target, target, &plain, plain_spec(1, EffectDurationTicksSpec::Infinite), true, None, None, None, true, &manager);
    assert_eq!(homeless.err(), Some(GameplayEffectApplicationError::MissingActiveGameplayEffects { target }));
    let no_attributes = prepare_gameplay_effect(target, target, &plain, plain_spec(1, EffectDurationTicksSpec::Instant), true, None, None, None, false, &manager);
    assert_eq!(no_attributes.err(), Some(GameplayEffectApplicationError::MissingAttributeSet { target }));
    let granted = spec_with(1, EffectTags::new(vec![], vec![shield]), StackingPolicy::non_stacking(), EffectDurationTicksSpec::Infinite);
    let tagless = prepare_gameplay_effect(target, target, &plain, granted, true, Some(&storage), None, None, true, &manager);
    assert_eq!(tagless.err(), Some(GameplayEffectApplicationError::MissingTagContainer { target }));
}

#[test]
fn prepared_plans_create_then_stack() {
    let (manager, _, _, shield) = tags();
    let target = entity(3);
    let source = entity(4);
    let mut storage = Some(ActiveGameplayEffects::new());
    let mut container = Some(GameplayTagContainer::default());
    let policy = StackingPolicy::linear_refreshing(StackingType::AggregateByTarget, 2);
    let def_tags = || EffectTags::new(vec![], vec![shield]);
    let spec = || spec_with(8, EffectTags::new(vec![], vec![shield]), policy, EffectDurationTicksSpec::DurationTicks(4));

    let plan = prepare_gameplay_effect(source, target, &def_tags(), spec(), true, storage.as_ref(), None, container.as_ref(), true, &manager).unwrap();
    assert_eq!(plan.get_kind(), GameplayEffectApplicationKind::CreateActive);
    assert!(plan.changes_active_effect_requirements());
    let created = execute_gameplay_effect_plan(plan, &mut storage, &mut container, true, &manager).unwrap();
    let handle = match created {
        PlanExecution::Created { handle, execute_on_applied } => {
            assert!(!execute_on_applied);
            handle
        },
        other => panic!("unexpected execution {other:?}"),
    };
    assert!(container.as_ref().unwrap().has_tag(&shield));

    let plan = prepare_gameplay_effect(source, target, &def_tags(), spec(), true, storage.as_ref(), None, container.as_ref(), true, &manager).unwrap();
    assert_eq!(plan.get_kind(), GameplayEffectApplicationKind::StackExisting { handle, new_stack_count: 2 });
    let stacked = execute_gameplay_effect_plan(plan, &mut storage, &mut container, true, &manager).unwrap();
    assert_eq!(stacked, PlanExecution::Stacked { handle, refresh_modifiers: true });
    assert_eq!(storage.as_ref().unwrap().get(handle).unwrap().get_stack_count(), 2);

    let overflow = prepare_gameplay_effect(source, target, &def_tags(), spec(), true, storage.as_ref(), None, container.as_ref(), true, &manager);
    assert_eq!(overflow.err(), Some(GameplayEffectApplicationError::StackOverflowRejected));
}

#[test]
fn instant_plans_store_nothing() {
    let (manager, _, _, _) = tags();
    let target = entity(3);
    let plain = EffectTags::new(vec![], vec![]);
    let plan = prepare_gameplay_effect(target, target, &plain, plain_spec(1, EffectDurationTicksSpec::Instant), true, None, None, None, true, &manager).unwrap();
    assert!(plan.is_instant());
    assert_eq!(plan.get_modifier_count(), 1);
    let mut storage: Option<ActiveGameplayEffects> = None;
    let mut container: Option<GameplayTagContainer> = None;
    assert_eq!(execute_gameplay_effect_plan(plan, &mut storage, &mut container, true, &manager), Ok(PlanExecution::Instant));
}

#[test]
fn rejections_are_classified() {
    assert!(GameplayEffectApplicationError::BlockedByImmunity.is_rejection());
    assert!(GameplayEffectApplicationError::StackOverflowRejected.is_rejection());
    assert!(!GameplayEffectApplicationError::InvalidDuration.is_rejection());
    assert!(!GameplayEffectApplicationError::MissingTagContainer { target: entity(1) }.is_rejection());
    let from_tag: GameplayEffectApplicationError = GameplayTagError::InvalidTagIndex { index: 3 }.into();
    assert_eq!(from_tag, GameplayEffectApplicationError::GameplayTag(GameplayTagError::InvalidTagIndex { index: 3 }));
    let from_storage: GameplayEffectApplicationError = ActiveEffectStorageError::CapacityExceeded { target: entity(2) }.into();
    assert_eq!(from_storage, GameplayEffectApplicationError::ActiveEffectCapacityExceeded { target: entity(2) });
}

#[test]
fn effect_tags_builders_keep_other_rules() {
    let (_, status, burning, shield) = tags();
    let tags = EffectTags::new(vec![status], vec![burning])
        .with_remove_effects_with_tags(vec![shield])
        .with_application_requirements(TagRequirements::default(), TagRequirements::new(vec![status], vec![shield]).unwrap());
    assert_eq!(tags.get_asset_tags(), &[status]);
    assert_eq!(tags.get_granted_tags(), &[burning]);
    assert_eq!(tags.get_remove_effects_with_tags(), &[shield]);
    assert_eq!(tags.get_required_tags(), &[status]);
    assert_eq!(tags.get_blocked_tags(), &[shield]);
    assert!(tags.get_target_ongoing_tags().is_empty());
    assert!(tags.get_source_removal_tags().is_empty());
    assert!(tags.get_granted_application_immunity().is_empty());
}

#[test]
fn configured_timing_keeps_its_magnitude() {
    let period = EffectPeriodTicks::new(2.5f32, true);
    let _ = period;
    let duration: EffectDurationTicks<f32> = EffectDurationTicks::DurationTicks(3.0);
    assert!(matches!(duration, EffectDurationTicks::DurationTicks(_)));
    let spec = EffectPeriodTicksSpec::new(4, true);
    assert_eq!(spec.get_period_ticks(), 4);
    assert!(spec.get_execute_on_applied());
}

#[test]
fn diagnostics_accumulate_saturating() {
    let mut diagnostics = EffectRequirementDiagnostics::default();
    assert!(!diagnostics.is_enabled());
    diagnostics.set_enabled(true);
    assert!(diagnostics.is_enabled());
    let mut sample = EffectRequirementMetrics::default();
    sample.convergence_calls = 2;
    sample.cycles = u64::MAX;
    sample.elapsed = Duration::from_nanos(1500);
    diagnostics.record(sample);
    diagnostics.record(sample);
    assert_eq!(diagnostics.metrics().convergence_calls, 4);
    assert_eq!(diagnostics.metrics().cycles, u64::MAX);
    assert_eq!(diagnostics.metrics().elapsed_nanos(), 3000);
    diagnostics.reset();
    assert_eq!(diagnostics.metrics().convergence_calls, 0);
    assert_eq!(diagnostics.metrics().elapsed_nanos(), 0);
    assert!(diagnostics.is_enabled());
    let mut huge = EffectRequirementMetrics::default();
    huge.elapsed = Duration::MAX;
    diagnostics.record(huge);
    diagnostics.record(huge);
    assert_eq!(diagnostics.metrics().elapsed, Duration::MAX);
}

#[test]
fn stacking_policy_getters_report_settings() {
    let policy = single_stack_policy();
    assert_eq!(policy.get_stacking_type(), StackingType::AggregateByTarget);
    assert_eq!(policy.get_stack_limit(), 3);
    assert_eq!(policy.get_magnitude_policy(), StackMagnitudePolicy::Linear);
    assert_eq!(policy.get_duration_policy(), StackDurationPolicy::RefreshOnSuccessfulStack);
    assert_eq!(policy.get_period_policy(), StackPeriodPolicy::ResetOnSuccessfulStack);
    assert_eq!(policy.get_overflow_policy(), StackOverflowPolicy::RefreshDuration);
    assert_eq!(policy.get_expiration_policy(), StackExpirationPolicy::RemoveSingleStack);
    assert_eq!(policy.stack_multiplier(3), 3);
    assert_eq!(StackingPolicy::non_stacking().stack_multiplier(3), 1);
}

#[test]
fn effect_definitions_keep_their_configuration() {
    let definition = GameplayEffect::new(
        vec!["damage"],
        EffectDurationTicks::DurationTicks(2.5f32),
        Some(EffectPeriodTicks::new(1.0f32, true)),
        0.75f32,
        StackingPolicy::non_stacking(),
        EffectTags::new(vec![], vec![]),
    );
    assert_eq!(definition.get_modifiers(), &["damage"]);
    assert!(matches!(definition.get_duration(), EffectDurationTicks::DurationTicks(d) if *d == 2.5));
    assert_eq!(*definition.get_period().unwrap().get_period_magnitude(), 1.0);
    assert!(definition.get_period().unwrap().get_execute_on_applied());
    assert_eq!(*definition.get_probability_to_apply(), 0.75);
    assert_eq!(definition.get_stacking_policy(), StackingPolicy::non_stacking());
    assert!(definition.get_tags().get_granted_tags().is_empty());
    assert!(!definition.has_only_add_modifiers(|m| m.starts_with("add")));
    assert!(definition.has_only_add_modifiers(|m| *m == "damage"));
    let none: GameplayEffect<&str, f32, f32> = GameplayEffect::new(
        vec![],
        EffectDurationTicks::Instant,
        None,
        1.0,
        StackingPolicy::non_stacking(),
        EffectTags::new(vec![], vec![]),
    );
    assert!(none.has_only_add_modifiers(|_| false));
}

#[test]
fn execution_errors_classify_rejections() {
    let blocked: GameplayExecutionError<u8> =
        GameplayExecutionError::EffectApplication(GameplayEffectApplicationError::BlockedByImmunity);
    assert!(blocked.is_rejection(|_| false));
    let invalid: GameplayExecutionError<u8> =
        GameplayExecutionError::EffectApplication(GameplayEffectApplicationError::InvalidDuration);
    assert!(!invalid.is_rejection(|_| true));
    let activation: GameplayExecutionError<u8> = GameplayExecutionError::AbilityActivation(3);
    assert!(activation.is_rejection(|error| *error == 3));
    assert!(!activation.is_rejection(|error| *error == 4));
    let rejection = blocked.is_rejection(|_| false);
    assert_eq!(GameplayExecutionOutcome::from_result(Err(blocked), rejection), GameplayExecutionOutcome::Rejected(blocked));
    let rejection = invalid.is_rejection(|_| false);
    assert_eq!(GameplayExecutionOutcome::from_result(Err(invalid), rejection), GameplayExecutionOutcome::Failed(invalid));
}

#[test]
fn effect_applications_queue_in_order() {
    let mut queue: GameplayEffectApplicationQueue<GameplayEffectApplicationRequest<&str, u8>> = GameplayEffectApplicationQueue::new();
    assert!(queue.is_empty());
    queue.push_application(entity(1), "burn", 3);
    queue.push(GameplayEffectApplicationRequest::new(entity(2), "heal", 4));
    assert_eq!(queue.len(), 2);
    let first = queue.pop().unwrap();
    assert_eq!(first.get_target(), entity(1));
    assert_eq!(*first.get_effect(), "burn");
    assert_eq!(*first.get_payload(), 3);
    queue.clear();
    assert!(queue.pop().is_none());
}
