use bevy_gas::gameplay_abilities::{
    AbilityActivationContext, AbilityActivationReason, AbilityChainContext, AbilityChainError,
};
use bevy_gas::gameplay_effects::{
    create_active_effect, sorted_unique_entities, ActiveEffectHandle, ActiveGameplayEffect, ActiveGameplayEffects,
    EffectDurationTicksSpec, EffectPeriodTicksSpec, EffectStorageEntry, EffectTags, EffectWorld,
    GameplayEffectApplicationError, GameplayEffectSpec, PlanExecution,
    PeriodicExecution, StackDurationPolicy, StackExpirationPolicy, StackMagnitudePolicy,
    StackOverflowPolicy, StackPeriodPolicy, StackRefresh, StackingPolicy, StackingType, TagContainerEntry,
};
use bevy_gas::gameplay_execution::{
    GameplayExecutionOutcome, GameplayExecutionQueue, GameplayExecutionQueueError, GameplayExecutionRequest,
};
use bevy_gas::gameplay_targeting::{
    dispatch_targeting_continuation, validate_selection_order, TargetingContinuation, TargetingError, AbilityActivationTargets, AbilityActivationTargetsError, AbilityTargetData,
    AbilityTargetHit, TargetingDefinitionError, TargetingOperation, TargetingRequestQueue,
};
use bevy_gas::{AbilitySpecHandle, EntityId, GameplayTagContainer, GameplayTagManager, TagRequirements, UniqueName};

fn entity(bits: u64) -> EntityId {
    EntityId::from_bits(bits)
}

#[test]
fn execution_queue_is_fifo_with_increasing_ids() {
    let mut queue: GameplayExecutionQueue<&str> = GameplayExecutionQueue::new();
    assert!(queue.is_empty());
    let first = queue.push("activate").unwrap();
    let second = queue.push("apply").unwrap();
    assert_eq!(first.get_value(), 1);
    assert_eq!(second.get_value(), 2);
    assert_eq!(queue.len(), 2);
    assert_eq!(queue.pop(), Some((first, "activate")));
    assert_eq!(queue.pop(), Some((second, "apply")));
    assert_eq!(queue.pop(), None);
}

#[test]
fn clearing_the_queue_keeps_ids_reserved() {
    let mut queue: GameplayExecutionQueue<u32> = GameplayExecutionQueue::new();
    queue.push(10).unwrap();
    queue.push(20).unwrap();
    queue.clear();
    assert!(queue.is_empty());
    let next = queue.push(30).unwrap();
    assert_eq!(next.get_value(), 3);
}

#[test]
fn root_chains_get_increasing_ids() {
    let mut queue: GameplayExecutionQueue<u32> = GameplayExecutionQueue::new();
    let first = queue.new_root_chain(AbilitySpecHandle::new(4));
    let second = queue.new_root_chain(AbilitySpecHandle::new(5));
    assert_eq!(first.get_chain_id(), 1);
    assert_eq!(second.get_chain_id(), 2);
    assert_eq!(first.get_depth(), 0);
    assert_eq!(first.get_visited(), &[AbilitySpecHandle::new(4)]);
}

type Request = GameplayExecutionRequest<(), f32, &'static str, u8>;

#[test]
fn activations_and_applications_share_one_fifo() {
    let mut queue: GameplayExecutionQueue<Request> = GameplayExecutionQueue::new();
    let chain = queue.new_root_chain(AbilitySpecHandle::new(1));
    let context = AbilityActivationContext::direct(entity(1), chain);
    let first = queue.push_activation(entity(1), entity(2), AbilitySpecHandle::new(1), context).unwrap();
    let second = queue.push_application(entity(3), "burn", 4).unwrap();
    assert_eq!((first.get_value(), second.get_value()), (1, 2));
    match queue.pop() {
        Some((id, GameplayExecutionRequest::ActivateAbility(request))) => {
            assert_eq!(id, first);
            assert_eq!(request.get_source(), entity(1));
            assert_eq!(request.get_target(), entity(2));
            assert_eq!(request.get_handle(), AbilitySpecHandle::new(1));
            assert_eq!(request.get_context().get_reason(), AbilityActivationReason::Direct);
        }
        _ => panic!("expected the activation first"),
    }
    match queue.pop() {
        Some((id, GameplayExecutionRequest::ApplyGameplayEffect(request))) => {
            assert_eq!(id, second);
            assert_eq!(request.get_target(), entity(3));
            assert_eq!(*request.get_effect(), "burn");
            assert_eq!(*request.get_payload(), 4);
        }
        _ => panic!("expected the application second"),
    }
    assert!(queue.is_empty());
}

#[test]
fn chained_activations_extend_or_reject_the_parent_chain() {
    let mut queue: GameplayExecutionQueue<Request> = GameplayExecutionQueue::new();
    let root = AbilityChainContext::root(AbilitySpecHandle::new(1), 9);
    let parent: AbilityActivationContext<(), f32> = AbilityActivationContext::direct(entity(1), root).with_causer(Some(entity(7)));
    let id = queue
        .push_chained_activation(entity(1), entity(2), AbilitySpecHandle::new(2), entity(5), &parent)
        .unwrap();
    assert_eq!(id.get_value(), 1);
    let child = match queue.pop() {
        Some((_, GameplayExecutionRequest::ActivateAbility(request))) => request,
        _ => panic!("expected a chained activation"),
    };
    let chain = child.get_context().get_chain().unwrap();
    assert_eq!(chain.get_chain_id(), 9);
    assert_eq!(chain.get_depth(), 1);
    assert_eq!(chain.get_visited(), &[AbilitySpecHandle::new(1), AbilitySpecHandle::new(2)]);
    assert_eq!(child.get_context().get_causer(), Some(entity(7)));
    assert_eq!(child.get_context().get_reason(), AbilityActivationReason::Chained { parent_ability: entity(5) });
    assert_eq!(
        queue.push_chained_activation(entity(1), entity(2), AbilitySpecHandle::new(2), entity(5), child.get_context()),
        Err(GameplayExecutionQueueError::InvalidChain(AbilityChainError::CycleDetected {
            chain_id: 9,
            handle: AbilitySpecHandle::new(2),
        }))
    );
    let rootless: AbilityActivationContext<(), f32> = AbilityActivationContext::direct(entity(1), AbilityChainContext::root(AbilitySpecHandle::new(1), 3));
    let orphan = match rootless.child_for_chained_ability(entity(5), AbilitySpecHandle::new(1)) {
        Err(error) => error,
        Ok(_) => panic!("a chain cannot repeat its root"),
    };
    assert_eq!(orphan, AbilityChainError::CycleDetected { chain_id: 3, handle: AbilitySpecHandle::new(1) });
    assert!(queue.is_empty());
}

#[test]
fn acquired_targets_lead_with_their_first_hit() {
    let hits = vec![AbilityTargetHit::new(entity(4), 1.5f32, None), AbilityTargetHit::new(entity(2), 0.5f32, Some(1.0))];
    let data = AbilityTargetData::new(0.0f32, hits);
    assert_eq!(data.primary_entity(), Some(entity(4)));
    assert_eq!(data.entities(), vec![entity(4), entity(2)]);
    assert_eq!(data.len(), 2);
    let targets = AbilityActivationTargets::acquired(data).unwrap();
    assert_eq!(targets.get_primary_target(), entity(4));
    assert_eq!(targets.entities(), vec![entity(4), entity(2)]);
    assert_eq!(*targets.get_target_data().unwrap().get_hits()[1].get_position(), 0.5);
    let empty = AbilityTargetData::<f32>::new(0.0, vec![]);
    assert!(empty.is_empty());
    assert!(matches!(AbilityActivationTargets::acquired(empty), Err(AbilityActivationTargetsError::EmptyTargetData)));
    let single = AbilityActivationTargets::<f32>::single(entity(8));
    assert_eq!(single.entities(), vec![entity(8)]);
    assert!(single.get_target_data().is_none());
}

#[test]
fn targeting_pipelines_start_with_their_only_selection() {
    assert_eq!(validate_selection_order::<f32>(&[]), Err(TargetingDefinitionError::EmptyOperations));
    assert_eq!(validate_selection_order::<f32>(&[TargetingOperation::FilterSource, TargetingOperation::SelectSelf]), Err(TargetingDefinitionError::SelectionMustBeFirst));
    assert_eq!(
        validate_selection_order(&[TargetingOperation::SelectSphere { radius: 2.0f32 }, TargetingOperation::Limit { count: 1 }, TargetingOperation::SelectSelf]),
        Err(TargetingDefinitionError::MultipleSelections)
    );
    assert_eq!(
        validate_selection_order(&[TargetingOperation::SelectCone { radius: 2.0f32, half_angle_radians: 0.5 }, TargetingOperation::FilterSource, TargetingOperation::Limit { count: 1 }]),
        Ok(())
    );
    assert!(TargetingOperation::<f32>::SelectExplicitEntity.is_selection());
    assert!(!TargetingOperation::<f32>::RequireAttributeSet.is_selection());
}

#[test]
fn outcomes_classify_errors() {
    assert_eq!(GameplayExecutionOutcome::<u8>::from_result(Ok(()), true), GameplayExecutionOutcome::Succeeded);
    assert_eq!(GameplayExecutionOutcome::from_result(Err(3u8), true), GameplayExecutionOutcome::Rejected(3));
    assert_eq!(GameplayExecutionOutcome::from_result(Err(3u8), false), GameplayExecutionOutcome::Failed(3));
}

#[test]
fn targeting_queue_is_fifo() {
    let mut queue: TargetingRequestQueue<char> = TargetingRequestQueue::new();
    let a = queue.push_request('a');
    let b = queue.push_request('b');
    assert_eq!(a.get_value(), 1);
    assert_eq!(b.get_value(), 2);
    assert_eq!(queue.len(), 2);
    assert_eq!(queue.pop(), Some((a, 'a')));
    queue.clear();
    assert!(queue.is_empty());
    assert_eq!(queue.push_request('c').get_value(), 3);
}

#[test]
fn entities_are_sorted_without_repetition() {
    let unique = sorted_unique_entities(&[entity(5), entity(2), entity(5), entity(1)]);
    assert_eq!(unique, vec![entity(1), entity(2), entity(5)]);
}

fn shielded_world() -> (EffectWorld, GameplayTagManager, ActiveEffectHandle) {
    let mut manager = GameplayTagManager::new();
    let shield = manager.register_tag_internal(UniqueName::new(1), None).unwrap();
    let target = entity(2);
    let effect_tags = EffectTags::new(vec![], vec![])
        .with_ongoing_requirements(TagRequirements::default(), TagRequirements::new(vec![], vec![shield]).unwrap());
    let spec = GameplayEffectSpec::new(
        1,
        effect_tags,
        StackingPolicy::non_stacking(),
        EffectDurationTicksSpec::DurationTicks(3),
        None,
        0,
    );
    let mut effects = ActiveGameplayEffects::new();
    let handle = effects.insert(target, ActiveGameplayEffect::new(spec, target, target)).unwrap();
    let mut tags = GameplayTagContainer::default();
    tags.add_tag(&shield, &manager).unwrap();
    let world = EffectWorld {
        storages: vec![EffectStorageEntry { entity: target, effects }],
        containers: vec![TagContainerEntry { entity: target, tags }],
        attribute_holders: vec![target],
    };
    (world, manager, handle)
}

#[test]
fn a_requirement_pass_inhibits_effects_whose_ongoing_tags_fail() {
    let (mut world, manager, handle) = shielded_world();
    assert_eq!(world.effect_targets(), vec![entity(2)]);
    assert!(world.has_attribute_set(entity(2)));
    assert!(!world.has_attribute_set(entity(3)));
    let changed = world.resolve_tag_requirement_pass(&manager);
    assert_eq!(changed, vec![handle]);
    assert!(world.storages[0].effects.get(handle).unwrap().is_inhibited());
    let again = world.resolve_tag_requirement_pass(&manager);
    assert!(again.is_empty());
}

#[test]
fn requirements_resolve_to_a_fixed_point() {
    let (mut world, manager, handle) = shielded_world();
    world.resolve_active_effect_tag_requirements(&manager);
    assert!(world.storages[0].effects.get(handle).unwrap().is_inhibited());
    assert!(world.resolve_tag_requirement_pass(&manager).is_empty());
    let signature = world.requirement_state_signature(&manager);
    assert_eq!(signature.len(), 1);
    assert_eq!(signature[0].handle, handle);
    assert!(signature[0].inhibited);
}

#[test]
fn world_ticks_expire_effects_and_release_nothing_else() {
    let (mut world, manager, handle) = shielded_world();
    assert!(world.tick_effect_durations(&manager).is_empty());
    assert!(world.tick_effect_durations(&manager).is_empty());
    assert!(world.storages[0].effects.get(handle).is_some());
    world.tick_effect_durations(&manager);
    assert!(world.storages[0].effects.get(handle).is_none());
    assert!(world.tick_effect_periods(&manager).is_empty());
    assert!(world.tags_of(entity(2)).is_some());
    assert!(world.tags_of(entity(9)).is_none());
}

#[test]
fn world_ticks_report_refreshes_and_periodic_executions() {
    let manager = GameplayTagManager::new();
    let target = entity(6);
    let stacking = StackingPolicy::new(
        StackingType::AggregateByTarget,
        3,
        StackMagnitudePolicy::Linear,
        StackDurationPolicy::RefreshOnSuccessfulStack,
        StackPeriodPolicy::ResetOnSuccessfulStack,
        StackOverflowPolicy::RefreshDuration,
        StackExpirationPolicy::RemoveSingleStack,
    );
    let stacked = GameplayEffectSpec::new(1, EffectTags::new(vec![], vec![]), stacking, EffectDurationTicksSpec::DurationTicks(1), None, 2);
    let periodic = GameplayEffectSpec::new(
        2,
        EffectTags::new(vec![], vec![]),
        StackingPolicy::non_stacking(),
        EffectDurationTicksSpec::Infinite,
        Some(EffectPeriodTicksSpec::new(1, false)),
        1,
    );
    let mut effects = ActiveGameplayEffects::new();
    let mut first = ActiveGameplayEffect::new(stacked, target, target);
    first.set_stack_count(2);
    let stacked_handle = effects.insert(target, first).unwrap();
    let periodic_handle = effects.insert(target, ActiveGameplayEffect::new(periodic, target, target)).unwrap();
    let mut world = EffectWorld {
        storages: vec![EffectStorageEntry { entity: target, effects }],
        containers: vec![],
        attribute_holders: vec![target],
    };
    let refreshed = world.tick_effect_durations(&manager);
    assert_eq!(refreshed, vec![StackRefresh { handle: stacked_handle, stack_count: 1 }]);
    let executions = world.tick_effect_periods(&manager);
    assert_eq!(executions, vec![PeriodicExecution { handle: periodic_handle, stack_count: 1 }]);
}

#[test]
fn cycling_requirements_remove_the_effects_that_cycle() {
    let mut manager = GameplayTagManager::new();
    let marked = manager.register_tag_internal(UniqueName::new(1), None).unwrap();
    let target = entity(3);
    let effect_tags = EffectTags::new(vec![], vec![marked])
        .with_ongoing_requirements(TagRequirements::default(), TagRequirements::new(vec![], vec![marked]).unwrap());
    let spec = GameplayEffectSpec::new(1, effect_tags, StackingPolicy::non_stacking(), EffectDurationTicksSpec::Infinite, None, 0);
    let mut effects = ActiveGameplayEffects::new();
    let mut tags = Some(GameplayTagContainer::default());
    let handle = create_active_effect(&mut effects, target, target, spec, &mut tags, &manager).unwrap();
    let tags = tags.unwrap();
    assert!(tags.has_tag(&marked));
    let mut world = EffectWorld {
        storages: vec![EffectStorageEntry { entity: target, effects }],
        containers: vec![TagContainerEntry { entity: target, tags }],
        attribute_holders: vec![],
    };
    world.resolve_active_effect_tag_requirements(&manager);
    assert!(world.storages[0].effects.get(handle).is_none());
    assert!(world.storages[0].effects.is_empty());
    assert!(!world.tags_of(target).unwrap().has_tag(&marked));
}

#[test]
fn successful_targeting_queues_its_activation() {
    let mut queue: GameplayExecutionQueue<Request> = GameplayExecutionQueue::new();
    let chain = queue.new_root_chain(AbilitySpecHandle::new(3));
    let context: AbilityActivationContext<(), f32> = AbilityActivationContext::direct(entity(1), chain);
    let data = AbilityTargetData::new(0.0f32, vec![AbilityTargetHit::new(entity(7), 1.0f32, None)]);
    let queued = dispatch_targeting_continuation(
        entity(1),
        &Ok(data),
        TargetingContinuation::activate_ability(AbilitySpecHandle::new(3), context),
        &mut queue,
    );
    assert!(matches!(queued, Some(Ok(_))));
    match queue.pop() {
        Some((_, GameplayExecutionRequest::ActivateAbility(request))) => {
            assert_eq!(request.get_source(), entity(1));
            assert_eq!(request.get_target(), entity(7));
            assert_eq!(request.get_handle(), AbilitySpecHandle::new(3));
            let attached = request.get_context().get_target_data().unwrap();
            assert_eq!(attached.entities(), vec![entity(7)]);
            assert_eq!(*attached.get_origin(), 0.0f32);
            assert_eq!(*attached.get_hits()[0].get_position(), 1.0f32);
        }
        _ => panic!("expected the activation"),
    }
    let failed: Result<AbilityTargetData<f32>, TargetingError> = Err(TargetingError::NoTargetsFound);
    let chain = queue.new_root_chain(AbilitySpecHandle::new(3));
    let context: AbilityActivationContext<(), f32> = AbilityActivationContext::direct(entity(1), chain);
    let nothing = dispatch_targeting_continuation(
        entity(1),
        &failed,
        TargetingContinuation::activate_ability(AbilitySpecHandle::new(3), context),
        &mut queue,
    );
    assert!(nothing.is_none());
    assert!(queue.is_empty());
}

#[test]
fn applying_effects_to_a_world_grants_their_tags() {
    let mut manager = GameplayTagManager::new();
    let burning = manager.register_tag_internal(UniqueName::new(1), None).unwrap();
    let target = entity(3);
    let bare = entity(4);
    let mut world = EffectWorld {
        storages: vec![EffectStorageEntry { entity: target, effects: ActiveGameplayEffects::new() }],
        containers: vec![TagContainerEntry { entity: target, tags: GameplayTagContainer::default() }],
        attribute_holders: vec![],
    };
    let burn = || {
        GameplayEffectSpec::new(
            7,
            EffectTags::new(vec![], vec![burning]),
            StackingPolicy::non_stacking(),
            EffectDurationTicksSpec::DurationTicks(2),
            None,
            0,
        )
    };
    let incoming = EffectTags::new(vec![], vec![burning]);

    let rejected = world.apply_gameplay_effect_in_batch(target, target, &incoming, burn(), false, &manager);
    assert_eq!(rejected, Err(GameplayEffectApplicationError::ProbabilityRejected));
    assert!(world.storages[0].effects.is_empty());

    let missing = world.apply_gameplay_effect(bare, bare, &incoming, burn(), true, &manager);
    assert_eq!(missing, Err(GameplayEffectApplicationError::MissingActiveGameplayEffects { target: bare }));

    let created = world.apply_gameplay_effect(target, target, &incoming, burn(), true, &manager);
    let handle = match created {
        Ok(PlanExecution::Created { handle, execute_on_applied }) => {
            assert!(!execute_on_applied);
            handle
        }
        other => panic!("expected a new effect, got {other:?}"),
    };
    assert_eq!(world.storages[0].effects.get(handle).unwrap().get_spec().get_def_id(), 7);
    assert!(world.tags_of(target).unwrap().has_tag(&burning));

    let instant = GameplayEffectSpec::new(
        8,
        EffectTags::new(vec![], vec![]),
        StackingPolicy::non_stacking(),
        EffectDurationTicksSpec::Instant,
        None,
        0,
    );
    let applied = world.apply_gameplay_effect(bare, target, &EffectTags::new(vec![], vec![]), instant, true, &manager);
    assert_eq!(applied, Ok(PlanExecution::Instant));
    assert_eq!(world.storages[0].effects.len(), 1);
}

#[test]
fn expiring_effects_release_their_granted_tags() {
    let mut manager = GameplayTagManager::new();
    let burning = manager.register_tag_internal(UniqueName::new(1), None).unwrap();
    let target = entity(3);
    let mut world = EffectWorld {
        storages: vec![EffectStorageEntry { entity: target, effects: ActiveGameplayEffects::new() }],
        containers: vec![TagContainerEntry { entity: target, tags: GameplayTagContainer::default() }],
        attribute_holders: vec![],
    };
    let spec = GameplayEffectSpec::new(
        9,
        EffectTags::new(vec![], vec![burning]),
        StackingPolicy::non_stacking(),
        EffectDurationTicksSpec::DurationTicks(1),
        None,
        0,
    );
    let applied = world.apply_gameplay_effect_in_batch(target, target, &EffectTags::new(vec![], vec![]), spec, true, &manager);
    assert!(matches!(applied, Ok(PlanExecution::Created { .. })));
    assert!(world.tags_of(target).unwrap().has_tag(&burning));
    world.tick_effect_durations(&manager);
    assert!(world.storages[0].effects.is_empty());
    assert!(!world.tags_of(target).unwrap().has_tag(&burning));
}
