use bevy_gas::gameplay_abilities::{
    plan_ability_task_completion, AbilityActivationContext, AbilityActivationReason,
    AbilityActivationStatus, AbilityChainContext, AbilityChainError, AbilityTags, AbilityTask,
    AbilityTaskAction, AbilityTaskCompletion, AbilityTaskDef, AbilityTaskExecutionContext,
    AbilityTaskKind, AbilityTaskOnFinished, AbilityTaskOnFinishedDef, AdditionalCost,
    AdditionalCostError,
};
use bevy_gas::gameplay_abilities::{
    advance_ability_task, dispatch_ability_task_completion, AbilityTaskEvent, AbilityTaskStep, ActiveGameplayAbility,
    GameplayAbility,
};
use bevy_gas::gameplay_effects::EffectPayload;
use bevy_gas::gameplay_execution::{GameplayExecutionQueue, GameplayExecutionRequest};
use bevy_gas::gameplay_targeting::{AbilityActivationTargets, AbilityTargetData, AbilityTargetHit};
use bevy_gas::{AbilitySpecHandle, EntityId, GameplayAbilitySystemSettings, GameplayTagManager, UniqueName};
use std::borrow::Cow;

fn handle(value: u64) -> AbilitySpecHandle {
    AbilitySpecHandle::new(value)
}

#[test]
fn root_chains_start_at_depth_zero() {
    let chain = AbilityChainContext::root(handle(1), 42);
    assert_eq!(chain.get_chain_id(), 42);
    assert_eq!(chain.get_depth(), 0);
    assert_eq!(chain.get_visited(), &[handle(1)]);
    assert_eq!(chain.validate_for_handle(handle(1)), Ok(()));
}

#[test]
fn chains_grow_and_validate() {
    let chain = AbilityChainContext::root(handle(1), 7).next(handle(2)).unwrap();
    assert_eq!(chain.get_depth(), 1);
    assert_eq!(chain.get_visited(), &[handle(1), handle(2)]);
    assert_eq!(chain.validate_for_handle(handle(2)), Ok(()));
    assert_eq!(
        chain.validate_for_handle(handle(3)),
        Err(AbilityChainError::HandleMismatch { chain_id: 7, expected: handle(2), actual: handle(3) })
    );
}

#[test]
fn chains_reject_repeated_abilities() {
    let chain = AbilityChainContext::root(handle(1), 7).next(handle(2)).unwrap();
    assert_eq!(chain.next(handle(1)).err(), Some(AbilityChainError::CycleDetected { chain_id: 7, handle: handle(1) }));
}

#[test]
fn chains_reject_excess_depth() {
    let mut chain = AbilityChainContext::root(handle(0), 9);
    for value in 1..=u64::from(GameplayAbilitySystemSettings::ABILITY_CHAIN_MAX_DEPTH) {
        chain = chain.next(handle(value)).unwrap();
    }
    assert_eq!(chain.get_depth(), GameplayAbilitySystemSettings::ABILITY_CHAIN_MAX_DEPTH);
    assert_eq!(
        chain.next(handle(100)).err(),
        Some(AbilityChainError::DepthExceeded { chain_id: 9, max_depth: AbilityChainContext::MAX_DEPTH })
    );
}

#[test]
fn chain_copies_are_equal() {
    let chain = AbilityChainContext::root(handle(1), 3).next(handle(4)).unwrap();
    let copy = chain.clone();
    assert_eq!(copy.get_visited(), chain.get_visited());
    assert_eq!(copy.get_depth(), chain.get_depth());
}

#[test]
fn additional_costs_need_positive_amounts() {
    let cost = AdditionalCost::new(UniqueName::new(5), 3).unwrap();
    assert_eq!(cost.resource(), UniqueName::new(5));
    assert_eq!(cost.amount(), 3);
    assert_eq!(AdditionalCost::new(UniqueName::new(5), 0).err(), Some(AdditionalCostError::InvalidAmount));
}

#[test]
fn additional_cost_rejections_are_classified() {
    assert!(AdditionalCostError::InsufficientResource { resource: UniqueName::new(1), required: 3, available: 1 }.is_rejection());
    assert!(AdditionalCostError::Rejected { reason: Cow::Borrowed("locked") }.is_rejection());
    assert!(!AdditionalCostError::MissingProvider.is_rejection());
    assert!(!AdditionalCostError::ProviderFailure { reason: Cow::Borrowed("broken") }.is_rejection());
}

#[test]
fn ability_tags_builders_replace_one_group() {
    let mut manager = GameplayTagManager::new();
    let a = manager.register_tag_internal(UniqueName::new(1), None).unwrap();
    let b = manager.register_tag_internal(UniqueName::new(2), None).unwrap();
    let tags = AbilityTags::default()
        .with_ability_asset_tags(vec![a])
        .with_activation_blocked_tags(vec![b])
        .with_cancel_abilities_with_tags(vec![a, b]);
    assert_eq!(tags.get_ability_asset_tags(), &[a]);
    assert_eq!(tags.get_activation_blocked_tags(), &[b]);
    assert_eq!(tags.get_cancel_abilities_with_tags(), &[a, b]);
    assert!(tags.get_block_abilities_with_tags().is_empty());
    assert!(tags.get_activation_required_tags().is_empty());
    let full = AbilityTags::new(vec![a], vec![], vec![b], vec![a], vec![]);
    assert_eq!(full.get_block_abilities_with_tags(), &[b]);
    assert_eq!(full.get_activation_required_tags(), &[a]);
}

#[test]
fn waiting_tasks_finish_after_their_ticks() {
    let context = AbilityTaskExecutionContext::new(EntityId::from_bits(1), handle(2), 3);
    let mut task: AbilityTask<u32> = AbilityTask::wait_ticks(EntityId::from_bits(9), context, 2, AbilityTaskOnFinished::EndAbility);
    assert!(!task.tick());
    assert_eq!(task.get_kind(), AbilityTaskKind::WaitTicks { remaining_ticks: 1 });
    assert!(task.tick());
    assert_eq!(task.get_active_ability(), EntityId::from_bits(9));
    assert_eq!(task.get_context().get_level(), 3);
    assert_eq!(task.get_context().get_source(), EntityId::from_bits(1));
    assert_eq!(task.get_context().get_spec_handle(), handle(2));
    let mut instant: AbilityTask<u32> = AbilityTask::instant(EntityId::from_bits(9), context, AbilityTaskOnFinished::DoNothing);
    assert!(instant.tick());
}

#[test]
fn task_definitions_instantiate_their_actions() {
    let context = AbilityTaskExecutionContext::new(EntityId::from_bits(1), handle(2), 3);
    let def: AbilityTaskDef<u32> = AbilityTaskDef::wait_ticks(4, AbilityTaskOnFinishedDef::ApplyGameplayEffectToTarget { effect: 17 });
    let task = def.instantiate(EntityId::from_bits(5), context);
    assert_eq!(task.get_kind(), AbilityTaskKind::WaitTicks { remaining_ticks: 4 });
    assert!(matches!(task.get_on_finished(), AbilityTaskOnFinished::ApplyGameplayEffect { effect: 17 }));
    let instant: AbilityTaskDef<u32> = AbilityTaskDef::instant(AbilityTaskOnFinishedDef::EmitEvent { event_id: UniqueName::new(8) });
    let task = instant.instantiate(EntityId::from_bits(5), context);
    assert_eq!(task.get_kind(), AbilityTaskKind::Instant);
    assert!(matches!(task.get_on_finished(), AbilityTaskOnFinished::EmitEvent { .. }));
}

#[test]
fn batches_stop_after_ending_the_ability() {
    let on_finished: AbilityTaskOnFinished<u32> = AbilityTaskOnFinished::Batch {
        actions: vec![
            AbilityTaskOnFinished::EmitEvent { event_id: UniqueName::new(1) },
            AbilityTaskOnFinished::Batch {
                actions: vec![AbilityTaskOnFinished::ApplyGameplayEffect { effect: 5 }, AbilityTaskOnFinished::EndAbility],
            },
            AbilityTaskOnFinished::ActivateAbility { handle: handle(3) },
        ],
    };
    let (actions, completion) = plan_ability_task_completion(on_finished);
    assert_eq!(completion, AbilityTaskCompletion::EndAbility);
    assert_eq!(actions.len(), 2);
    assert!(matches!(actions[0], AbilityTaskAction::EmitEvent { .. }));
    assert!(matches!(actions[1], AbilityTaskAction::ApplyGameplayEffect { effect: 5 }));
}

#[test]
fn plain_actions_continue_the_ability() {
    let (actions, completion) = plan_ability_task_completion::<u32>(AbilityTaskOnFinished::ActivateAbility { handle: handle(3) });
    assert_eq!(completion, AbilityTaskCompletion::Continue);
    assert_eq!(actions.len(), 1);
    let (actions, completion) = plan_ability_task_completion::<u32>(AbilityTaskOnFinished::DoNothing);
    assert_eq!(completion, AbilityTaskCompletion::Continue);
    assert!(actions.is_empty());
}

#[test]
fn activation_contexts_carry_their_metadata() {
    let chain = AbilityChainContext::root(handle(1), 5);
    let context: AbilityActivationContext<u8, ()> = AbilityActivationContext::direct(EntityId::from_bits(1), chain)
        .with_causer(Some(EntityId::from_bits(2)))
        .with_instigator(EntityId::from_bits(3))
        .with_source_snapshot(9);
    assert_eq!(context.get_reason(), AbilityActivationReason::Direct);
    assert_eq!(context.get_instigator(), EntityId::from_bits(3));
    assert_eq!(context.get_causer(), Some(EntityId::from_bits(2)));
    assert_eq!(context.get_source_snapshot(), Some(&9));
    assert_eq!(context.get_chain().unwrap().get_chain_id(), 5);
    let input: AbilityActivationContext<u8, ()> = AbilityActivationContext::input(EntityId::from_bits(1), AbilityChainContext::root(handle(1), 6));
    assert_eq!(input.get_reason(), AbilityActivationReason::Input);
    assert_eq!(input.get_instigator(), EntityId::from_bits(1));
}

#[test]
fn chained_contexts_extend_the_chain() {
    let context: AbilityActivationContext<u8, ()> =
        AbilityActivationContext::direct(EntityId::from_bits(1), AbilityChainContext::root(handle(1), 5)).with_source_snapshot(4);
    let child = context.child_for_chained_ability(EntityId::from_bits(77), handle(2)).unwrap();
    assert_eq!(child.get_reason(), AbilityActivationReason::Chained { parent_ability: EntityId::from_bits(77) });
    assert_eq!(child.get_chain().unwrap().get_depth(), 1);
    assert_eq!(child.get_source_snapshot(), Some(&4));
    assert_eq!(
        child.child_for_chained_ability(EntityId::from_bits(78), handle(1)).err(),
        Some(AbilityChainError::CycleDetected { chain_id: 5, handle: handle(1) })
    );
}

#[test]
fn activation_status_values_are_distinct() {
    assert_ne!(AbilityActivationStatus::Active, AbilityActivationStatus::Ending);
    assert_ne!(AbilityActivationStatus::Ending, AbilityActivationStatus::Cancelled);
}

#[test]
fn task_completions_queue_their_follow_up_requests() {
    let owner = EntityId::from_bits(1);
    let mut queue: GameplayExecutionQueue<GameplayExecutionRequest<(), (), &'static str, EffectPayload<()>>> =
        GameplayExecutionQueue::new();
    let chain = queue.new_root_chain(handle(10));
    let active_context: AbilityActivationContext<(), ()> = AbilityActivationContext::direct(owner, chain);
    let targets = AbilityActivationTargets::acquired(AbilityTargetData::new(
        (),
        vec![AbilityTargetHit::new(EntityId::from_bits(4), (), None), AbilityTargetHit::new(EntityId::from_bits(5), (), None)],
    ))
    .unwrap();
    let context = AbilityTaskExecutionContext::new(owner, handle(10), 3);
    let on_finished = AbilityTaskOnFinished::Batch {
        actions: vec![
            AbilityTaskOnFinished::EmitEvent { event_id: UniqueName::new(7) },
            AbilityTaskOnFinished::ApplyGameplayEffectToTargets { effect: "burn" },
            AbilityTaskOnFinished::ActivateAbility { handle: handle(11) },
            AbilityTaskOnFinished::ActivateAbility { handle: handle(10) },
            AbilityTaskOnFinished::EndAbility,
            AbilityTaskOnFinished::ApplyGameplayEffect { effect: "never" },
        ],
    };
    let active = EntityId::from_bits(9);
    let (events, completion) =
        dispatch_ability_task_completion(active, context, on_finished, &targets, &active_context, &mut queue);
    assert_eq!(events, vec![UniqueName::new(7)]);
    assert_eq!(completion, AbilityTaskCompletion::EndAbility);
    assert_eq!(queue.len(), 3);
    for expected in [4, 5] {
        match queue.pop() {
            Some((_, GameplayExecutionRequest::ApplyGameplayEffect(request))) => {
                assert_eq!(request.get_target(), EntityId::from_bits(expected));
                assert_eq!(*request.get_effect(), "burn");
                assert_eq!(request.get_payload().get_source(), owner);
                assert_eq!(request.get_payload().get_level(), 3);
                assert_eq!(request.get_payload().get_instigator(), owner);
            }
            _ => panic!("expected an effect application"),
        }
    }
    match queue.pop() {
        Some((_, GameplayExecutionRequest::ActivateAbility(request))) => {
            assert_eq!(request.get_handle(), handle(11));
            assert_eq!(request.get_target(), EntityId::from_bits(4));
            assert_eq!(request.get_context().get_reason(), AbilityActivationReason::Chained { parent_ability: active });
        }
        _ => panic!("expected a chained activation"),
    }

    let event = AbilityTaskEvent::new(context, AbilityActivationTargets::<()>::single(owner), active, UniqueName::new(7));
    assert_eq!(event.get_target(), owner);
    assert_eq!(event.get_level(), 3);
    assert_eq!(event.get_spec_handle(), handle(10));

    let mut ability = ActiveGameplayAbility::new(owner, handle(10), targets, AbilityActivationStatus::Active, active_context);
    assert_eq!(ability.get_target(), EntityId::from_bits(4));
    assert_eq!(ability.get_chain().unwrap().get_chain_id(), 1);
    ability.set_status(AbilityActivationStatus::Ending);
    assert_eq!(ability.get_status(), AbilityActivationStatus::Ending);
    assert_eq!(ability.get_source(), owner);
}

#[test]
fn ability_definitions_default_to_a_single_plain_instance() {
    let ability: GameplayAbility<&'static str> = GameplayAbility::default();
    assert!(ability.get_startup_tasks().is_empty());
    assert!(ability.get_cooldown().is_none());
    assert!(ability.get_cost().is_none());
    assert!(!ability.allow_multiple_instances());
    let configured = ability
        .with_cooldown("cooldown")
        .with_cost("cost")
        .with_allow_multiple_instances(true)
        .with_startup_tasks(vec![AbilityTaskDef::instant(AbilityTaskOnFinishedDef::EndAbility)]);
    assert_eq!(configured.get_cooldown(), Some(&"cooldown"));
    assert_eq!(configured.get_cost(), Some(&"cost"));
    assert!(configured.allow_multiple_instances());
    assert_eq!(configured.get_startup_tasks().len(), 1);
    let explicit = GameplayAbility::new(AbilityTags::default(), vec![], None, Some("cost"), false);
    assert_eq!(explicit.get_cost(), Some(&"cost"));
    assert!(explicit.get_tags().get_activation_required_tags().is_empty());
}

#[test]
fn ticking_tasks_waits_finishes_or_discards() {
    let owner = EntityId::from_bits(1);
    let mut queue: GameplayExecutionQueue<GameplayExecutionRequest<(), (), &'static str, EffectPayload<()>>> =
        GameplayExecutionQueue::new();
    let chain = queue.new_root_chain(handle(10));
    let active_context: AbilityActivationContext<(), ()> = AbilityActivationContext::direct(owner, chain);
    let targets = AbilityActivationTargets::<()>::single(EntityId::from_bits(6));
    let mut ability = ActiveGameplayAbility::new(owner, handle(10), targets, AbilityActivationStatus::Active, active_context);
    let context = AbilityTaskExecutionContext::new(owner, handle(10), 2);
    let active = EntityId::from_bits(9);
    let on_finished = AbilityTaskOnFinished::Batch {
        actions: vec![
            AbilityTaskOnFinished::EmitEvent { event_id: UniqueName::new(3) },
            AbilityTaskOnFinished::ApplyGameplayEffect { effect: "slow" },
            AbilityTaskOnFinished::EndAbility,
        ],
    };
    let task = AbilityTask::wait_ticks(active, context, 2, on_finished);

    assert!(matches!(advance_ability_task::<(), (), &str>(task.clone(), None, &mut queue), AbilityTaskStep::Discard));
    assert_eq!(queue.len(), 0);

    let task = match advance_ability_task(task, Some(&ability), &mut queue) {
        AbilityTaskStep::Wait(after) => after,
        _ => panic!("the first tick leaves one tick to wait"),
    };
    assert_eq!(task.get_kind(), AbilityTaskKind::WaitTicks { remaining_ticks: 1 });
    assert_eq!(queue.len(), 0);

    match advance_ability_task(task.clone(), Some(&ability), &mut queue) {
        AbilityTaskStep::Finish { events, completion } => {
            assert_eq!(events, vec![UniqueName::new(3)]);
            assert_eq!(completion, AbilityTaskCompletion::EndAbility);
        }
        _ => panic!("the second tick finishes the task"),
    }
    assert_eq!(queue.len(), 1);
    match queue.pop() {
        Some((_, GameplayExecutionRequest::ApplyGameplayEffect(request))) => {
            assert_eq!(request.get_target(), EntityId::from_bits(6));
            assert_eq!(*request.get_effect(), "slow");
            assert_eq!(request.get_payload().get_level(), 2);
        }
        _ => panic!("expected an effect application"),
    }

    ability.set_status(AbilityActivationStatus::Cancelled);
    assert!(matches!(advance_ability_task(task, Some(&ability), &mut queue), AbilityTaskStep::Discard));
    assert_eq!(queue.len(), 0);
}

#[test]
fn chained_contexts_copy_their_target_data() {
    let data = AbilityTargetData::new(1u8, vec![AbilityTargetHit::new(EntityId::from_bits(4), 2u8, Some(3u8))]);
    let copy = data.clone();
    assert_eq!(copy, data);
    let context: AbilityActivationContext<(), u8> =
        AbilityActivationContext::direct(EntityId::from_bits(1), AbilityChainContext::root(handle(1), 5)).with_target_data(copy);
    assert_eq!(context.get_target_data(), Some(&data));
    let child = context.child_for_chained_ability(EntityId::from_bits(9), handle(2)).unwrap();
    assert_eq!(child.get_target_data(), Some(&data));
    assert_eq!(child.get_instigator(), EntityId::from_bits(1));
    let plain: AbilityActivationContext<(), u8> =
        AbilityActivationContext::input(EntityId::from_bits(1), AbilityChainContext::root(handle(1), 6));
    assert!(plain.get_target_data().is_none());
}

#[test]
fn completion_actions_copy_every_member() {
    let on_finished: AbilityTaskOnFinished<u32> = AbilityTaskOnFinished::Batch {
        actions: vec![
            AbilityTaskOnFinished::EmitEvent { event_id: UniqueName::new(2) },
            AbilityTaskOnFinished::ApplyGameplayEffect { effect: 9 },
            AbilityTaskOnFinished::EndAbility,
        ],
    };
    let (actions, completion) = plan_ability_task_completion(on_finished.clone());
    assert_eq!(completion, AbilityTaskCompletion::EndAbility);
    assert_eq!(actions.len(), 2);
    assert!(matches!(actions[1], AbilityTaskAction::ApplyGameplayEffect { effect: 9 }));
    match on_finished.clone() {
        AbilityTaskOnFinished::Batch { actions } => assert_eq!(actions.len(), 3),
        _ => panic!("a batch copies to a batch"),
    }
}
