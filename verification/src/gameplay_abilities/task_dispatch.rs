use super::{
    batch_plan, chain_extension, chained_from, completion_plan, plan_ability_task_completion, AbilityActivationContext, AbilityActivationStatus,
    AbilityTask, AbilityTaskAction, AbilityTaskCompletion, AbilityTaskExecutionContext, AbilityTaskKind,
    AbilityTaskOnFinished, ActiveGameplayAbility,
};
use crate::gameplay_effects::{effect_payload_from_ability_context, payload_from_context, EffectPayload};
use crate::gameplay_execution::{GameplayExecutionQueue, GameplayExecutionRequest};
use crate::gameplay_targeting::AbilityActivationTargets;
use crate::identifiers::{AbilitySpecHandle, EntityId, UniqueName};
use vstd::prelude::*;

verus! {

/// Event emitted by a finished ability task, with target positions of type `V`.
#[derive(Debug, Clone, PartialEq)]
pub struct AbilityTaskEvent<V> {
    context: AbilityTaskExecutionContext,
    targets: AbilityActivationTargets<V>,
    active_ability: EntityId,
    event_id: UniqueName,
}

impl<V> AbilityTaskEvent<V> {
    /// The task's shared execution context.
    pub closed spec fn context(self) -> AbilityTaskExecutionContext {
        self.context
    }

    /// The target selection inherited from the ability activation.
    pub closed spec fn targets(self) -> AbilityActivationTargets<V> {
        self.targets
    }

    /// The active ability instance that owned the task.
    pub closed spec fn active_ability(self) -> EntityId {
        self.active_ability
    }

    /// The event identifier supplied by the completion action.
    pub closed spec fn event_id(self) -> UniqueName {
        self.event_id
    }

    /// Creates an ability task event from the task's shared execution context.
    pub fn new(
        context: AbilityTaskExecutionContext,
        targets: AbilityActivationTargets<V>,
        active_ability: EntityId,
        event_id: UniqueName,
    ) -> (event: Self)
        ensures
            event.context() == context,
            event.targets() == targets,
            event.active_ability() == active_ability,
            event.event_id() == event_id,
    {
        AbilityTaskEvent { context, targets, active_ability, event_id }
    }

    /// Returns the task's shared execution context.
    pub fn get_context(&self) -> (context: &AbilityTaskExecutionContext)
        ensures
            *context == self.context(),
    {
        &self.context
    }

    /// Returns the ability owner that started the task.
    pub fn get_source(&self) -> (source: EntityId)
        ensures
            source == self.context().source(),
    {
        self.context.get_source()
    }

    /// Returns the complete target selection inherited from the ability activation.
    pub fn get_targets(&self) -> (targets: &AbilityActivationTargets<V>)
        ensures
            *targets == self.targets(),
    {
        &self.targets
    }

    /// Returns the primary target inherited from the ability activation.
    pub fn get_target(&self) -> (target: EntityId)
        ensures
            target == self.targets().primary(),
    {
        self.targets.get_primary_target()
    }

    /// Returns the active ability instance that owned the task.
    pub fn get_active_ability(&self) -> (active_ability: EntityId)
        ensures
            active_ability == self.active_ability(),
    {
        self.active_ability
    }

    /// Returns the granted ability handle that owns the task.
    pub fn get_spec_handle(&self) -> (handle: AbilitySpecHandle)
        ensures
            handle == self.context().spec_handle(),
    {
        self.context.get_spec_handle()
    }

    /// Returns the event identifier supplied by the completion action.
    pub fn get_event_id(&self) -> (event_id: UniqueName)
        ensures
            event_id == self.event_id(),
    {
        self.event_id
    }

    /// Returns the captured ability level.
    pub fn get_level(&self) -> (level: u32)
        ensures
            level == self.context().level(),
    {
        self.context.get_level()
    }
}

/// What a completion action queues: a chained activation, or an application of an effect of
/// type `E`.
pub enum QueuedRequest<E> {
    /// A chained activation of `handle` from `source` against `target`.
    Activation { source: EntityId, target: EntityId, handle: AbilitySpecHandle },
    /// An application of a copy of `effect` to `target`, on behalf of `source` at `level`.
    Application { target: EntityId, source: EntityId, level: u32, effect: E },
}

/// The queued request `r` is the one that `wanted` describes, for a task of the active ability
/// `active_ability` whose activation context is `active_context`: a chained activation carries
/// the context chained from `active_context`, and an application carries a copy of the effect
/// and the payload built from `active_context`.
pub open spec fn request_matches<S: Clone, V: Clone, E: Clone>(
    r: GameplayExecutionRequest<S, V, E, EffectPayload<S>>,
    wanted: QueuedRequest<E>,
    active_ability: EntityId,
    active_context: AbilityActivationContext<S, V>,
) -> bool {
    match wanted {
        QueuedRequest::Activation { source, target, handle } => r matches GameplayExecutionRequest::ActivateAbility(a)
            && a.source() == source && a.target() == target && a.handle() == handle && chained_from(
            active_context,
            active_ability,
            handle,
            a.context(),
        ),
        QueuedRequest::Application { target, source, level, effect } => r matches GameplayExecutionRequest::ApplyGameplayEffect(
            p,
        ) && p.target() == target && cloned::<E>(effect, p.effect()) && payload_from_context(
            p.payload(),
            source,
            level,
            Some(active_context),
        ),
    }
}

/// Whether the chain of `context` can be extended by `handle`.
pub open spec fn chain_allows<S, V>(context: AbilityActivationContext<S, V>, handle: AbilitySpecHandle) -> bool {
    context.chain() matches Some(c) && chain_extension(c.chain_id(), c.depth(), c.visited(), handle) is Ok
}

/// The requests that `action` queues for a task with `task_context`.
pub open spec fn action_requests<S, V, E>(
    action: AbilityTaskAction<E>,
    task_context: AbilityTaskExecutionContext,
    targets: AbilityActivationTargets<V>,
    active_context: AbilityActivationContext<S, V>,
) -> Seq<QueuedRequest<E>> {
    match action {
        AbilityTaskAction::EmitEvent { .. } => Seq::empty(),
        AbilityTaskAction::ActivateAbility { handle } => if chain_allows(active_context, handle) {
            seq![QueuedRequest::Activation { source: task_context.source(), target: targets.primary(), handle }]
        } else {
            Seq::empty()
        },
        AbilityTaskAction::ApplyGameplayEffect { effect } => seq![
            QueuedRequest::Application {
                target: targets.primary(),
                source: task_context.source(),
                level: task_context.level(),
                effect,
            },
        ],
        AbilityTaskAction::ApplyGameplayEffectToTargets { effect } => targets.targets().map_values(
            |t: EntityId| QueuedRequest::Application {
                target: t,
                source: task_context.source(),
                level: task_context.level(),
                effect,
            },
        ),
    }
}

/// The requests that the actions `plan` queue, in order.
pub open spec fn plan_requests<S, V, E>(
    plan: Seq<AbilityTaskAction<E>>,
    task_context: AbilityTaskExecutionContext,
    targets: AbilityActivationTargets<V>,
    active_context: AbilityActivationContext<S, V>,
) -> Seq<QueuedRequest<E>>
    decreases plan.len(),
{
    if plan.len() == 0 {
        Seq::empty()
    } else {
        plan_requests(plan.drop_last(), task_context, targets, active_context) + action_requests(
            plan.last(),
            task_context,
            targets,
            active_context,
        )
    }
}

/// The events that the actions `plan` emit, in order.
pub open spec fn plan_events<E>(plan: Seq<AbilityTaskAction<E>>) -> Seq<UniqueName>
    decreases plan.len(),
{
    if plan.len() == 0 {
        Seq::empty()
    } else {
        plan_events(plan.drop_last()) + match plan.last() {
            AbilityTaskAction::EmitEvent { event_id } => seq![event_id],
            _ => Seq::<UniqueName>::empty(),
        }
    }
}

/// How many of `wanted` requests a queue whose next identifier is `next_id` accepts.
pub open spec fn accepted(wanted: int, next_id: u64) -> int {
    if wanted <= u64::MAX - next_id { wanted } else { u64::MAX - next_id }
}

/// The queue `q` holds the pending requests of `q0` followed by the first `accepted` of the
/// `wanted` requests of a task of `active_ability`, whose activation context is `active_context`.
pub open spec fn queued_after<S: Clone, V: Clone, E: Clone>(
    q: GameplayExecutionQueue<GameplayExecutionRequest<S, V, E, EffectPayload<S>>>,
    q0: GameplayExecutionQueue<GameplayExecutionRequest<S, V, E, EffectPayload<S>>>,
    wanted: Seq<QueuedRequest<E>>,
    active_ability: EntityId,
    active_context: AbilityActivationContext<S, V>,
) -> bool {
    let n = accepted(wanted.len() as int, q0.next_id());
    &&& q.wf()
    &&& q.next_chain() == q0.next_chain()
    &&& q.next_id() == q0.next_id() + n
    &&& q.pending().len() == q0.pending().len() + n
    &&& q.pending().take(q0.pending().len() as int) == q0.pending()
    &&& forall|k: int|
        0 <= k < n ==> request_matches(
            #[trigger] q.pending()[q0.pending().len() + k].1,
            wanted[k],
            active_ability,
            active_context,
        )
}

/// An application to the primary target queues exactly one request, to the first of the
/// targets that an application to every target reaches first, whatever the number of targets;
/// both carry the same effect on behalf of the same source at the same level.
pub proof fn lemma_single_application_targets_primary<S, V, E>(
    effect: E,
    task_context: AbilityTaskExecutionContext,
    targets: AbilityActivationTargets<V>,
    active_context: AbilityActivationContext<S, V>,
)
    requires
        targets.wf(),
    ensures
        ({
            let single = action_requests::<S, V, E>(
                AbilityTaskAction::ApplyGameplayEffect { effect },
                task_context,
                targets,
                active_context,
            );
            let all = action_requests::<S, V, E>(
                AbilityTaskAction::ApplyGameplayEffectToTargets { effect },
                task_context,
                targets,
                active_context,
            );
            &&& single.len() == 1
            &&& all.len() == targets.targets().len()
            &&& all.len() >= 1
            &&& single[0] == all[0]
            &&& single[0] == (QueuedRequest::Application {
                target: targets.primary(),
                source: task_context.source(),
                level: task_context.level(),
                effect,
            })
        }),
{
    lemma_targets_start_with_primary(targets);
}

/// Well-formed activation targets list the primary target first.
proof fn lemma_targets_start_with_primary<V>(targets: AbilityActivationTargets<V>)
    requires
        targets.wf(),
    ensures
        targets.targets().len() >= 1,
        targets.targets()[0] == targets.primary(),
{
    targets.lemma_primary_first();
}

/// Actions that emit no event contribute no events.
pub proof fn lemma_silent_actions_emit_nothing<E>(plan: Seq<AbilityTaskAction<E>>)
    requires
        forall|k: int| 0 <= k < plan.len() ==> !(#[trigger] plan[k] is EmitEvent),
    ensures
        plan_events(plan).len() == 0,
    decreases plan.len(),
{
    if plan.len() > 0 {
        assert forall|k: int| 0 <= k < plan.drop_last().len() implies !(#[trigger] plan.drop_last()[k] is EmitEvent) by {
            assert(plan.drop_last()[k] == plan[k]);
        }
        lemma_silent_actions_emit_nothing(plan.drop_last());
        assert(!(plan[plan.len() - 1] is EmitEvent));
    }
}

/// The events of consecutive actions are the events of the first actions followed by those of
/// the later ones: a completion emits its events in the order its actions run.
pub proof fn lemma_events_in_plan_order<E>(first: Seq<AbilityTaskAction<E>>, then: Seq<AbilityTaskAction<E>>)
    ensures
        plan_events(first + then) == plan_events(first) + plan_events(then),
    decreases then.len(),
{
    if then.len() == 0 {
        assert(first + then =~= first);
        assert(plan_events(first) + plan_events(then) =~= plan_events(first));
    } else {
        lemma_events_in_plan_order(first, then.drop_last());
        assert((first + then).drop_last() =~= first + then.drop_last());
        assert((first + then).last() == then.last());
        assert(plan_events(first) + plan_events(then) =~= plan_events(first) + plan_events(then.drop_last()) + match then.last() {
            AbilityTaskAction::EmitEvent { event_id } => seq![event_id],
            _ => Seq::<UniqueName>::empty(),
        });
    }
}

/// Each emitted event is that of one action: the k-th event belongs to the k-th emitting action,
/// so a plan of events alone emits exactly their identifiers, in order.
pub proof fn lemma_event_plans_emit_their_ids<E>(ids: Seq<UniqueName>)
    ensures
        plan_events(ids.map_values(|id: UniqueName| AbilityTaskAction::<E>::EmitEvent { event_id: id })) == ids,
    decreases ids.len(),
{
    let plan = ids.map_values(|id: UniqueName| AbilityTaskAction::<E>::EmitEvent { event_id: id });
    if ids.len() > 0 {
        lemma_event_plans_emit_their_ids::<E>(ids.drop_last());
        assert(plan.drop_last() =~= ids.drop_last().map_values(|id: UniqueName| AbilityTaskAction::<E>::EmitEvent { event_id: id }));
        assert(ids =~= ids.drop_last() + seq![ids.last()]);
    }
}

/// A batch of two actions, the first of which does not end the ability, emits the first
/// action's events and then the second's.
pub proof fn lemma_batch_events_in_order<E>(a: AbilityTaskOnFinished<E>, b: AbilityTaskOnFinished<E>)
    requires
        !completion_plan(a).1,
    ensures
        plan_events(batch_plan(seq![a, b]).0) == plan_events(completion_plan(a).0) + plan_events(completion_plan(b).0),
{
    let rest = seq![a, b].subrange(1, 2);
    assert(rest =~= seq![b]);
    assert(seq![b].subrange(1, 1) =~= Seq::<AbilityTaskOnFinished<E>>::empty());
    assert(batch_plan(seq![b]).0 =~= completion_plan(b).0 + Seq::<AbilityTaskAction<E>>::empty()) by {
        if !completion_plan(b).1 {
            assert(batch_plan(seq![b]).0 == completion_plan(b).0 + batch_plan(seq![b].subrange(1, 1)).0);
        }
    }
    assert(completion_plan(b).0 + Seq::<AbilityTaskAction<E>>::empty() =~= completion_plan(b).0);
    lemma_events_in_plan_order(completion_plan(a).0, batch_plan(seq![b]).0);
}

/// Performs the follow-up of a finished task owned by the active ability `active_ability`.
///
/// The actions of the completion plan run in order: chained activations and effect
/// applications are queued on `execution_queue` (a chained activation whose chain cannot be
/// extended is skipped, and so is every request once the queue's identifiers run out), and the
/// identifiers of the events to emit are returned with whether the ability ends.
pub fn dispatch_ability_task_completion<S: Clone, V: Clone, E: Clone>(
    active_ability: EntityId,
    context: AbilityTaskExecutionContext,
    on_finished: AbilityTaskOnFinished<E>,
    targets: &AbilityActivationTargets<V>,
    active_context: &AbilityActivationContext<S, V>,
    execution_queue: &mut GameplayExecutionQueue<GameplayExecutionRequest<S, V, E, EffectPayload<S>>>,
) -> (result: (Vec<UniqueName>, AbilityTaskCompletion))
    requires
        old(execution_queue).wf(),
    ensures
        result.0@ == plan_events(completion_plan(on_finished).0),
        result.1 == (if completion_plan(on_finished).1 {
            AbilityTaskCompletion::EndAbility
        } else {
            AbilityTaskCompletion::Continue
        }),
        queued_after(
            *final(execution_queue),
            *old(execution_queue),
            plan_requests(completion_plan(on_finished).0, context, *targets, *active_context),
            active_ability,
            *active_context,
        ),
{
    let ghost q0 = *execution_queue;
    let (actions, completion) = plan_ability_task_completion(on_finished);
    let ghost plan = actions@;
    let mut events: Vec<UniqueName> = Vec::new();
    let mut i: usize = 0;
    proof {
        assert(plan.take(0) =~= Seq::<AbilityTaskAction<E>>::empty());
        assert(execution_queue.pending().take(q0.pending().len() as int) =~= q0.pending());
    }
    while i < actions.len()
        invariant
            0 <= i <= actions@.len(),
            plan == actions@,
            events@ == plan_events(plan.take(i as int)),
            queued_after(
                *execution_queue,
                q0,
                plan_requests(plan.take(i as int), context, *targets, *active_context),
                active_ability,
                *active_context,
            ),
        decreases actions@.len() - i,
    {
        proof {
            assert(plan.take(i + 1).drop_last() =~= plan.take(i as int));
            assert(plan.take(i + 1).last() == plan[i as int]);
        }
        let ghost before = plan_requests(plan.take(i as int), context, *targets, *active_context);
        match &actions[i] {
            AbilityTaskAction::EmitEvent { event_id } => {
                events.push(*event_id);
                proof {
                    assert(before + Seq::<QueuedRequest<E>>::empty() =~= before);
                }
            },
            AbilityTaskAction::ActivateAbility { handle } => {
                let ghost q1 = *execution_queue;
                let pushed = execution_queue.push_chained_activation(
                    context.get_source(),
                    targets.get_primary_target(),
                    *handle,
                    active_ability,
                    active_context,
                );
                proof {
                    lemma_accept_one(
                        q1,
                        *execution_queue,
                        q0,
                        before,
                        action_requests(plan[i as int], context, *targets, *active_context),
                        active_ability,
                        *active_context,
                    );
                    assert(events@ == plan_events(plan.take(i as int)) + Seq::<UniqueName>::empty());
                }
            },
            AbilityTaskAction::ApplyGameplayEffect { effect } => {
                let payload = effect_payload_from_ability_context(context.get_source(), context.get_level(), Some(active_context));
                let ghost q1 = *execution_queue;
                let pushed = execution_queue.push_application(targets.get_primary_target(), effect.clone(), payload);
                proof {
                    lemma_accept_one(
                        q1,
                        *execution_queue,
                        q0,
                        before,
                        action_requests(plan[i as int], context, *targets, *active_context),
                        active_ability,
                        *active_context,
                    );
                    assert(events@ == plan_events(plan.take(i as int)) + Seq::<UniqueName>::empty());
                }
            },
            AbilityTaskAction::ApplyGameplayEffectToTargets { effect } => {
                let entities = targets.entities();
                let ghost wanted = action_requests(plan[i as int], context, *targets, *active_context);
                let mut j: usize = 0;
                proof {
                    assert(before + wanted.take(0) =~= before);
                }
                while j < entities.len()
                    invariant
                        0 <= j <= entities@.len(),
                        entities@ == targets.targets(),
                        wanted.len() == entities@.len(),
                        forall|k: int| 0 <= k < wanted.len() ==> #[trigger] wanted[k] == (QueuedRequest::Application {
                            target: entities@[k],
                            source: context.source(),
                            level: context.level(),
                            effect: *effect,
                        }),
                        queued_after(*execution_queue, q0, before + wanted.take(j as int), active_ability, *active_context),
                    decreases entities@.len() - j,
                {
                    let payload = effect_payload_from_ability_context(context.get_source(), context.get_level(), Some(active_context));
                    let ghost q1 = *execution_queue;
                    let pushed = execution_queue.push_application(entities[j], effect.clone(), payload);
                    proof {
                        assert(wanted.take(j + 1) =~= wanted.take(j as int) + seq![wanted[j as int]]);
                        assert(before + wanted.take(j + 1) =~= (before + wanted.take(j as int)) + seq![wanted[j as int]]);
                        lemma_accept_one(
                            q1,
                            *execution_queue,
                            q0,
                            before + wanted.take(j as int),
                            seq![wanted[j as int]],
                            active_ability,
                            *active_context,
                        );
                    }
                    j = j + 1;
                }
                proof {
                    assert(wanted.take(wanted.len() as int) =~= wanted);
                    assert(events@ == plan_events(plan.take(i as int)) + Seq::<UniqueName>::empty());
                }
            },
        }
        i = i + 1;
    }
    proof {
        assert(plan.take(plan.len() as int) =~= plan);
    }
    (events, completion)
}

/// What one tick of an ability task did.
pub enum AbilityTaskStep<E> {
    /// The owning ability is gone or no longer active: the task is discarded untouched.
    Discard,
    /// The task keeps waiting, in its new state.
    Wait(AbilityTask<E>),
    /// The task finished and is discarded: the events to emit, and whether the ability ends.
    Finish { events: Vec<UniqueName>, completion: AbilityTaskCompletion },
}

/// The task `task` after one tick, and whether that tick finished it.
pub open spec fn ticked_task<E>(task: AbilityTask<E>, after: AbilityTask<E>, finished: bool) -> bool {
    &&& after.active_ability() == task.active_ability()
    &&& after.context() == task.context()
    &&& after.on_finished() == task.on_finished()
    &&& match task.kind() {
        AbilityTaskKind::Instant => finished && after.kind() == AbilityTaskKind::Instant,
        AbilityTaskKind::WaitTicks { remaining_ticks } => {
            let remaining = if remaining_ticks > 0 { (remaining_ticks - 1) as u32 } else { 0u32 };
            &&& after.kind() == (AbilityTaskKind::WaitTicks { remaining_ticks: remaining })
            &&& finished == (remaining == 0)
        },
    }
}

/// Runs one tick of `task`, whose owning ability is `ability`, if it still exists.
///
/// A task whose ability is gone or no longer active is discarded. Otherwise the task ticks;
/// when that finishes it, its completion is dispatched as
/// [`dispatch_ability_task_completion`] does, with the ability's targets and context.
pub fn advance_ability_task<S: Clone, V: Clone, E: Clone>(
    task: AbilityTask<E>,
    ability: Option<&ActiveGameplayAbility<S, V>>,
    execution_queue: &mut GameplayExecutionQueue<GameplayExecutionRequest<S, V, E, EffectPayload<S>>>,
) -> (step: AbilityTaskStep<E>)
    requires
        old(execution_queue).wf(),
    ensures
        final(execution_queue).wf(),
        ({
            let q0 = *old(execution_queue);
            let q1 = *final(execution_queue);
            match ability {
                None => step is Discard && q1 == q0,
                Some(a) => if a.status() != AbilityActivationStatus::Active {
                    step is Discard && q1 == q0
                } else {
                    let plan = completion_plan(task.on_finished());
                    &&& !(step is Discard)
                    &&& step matches AbilityTaskStep::Wait(after) ==> ticked_task(task, after, false) && q1 == q0
                    &&& step matches AbilityTaskStep::Finish { events, completion } ==> {
                        &&& exists|after: AbilityTask<E>| ticked_task(task, after, true)
                        &&& events@ == plan_events(plan.0)
                        &&& completion == (if plan.1 {
                            AbilityTaskCompletion::EndAbility
                        } else {
                            AbilityTaskCompletion::Continue
                        })
                        &&& queued_after(
                            q1,
                            q0,
                            plan_requests(plan.0, task.context(), a.data().targets(), a.data().context()),
                            task.active_ability(),
                            a.data().context(),
                        )
                    }
                },
            }
        }),
{
    let active = match ability {
        None => {
            return AbilityTaskStep::Discard;
        },
        Some(active) => active,
    };
    if active.get_status() != AbilityActivationStatus::Active {
        return AbilityTaskStep::Discard;
    }
    let ghost task_before = task;
    let mut task = task;
    let finished = task.tick();
    if !finished {
        return AbilityTaskStep::Wait(task);
    }
    let ghost after = task;
    assert(ticked_task(task_before, after, true));
    let active_ability = task.get_active_ability();
    let context = *task.get_context();
    let on_finished = task.into_on_finished();
    let (events, completion) = dispatch_ability_task_completion(
        active_ability,
        context,
        on_finished,
        active.get_targets(),
        active.get_activation_context(),
        execution_queue,
    );
    AbilityTaskStep::Finish { events, completion }
}

/// One push of the requests `step` (none or one) onto `q1`, which holds the requests `before`
/// after `q0`, leaves `q2` holding `before + step` after `q0`.
proof fn lemma_accept_one<S: Clone, V: Clone, E: Clone>(
    q1: GameplayExecutionQueue<GameplayExecutionRequest<S, V, E, EffectPayload<S>>>,
    q2: GameplayExecutionQueue<GameplayExecutionRequest<S, V, E, EffectPayload<S>>>,
    q0: GameplayExecutionQueue<GameplayExecutionRequest<S, V, E, EffectPayload<S>>>,
    before: Seq<QueuedRequest<E>>,
    step: Seq<QueuedRequest<E>>,
    active_ability: EntityId,
    active_context: AbilityActivationContext<S, V>,
)
    requires
        queued_after(q1, q0, before, active_ability, active_context),
        step.len() <= 1,
        q2.wf(),
        q2.next_chain() == q1.next_chain(),
        step.len() == 0 ==> q2.pending() == q1.pending() && q2.next_id() == q1.next_id(),
        step.len() == 1 && q1.next_id() == u64::MAX ==> q2.pending() == q1.pending() && q2.next_id() == q1.next_id(),
        step.len() == 1 && q1.next_id() < u64::MAX ==> q2.next_id() == q1.next_id() + 1 && q2.pending().len()
            == q1.pending().len() + 1 && q2.pending().drop_last() == q1.pending() && request_matches(
            q2.pending().last().1,
            step[0],
            active_ability,
            active_context,
        ),
    ensures
        queued_after(q2, q0, before + step, active_ability, active_context),
{
    let base = q0.pending().len() as int;
    let n1 = accepted(before.len() as int, q0.next_id());
    if step.len() == 1 && q1.next_id() < u64::MAX {
        assert(n1 == before.len());
        assert forall|k: int| 0 <= k < n1 + 1 implies request_matches(
            #[trigger] q2.pending()[base + k].1,
            (before + step)[k],
            active_ability,
            active_context,
        ) by {
            if k < n1 {
                assert(q2.pending()[base + k] == q1.pending()[base + k]);
            }
        }
        assert(q2.pending().take(base) =~= q1.pending().take(base)) by {
            assert forall|k: int| 0 <= k < base implies q2.pending()[k] == q1.pending()[k] by {
                assert(q2.pending().drop_last()[k] == q1.pending()[k]);
            }
        }
    } else {
        assert forall|k: int| 0 <= k < n1 implies request_matches(
            #[trigger] q2.pending()[base + k].1,
            (before + step)[k],
            active_ability,
            active_context,
        ) by {
            assert(q1.pending()[base + k] == q2.pending()[base + k]);
        }
    }
}

} // verus!
