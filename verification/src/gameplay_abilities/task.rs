use crate::identifiers::{AbilitySpecHandle, EntityId, UniqueName};
use vstd::prelude::*;

verus! {

/// Runtime status of one active ability instance.
#[derive(Debug, Clone, Copy, PartialEq, Eq, Structural)]
pub enum AbilityActivationStatus {
    Active,
    Ending,
    Cancelled,
}

/// Captures the shared gameplay values used while executing an ability task.
///
/// The context belongs to the task instance, while the task's completion action only describes
/// what should happen after the task finishes.
#[derive(Debug, Clone, Copy, PartialEq, Eq, Structural)]
pub struct AbilityTaskExecutionContext {
    source: EntityId,
    spec_handle: AbilitySpecHandle,
    level: u32,
}

impl AbilityTaskExecutionContext {
    /// The ability owner that started the task.
    pub closed spec fn source(self) -> EntityId {
        self.source
    }

    /// The granted ability handle that owns the task.
    pub closed spec fn spec_handle(self) -> AbilitySpecHandle {
        self.spec_handle
    }

    /// The captured ability level.
    pub closed spec fn level(self) -> u32 {
        self.level
    }

    /// Creates a task execution context.
    pub fn new(source: EntityId, spec_handle: AbilitySpecHandle, level: u32) -> (context: Self)
        ensures
            context.source() == source,
            context.spec_handle() == spec_handle,
            context.level() == level,
    {
        AbilityTaskExecutionContext { source, spec_handle, level }
    }

    /// Returns the ability owner that started the task.
    pub fn get_source(&self) -> (source: EntityId)
        ensures
            source == self.source(),
    {
        self.source
    }

    /// Returns the granted ability handle that owns the task.
    pub fn get_spec_handle(&self) -> (handle: AbilitySpecHandle)
        ensures
            handle == self.spec_handle(),
    {
        self.spec_handle
    }

    /// Returns the captured ability level.
    pub fn get_level(&self) -> (level: u32)
        ensures
            level == self.level(),
    {
        self.level
    }
}

/// Describes the action performed when an ability task finishes.
///
/// `E` is the shared gameplay-effect definition that effect actions apply.
pub enum AbilityTaskOnFinished<E> {
    /// Performs no follow-up action.
    DoNothing,
    /// Marks the active ability as ending.
    EndAbility,
    /// Emits an ability task event.
    EmitEvent {
        /// Identifies the emitted event.
        event_id: UniqueName,
    },
    /// Queues another ability activation using the current task context.
    ActivateAbility {
        /// Identifies the ability to activate.
        handle: AbilitySpecHandle,
    },
    /// Applies an effect to the task context's primary target.
    ApplyGameplayEffect {
        /// Defines the effect to apply.
        effect: E,
    },
    /// Applies an effect to every captured activation target.
    ApplyGameplayEffectToTargets {
        /// Defines the effect to apply.
        effect: E,
    },
    /// Performs several actions in order, stopping after one that ends the ability.
    Batch {
        /// The actions, in execution order.
        actions: Vec<AbilityTaskOnFinished<E>>,
    },
}

/// `copy` is a copy of the action `from`: the same variant with the same events and handles,
/// clones of its effect definitions, and a copy of each action of a batch, in order.
pub open spec fn on_finished_copied<E: Clone>(from: AbilityTaskOnFinished<E>, copy: AbilityTaskOnFinished<E>) -> bool
    decreases from,
{
    match from {
        AbilityTaskOnFinished::DoNothing => copy is DoNothing,
        AbilityTaskOnFinished::EndAbility => copy is EndAbility,
        AbilityTaskOnFinished::EmitEvent { event_id } => copy == (AbilityTaskOnFinished::<E>::EmitEvent { event_id }),
        AbilityTaskOnFinished::ActivateAbility { handle } => copy == (AbilityTaskOnFinished::<E>::ActivateAbility { handle }),
        AbilityTaskOnFinished::ApplyGameplayEffect { effect } => copy matches AbilityTaskOnFinished::ApplyGameplayEffect {
            effect: c,
        } && cloned::<E>(effect, c),
        AbilityTaskOnFinished::ApplyGameplayEffectToTargets { effect } => copy matches AbilityTaskOnFinished::ApplyGameplayEffectToTargets {
            effect: c,
        } && cloned::<E>(effect, c),
        AbilityTaskOnFinished::Batch { actions } => copy matches AbilityTaskOnFinished::Batch { actions: c }
            && c@.len() == actions@.len() && forall|i: int|
            0 <= i < actions@.len() ==> on_finished_copied(#[trigger] actions@[i], c@[i]),
    }
}

fn copy_on_finished<E: Clone>(on_finished: &AbilityTaskOnFinished<E>) -> (copy: AbilityTaskOnFinished<E>)
    ensures
        on_finished_copied(*on_finished, copy),
    decreases on_finished,
{
    match on_finished {
        AbilityTaskOnFinished::DoNothing => AbilityTaskOnFinished::DoNothing,
        AbilityTaskOnFinished::EndAbility => AbilityTaskOnFinished::EndAbility,
        AbilityTaskOnFinished::EmitEvent { event_id } => AbilityTaskOnFinished::EmitEvent { event_id: *event_id },
        AbilityTaskOnFinished::ActivateAbility { handle } => AbilityTaskOnFinished::ActivateAbility { handle: *handle },
        AbilityTaskOnFinished::ApplyGameplayEffect { effect } => AbilityTaskOnFinished::ApplyGameplayEffect { effect: effect.clone() },
        AbilityTaskOnFinished::ApplyGameplayEffectToTargets { effect } => AbilityTaskOnFinished::ApplyGameplayEffectToTargets { effect: effect.clone() },
        AbilityTaskOnFinished::Batch { actions } => {
            let mut copies: Vec<AbilityTaskOnFinished<E>> = Vec::new();
            let mut k: usize = 0;
            while k < actions.len()
                invariant
                    0 <= k <= actions@.len(),
                    *on_finished == (AbilityTaskOnFinished::Batch { actions: *actions }),
                    copies@.len() == k,
                    forall|j: int| 0 <= j < k ==> on_finished_copied(#[trigger] actions@[j], copies@[j]),
                decreases actions@.len() - k,
            {
                proof {
                    assert(decreases_to!(*on_finished => (*on_finished)->actions));
                    assert((*on_finished)->actions == *actions);
                    assert(decreases_to!(*actions => actions@));
                    assert(decreases_to!(actions@ => actions@[k as int]));
                }
                copies.push(copy_on_finished(&actions[k]));
                k = k + 1;
            }
            AbilityTaskOnFinished::Batch { actions: copies }
        },
    }
}

impl<E: Clone> Clone for AbilityTaskOnFinished<E> {
    /// Copies the action, cloning the effect definitions it refers to.
    fn clone(&self) -> (copy: Self)
        ensures
            on_finished_copied(*self, copy),
    {
        copy_on_finished(self)
    }
}

/// One externally visible action requested by a finished task.
#[derive(Clone)]
pub enum AbilityTaskAction<E> {
    /// Emit an ability task event.
    EmitEvent { event_id: UniqueName },
    /// Queue a chained activation of `handle`.
    ActivateAbility { handle: AbilitySpecHandle },
    /// Apply `effect` to the primary target.
    ApplyGameplayEffect { effect: E },
    /// Apply `effect` to every activation target.
    ApplyGameplayEffectToTargets { effect: E },
}

/// Whether the owning ability continues after a task's completion actions.
#[derive(Debug, Clone, Copy, PartialEq, Eq, Structural)]
pub enum AbilityTaskCompletion {
    Continue,
    EndAbility,
}

/// The actions a completion performs, in order, and whether it ends the ability.
pub open spec fn completion_plan<E>(on_finished: AbilityTaskOnFinished<E>) -> (Seq<AbilityTaskAction<E>>, bool)
    decreases on_finished,
{
    match on_finished {
        AbilityTaskOnFinished::DoNothing => (Seq::empty(), false),
        AbilityTaskOnFinished::EndAbility => (Seq::empty(), true),
        AbilityTaskOnFinished::EmitEvent { event_id } => (seq![AbilityTaskAction::EmitEvent { event_id }], false),
        AbilityTaskOnFinished::ActivateAbility { handle } => (seq![AbilityTaskAction::ActivateAbility { handle }], false),
        AbilityTaskOnFinished::ApplyGameplayEffect { effect } => (seq![AbilityTaskAction::ApplyGameplayEffect { effect }], false),
        AbilityTaskOnFinished::ApplyGameplayEffectToTargets { effect } => (seq![AbilityTaskAction::ApplyGameplayEffectToTargets { effect }], false),
        AbilityTaskOnFinished::Batch { actions } => batch_plan(actions@),
    }
}

/// The plan of a batch: each member's plan in order, up to and including the first that ends
/// the ability.
pub open spec fn batch_plan<E>(actions: Seq<AbilityTaskOnFinished<E>>) -> (Seq<AbilityTaskAction<E>>, bool)
    decreases actions,
{
    if actions.len() == 0 {
        (Seq::empty(), false)
    } else {
        let first = completion_plan(actions[0]);
        if first.1 {
            first
        } else {
            let rest = batch_plan(actions.subrange(1, actions.len() as int));
            (first.0 + rest.0, rest.1)
        }
    }
}

fn append_completion_plan<E>(on_finished: AbilityTaskOnFinished<E>, plan: &mut Vec<AbilityTaskAction<E>>) -> (ends: bool)
    ensures
        final(plan)@ == old(plan)@ + completion_plan(on_finished).0,
        ends == completion_plan(on_finished).1,
    decreases on_finished,
{
    match on_finished {
        AbilityTaskOnFinished::DoNothing => {
            assert(plan@ + Seq::<AbilityTaskAction<E>>::empty() =~= plan@);
            false
        },
        AbilityTaskOnFinished::EndAbility => {
            assert(plan@ + Seq::<AbilityTaskAction<E>>::empty() =~= plan@);
            true
        },
        AbilityTaskOnFinished::EmitEvent { event_id } => {
            plan.push(AbilityTaskAction::EmitEvent { event_id });
            false
        },
        AbilityTaskOnFinished::ActivateAbility { handle } => {
            plan.push(AbilityTaskAction::ActivateAbility { handle });
            false
        },
        AbilityTaskOnFinished::ApplyGameplayEffect { effect } => {
            plan.push(AbilityTaskAction::ApplyGameplayEffect { effect });
            false
        },
        AbilityTaskOnFinished::ApplyGameplayEffectToTargets { effect } => {
            plan.push(AbilityTaskAction::ApplyGameplayEffectToTargets { effect });
            false
        },
        AbilityTaskOnFinished::Batch { actions } => {
            let ghost all = actions@;
            let ghost whole = actions;
            let ghost start = plan@;
            assert(completion_plan(on_finished) == batch_plan(all));
            let mut remaining = actions;
            let ghost mut done: int = 0;
            loop
                invariant
                    0 <= done <= all.len(),
                    on_finished == (AbilityTaskOnFinished::Batch { actions: whole }),
                    all == whole@,
                    start == old(plan)@,
                    completion_plan(on_finished) == batch_plan(all),
                    remaining@ == all.subrange(done, all.len() as int),
                    batch_plan(all).1 == batch_plan(remaining@).1,
                    start + batch_plan(all).0 == plan@ + batch_plan(remaining@).0,
                decreases remaining@.len(),
            {
                if remaining.len() == 0 {
                    assert(plan@ + Seq::<AbilityTaskAction<E>>::empty() =~= plan@);
                    return false;
                }
                let ghost cur = remaining@;
                let action = remaining.remove(0);
                proof {
                    assert(done < all.len());
                    assert(action == all[done]);
                    assert(decreases_to!(on_finished => whole));
                    assert(decreases_to!(whole => whole@));
                    assert(decreases_to!(whole@ => whole@[done]));
                }
                let ghost rest_seq = remaining@;
                let ghost before = plan@;
                let ends = append_completion_plan(action, plan);
                proof {
                    assert(cur.len() > 0);
                    assert(cur[0] == action);
                    assert(cur.subrange(1, cur.len() as int) =~= rest_seq);
                    assert(rest_seq =~= all.subrange(done + 1, all.len() as int));
                }
                if ends {
                    proof {
                        assert(batch_plan(cur) == completion_plan(action));
                        assert(start + batch_plan(all).0 =~= before + completion_plan(action).0);
                    }
                    return true;
                }
                proof {
                    assert(batch_plan(cur) == (completion_plan(action).0 + batch_plan(rest_seq).0, batch_plan(rest_seq).1));
                    assert(before + (completion_plan(action).0 + batch_plan(rest_seq).0) =~= plan@ + batch_plan(rest_seq).0);
                    done = done + 1;
                }
            }
        },
    }
}

/// Plans the follow-up of a finished task: the actions to perform, in order, and whether the
/// owning ability ends.
///
/// Batches run their members in order and stop after the first member that ends the ability.
pub fn plan_ability_task_completion<E>(on_finished: AbilityTaskOnFinished<E>) -> (result: (
    Vec<AbilityTaskAction<E>>,
    AbilityTaskCompletion,
))
    ensures
        result.0@ == completion_plan(on_finished).0,
        result.1 == (if completion_plan(on_finished).1 {
            AbilityTaskCompletion::EndAbility
        } else {
            AbilityTaskCompletion::Continue
        }),
{
    let mut plan: Vec<AbilityTaskAction<E>> = Vec::new();
    let ends = append_completion_plan(on_finished, &mut plan);
    assert(Seq::<AbilityTaskAction<E>>::empty() + completion_plan(on_finished).0 =~= completion_plan(on_finished).0);
    if ends {
        (plan, AbilityTaskCompletion::EndAbility)
    } else {
        (plan, AbilityTaskCompletion::Continue)
    }
}

/// Describes how an ability task advances over fixed ticks.
#[derive(Debug, Clone, Copy, PartialEq, Eq, Structural)]
pub enum AbilityTaskKind {
    /// Completes the next time task processing runs.
    Instant,
    /// Completes after the remaining number of task ticks reaches zero.
    WaitTicks { remaining_ticks: u32 },
}

/// Runtime state for a tick-driven ability task.
#[derive(Clone)]
pub struct AbilityTask<E> {
    active_ability: EntityId,
    context: AbilityTaskExecutionContext,
    kind: AbilityTaskKind,
    on_finished: AbilityTaskOnFinished<E>,
}

impl<E> AbilityTask<E> {
    /// The ability activation the task belongs to.
    pub closed spec fn active_ability(self) -> EntityId {
        self.active_ability
    }

    /// The captured execution context.
    pub closed spec fn context(self) -> AbilityTaskExecutionContext {
        self.context
    }

    /// The task's tick behavior.
    pub closed spec fn kind(self) -> AbilityTaskKind {
        self.kind
    }

    /// The action performed when the task finishes.
    pub closed spec fn on_finished(self) -> AbilityTaskOnFinished<E> {
        self.on_finished
    }

    /// Creates a task that completes the next time task processing runs.
    pub fn instant(active_ability: EntityId, context: AbilityTaskExecutionContext, on_finished: AbilityTaskOnFinished<E>) -> (task: Self)
        ensures
            task.active_ability() == active_ability,
            task.context() == context,
            task.kind() == AbilityTaskKind::Instant,
            task.on_finished() == on_finished,
    {
        AbilityTask { active_ability, context, kind: AbilityTaskKind::Instant, on_finished }
    }

    /// Creates a task that completes after `ticks` task-processing ticks.
    pub fn wait_ticks(
        active_ability: EntityId,
        context: AbilityTaskExecutionContext,
        ticks: u32,
        on_finished: AbilityTaskOnFinished<E>,
    ) -> (task: Self)
        ensures
            task.active_ability() == active_ability,
            task.context() == context,
            task.kind() == (AbilityTaskKind::WaitTicks { remaining_ticks: ticks }),
            task.on_finished() == on_finished,
    {
        AbilityTask { active_ability, context, kind: AbilityTaskKind::WaitTicks { remaining_ticks: ticks }, on_finished }
    }

    /// Returns the ability activation the task belongs to.
    pub fn get_active_ability(&self) -> (active_ability: EntityId)
        ensures
            active_ability == self.active_ability(),
    {
        self.active_ability
    }

    /// Returns the captured execution context shared by completion actions.
    pub fn get_context(&self) -> (context: &AbilityTaskExecutionContext)
        ensures
            *context == self.context(),
    {
        &self.context
    }

    /// Returns the task's tick behavior.
    pub fn get_kind(&self) -> (kind: AbilityTaskKind)
        ensures
            kind == self.kind(),
    {
        self.kind
    }

    /// Returns the action performed when the task finishes.
    pub fn get_on_finished(&self) -> (on_finished: &AbilityTaskOnFinished<E>)
        ensures
            *on_finished == self.on_finished(),
    {
        &self.on_finished
    }

    /// Consumes the task and returns the action performed when it finishes.
    pub fn into_on_finished(self) -> (on_finished: AbilityTaskOnFinished<E>)
        ensures
            on_finished == self.on_finished(),
    {
        self.on_finished
    }

    /// Advances the task by one tick and returns whether it has finished.
    ///
    /// Instant tasks finish immediately; waiting tasks count their remaining ticks down to
    /// zero and finish when none remain.
    pub fn tick(&mut self) -> (finished: bool)
        ensures
            final(self).active_ability() == old(self).active_ability(),
            final(self).context() == old(self).context(),
            final(self).on_finished() == old(self).on_finished(),
            match old(self).kind() {
                AbilityTaskKind::Instant => finished && final(self).kind() == AbilityTaskKind::Instant,
                AbilityTaskKind::WaitTicks { remaining_ticks } => {
                    let remaining = if remaining_ticks > 0 { (remaining_ticks - 1) as u32 } else { 0u32 };
                    &&& final(self).kind() == (AbilityTaskKind::WaitTicks { remaining_ticks: remaining })
                    &&& finished == (remaining == 0)
                },
            },
    {
        match self.kind {
            AbilityTaskKind::Instant => true,
            AbilityTaskKind::WaitTicks { remaining_ticks } => {
                let remaining = if remaining_ticks > 0 { remaining_ticks - 1 } else { 0 };
                self.kind = AbilityTaskKind::WaitTicks { remaining_ticks: remaining };
                remaining == 0
            },
        }
    }
}

/// Describes an action to instantiate when an ability task finishes.
#[derive(Clone)]
pub enum AbilityTaskOnFinishedDef<E> {
    /// Performs no follow-up action.
    DoNothing,
    /// Marks the active ability as ending.
    EndAbility,
    /// Emits an ability task event.
    EmitEvent {
        /// Identifies the emitted event.
        event_id: UniqueName,
    },
    /// Applies an effect to the task context's primary target.
    ApplyGameplayEffectToTarget {
        /// Defines the effect to apply.
        effect: E,
    },
    /// Applies an effect to every entity in the activation target data.
    ApplyGameplayEffectToTargets {
        /// Defines the effect to apply.
        effect: E,
    },
    /// Queues another ability activation using the task context.
    ActivateAbility {
        /// Identifies the ability to activate.
        handle: AbilitySpecHandle,
    },
}

/// Whether `action` is an instance of the definition `def`.
pub open spec fn instantiates<E: Clone>(def: AbilityTaskOnFinishedDef<E>, action: AbilityTaskOnFinished<E>) -> bool {
    match (def, action) {
        (AbilityTaskOnFinishedDef::DoNothing, AbilityTaskOnFinished::DoNothing) => true,
        (AbilityTaskOnFinishedDef::EndAbility, AbilityTaskOnFinished::EndAbility) => true,
        (AbilityTaskOnFinishedDef::EmitEvent { event_id: a }, AbilityTaskOnFinished::EmitEvent { event_id: b }) => a == b,
        (AbilityTaskOnFinishedDef::ApplyGameplayEffectToTarget { effect: a }, AbilityTaskOnFinished::ApplyGameplayEffect { effect: b }) => cloned(a, b),
        (AbilityTaskOnFinishedDef::ApplyGameplayEffectToTargets { effect: a }, AbilityTaskOnFinished::ApplyGameplayEffectToTargets { effect: b }) => cloned(a, b),
        (AbilityTaskOnFinishedDef::ActivateAbility { handle: a }, AbilityTaskOnFinished::ActivateAbility { handle: b }) => a == b,
        _ => false,
    }
}

impl<E: Clone> AbilityTaskOnFinishedDef<E> {
    /// Creates the runtime action described by this definition.
    pub fn instantiate(&self) -> (action: AbilityTaskOnFinished<E>)
        ensures
            instantiates(*self, action),
    {
        match self {
            AbilityTaskOnFinishedDef::DoNothing => AbilityTaskOnFinished::DoNothing,
            AbilityTaskOnFinishedDef::EndAbility => AbilityTaskOnFinished::EndAbility,
            AbilityTaskOnFinishedDef::EmitEvent { event_id } => AbilityTaskOnFinished::EmitEvent { event_id: *event_id },
            AbilityTaskOnFinishedDef::ApplyGameplayEffectToTarget { effect } => AbilityTaskOnFinished::ApplyGameplayEffect { effect: effect.clone() },
            AbilityTaskOnFinishedDef::ApplyGameplayEffectToTargets { effect } => AbilityTaskOnFinished::ApplyGameplayEffectToTargets { effect: effect.clone() },
            AbilityTaskOnFinishedDef::ActivateAbility { handle } => AbilityTaskOnFinished::ActivateAbility { handle: *handle },
        }
    }
}

/// Defines an ability task created when its owning ability starts.
#[derive(Clone)]
pub enum AbilityTaskDef<E> {
    /// Dispatches the completion action during ability startup.
    Instant {
        /// Describes the action dispatched on completion.
        on_finished: AbilityTaskOnFinishedDef<E>,
    },
    /// Creates a runtime task that completes after fixed task-processing ticks.
    WaitTicks {
        /// Number of task-processing ticks to wait.
        ticks: u32,
        /// Describes the action dispatched on completion.
        on_finished: AbilityTaskOnFinishedDef<E>,
    },
}

impl<E: Clone> AbilityTaskDef<E> {
    /// Creates a task definition that completes during ability startup.
    pub fn instant(on_finished: AbilityTaskOnFinishedDef<E>) -> (def: Self)
        ensures
            def == (AbilityTaskDef::Instant { on_finished }),
    {
        AbilityTaskDef::Instant { on_finished }
    }

    /// Creates a task definition that waits for `ticks` task-processing ticks.
    pub fn wait_ticks(ticks: u32, on_finished: AbilityTaskOnFinishedDef<E>) -> (def: Self)
        ensures
            def == (AbilityTaskDef::WaitTicks { ticks, on_finished }),
    {
        AbilityTaskDef::WaitTicks { ticks, on_finished }
    }

    /// Instantiates this definition for an active ability and shared execution context.
    pub fn instantiate(&self, active_ability: EntityId, context: AbilityTaskExecutionContext) -> (task: AbilityTask<E>)
        ensures
            task.active_ability() == active_ability,
            task.context() == context,
            match *self {
                AbilityTaskDef::Instant { on_finished } => task.kind() == AbilityTaskKind::Instant
                    && instantiates(on_finished, task.on_finished()),
                AbilityTaskDef::WaitTicks { ticks, on_finished } => task.kind() == (AbilityTaskKind::WaitTicks { remaining_ticks: ticks })
                    && instantiates(on_finished, task.on_finished()),
            },
    {
        match self {
            AbilityTaskDef::Instant { on_finished } => AbilityTask::instant(active_ability, context, on_finished.instantiate()),
            AbilityTaskDef::WaitTicks { ticks, on_finished } => AbilityTask::wait_ticks(active_ability, context, *ticks, on_finished.instantiate()),
        }
    }
}

} // verus!
