//! Target data, activation targets, targeting operations, and the targeting request queue.
//!
//! Positions and distances are of a caller-chosen type `V` or `F`: the rules here read only
//! entities, operation kinds, and counts.

use crate::gameplay_abilities::AbilityActivationContext;
use crate::gameplay_execution::{
    next_nonzero, GameplayExecutionQueue, GameplayExecutionQueueError, GameplayExecutionRequest,
    GameplayExecutionRequestId,
};
use crate::gameplay_tags::TagRequirements;
use crate::identifiers::{AbilitySpecHandle, EntityId};
use std::collections::VecDeque;
use vstd::prelude::*;

verus! {

/// An error returned when constructing validated ability activation targets.
#[derive(Debug, Clone, Copy, PartialEq, Eq, Structural)]
pub enum AbilityActivationTargetsError {
    /// Acquired target data did not contain a primary target.
    EmptyTargetData,
}

/// One spatial hit produced by a targeting request, with positions of type `V`.
#[derive(Debug, Clone, Copy, PartialEq)]
pub struct AbilityTargetHit<V> {
    entity: EntityId,
    position: V,
    normal: Option<V>,
}

impl<V> AbilityTargetHit<V> {
    /// The targeted entity.
    pub closed spec fn entity(self) -> EntityId {
        self.entity
    }

    /// The world-space hit position.
    pub closed spec fn position(self) -> V {
        self.position
    }

    /// The optional world-space surface normal.
    pub closed spec fn normal(self) -> Option<V> {
        self.normal
    }

    /// Creates an entity hit at a world-space position.
    pub fn new(entity: EntityId, position: V, normal: Option<V>) -> (hit: Self)
        ensures
            hit.entity() == entity,
            hit.position() == position,
            hit.normal() == normal,
    {
        AbilityTargetHit { entity, position, normal }
    }

    /// Returns the targeted entity.
    pub fn get_entity(&self) -> (entity: EntityId)
        ensures
            entity == self.entity(),
    {
        self.entity
    }

    /// Returns the world-space hit position.
    pub fn get_position(&self) -> (position: &V)
        ensures
            *position == self.position(),
    {
        &self.position
    }

    /// Returns the optional world-space surface normal.
    pub fn get_normal(&self) -> (normal: Option<&V>)
        ensures
            normal is Some == self.normal() is Some,
            normal matches Some(n) ==> *n == self.normal()->0,
    {
        self.normal.as_ref()
    }
}

/// The entities of `hits`, in order.
pub open spec fn hit_entities<V>(hits: Seq<AbilityTargetHit<V>>) -> Seq<EntityId> {
    hits.map_values(|h: AbilityTargetHit<V>| h.entity())
}

/// `copy` is a copy of the hit `from`: the same entity, with position and normal cloned.
pub open spec fn hit_copied<V: Clone>(from: AbilityTargetHit<V>, copy: AbilityTargetHit<V>) -> bool {
    &&& copy.entity() == from.entity()
    &&& cloned::<V>(from.position(), copy.position())
    &&& copy.normal() is Some == from.normal() is Some
    &&& copy.normal() matches Some(n) ==> cloned::<V>(from.normal()->0, n)
}

/// `copy` is a copy of the target data `from`: origin cloned, and each hit copied in order.
pub open spec fn target_data_copied<V: Clone>(from: AbilityTargetData<V>, copy: AbilityTargetData<V>) -> bool {
    &&& cloned::<V>(from.origin(), copy.origin())
    &&& copy.hits().len() == from.hits().len()
    &&& forall|i: int| 0 <= i < from.hits().len() ==> #[trigger] hit_copied(from.hits()[i], copy.hits()[i])
}

/// Deterministically ordered target data produced by a targeting request.
#[derive(Debug, PartialEq)]
pub struct AbilityTargetData<V> {
    origin: V,
    hits: Vec<AbilityTargetHit<V>>,
}

impl<V> AbilityTargetData<V> {
    /// The world-space origin used by the targeting request.
    pub closed spec fn origin(self) -> V {
        self.origin
    }

    /// The hits, in selection order.
    pub closed spec fn hits(self) -> Seq<AbilityTargetHit<V>> {
        self.hits@
    }

    /// Creates target data from a request origin and ordered hits.
    pub fn new(origin: V, hits: Vec<AbilityTargetHit<V>>) -> (data: Self)
        ensures
            data.origin() == origin,
            data.hits() == hits@,
    {
        AbilityTargetData { origin, hits }
    }

    /// Returns the world-space origin used by the targeting request.
    pub fn get_origin(&self) -> (origin: &V)
        ensures
            *origin == self.origin(),
    {
        &self.origin
    }

    /// Returns all hits in selection order.
    pub fn get_hits(&self) -> (hits: &[AbilityTargetHit<V>])
        ensures
            hits@ == self.hits(),
    {
        self.hits.as_slice()
    }

    /// Returns the first targeted entity, if any.
    pub fn primary_entity(&self) -> (entity: Option<EntityId>)
        ensures
            self.hits().len() == 0 ==> entity is None,
            self.hits().len() > 0 ==> entity == Some(self.hits()[0].entity()),
    {
        if self.hits.len() == 0 {
            None
        } else {
            Some(self.hits[0].get_entity())
        }
    }

    /// Returns the targeted entities in selection order.
    pub fn entities(&self) -> (entities: Vec<EntityId>)
        ensures
            entities@ == hit_entities(self.hits()),
    {
        let mut entities: Vec<EntityId> = Vec::new();
        let mut i: usize = 0;
        while i < self.hits.len()
            invariant
                0 <= i <= self.hits@.len(),
                entities@ == hit_entities(self.hits@.take(i as int)),
            decreases self.hits@.len() - i,
        {
            entities.push(self.hits[i].get_entity());
            proof {
                assert(self.hits@.take(i + 1) == self.hits@.take(i as int).push(self.hits@[i as int]));
                assert(hit_entities(self.hits@.take(i + 1)) =~= hit_entities(self.hits@.take(i as int)).push(
                    self.hits@[i as int].entity(),
                ));
            }
            i = i + 1;
        }
        assert(self.hits@.take(self.hits@.len() as int) == self.hits@);
        entities
    }

    /// Returns whether no targets were acquired.
    pub fn is_empty(&self) -> (empty: bool)
        ensures
            empty == (self.hits().len() == 0),
    {
        self.hits.len() == 0
    }

    /// Returns the number of acquired targets.
    pub fn len(&self) -> (count: usize)
        ensures
            count == self.hits().len(),
    {
        self.hits.len()
    }
}

impl<V: Clone> Clone for AbilityTargetData<V> {
    /// Copies the origin and every hit, in order.
    fn clone(&self) -> (copy: Self)
        ensures
            target_data_copied(*self, copy),
    {
        let mut hits: Vec<AbilityTargetHit<V>> = Vec::new();
        let mut i: usize = 0;
        while i < self.hits.len()
            invariant
                0 <= i <= self.hits@.len(),
                hits@.len() == i,
                forall|j: int| 0 <= j < i ==> #[trigger] hit_copied(self.hits@[j], hits@[j]),
            decreases self.hits@.len() - i,
        {
            let hit = &self.hits[i];
            let normal = match &hit.normal {
                None => None,
                Some(n) => Some(n.clone()),
            };
            hits.push(AbilityTargetHit { entity: hit.entity, position: hit.position.clone(), normal });
            i = i + 1;
        }
        AbilityTargetData { origin: self.origin.clone(), hits }
    }
}

/// The complete target selection of one ability activation: one explicit entity, or
/// non-empty acquired target data whose first hit is the primary target.
#[derive(Debug, Clone, PartialEq)]
pub struct AbilityActivationTargets<V> {
    primary_target: EntityId,
    target_data: Option<AbilityTargetData<V>>,
}

impl<V> AbilityActivationTargets<V> {
    /// The primary entity used by single-target execution paths.
    pub closed spec fn primary(self) -> EntityId {
        self.primary_target
    }

    /// The acquired target data, or `None` for an explicit single-target selection.
    pub closed spec fn data(self) -> Option<AbilityTargetData<V>> {
        self.target_data
    }

    /// The targets in execution order.
    pub open spec fn targets(self) -> Seq<EntityId> {
        match self.data() {
            Some(d) => hit_entities(d.hits()),
            None => seq![self.primary()],
        }
    }

    /// Acquired data is never empty, and its first hit is the primary target.
    pub closed spec fn wf(self) -> bool {
        self.target_data matches Some(d) ==> d.hits().len() > 0 && d.hits()[0].entity() == self.primary_target
    }

    /// Well-formed targets list the primary target first.
    pub proof fn lemma_primary_first(self)
        requires
            self.wf(),
        ensures
            self.targets().len() >= 1,
            self.targets()[0] == self.primary(),
    {
    }

    /// Creates a selection of the single explicit entity `target`.
    pub fn single(target: EntityId) -> (targets: Self)
        ensures
            targets.wf(),
            targets.primary() == target,
            targets.data() is None,
    {
        AbilityActivationTargets { primary_target: target, target_data: None }
    }

    /// Creates a selection from acquired target data, whose first hit becomes the primary target.
    ///
    /// Fails with [`AbilityActivationTargetsError::EmptyTargetData`] exactly when `target_data`
    /// holds no hits.
    pub fn acquired(target_data: AbilityTargetData<V>) -> (result: Result<Self, AbilityActivationTargetsError>)
        ensures
            target_data.hits().len() == 0 <==> result == Err::<Self, AbilityActivationTargetsError>(
                AbilityActivationTargetsError::EmptyTargetData,
            ),
            result matches Ok(targets) ==> targets.wf() && targets.primary() == target_data.hits()[0].entity()
                && targets.data() == Some(target_data),
    {
        match target_data.primary_entity() {
            None => Err(AbilityActivationTargetsError::EmptyTargetData),
            Some(primary_target) => Ok(AbilityActivationTargets { primary_target, target_data: Some(target_data) }),
        }
    }

    /// Returns the primary entity used by single-target execution paths.
    pub fn get_primary_target(&self) -> (target: EntityId)
        ensures
            target == self.primary(),
    {
        self.primary_target
    }

    /// Returns acquired target data, or `None` for an explicit single-target selection.
    pub fn get_target_data(&self) -> (data: Option<&AbilityTargetData<V>>)
        ensures
            data is Some == self.data() is Some,
            data matches Some(d) ==> *d == self.data()->0,
    {
        self.target_data.as_ref()
    }

    /// Returns every target in execution order: the acquired entities, or the explicit one.
    pub fn entities(&self) -> (entities: Vec<EntityId>)
        ensures
            entities@ == self.targets(),
            self.wf() ==> entities@.len() > 0 && entities@[0] == self.primary(),
    {
        match &self.target_data {
            Some(data) => data.entities(),
            None => {
                let mut single: Vec<EntityId> = Vec::new();
                single.push(self.primary_target);
                proof {
                    assert(single@ =~= seq![self.primary_target]);
                }
                single
            },
        }
    }
}

/// Controls distance sorting for targeting candidates.
#[derive(Debug, Clone, Copy, PartialEq, Eq, Structural)]
pub enum TargetingSortOrder {
    Ascending,
    Descending,
}

/// One ordered operation of a targeting definition, with distances and angles of type `F`.
pub enum TargetingOperation<F> {
    /// Selects the request source, which need not be targetable.
    SelectSelf,
    /// Selects the explicit entity supplied by the request.
    SelectExplicitEntity,
    /// Selects targetable entities inside a world-space sphere.
    SelectSphere { radius: F },
    /// Selects targetable entities inside a world-space cone.
    SelectCone { radius: F, half_angle_radians: F },
    /// Removes the request source from the candidates.
    FilterSource,
    /// Retains candidates whose gameplay tags pass the requirements.
    FilterTags { requirements: TagRequirements },
    /// Retains candidates that store attributes.
    RequireAttributeSet,
    /// Retains candidates no farther than `max_distance` from the request origin.
    FilterDistance { max_distance: F },
    /// Sorts candidates by squared distance from the request origin.
    SortByDistance { order: TargetingSortOrder },
    /// Retains at most the first `count` candidates.
    Limit { count: usize },
}

impl<F> TargetingOperation<F> {
    /// Whether the operation selects the initial candidates.
    pub open spec fn selects(self) -> bool {
        ||| self is SelectSelf
        ||| self is SelectExplicitEntity
        ||| self is SelectSphere
        ||| self is SelectCone
    }

    /// Returns whether the operation selects the initial candidates.
    pub fn is_selection(&self) -> (selection: bool)
        ensures
            selection == self.selects(),
    {
        match self {
            TargetingOperation::SelectSelf => true,
            TargetingOperation::SelectExplicitEntity => true,
            TargetingOperation::SelectSphere { .. } => true,
            TargetingOperation::SelectCone { .. } => true,
            _ => false,
        }
    }
}

/// Describes an invalid targeting operation pipeline, with numeric values of type `F`.
#[derive(Debug, Clone, Copy, PartialEq)]
pub enum TargetingDefinitionError<F> {
    EmptyOperations,
    SelectionMustBeFirst,
    MultipleSelections,
    InvalidRadius { radius: F },
    InvalidDistance { max_distance: F },
    InvalidHalfAngle { half_angle_radians: F },
    ZeroLimit,
}

/// Checks that `operations` starts with its one and only selection.
///
/// Fails with [`TargetingDefinitionError::EmptyOperations`] for no operations, then with
/// [`TargetingDefinitionError::SelectionMustBeFirst`] when the first does not select, then with
/// [`TargetingDefinitionError::MultipleSelections`] when a later one selects too.
pub fn validate_selection_order<F>(operations: &[TargetingOperation<F>]) -> (result: Result<(), TargetingDefinitionError<F>>)
    ensures
        operations@.len() == 0 ==> result == Err::<(), TargetingDefinitionError<F>>(TargetingDefinitionError::EmptyOperations),
        operations@.len() > 0 && !operations@[0].selects() ==> result == Err::<(), TargetingDefinitionError<F>>(
            TargetingDefinitionError::SelectionMustBeFirst,
        ),
        operations@.len() > 0 && operations@[0].selects() ==> (result is Ok <==> forall|i: int|
            1 <= i < operations@.len() ==> !(#[trigger] operations@[i]).selects()),
        operations@.len() > 0 && operations@[0].selects() && result is Err ==> result == Err::<
            (),
            TargetingDefinitionError<F>,
        >(TargetingDefinitionError::MultipleSelections),
{
    if operations.len() == 0 {
        return Err(TargetingDefinitionError::EmptyOperations);
    }
    if !operations[0].is_selection() {
        return Err(TargetingDefinitionError::SelectionMustBeFirst);
    }
    let mut i: usize = 1;
    while i < operations.len()
        invariant
            1 <= i <= operations@.len(),
            operations@[0].selects(),
            forall|j: int| 1 <= j < i ==> !(#[trigger] operations@[j]).selects(),
        decreases operations@.len() - i,
    {
        if operations[i].is_selection() {
            return Err(TargetingDefinitionError::MultipleSelections);
        }
        i = i + 1;
    }
    Ok(())
}

/// Describes why a targeting request could not produce target data.
#[derive(Debug, Clone, Copy, PartialEq, Eq, Structural)]
pub enum TargetingError {
    InvalidDefinition,
    InvalidOrigin,
    InvalidDirection,
    MissingSource { source: EntityId },
    MissingExplicitTarget,
    TargetNotFound { target: EntityId },
    TargetNotTargetable { target: EntityId },
    NoTargetsFound,
}

/// Describes what happens after a targeting request succeeds.
pub enum TargetingContinuation<S, V> {
    /// Only reports the result.
    EmitResult,
    /// Queues an activation of `handle` carrying the acquired target data.
    ActivateAbility { handle: AbilitySpecHandle, context: Box<AbilityActivationContext<S, V>> },
}

impl<S, V> TargetingContinuation<S, V> {
    /// Creates an ability-activation continuation.
    pub fn activate_ability(handle: AbilitySpecHandle, context: AbilityActivationContext<S, V>) -> (continuation: Self)
        ensures
            continuation matches TargetingContinuation::ActivateAbility { handle: h, context: c } && h == handle
                && *c == context,
    {
        TargetingContinuation::ActivateAbility { handle, context: Box::new(context) }
    }
}

/// The entity a successful targeting request of `source` activates against: the first
/// acquired entity, or `source` when nothing was acquired.
pub open spec fn continuation_target<V>(source: EntityId, data: AbilityTargetData<V>) -> EntityId {
    if data.hits().len() > 0 {
        data.hits()[0].entity()
    } else {
        source
    }
}

/// An activation continued from acquired target data goes to the primary target of the
/// activation targets built from that data: the first hit, whatever the number of hits.
pub proof fn lemma_continuation_targets_primary<V>(source: EntityId, data: AbilityTargetData<V>, targets: AbilityActivationTargets<V>)
    requires
        targets.wf(),
        targets.data() == Some(data),
    ensures
        continuation_target(source, data) == targets.primary(),
        continuation_target(source, data) == targets.targets()[0],
{
}

/// The target of a continued activation depends only on the first acquired hit: two data
/// whose first hits name the same entity continue against the same target, and data without
/// hits continue against the source.
pub proof fn lemma_continuation_target_first_hit<V>(source: EntityId, a: AbilityTargetData<V>, b: AbilityTargetData<V>)
    requires
        a.hits().len() > 0,
        b.hits().len() > 0,
        a.hits()[0].entity() == b.hits()[0].entity(),
    ensures
        continuation_target(source, a) == continuation_target(source, b),
        continuation_target(source, a) == a.hits()[0].entity(),
        forall|c: AbilityTargetData<V>| c.hits().len() == 0 ==> #[trigger] continuation_target(source, c) == source,
{
}

/// Carries out the continuation of a finished targeting request of `source`.
///
/// When targeting succeeded and the continuation activates an ability, the activation is
/// queued against the first acquired entity (or `source` when nothing was acquired), its
/// context carrying a copy of the acquired target data, and its queue result is returned;
/// otherwise nothing is queued and `None` is returned.
pub fn dispatch_targeting_continuation<S, V: Clone, F, P>(
    source: EntityId,
    result: &Result<AbilityTargetData<V>, TargetingError>,
    continuation: TargetingContinuation<S, V>,
    execution_queue: &mut GameplayExecutionQueue<GameplayExecutionRequest<S, V, F, P>>,
) -> (queued: Option<Result<GameplayExecutionRequestId, GameplayExecutionQueueError>>)
    requires
        old(execution_queue).wf(),
    ensures
        final(execution_queue).wf(),
        final(execution_queue).next_chain() == old(execution_queue).next_chain(),
        (result is Err || continuation is EmitResult) ==> queued is None && *final(execution_queue) == *old(
            execution_queue,
        ),
        result matches Ok(data) ==> match continuation {
            TargetingContinuation::EmitResult => true,
            TargetingContinuation::ActivateAbility { handle, context } => {
                let q0 = *old(execution_queue);
                let q1 = *final(execution_queue);
                &&& queued is Some
                &&& q0.next_id() == u64::MAX ==> queued == Some(
                    Err::<GameplayExecutionRequestId, GameplayExecutionQueueError>(
                        GameplayExecutionQueueError::RequestIdExhausted,
                    ),
                ) && q1.pending() == q0.pending()
                &&& q0.next_id() < u64::MAX ==> (queued matches Some(Ok(id)) && id.value() == q0.next_id()
                    && q1.pending().drop_last() == q0.pending() && q1.pending().len() == q0.pending().len() + 1
                    && q1.pending().last().0 == id && (q1.pending().last().1 matches GameplayExecutionRequest::ActivateAbility(
                    r,
                ) && r.source() == source && r.target() == continuation_target(source, *data) && (data.hits().len() > 0
                    ==> r.target() == data.hits()[0].entity()) && (data.hits().len() == 0 ==> r.target() == source)
                    && r.handle() == handle
                    && r.context().chain() == context.chain() && r.context().instigator() == context.instigator()
                    && r.context().causer() == context.causer() && r.context().snapshot() == context.snapshot()
                    && r.context().reason() == context.reason() && (r.context().target_data() matches Some(d)
                    && target_data_copied(*data, d))))
            },
        },
{
    match result {
        Err(_) => None,
        Ok(data) => match continuation {
            TargetingContinuation::EmitResult => None,
            TargetingContinuation::ActivateAbility { handle, context } => {
                let target = match data.primary_entity() {
                    Some(entity) => entity,
                    None => source,
                };
                let context = (*context).with_target_data(data.clone());
                Some(execution_queue.push_activation(source, target, handle, context))
            },
        },
    }
}

/// Stable identifier assigned to one queued targeting request.
#[derive(Debug, Clone, Copy, PartialEq, Eq, Hash, Structural)]
pub struct TargetingRequestId(u64);

impl TargetingRequestId {
    /// The numeric identifier.
    pub closed spec fn value(self) -> u64 {
        self.0
    }

    /// Returns the numeric request identifier.
    pub fn get_value(self) -> (value: u64)
        ensures
            value == self.value(),
    {
        self.0
    }
}

/// FIFO queue of targeting requests of type `R`, each with its identifier.
///
/// Identifiers start at 1, increase with each request, and wrap around skipping zero.
pub struct TargetingRequestQueue<R> {
    requests: VecDeque<(TargetingRequestId, R)>,
    next_request_id: u64,
}

impl<R> TargetingRequestQueue<R> {
    /// The pending requests with their identifiers, oldest first.
    pub closed spec fn pending(self) -> Seq<(TargetingRequestId, R)> {
        self.requests@
    }

    /// The identifier the next request receives.
    pub closed spec fn next_id(self) -> u64 {
        self.next_request_id
    }

    /// Creates an empty queue whose first request gets identifier 1.
    pub fn new() -> (queue: Self)
        ensures
            queue.pending().len() == 0,
            queue.next_id() == 1,
    {
        TargetingRequestQueue { requests: VecDeque::new(), next_request_id: 1 }
    }

    /// Queues one targeting request and returns its identifier.
    pub fn push_request(&mut self, request: R) -> (id: TargetingRequestId)
        ensures
            id.value() == old(self).next_id(),
            final(self).pending() == old(self).pending().push((id, request)),
            final(self).next_id() == next_nonzero(old(self).next_id()),
    {
        let id = TargetingRequestId(self.next_request_id);
        let next = self.next_request_id.wrapping_add(1);
        self.next_request_id = if next < 1 { 1 } else { next };
        self.requests.push_back((id, request));
        id
    }

    /// Returns whether the queue has no pending requests.
    pub fn is_empty(&self) -> (empty: bool)
        ensures
            empty == (self.pending().len() == 0),
    {
        self.requests.len() == 0
    }

    /// Returns the number of pending requests.
    pub fn len(&self) -> (count: usize)
        ensures
            count == self.pending().len(),
    {
        self.requests.len()
    }

    /// Removes every pending request.
    pub fn clear(&mut self)
        ensures
            final(self).pending().len() == 0,
            final(self).next_id() == old(self).next_id(),
    {
        self.requests.clear();
    }

    /// Removes and returns the oldest request with its identifier, or `None` when empty.
    pub fn pop(&mut self) -> (front: Option<(TargetingRequestId, R)>)
        ensures
            final(self).next_id() == old(self).next_id(),
            old(self).pending().len() == 0 ==> front is None && final(self).pending() == old(self).pending(),
            old(self).pending().len() > 0 ==> front == Some(old(self).pending()[0]) && final(self).pending()
                == old(self).pending().drop_first(),
    {
        let front = self.requests.pop_front();
        proof {
            if old(self).pending().len() > 0 {
                assert(self.pending() =~= old(self).pending().drop_first());
            }
        }
        front
    }
}

} // verus!
