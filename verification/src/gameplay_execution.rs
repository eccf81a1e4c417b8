//! Deterministic cross-type gameplay request queue.
//!
//! Ability activation and effect application requests share one FIFO so their relative
//! ordering stays observable within a fixed tick.

use crate::gameplay_abilities::{
    chain_extension, chained_from, AbilityActivationContext, AbilityChainContext, AbilityChainError,
};
use crate::gameplay_effects::GameplayEffectApplicationError;
use crate::identifiers::{AbilitySpecHandle, EntityId};
use std::collections::VecDeque;
use vstd::prelude::*;

verus! {

/// Queue-local identifier for one accepted gameplay request.
///
/// Identifiers increase in submission order and are not reused, not even after `clear`.
#[derive(Debug, Clone, Copy, PartialEq, Eq, Hash, Structural)]
pub struct GameplayExecutionRequestId(u64);

impl GameplayExecutionRequestId {
    /// The numeric identifier.
    pub closed spec fn value(self) -> u64 {
        self.0
    }

    /// Returns the numeric identifier within the queue that accepted the request.
    pub fn get_value(self) -> (value: u64)
        ensures
            value == self.value(),
    {
        self.0
    }
}

/// Describes why a gameplay request could not be added to the queue.
#[derive(Debug, Clone, Copy, PartialEq, Eq, Structural)]
pub enum GameplayExecutionQueueError {
    /// The queue exhausted its increasing request identifiers.
    RequestIdExhausted,
    /// A chained activation would violate chain depth or repetition rules.
    InvalidChain(AbilityChainError),
}

/// The identifier that follows `current` in a wrapping sequence that skips zero.
pub open spec fn next_nonzero(current: u64) -> u64 {
    if current == u64::MAX { 1 } else { (current + 1) as u64 }
}

/// Global FIFO of gameplay requests of type `R`, each with its identifier.
pub struct GameplayExecutionQueue<R> {
    requests: VecDeque<(GameplayExecutionRequestId, R)>,
    next_request_id: u64,
    next_chain_id: u64,
}

impl<R> GameplayExecutionQueue<R> {
    /// The pending requests with their identifiers, oldest first.
    pub closed spec fn pending(self) -> Seq<(GameplayExecutionRequestId, R)> {
        self.requests@
    }

    /// The identifier the next accepted request receives.
    pub closed spec fn next_id(self) -> u64 {
        self.next_request_id
    }

    /// The identifier the next root chain receives.
    pub closed spec fn next_chain(self) -> u64 {
        self.next_chain_id
    }

    /// Pending identifiers increase from the front and stay below the next identifier, which
    /// is never zero; the next chain identifier is never zero either.
    pub open spec fn wf(self) -> bool {
        &&& self.next_id() >= 1
        &&& self.next_chain() >= 1
        &&& forall|i: int, j: int|
            0 <= i < j < self.pending().len() ==> (#[trigger] self.pending()[i]).0.value() < (
            #[trigger] self.pending()[j]).0.value()
        &&& forall|i: int| 0 <= i < self.pending().len() ==> (#[trigger] self.pending()[i]).0.value() < self.next_id()
    }

    /// Creates an empty queue whose first request and first chain get identifier 1.
    pub fn new() -> (queue: Self)
        ensures
            queue.wf(),
            queue.pending().len() == 0,
            queue.next_id() == 1,
            queue.next_chain() == 1,
    {
        GameplayExecutionQueue { requests: VecDeque::new(), next_request_id: 1, next_chain_id: 1 }
    }

    /// Appends `request` and returns its identifier.
    ///
    /// Fails with [`GameplayExecutionQueueError::RequestIdExhausted`], without enqueuing, once
    /// the identifier after this one would not fit in `u64`.
    pub fn push(&mut self, request: R) -> (result: Result<GameplayExecutionRequestId, GameplayExecutionQueueError>)
        requires
            old(self).wf(),
        ensures
            final(self).wf(),
            final(self).next_chain() == old(self).next_chain(),
            old(self).next_id() == u64::MAX ==> result == Err::<
                GameplayExecutionRequestId,
                GameplayExecutionQueueError,
            >(GameplayExecutionQueueError::RequestIdExhausted) && final(self).pending() == old(self).pending()
                && final(self).next_id() == old(self).next_id(),
            old(self).next_id() < u64::MAX ==> (result matches Ok(id) && id.value() == old(self).next_id()
                && final(self).pending() == old(self).pending().push((id, request)) && final(self).next_id()
                == old(self).next_id() + 1),
    {
        if self.next_request_id == u64::MAX {
            return Err(GameplayExecutionQueueError::RequestIdExhausted);
        }
        let next_id = self.next_request_id + 1;
        let id = GameplayExecutionRequestId(self.next_request_id);
        self.requests.push_back((id, request));
        self.next_request_id = next_id;
        proof {
            let p = self.pending();
            assert(p == old(self).pending().push((id, request)));
            assert forall|i: int, j: int| 0 <= i < j < p.len() implies (#[trigger] p[i]).0.value() < (#[trigger] p[j]).0.value() by {
                if j == p.len() - 1 {
                    assert(p[i] == old(self).pending()[i]);
                } else {
                    assert(p[i] == old(self).pending()[i]);
                    assert(p[j] == old(self).pending()[j]);
                }
            }
            assert forall|i: int| 0 <= i < p.len() implies (#[trigger] p[i]).0.value() < self.next_id() by {
                if i < p.len() - 1 {
                    assert(p[i] == old(self).pending()[i]);
                }
            }
        }
        Ok(id)
    }

    /// Creates a root chain context for `handle` with the next queue-local chain identifier.
    ///
    /// Chain identifiers wrap around and skip zero.
    pub fn new_root_chain(&mut self, handle: AbilitySpecHandle) -> (chain: AbilityChainContext)
        requires
            old(self).wf(),
        ensures
            final(self).wf(),
            chain.chain_id() == old(self).next_chain(),
            chain.depth() == 0,
            chain.visited() == seq![handle],
            chain.is_well_built(),
            final(self).next_chain() == next_nonzero(old(self).next_chain()),
            final(self).pending() == old(self).pending(),
            final(self).next_id() == old(self).next_id(),
    {
        let chain_id = self.next_chain_id;
        let next = self.next_chain_id.wrapping_add(1);
        self.next_chain_id = if next < 1 { 1 } else { next };
        assert(self.pending() == old(self).pending());
        AbilityChainContext::root(handle, chain_id)
    }

    /// Removes and returns the oldest request with its identifier, or `None` when empty.
    pub fn pop(&mut self) -> (front: Option<(GameplayExecutionRequestId, R)>)
        requires
            old(self).wf(),
        ensures
            final(self).wf(),
            final(self).next_id() == old(self).next_id(),
            final(self).next_chain() == old(self).next_chain(),
            old(self).pending().len() == 0 ==> front is None && final(self).pending() == old(self).pending(),
            old(self).pending().len() > 0 ==> front == Some(old(self).pending()[0]) && final(self).pending()
                == old(self).pending().drop_first(),
    {
        let front = self.requests.pop_front();
        proof {
            if old(self).pending().len() > 0 {
                assert(self.pending() =~= old(self).pending().drop_first());
            }
        }
        front
    }

    /// Returns whether the queue has no pending requests.
    pub fn is_empty(&self) -> (empty: bool)
        ensures
            empty == (self.pending().len() == 0),
    {
        self.requests.len() == 0
    }

    /// Returns the number of pending requests.
    pub fn len(&self) -> (count: usize)
        ensures
            count == self.pending().len(),
    {
        self.requests.len()
    }

    /// Removes all pending requests; their identifiers stay reserved and are not reused.
    pub fn clear(&mut self)
        requires
            old(self).wf(),
        ensures
            final(self).wf(),
            final(self).pending().len() == 0,
            final(self).next_id() == old(self).next_id(),
            final(self).next_chain() == old(self).next_chain(),
    {
        self.requests.clear();
    }
}

/// Captured input for one ability activation, with a source snapshot of type `S` and target
/// positions of type `V`.
pub struct AbilityActivationRequest<S, V> {
    source: EntityId,
    target: EntityId,
    handle: AbilitySpecHandle,
    context: AbilityActivationContext<S, V>,
}

impl<S, V> AbilityActivationRequest<S, V> {
    /// The ability owner.
    pub closed spec fn source(self) -> EntityId {
        self.source
    }

    /// The captured primary target.
    pub closed spec fn target(self) -> EntityId {
        self.target
    }

    /// The granted ability handle.
    pub closed spec fn handle(self) -> AbilitySpecHandle {
        self.handle
    }

    /// The captured activation context.
    pub closed spec fn context(self) -> AbilityActivationContext<S, V> {
        self.context
    }

    /// Creates an activation request.
    pub fn new(source: EntityId, target: EntityId, handle: AbilitySpecHandle, context: AbilityActivationContext<S, V>) -> (request: Self)
        ensures
            request.source() == source,
            request.target() == target,
            request.handle() == handle,
            request.context() == context,
    {
        AbilityActivationRequest { source, target, handle, context }
    }

    /// Returns the ability owner.
    pub fn get_source(&self) -> (source: EntityId)
        ensures
            source == self.source(),
    {
        self.source
    }

    /// Returns the captured primary target.
    pub fn get_target(&self) -> (target: EntityId)
        ensures
            target == self.target(),
    {
        self.target
    }

    /// Returns the granted ability handle.
    pub fn get_handle(&self) -> (handle: AbilitySpecHandle)
        ensures
            handle == self.handle(),
    {
        self.handle
    }

    /// Returns the captured activation context.
    pub fn get_context(&self) -> (context: &AbilityActivationContext<S, V>)
        ensures
            *context == self.context(),
    {
        &self.context
    }
}

/// Captured input for one queued application of the effect definition `F` with payload `P`.
pub struct GameplayEffectApplicationRequest<F, P> {
    target: EntityId,
    effect: F,
    payload: P,
}

impl<F, P> GameplayEffectApplicationRequest<F, P> {
    /// The effect target.
    pub closed spec fn target(self) -> EntityId {
        self.target
    }

    /// The shared effect definition.
    pub closed spec fn effect(self) -> F {
        self.effect
    }

    /// The captured application payload.
    pub closed spec fn payload(self) -> P {
        self.payload
    }

    /// Creates an effect application request.
    pub fn new(target: EntityId, effect: F, payload: P) -> (request: Self)
        ensures
            request.target() == target,
            request.effect() == effect,
            request.payload() == payload,
    {
        GameplayEffectApplicationRequest { target, effect, payload }
    }

    /// Returns the effect target.
    pub fn get_target(&self) -> (target: EntityId)
        ensures
            target == self.target(),
    {
        self.target
    }

    /// Returns the shared effect definition.
    pub fn get_effect(&self) -> (effect: &F)
        ensures
            *effect == self.effect(),
    {
        &self.effect
    }

    /// Returns the captured application payload.
    pub fn get_payload(&self) -> (payload: &P)
        ensures
            *payload == self.payload(),
    {
        &self.payload
    }
}

/// One deterministic gameplay mutation request.
pub enum GameplayExecutionRequest<S, V, F, P> {
    /// Starts an ability after validating its captured activation context.
    ActivateAbility(AbilityActivationRequest<S, V>),
    /// Applies a gameplay effect with its captured payload.
    ApplyGameplayEffect(GameplayEffectApplicationRequest<F, P>),
}

impl<S, V, F, P> GameplayExecutionQueue<GameplayExecutionRequest<S, V, F, P>> {
    /// Appends an activation of `handle` from `source` against `target` with `context`.
    ///
    /// Fails as [`GameplayExecutionQueue::push`] does.
    pub fn push_activation(
        &mut self,
        source: EntityId,
        target: EntityId,
        handle: AbilitySpecHandle,
        context: AbilityActivationContext<S, V>,
    ) -> (result: Result<GameplayExecutionRequestId, GameplayExecutionQueueError>)
        requires
            old(self).wf(),
        ensures
            final(self).wf(),
            final(self).next_chain() == old(self).next_chain(),
            old(self).next_id() == u64::MAX ==> result == Err::<
                GameplayExecutionRequestId,
                GameplayExecutionQueueError,
            >(GameplayExecutionQueueError::RequestIdExhausted) && final(self).pending() == old(self).pending()
                && final(self).next_id() == old(self).next_id(),
            old(self).next_id() < u64::MAX ==> (result matches Ok(id) && id.value() == old(self).next_id()
                && final(self).next_id() == old(self).next_id() + 1 && final(self).pending().len()
                == old(self).pending().len() + 1 && final(self).pending().drop_last() == old(self).pending()
                && final(self).pending().last().0 == id && (final(self).pending().last().1 matches GameplayExecutionRequest::ActivateAbility(r)
                && r.source() == source && r.target() == target && r.handle() == handle && r.context() == context)),
    {
        let result = self.push(GameplayExecutionRequest::ActivateAbility(AbilityActivationRequest::new(source, target, handle, context)));
        proof {
            if old(self).next_id() < u64::MAX {
                assert(self.pending().drop_last() =~= old(self).pending());
            }
        }
        result
    }

    /// Appends an application of `effect` to `target` with the captured `payload`.
    ///
    /// Fails as [`GameplayExecutionQueue::push`] does.
    pub fn push_application(&mut self, target: EntityId, effect: F, payload: P) -> (result: Result<
        GameplayExecutionRequestId,
        GameplayExecutionQueueError,
    >)
        requires
            old(self).wf(),
        ensures
            final(self).wf(),
            final(self).next_chain() == old(self).next_chain(),
            old(self).next_id() == u64::MAX ==> result == Err::<
                GameplayExecutionRequestId,
                GameplayExecutionQueueError,
            >(GameplayExecutionQueueError::RequestIdExhausted) && final(self).pending() == old(self).pending()
                && final(self).next_id() == old(self).next_id(),
            old(self).next_id() < u64::MAX ==> (result matches Ok(id) && id.value() == old(self).next_id()
                && final(self).next_id() == old(self).next_id() + 1 && final(self).pending().len()
                == old(self).pending().len() + 1 && final(self).pending().drop_last() == old(self).pending()
                && final(self).pending().last().0 == id && (final(self).pending().last().1 matches GameplayExecutionRequest::ApplyGameplayEffect(r)
                && r.target() == target && r.effect() == effect && r.payload() == payload)),
    {
        let result = self.push(GameplayExecutionRequest::ApplyGameplayEffect(GameplayEffectApplicationRequest::new(target, effect, payload)));
        proof {
            if old(self).next_id() < u64::MAX {
                assert(self.pending().drop_last() =~= old(self).pending());
            }
        }
        result
    }
}

impl<S: Clone, V: Clone, F, P> GameplayExecutionQueue<GameplayExecutionRequest<S, V, F, P>> {
    /// Appends an activation of `handle` chained from the active ability `parent_ability`,
    /// whose context derives from `parent_context`.
    ///
    /// Fails with [`GameplayExecutionQueueError::InvalidChain`], without enqueuing, when the
    /// parent context has no chain or its chain cannot be extended by `handle`; otherwise fails
    /// as [`GameplayExecutionQueue::push`] does.
    pub fn push_chained_activation(
        &mut self,
        source: EntityId,
        target: EntityId,
        handle: AbilitySpecHandle,
        parent_ability: EntityId,
        parent_context: &AbilityActivationContext<S, V>,
    ) -> (result: Result<GameplayExecutionRequestId, GameplayExecutionQueueError>)
        requires
            old(self).wf(),
        ensures
            final(self).wf(),
            final(self).next_chain() == old(self).next_chain(),
            parent_context.chain() is None ==> result == Err::<GameplayExecutionRequestId, GameplayExecutionQueueError>(
                GameplayExecutionQueueError::InvalidChain(AbilityChainError::EmptyChain { chain_id: 0 }),
            ) && *final(self) == *old(self),
            parent_context.chain() matches Some(chain) ==> match chain_extension(chain.chain_id(), chain.depth(), chain.visited(), handle) {
                Err(e) => result == Err::<GameplayExecutionRequestId, GameplayExecutionQueueError>(
                    GameplayExecutionQueueError::InvalidChain(e),
                ) && *final(self) == *old(self),
                Ok(_) => {
                    &&& old(self).next_id() == u64::MAX ==> result == Err::<
                        GameplayExecutionRequestId,
                        GameplayExecutionQueueError,
                    >(GameplayExecutionQueueError::RequestIdExhausted) && final(self).pending() == old(self).pending()
                        && final(self).next_id() == old(self).next_id()
                    &&& old(self).next_id() < u64::MAX ==> (result matches Ok(id) && id.value() == old(self).next_id()
                        && final(self).next_id() == old(self).next_id() + 1 && final(self).pending().drop_last()
                        == old(self).pending() && final(self).pending().len() == old(self).pending().len() + 1
                        && final(self).pending().last().0 == id
                        && (final(self).pending().last().1 matches GameplayExecutionRequest::ActivateAbility(r)
                        && r.source() == source && r.target() == target && r.handle() == handle
                        && chained_from(*parent_context, parent_ability, handle, r.context())))
                },
            },
    {
        let context = match parent_context.child_for_chained_ability(parent_ability, handle) {
            Ok(context) => context,
            Err(e) => {
                return Err(GameplayExecutionQueueError::InvalidChain(e));
            },
        };
        self.push_activation(source, target, handle, context)
    }
}

/// An error returned by the primary operation of one queued request: an ability activation
/// error of type `A`, or an effect application error.
#[derive(Debug, Clone, Copy, PartialEq, Eq)]
pub enum GameplayExecutionError<A> {
    /// Ability activation could not complete.
    AbilityActivation(A),
    /// Gameplay-effect application could not complete.
    EffectApplication(GameplayEffectApplicationError),
}

impl<A> GameplayExecutionError<A> {
    /// Returns whether the failure is an expected gameplay rejection; `activation_rejection`
    /// classifies activation errors.
    pub fn is_rejection<R: Fn(&A) -> bool>(&self, activation_rejection: R) -> (rejection: bool)
        requires
            forall|error: &A| activation_rejection.requires((error,)),
        ensures
            match self {
                GameplayExecutionError::AbilityActivation(error) => activation_rejection.ensures((error,), rejection),
                GameplayExecutionError::EffectApplication(error) => rejection == error.rejects(),
            },
    {
        match self {
            GameplayExecutionError::AbilityActivation(error) => activation_rejection(error),
            GameplayExecutionError::EffectApplication(error) => error.is_rejection(),
        }
    }
}

/// Outcome of a queued request, keeping the error of type `E` when it failed.
#[derive(Debug, Clone, Copy, PartialEq, Eq)]
pub enum GameplayExecutionOutcome<E> {
    /// The request's primary operation succeeded.
    Succeeded,
    /// A gameplay rule rejected the request, such as cooldown, cost, or immunity.
    Rejected(E),
    /// Invalid configuration or missing runtime state prevented execution.
    Failed(E),
}

impl<E> GameplayExecutionOutcome<E> {
    /// Classifies a request's result: success, or its error as a rejection when `rejection`
    /// holds and as a failure otherwise.
    pub fn from_result(result: Result<(), E>, rejection: bool) -> (outcome: Self)
        ensures
            result is Ok ==> outcome is Succeeded,
            result matches Err(e) ==> outcome == if rejection {
                GameplayExecutionOutcome::Rejected(e)
            } else {
                GameplayExecutionOutcome::Failed(e)
            },
    {
        match result {
            Ok(()) => GameplayExecutionOutcome::Succeeded,
            Err(error) => if rejection {
                GameplayExecutionOutcome::Rejected(error)
            } else {
                GameplayExecutionOutcome::Failed(error)
            },
        }
    }
}

} // verus!
