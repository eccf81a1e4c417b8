use super::{chain_extension, AbilityChainContext, AbilityChainError};
use crate::gameplay_targeting::{target_data_copied, AbilityTargetData};
use crate::identifiers::{AbilitySpecHandle, EntityId, UniqueName};
use vstd::prelude::*;

verus! {

/// Why an ability activation was requested.
#[derive(Debug, Clone, Copy, PartialEq, Eq, Structural)]
pub enum AbilityActivationReason {
    Direct,
    /// Activation requested by an application-defined input action.
    Input,
    /// Activation chained from the active ability `parent_ability`.
    Chained { parent_ability: EntityId },
    /// Activation requested by a task event.
    TaskEvent { event_id: UniqueName },
    /// Activation requested by a gameplay effect.
    GameplayEffect,
}

/// How an ability activation was initiated, with an optional source snapshot of type `S` and
/// the target data, with positions of type `V`, acquired for it.
pub struct AbilityActivationContext<S, V> {
    chain: Option<AbilityChainContext>,
    instigator: EntityId,
    causer: Option<EntityId>,
    source_snapshot: Option<S>,
    target_data: Option<AbilityTargetData<V>>,
    reason: AbilityActivationReason,
}

impl<S, V> AbilityActivationContext<S, V> {
    /// The execution chain of the activation, if any.
    pub closed spec fn chain(self) -> Option<AbilityChainContext> {
        self.chain
    }

    /// The entity that initiated the activation.
    pub closed spec fn instigator(self) -> EntityId {
        self.instigator
    }

    /// The physical entity that directly caused the activation, if any.
    pub closed spec fn causer(self) -> Option<EntityId> {
        self.causer
    }

    /// The captured source snapshot, if any.
    pub closed spec fn snapshot(self) -> Option<S> {
        self.source_snapshot
    }

    /// The target data acquired for the activation, if any.
    pub closed spec fn target_data(self) -> Option<AbilityTargetData<V>> {
        self.target_data
    }

    /// Why the activation was requested.
    pub closed spec fn reason(self) -> AbilityActivationReason {
        self.reason
    }

    /// Creates a direct activation context using `source` as the instigator.
    pub fn direct(source: EntityId, chain: AbilityChainContext) -> (context: Self)
        ensures
            context.chain() == Some(chain),
            context.instigator() == source,
            context.causer() is None,
            context.snapshot() is None,
            context.target_data() is None,
            context.reason() == AbilityActivationReason::Direct,
    {
        AbilityActivationContext {
            chain: Some(chain),
            instigator: source,
            causer: None,
            source_snapshot: None,
            target_data: None,
            reason: AbilityActivationReason::Direct,
        }
    }

    /// Creates an input activation context using `source` as the instigator.
    pub fn input(source: EntityId, chain: AbilityChainContext) -> (context: Self)
        ensures
            context.chain() == Some(chain),
            context.instigator() == source,
            context.causer() is None,
            context.snapshot() is None,
            context.target_data() is None,
            context.reason() == AbilityActivationReason::Input,
    {
        AbilityActivationContext {
            chain: Some(chain),
            instigator: source,
            causer: None,
            source_snapshot: None,
            target_data: None,
            reason: AbilityActivationReason::Input,
        }
    }

    /// Sets the optional physical entity that directly caused the activation.
    pub fn with_causer(self, causer: Option<EntityId>) -> (context: Self)
        ensures
            context.causer() == causer,
            context.chain() == self.chain(),
            context.instigator() == self.instigator(),
            context.snapshot() == self.snapshot(),
            context.target_data() == self.target_data(),
            context.reason() == self.reason(),
    {
        AbilityActivationContext { causer, ..self }
    }

    /// Sets the entity that initiated the activation.
    pub fn with_instigator(self, instigator: EntityId) -> (context: Self)
        ensures
            context.instigator() == instigator,
            context.chain() == self.chain(),
            context.causer() == self.causer(),
            context.snapshot() == self.snapshot(),
            context.target_data() == self.target_data(),
            context.reason() == self.reason(),
    {
        AbilityActivationContext { instigator, ..self }
    }

    /// Captures a source snapshot.
    pub fn with_source_snapshot(self, source_snapshot: S) -> (context: Self)
        ensures
            context.snapshot() == Some(source_snapshot),
            context.chain() == self.chain(),
            context.instigator() == self.instigator(),
            context.causer() == self.causer(),
            context.target_data() == self.target_data(),
            context.reason() == self.reason(),
    {
        AbilityActivationContext { source_snapshot: Some(source_snapshot), ..self }
    }

    /// Attaches the target data acquired for the activation.
    pub fn with_target_data(self, target_data: AbilityTargetData<V>) -> (context: Self)
        ensures
            context.target_data() == Some(target_data),
            context.chain() == self.chain(),
            context.instigator() == self.instigator(),
            context.causer() == self.causer(),
            context.snapshot() == self.snapshot(),
            context.reason() == self.reason(),
    {
        AbilityActivationContext { target_data: Some(target_data), ..self }
    }

    /// Returns the execution chain of the activation, if any.
    pub fn get_chain(&self) -> (chain: Option<&AbilityChainContext>)
        ensures
            chain is Some == self.chain() is Some,
            chain matches Some(c) ==> *c == self.chain()->0,
    {
        self.chain.as_ref()
    }

    /// Returns the entity that initiated the activation.
    pub fn get_instigator(&self) -> (instigator: EntityId)
        ensures
            instigator == self.instigator(),
    {
        self.instigator
    }

    /// Returns the physical entity that directly caused the activation, if any.
    pub fn get_causer(&self) -> (causer: Option<EntityId>)
        ensures
            causer == self.causer(),
    {
        self.causer
    }

    /// Returns the captured source snapshot, if any.
    pub fn get_source_snapshot(&self) -> (snapshot: Option<&S>)
        ensures
            snapshot is Some == self.snapshot() is Some,
            snapshot matches Some(s) ==> *s == self.snapshot()->0,
    {
        self.source_snapshot.as_ref()
    }

    /// Returns the target data acquired for the activation, if any.
    pub fn get_target_data(&self) -> (data: Option<&AbilityTargetData<V>>)
        ensures
            data is Some == self.target_data() is Some,
            data matches Some(d) ==> *d == self.target_data()->0,
    {
        self.target_data.as_ref()
    }

    /// Returns why the activation was requested.
    pub fn get_reason(&self) -> (reason: AbilityActivationReason)
        ensures
            reason == self.reason(),
    {
        self.reason
    }
}

/// `child` is the context of an activation of `handle` chained from the active ability
/// `parent_ability` with context `parent`: the chain of `parent` extended by `handle`, the same
/// instigator and causer, and copies of the snapshot and the target data.
pub open spec fn chained_from<S: Clone, V: Clone>(
    parent: AbilityActivationContext<S, V>,
    parent_ability: EntityId,
    handle: AbilitySpecHandle,
    child: AbilityActivationContext<S, V>,
) -> bool {
    &&& parent.chain() matches Some(chain) && child.chain() matches Some(c) && c.chain_id() == chain.chain_id()
        && chain_extension(chain.chain_id(), chain.depth(), chain.visited(), handle) == Ok::<
        (u8, Seq<AbilitySpecHandle>),
        AbilityChainError,
    >((c.depth(), c.visited()))
    &&& child.instigator() == parent.instigator()
    &&& child.causer() == parent.causer()
    &&& child.reason() == (AbilityActivationReason::Chained { parent_ability })
    &&& child.snapshot() is Some == parent.snapshot() is Some
    &&& child.snapshot() matches Some(s) ==> cloned::<S>(parent.snapshot()->0, s)
    &&& child.target_data() is Some == parent.target_data() is Some
    &&& child.target_data() matches Some(d) ==> target_data_copied(parent.target_data()->0, d)
}

impl<S: Clone, V: Clone> AbilityActivationContext<S, V> {
    /// Derives the context of an activation of `handle` chained from the active ability
    /// `parent_ability`: the chain is extended by `handle`, and the instigator, causer, and
    /// copies of the snapshot and the target data carry over.
    ///
    /// Fails without a chain, with an empty chain of identifier 0, and when the chain cannot be
    /// extended by `handle`.
    pub fn child_for_chained_ability(&self, parent_ability: EntityId, handle: AbilitySpecHandle) -> (result: Result<
        Self,
        AbilityChainError,
    >)
        ensures
            self.chain() is None ==> result == Err::<Self, AbilityChainError>(AbilityChainError::EmptyChain { chain_id: 0 }),
            self.chain() matches Some(chain) ==> match chain_extension(chain.chain_id(), chain.depth(), chain.visited(), handle) {
                Ok(_) => result matches Ok(child) && chained_from(*self, parent_ability, handle, child),
                Err(e) => result == Err::<Self, AbilityChainError>(e),
            },
    {
        let chain = match &self.chain {
            None => {
                return Err(AbilityChainError::EmptyChain { chain_id: 0 });
            },
            Some(chain) => chain,
        };
        let next = match chain.next(handle) {
            Ok(next) => next,
            Err(e) => {
                return Err(e);
            },
        };
        let source_snapshot = match &self.source_snapshot {
            None => None,
            Some(s) => Some(s.clone()),
        };
        let target_data = match &self.target_data {
            None => None,
            Some(d) => Some(d.clone()),
        };
        Ok(
            AbilityActivationContext {
                chain: Some(next),
                instigator: self.instigator,
                causer: self.causer,
                source_snapshot,
                target_data,
                reason: AbilityActivationReason::Chained { parent_ability },
            },
        )
    }
}

} // verus!
