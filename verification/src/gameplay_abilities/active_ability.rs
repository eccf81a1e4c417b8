use super::{AbilityActivationContext, AbilityActivationStatus, AbilityChainContext};
use crate::gameplay_targeting::AbilityActivationTargets;
use crate::identifiers::{AbilitySpecHandle, EntityId};
use vstd::prelude::*;

verus! {

/// Immutable input shared by every stage of one ability activation: the ability owner, the
/// captured targets (positions of type `V`), and the context (snapshots of type `S`).
pub struct AbilityActivationData<S, V> {
    source: EntityId,
    targets: AbilityActivationTargets<V>,
    context: AbilityActivationContext<S, V>,
}

impl<S, V> AbilityActivationData<S, V> {
    /// The entity that owns the activated ability.
    pub closed spec fn source(self) -> EntityId {
        self.source
    }

    /// The target selection captured for the activation.
    pub closed spec fn targets(self) -> AbilityActivationTargets<V> {
        self.targets
    }

    /// The metadata captured for the activation.
    pub closed spec fn context(self) -> AbilityActivationContext<S, V> {
        self.context
    }

    /// Creates the shared data for one ability activation.
    pub fn new(source: EntityId, targets: AbilityActivationTargets<V>, context: AbilityActivationContext<S, V>) -> (data: Self)
        ensures
            data.source() == source,
            data.targets() == targets,
            data.context() == context,
    {
        AbilityActivationData { source, targets, context }
    }

    /// Returns the entity that owns the activated ability.
    pub fn get_source(&self) -> (source: EntityId)
        ensures
            source == self.source(),
    {
        self.source
    }

    /// Returns the complete target selection captured for the activation.
    pub fn get_targets(&self) -> (targets: &AbilityActivationTargets<V>)
        ensures
            *targets == self.targets(),
    {
        &self.targets
    }

    /// Returns the primary target captured for the activation.
    pub fn get_target(&self) -> (target: EntityId)
        ensures
            target == self.targets().primary(),
    {
        self.targets.get_primary_target()
    }

    /// Returns the metadata captured for the activation.
    pub fn get_context(&self) -> (context: &AbilityActivationContext<S, V>)
        ensures
            *context == self.context(),
    {
        &self.context
    }
}

/// Runtime state of one active ability instance.
pub struct ActiveGameplayAbility<S, V> {
    spec_handle: AbilitySpecHandle,
    activation_data: AbilityActivationData<S, V>,
    status: AbilityActivationStatus,
}

impl<S, V> ActiveGameplayAbility<S, V> {
    /// The handle of the granted ability being executed.
    pub closed spec fn spec_handle(self) -> AbilitySpecHandle {
        self.spec_handle
    }

    /// The data captured for this activation.
    pub closed spec fn data(self) -> AbilityActivationData<S, V> {
        self.activation_data
    }

    /// The runtime status of this activation.
    pub closed spec fn status(self) -> AbilityActivationStatus {
        self.status
    }

    /// Creates active runtime state from separate activation inputs.
    pub fn new(
        source: EntityId,
        spec_handle: AbilitySpecHandle,
        targets: AbilityActivationTargets<V>,
        status: AbilityActivationStatus,
        activation_context: AbilityActivationContext<S, V>,
    ) -> (ability: Self)
        ensures
            ability.spec_handle() == spec_handle,
            ability.status() == status,
            ability.data().source() == source,
            ability.data().targets() == targets,
            ability.data().context() == activation_context,
    {
        Self::from_data(spec_handle, AbilityActivationData::new(source, targets, activation_context), status)
    }

    /// Creates active runtime state from previously captured activation data.
    pub fn from_data(spec_handle: AbilitySpecHandle, activation_data: AbilityActivationData<S, V>, status: AbilityActivationStatus) -> (ability: Self)
        ensures
            ability.spec_handle() == spec_handle,
            ability.data() == activation_data,
            ability.status() == status,
    {
        ActiveGameplayAbility { spec_handle, activation_data, status }
    }

    /// Returns the data captured for this activation.
    pub fn get_activation_data(&self) -> (data: &AbilityActivationData<S, V>)
        ensures
            *data == self.data(),
    {
        &self.activation_data
    }

    /// Returns the entity that owns the ability.
    pub fn get_source(&self) -> (source: EntityId)
        ensures
            source == self.data().source(),
    {
        self.activation_data.get_source()
    }

    /// Returns the handle of the granted ability being executed.
    pub fn get_spec_handle(&self) -> (handle: AbilitySpecHandle)
        ensures
            handle == self.spec_handle(),
    {
        self.spec_handle
    }

    /// Returns the complete target selection captured for this activation.
    pub fn get_targets(&self) -> (targets: &AbilityActivationTargets<V>)
        ensures
            *targets == self.data().targets(),
    {
        self.activation_data.get_targets()
    }

    /// Returns the primary target captured for this activation.
    pub fn get_target(&self) -> (target: EntityId)
        ensures
            target == self.data().targets().primary(),
    {
        self.activation_data.get_target()
    }

    /// Returns the runtime status of this activation.
    pub fn get_status(&self) -> (status: AbilityActivationStatus)
        ensures
            status == self.status(),
    {
        self.status
    }

    /// Returns the execution chain of this activation, if any.
    pub fn get_chain(&self) -> (chain: Option<&AbilityChainContext>)
        ensures
            chain is Some == self.data().context().chain() is Some,
            chain matches Some(c) ==> *c == self.data().context().chain()->0,
    {
        self.activation_data.get_context().get_chain()
    }

    /// Returns the context captured for this activation.
    pub fn get_activation_context(&self) -> (context: &AbilityActivationContext<S, V>)
        ensures
            *context == self.data().context(),
    {
        self.activation_data.get_context()
    }

    /// Replaces the runtime status; the rest of the state is unchanged.
    pub fn set_status(&mut self, status: AbilityActivationStatus)
        ensures
            final(self).status() == status,
            final(self).spec_handle() == old(self).spec_handle(),
            final(self).data() == old(self).data(),
    {
        self.status = status;
    }
}

} // verus!
