use crate::gameplay_abilities::AbilityActivationContext;
use crate::identifiers::EntityId;
use vstd::prelude::*;

verus! {

/// Who and what produced an effect application, with a source snapshot of type `S`.
#[derive(Clone)]
pub struct EffectPayload<S> {
    source: EntityId,
    instigator: EntityId,
    causer: Option<EntityId>,
    level: u32,
    source_snapshot: Option<S>,
}

impl<S> EffectPayload<S> {
    /// The entity whose attributes and tags provide the effect's gameplay source.
    pub closed spec fn source(self) -> EntityId {
        self.source
    }

    /// The entity that initiated the action producing the effect.
    pub closed spec fn instigator(self) -> EntityId {
        self.instigator
    }

    /// The physical entity that directly caused the effect, if any.
    pub closed spec fn causer(self) -> Option<EntityId> {
        self.causer
    }

    /// The effect level.
    pub closed spec fn level(self) -> u32 {
        self.level
    }

    /// The captured source snapshot, if any.
    pub closed spec fn snapshot(self) -> Option<S> {
        self.source_snapshot
    }

    /// Creates a payload with `source` as both the gameplay source and the instigator.
    pub fn new(source: EntityId, causer: Option<EntityId>, level: u32) -> (payload: Self)
        ensures
            payload.source() == source,
            payload.instigator() == source,
            payload.causer() == causer,
            payload.level() == level,
            payload.snapshot() is None,
    {
        EffectPayload { source, instigator: source, causer, level, source_snapshot: None }
    }

    /// Sets the entity that initiated the action producing the effect.
    pub fn with_instigator(self, instigator: EntityId) -> (payload: Self)
        ensures
            payload.instigator() == instigator,
            payload.source() == self.source(),
            payload.causer() == self.causer(),
            payload.level() == self.level(),
            payload.snapshot() == self.snapshot(),
    {
        EffectPayload { instigator, ..self }
    }

    /// Captures a source snapshot.
    pub fn with_source_snapshot(self, source_snapshot: S) -> (payload: Self)
        ensures
            payload.snapshot() == Some(source_snapshot),
            payload.source() == self.source(),
            payload.instigator() == self.instigator(),
            payload.causer() == self.causer(),
            payload.level() == self.level(),
    {
        EffectPayload { source_snapshot: Some(source_snapshot), ..self }
    }

    /// Returns the entity whose attributes and tags provide the effect's gameplay source.
    pub fn get_source(&self) -> (source: EntityId)
        ensures
            source == self.source(),
    {
        self.source
    }

    /// Returns the entity that initiated the action producing the effect.
    pub fn get_instigator(&self) -> (instigator: EntityId)
        ensures
            instigator == self.instigator(),
    {
        self.instigator
    }

    /// Returns the physical entity that directly caused the effect, if any.
    pub fn get_causer(&self) -> (causer: Option<EntityId>)
        ensures
            causer == self.causer(),
    {
        self.causer
    }

    /// Returns the effect level.
    pub fn get_level(&self) -> (level: u32)
        ensures
            level == self.level(),
    {
        self.level
    }

    /// Returns the captured source snapshot, if any.
    pub fn get_source_snapshot(&self) -> (snapshot: Option<&S>)
        ensures
            snapshot is Some == self.snapshot() is Some,
            snapshot matches Some(s) ==> *s == self.snapshot()->0,
    {
        self.source_snapshot.as_ref()
    }
}

/// `payload` is the payload of an effect applied by an ability owned by `source` at `level`,
/// with the activation context `context`: without one it has no causer and `source`
/// instigates; otherwise the causer and the instigator come from the context, with a copy of
/// its snapshot when it has one.
pub open spec fn payload_from_context<S: Clone, V>(
    payload: EffectPayload<S>,
    source: EntityId,
    level: u32,
    context: Option<AbilityActivationContext<S, V>>,
) -> bool {
    &&& payload.source() == source
    &&& payload.level() == level
    &&& context is None ==> payload.instigator() == source && payload.causer() is None && payload.snapshot() is None
    &&& context matches Some(c) ==> {
        &&& payload.instigator() == c.instigator()
        &&& payload.causer() == c.causer()
        &&& payload.snapshot() is Some == c.snapshot() is Some
        &&& payload.snapshot() matches Some(s) ==> cloned::<S>(c.snapshot()->0, s)
    }
}

/// Builds the payload of an effect applied by an ability owned by `source` at `level`.
///
/// Without an activation context the payload has no causer. Otherwise the causer and the
/// instigator come from the context, with a copy of its snapshot when it has one.
pub fn effect_payload_from_ability_context<S: Clone, V>(
    source: EntityId,
    level: u32,
    activation_context: Option<&AbilityActivationContext<S, V>>,
) -> (payload: EffectPayload<S>)
    ensures
        payload_from_context(
            payload,
            source,
            level,
            match activation_context {
                Some(c) => Some(*c),
                None => None,
            },
        ),
{
    match activation_context {
        None => EffectPayload::new(source, None, level),
        Some(context) => {
            let payload = EffectPayload::new(source, context.get_causer(), level).with_instigator(
                context.get_instigator(),
            );
            match context.get_source_snapshot() {
                Some(snapshot) => payload.with_source_snapshot(snapshot.clone()),
                None => payload,
            }
        },
    }
}

} // verus!
