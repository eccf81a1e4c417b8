use crate::identifiers::UniqueName;
use std::borrow::Cow;
use vstd::prelude::*;

verus! {

/// `Cow::clone`, used by the derived `Clone` of the error type; nothing is stated of the copy.
pub assume_specification<'a, B: ?Sized + ToOwned>[ <Cow<'a, B> as Clone>::clone ](c: &Cow<'a, B>) -> Cow<'a, B>;

/// One positive integer requirement interpreted by the game's additional-cost provider.
///
/// Resource identifiers belong to the game; the ability system does not store inventory
/// balances. Providers must evaluate repeated identifiers together and reject unsupported
/// identifiers.
#[derive(Debug, Clone, Copy, PartialEq, Eq)]
pub struct AdditionalCost {
    resource: UniqueName,
    amount: u32,
}

impl AdditionalCost {
    #[verifier::type_invariant]
    spec fn amount_is_positive(self) -> bool {
        self.amount > 0
    }

    /// The game-defined resource identifier.
    pub closed spec fn resource_name(self) -> UniqueName {
        self.resource
    }

    /// The requested quantity.
    pub closed spec fn amount_value(self) -> u32 {
        self.amount
    }

    /// Creates a requirement for `amount` units of `resource`.
    ///
    /// Returns [`AdditionalCostError::InvalidAmount`] for zero units.
    pub fn new(resource: UniqueName, amount: u32) -> (result: Result<Self, AdditionalCostError>)
        ensures
            amount == 0 ==> result matches Err(AdditionalCostError::InvalidAmount),
            amount > 0 ==> (result matches Ok(cost) && cost.resource_name() == resource
                && cost.amount_value() == amount),
    {
        if amount == 0 {
            return Err(AdditionalCostError::InvalidAmount);
        }
        Ok(AdditionalCost { resource, amount })
    }

    /// Returns the game-defined resource identifier.
    pub fn resource(&self) -> (resource: UniqueName)
        ensures
            resource == self.resource_name(),
    {
        self.resource
    }

    /// Returns the positive quantity requested by this requirement.
    pub fn amount(&self) -> (amount: u32)
        ensures
            amount == self.amount_value(),
            amount > 0,
    {
        proof {
            use_type_invariant(self);
        }
        self.amount
    }
}

/// A configuration error, gameplay rejection, or failure of an external-resource provider.
#[derive(Debug, Clone, PartialEq, Eq)]
pub enum AdditionalCostError {
    /// A requirement requested zero units.
    InvalidAmount,
    /// Additional requirements were supplied without configuring a provider.
    MissingProvider,
    /// The configured provider does not recognize this resource.
    UnsupportedResource {
        /// Identifier the provider cannot price or debit.
        resource: UniqueName,
    },
    /// The complete batch requires more units than are available.
    InsufficientResource {
        /// Resource whose available balance is insufficient.
        resource: UniqueName,
        /// Total required by the batch, including repeated entries.
        required: u32,
        /// Units currently available for payment.
        available: u32,
    },
    /// A game rule prevented payment without changing external state.
    Rejected {
        /// Game-specific explanation of the refusal.
        reason: Cow<'static, str>,
    },
    /// Provider state, arithmetic, or compensation failed.
    ProviderFailure {
        /// Diagnostic explanation of the provider failure.
        reason: Cow<'static, str>,
    },
}

impl AdditionalCostError {
    /// Returns whether the error is an expected gameplay rejection.
    pub fn is_rejection(&self) -> (r: bool)
        ensures
            r == (self is InsufficientResource || self is Rejected),
    {
        match self {
            AdditionalCostError::InsufficientResource { .. } | AdditionalCostError::Rejected { .. } => true,
            _ => false,
        }
    }
}

} // verus!
