use crate::identifiers::AbilitySpecHandle;
use crate::settings::GameplayAbilitySystemSettings;
use vstd::prelude::*;

verus! {

/// Why an ability chain could not be extended or validated.
#[derive(Debug, Clone, Copy, PartialEq, Eq, Structural)]
pub enum AbilityChainError {
    DepthExceeded { chain_id: u64, max_depth: u8 },
    CycleDetected { chain_id: u64, handle: AbilitySpecHandle },
    HandleMismatch { chain_id: u64, expected: AbilitySpecHandle, actual: AbilitySpecHandle },
    EmptyChain { chain_id: u64 },
}

/// Maximum number of chained activations after the root activation.
pub open spec fn chain_max_depth() -> u8 {
    GameplayAbilitySystemSettings::ABILITY_CHAIN_MAX_DEPTH
}

/// A chain as built from its root: every handle appears once and the depth counts the
/// activations after the root.
pub open spec fn chain_well_built(depth: u8, visited: Seq<AbilitySpecHandle>) -> bool {
    &&& visited.no_duplicates()
    &&& visited.len() == depth + 1
    &&& depth <= chain_max_depth()
}

/// The outcome of extending a chain by `handle`: the new depth and visited handles.
pub open spec fn chain_extension(
    chain_id: u64,
    depth: u8,
    visited: Seq<AbilitySpecHandle>,
    handle: AbilitySpecHandle,
) -> Result<(u8, Seq<AbilitySpecHandle>), AbilityChainError> {
    if depth >= chain_max_depth() {
        Err(AbilityChainError::DepthExceeded { chain_id, max_depth: chain_max_depth() })
    } else if visited.contains(handle) {
        Err(AbilityChainError::CycleDetected { chain_id, handle })
    } else {
        Ok(((depth + 1) as u8, visited.push(handle)))
    }
}

/// The outcome of validating a chain for the activation of `handle`.
pub open spec fn chain_validation(
    chain_id: u64,
    depth: u8,
    visited: Seq<AbilitySpecHandle>,
    handle: AbilitySpecHandle,
) -> Result<(), AbilityChainError> {
    if visited.len() == 0 {
        Err(AbilityChainError::EmptyChain { chain_id })
    } else if visited.last() != handle {
        Err(AbilityChainError::HandleMismatch { chain_id, expected: visited.last(), actual: handle })
    } else if visited.drop_last().contains(handle) {
        Err(AbilityChainError::CycleDetected { chain_id, handle })
    } else if depth > chain_max_depth() {
        Err(AbilityChainError::DepthExceeded { chain_id, max_depth: chain_max_depth() })
    } else {
        Ok(())
    }
}

/// The root chain of `handle` is well built and validates for `handle`.
pub proof fn lemma_root_chain_validates(chain_id: u64, handle: AbilitySpecHandle)
    ensures
        chain_well_built(0, seq![handle]),
        chain_validation(chain_id, 0, seq![handle], handle) is Ok,
{
    assert(seq![handle].drop_last() =~= Seq::<AbilitySpecHandle>::empty());
}

/// Extending a well-built chain yields a well-built chain that validates for the new handle.
pub proof fn lemma_extension_validates(
    chain_id: u64,
    depth: u8,
    visited: Seq<AbilitySpecHandle>,
    handle: AbilitySpecHandle,
)
    requires
        chain_well_built(depth, visited),
        chain_extension(chain_id, depth, visited, handle) is Ok,
    ensures
        ({
            let (next_depth, next_visited) = chain_extension(chain_id, depth, visited, handle)->Ok_0;
            chain_well_built(next_depth, next_visited) && chain_validation(
                chain_id,
                next_depth,
                next_visited,
                handle,
            ) is Ok
        }),
{
    let next = visited.push(handle);
    assert(next.drop_last() =~= visited);
    assert(next.no_duplicates()) by {
        assert forall|i: int, j: int| 0 <= i < next.len() && 0 <= j < next.len() && i != j implies next[i] != next[j] by {
            if i < visited.len() && j < visited.len() {
            } else if i < visited.len() {
                assert(visited.contains(next[i]));
            } else {
                assert(visited.contains(next[j]));
            }
        }
    }
}

/// Ordered record of one chain of ability activations.
#[derive(Debug, PartialEq, Eq)]
pub struct AbilityChainContext {
    chain_id: u64,
    depth: u8,
    visited: Vec<AbilitySpecHandle>,
}

impl AbilityChainContext {
    /// Maximum number of chained activations after the root activation.
    pub const MAX_DEPTH: u8 = GameplayAbilitySystemSettings::ABILITY_CHAIN_MAX_DEPTH;

    /// The chain identifier.
    pub closed spec fn chain_id(self) -> u64 {
        self.chain_id
    }

    /// The number of chained activations after the root.
    pub closed spec fn depth(self) -> u8 {
        self.depth
    }

    /// The handles activated so far, root first.
    pub closed spec fn visited(self) -> Seq<AbilitySpecHandle> {
        self.visited@
    }

    /// Whether the chain is as built from its root by successful extensions.
    pub open spec fn is_well_built(self) -> bool {
        chain_well_built(self.depth(), self.visited())
    }

    /// Starts a chain at `handle`.
    pub fn root(handle: AbilitySpecHandle, chain_id: u64) -> (chain: Self)
        ensures
            chain.chain_id() == chain_id,
            chain.depth() == 0,
            chain.visited() == seq![handle],
            chain.is_well_built(),
    {
        let mut visited = Vec::new();
        visited.push(handle);
        proof {
            lemma_root_chain_validates(chain_id, handle);
            assert(visited@ =~= seq![handle]);
        }
        AbilityChainContext { chain_id, depth: 0, visited }
    }

    /// Extends the chain by `handle`.
    ///
    /// Returns [`AbilityChainError::DepthExceeded`] when the chain is already at its maximum
    /// depth, or [`AbilityChainError::CycleDetected`] when `handle` was already activated.
    pub fn next(&self, handle: AbilitySpecHandle) -> (result: Result<Self, AbilityChainError>)
        ensures
            match chain_extension(self.chain_id(), self.depth(), self.visited(), handle) {
                Ok((depth, visited)) => result matches Ok(next) && next.chain_id() == self.chain_id()
                    && next.depth() == depth && next.visited() == visited,
                Err(e) => result == Err::<Self, AbilityChainError>(e),
            },
            self.is_well_built() && result is Ok ==> result->Ok_0.is_well_built(),
    {
        if self.depth >= Self::MAX_DEPTH {
            return Err(AbilityChainError::DepthExceeded { chain_id: self.chain_id, max_depth: Self::MAX_DEPTH });
        }
        if contains_handle(self.visited.as_slice(), handle) {
            return Err(AbilityChainError::CycleDetected { chain_id: self.chain_id, handle });
        }
        let mut visited = copy_handles(self.visited.as_slice());
        visited.push(handle);
        let next = AbilityChainContext { chain_id: self.chain_id, depth: self.depth + 1, visited };
        proof {
            if self.is_well_built() {
                lemma_extension_validates(self.chain_id, self.depth, self.visited@, handle);
            }
        }
        Ok(next)
    }

    /// Checks that the chain's latest activation is `handle`, that `handle` was not activated
    /// earlier in the chain, and that the chain is within its depth limit.
    pub fn validate_for_handle(&self, handle: AbilitySpecHandle) -> (result: Result<(), AbilityChainError>)
        ensures
            result == chain_validation(self.chain_id(), self.depth(), self.visited(), handle),
            self.is_well_built() ==> (result is Ok <==> handle == self.visited().last()),
    {
        let len = self.visited.len();
        if len == 0 {
            return Err(AbilityChainError::EmptyChain { chain_id: self.chain_id });
        }
        let current_handle = self.visited[len - 1];
        if current_handle != handle {
            return Err(AbilityChainError::HandleMismatch { chain_id: self.chain_id, expected: current_handle, actual: handle });
        }
        let earlier = &self.visited.as_slice()[0..len - 1];
        if contains_handle(earlier, handle) {
            return Err(AbilityChainError::CycleDetected { chain_id: self.chain_id, handle });
        }
        if self.depth > Self::MAX_DEPTH {
            return Err(AbilityChainError::DepthExceeded { chain_id: self.chain_id, max_depth: Self::MAX_DEPTH });
        }
        proof {
            if self.is_well_built() {
                assert(!self.visited@.drop_last().contains(self.visited@.last())) by {
                    if self.visited@.drop_last().contains(self.visited@.last()) {
                        let j = choose|j: int| 0 <= j < self.visited@.len() - 1 && self.visited@.drop_last()[j] == self.visited@.last();
                        assert(self.visited@[j] == self.visited@[self.visited@.len() - 1]);
                    }
                }
            }
        }
        Ok(())
    }

    /// Returns the chain identifier.
    pub fn get_chain_id(&self) -> (chain_id: u64)
        ensures
            chain_id == self.chain_id(),
    {
        self.chain_id
    }

    /// Returns the number of chained activations after the root.
    pub fn get_depth(&self) -> (depth: u8)
        ensures
            depth == self.depth(),
    {
        self.depth
    }

    /// Returns the handles activated so far, root first.
    pub fn get_visited(&self) -> (visited: &[AbilitySpecHandle])
        ensures
            visited@ == self.visited(),
    {
        self.visited.as_slice()
    }
}

impl Clone for AbilityChainContext {
    /// Copies the chain.
    fn clone(&self) -> (copy: Self)
        ensures
            copy.chain_id() == self.chain_id(),
            copy.depth() == self.depth(),
            copy.visited() == self.visited(),
    {
        AbilityChainContext { chain_id: self.chain_id, depth: self.depth, visited: copy_handles(self.visited.as_slice()) }
    }
}

fn contains_handle(handles: &[AbilitySpecHandle], handle: AbilitySpecHandle) -> (found: bool)
    ensures
        found == handles@.contains(handle),
{
    let mut k: usize = 0;
    while k < handles.len()
        invariant
            0 <= k <= handles@.len(),
            forall|j: int| 0 <= j < k ==> handles@[j] != handle,
        decreases handles@.len() - k,
    {
        if handles[k] == handle {
            assert(handles@[k as int] == handle);
            return true;
        }
        k = k + 1;
    }
    false
}

fn copy_handles(handles: &[AbilitySpecHandle]) -> (copy: Vec<AbilitySpecHandle>)
    ensures
        copy@ == handles@,
{
    let mut copy: Vec<AbilitySpecHandle> = Vec::new();
    let mut k: usize = 0;
    while k < handles.len()
        invariant
            0 <= k <= handles@.len(),
            copy@ == handles@.take(k as int),
        decreases handles@.len() - k,
    {
        copy.push(handles[k]);
        proof {
            assert(handles@.take(k + 1) == handles@.take(k as int).push(handles@[k as int]));
        }
        k = k + 1;
    }
    assert(handles@.take(handles@.len() as int) == handles@);
    copy
}

} // verus!
