//! A FIFO of gameplay-effect applications waiting to be applied.

use crate::gameplay_execution::GameplayEffectApplicationRequest;
use crate::identifiers::EntityId;
use std::collections::VecDeque;
use vstd::prelude::*;

verus! {

/// Queue of pending effect applications of type `R`, oldest first.
pub struct GameplayEffectApplicationQueue<R> {
    requests: VecDeque<R>,
}

impl<R> GameplayEffectApplicationQueue<R> {
    /// The pending applications, oldest first.
    pub closed spec fn pending(self) -> Seq<R> {
        self.requests@
    }

    /// Creates an empty queue.
    pub fn new() -> (queue: Self)
        ensures
            queue.pending().len() == 0,
    {
        GameplayEffectApplicationQueue { requests: VecDeque::new() }
    }

    /// Appends `request` after every pending application.
    pub fn push(&mut self, request: R)
        ensures
            final(self).pending() == old(self).pending().push(request),
    {
        self.requests.push_back(request);
    }

    /// Removes and returns the oldest pending application, or `None` when empty.
    pub fn pop(&mut self) -> (front: Option<R>)
        ensures
            old(self).pending().len() == 0 ==> front is None && final(self).pending() == old(self).pending(),
            old(self).pending().len() > 0 ==> front == Some(old(self).pending()[0]) && final(self).pending()
                == old(self).pending().drop_first(),
    {
        let front = self.requests.pop_front();
        proof {
            if old(self).pending().len() > 0 {
                assert(self.pending() =~= old(self).pending().drop_first());
            }
        }
        front
    }

    /// Returns whether no application is pending.
    pub fn is_empty(&self) -> (empty: bool)
        ensures
            empty == (self.pending().len() == 0),
    {
        self.requests.len() == 0
    }

    /// Returns the number of pending applications.
    pub fn len(&self) -> (count: usize)
        ensures
            count == self.pending().len(),
    {
        self.requests.len()
    }

    /// Removes every pending application.
    pub fn clear(&mut self)
        ensures
            final(self).pending().len() == 0,
    {
        self.requests.clear();
    }
}

impl<F, P> GameplayEffectApplicationQueue<GameplayEffectApplicationRequest<F, P>> {
    /// Appends an application of `effect` to `target` with `payload`.
    pub fn push_application(&mut self, target: EntityId, effect: F, payload: P)
        ensures
            final(self).pending().len() == old(self).pending().len() + 1,
            final(self).pending().drop_last() == old(self).pending(),
            final(self).pending().last().target() == target,
            final(self).pending().last().effect() == effect,
            final(self).pending().last().payload() == payload,
    {
        self.push(GameplayEffectApplicationRequest::new(target, effect, payload));
        proof {
            assert(self.pending().drop_last() =~= old(self).pending());
        }
    }
}

} // verus!
