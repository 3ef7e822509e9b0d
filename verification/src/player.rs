//! A seat at the table: the permanent collection and the stack claimed this
//! round, if any.

use vstd::prelude::*;

use crate::card::Card;
use crate::engine::Error;
use crate::stack::Stack;

verus! {

/// A player's collected cards and the at-most-one stack claimed since the
/// last round end.
#[derive(Clone, Debug, PartialEq, Eq)]
pub struct Player {
    pub cards: Vec<Card>,
    pub stack: Option<Stack>,
}

impl Player {
    /// The claimed stack, if any, holds at most its capacity plus the one
    /// gold-replenishment card that a Take may have pushed onto it.
    pub open spec fn wf(self) -> bool {
        match self.stack {
            Some(s) => s.cards@.len() <= s.capacity + 1,
            None => true,
        }
    }

    /// A stack has been claimed this round and not yet collected.
    pub open spec fn spec_has_stack(self) -> bool {
        self.stack is Some
    }

    /// A fresh player with no cards and no claimed stack.
    pub fn new() -> (p: Player)
        ensures
            p.cards@ == Seq::<Card>::empty(),
            p.stack is None,
    {
        Player { cards: Vec::new(), stack: None }
    }

    /// Claims `stack` for this round, replacing any earlier claim.
    pub fn insert_stack(&mut self, stack: Stack)
        ensures
            final(self).stack == Some(stack),
            final(self).cards == old(self).cards,
    {
        self.stack = Some(stack);
    }

    /// Merges the claimed stack into the collection and returns the emptied
    /// shell; fails with `NoStack` if nothing is claimed.
    pub fn collect_stack(&mut self) -> (r: Result<Stack, Error>)
        ensures
            old(self).stack is None ==> r == Err::<Stack, Error>(Error::NoStack) && *final(self)
                == *old(self),
            old(self).stack matches Some(taken) ==> {
                &&& (r matches Ok(shell) && shell.cards@ == Seq::<Card>::empty()
                    && shell.capacity == taken.capacity)
                &&& final(self).cards@ == old(self).cards@ + taken.cards@
                &&& final(self).stack is None
            },
    {
        let taken = self.stack.take();
        match taken {
            None => Err(Error::NoStack),
            Some(mut shell) => {
                self.cards.append(&mut shell.cards);
                Ok(shell)
            },
        }
    }

    pub fn has_stack(&self) -> (r: bool)
        ensures
            r == self.spec_has_stack(),
    {
        match &self.stack {
            Some(_) => true,
            None => false,
        }
    }
}

} // verus!
