//! The Coloretto rules engine: a deterministic state machine over the seated
//! players, the draw pile, the stacks in play, the face-up flipped card, and
//! the turn pointer.
//!
//! Two modes, gated by `current`: awaiting a flip (`current` is `None`) and
//! awaiting a placement (`current` is `Some`). Only a `Take` can end a round:
//! when after it every player holds a claimed stack, the remaining in-play
//! stacks are cleared, every claimed stack is merged into its owner's
//! collection, and the empty shells return to play in ascending capacity
//! order. The `winner` field and the `GameOver` error are part of the
//! interface, but no rule of the engine ever sets a winner.

use vstd::prelude::*;

use crate::action::Action;
use crate::card::Card;
use crate::deck::Deck;
use crate::player::Player;
use crate::stack::{caps_of, lemma_ucount_concat, sort_stacks_by_capacity, ucount, Stack};

verus! {

/// Why the engine refused an action or a construction.
#[derive(Clone, Copy, Debug, PartialEq, Eq, Structural, Hash)]
pub enum Error {
    /// Construction with a player count outside 2..=5.
    Players,
    /// Place with no card flipped.
    NoCard,
    /// Flip or Take while a card is already flipped.
    Flipped,
    /// A stack index out of range, or collecting with nothing claimed.
    NoStack,
    /// Take on a stack with no cards.
    EmptyStack,
    /// Place on a stack at capacity.
    FullStack,
    /// Any action after a winner is set.
    GameOver,
}

/// The full engine state.
#[derive(Clone, Debug, PartialEq, Eq)]
pub struct Coloretto {
    pub players: Vec<Player>,
    pub deck: Deck,
    pub stacks: Vec<Stack>,
    pub current: Option<Card>,
    pub turn: usize,
    pub winner: Option<usize>,
}

impl Coloretto {
    /// Well-formedness: a legal seat count, the turn pointer in range, every
    /// in-play stack within capacity, and every claimed stack within capacity
    /// plus at most one gold-replenishment card.
    pub open spec fn wf(self) -> bool {
        &&& 2 <= self.players@.len() <= 5
        &&& self.turn < self.players@.len()
        &&& forall|k: int| 0 <= k < self.stacks@.len() ==> (#[trigger] self.stacks@[k]).wf()
        &&& forall|j: int| 0 <= j < self.players@.len() ==> (#[trigger] self.players@[j]).wf()
    }
}

/// Which result `perform` returns, as a total function of the state it acts
/// on and the action: success and every error, each if and only if.
pub open spec fn spec_outcome(s: Coloretto, a: Action) -> Result<(), Error> {
    if s.winner is Some {
        Err(Error::GameOver)
    } else if s.current is None {
        match a {
            Action::Flip => Ok(()),
            Action::Place(_) => Err(Error::NoCard),
            Action::Take(i) => if i >= s.stacks@.len() {
                Err(Error::NoStack)
            } else if s.stacks@[i as int].cards@.len() == 0 {
                Err(Error::EmptyStack)
            } else {
                Ok(())
            },
        }
    } else {
        match a {
            Action::Flip => Err(Error::Flipped),
            Action::Place(i) => if i >= s.stacks@.len() {
                Err(Error::NoStack)
            } else if s.stacks@[i as int].cards@.len() >= s.stacks@[i as int].capacity {
                Err(Error::FullStack)
            } else {
                Ok(())
            },
            Action::Take(_) => Err(Error::Flipped),
        }
    }
}

/// A successful Take ends the round exactly when every other seat already
/// holds a claimed stack, so that after this take all seats hold one.
pub open spec fn spec_take_ends_round(s: Coloretto) -> bool {
    forall|j: int|
        0 <= j < s.players@.len() && j != s.turn ==> (#[trigger] s.players@[j]).spec_has_stack()
}

/// The cards of the taken stack after gold replenishment: taking a stack
/// that holds a Gold card draws one extra card from the deck onto it, when a
/// card remains to draw.
pub open spec fn spec_taken_cards(s: Coloretto, i: int) -> Seq<Card> {
    let base = s.stacks@[i].cards@;
    if base.contains(Card::Gold) && s.deck.cards@.len() > 0 {
        base.push(s.deck.cards@.last())
    } else {
        base
    }
}

/// The deck after a Take at `i`: one card shorter exactly when the taken
/// stack held a Gold card and the deck was not exhausted.
pub open spec fn spec_take_deck(s: Coloretto, i: int) -> Seq<Card> {
    if s.stacks@[i].cards@.contains(Card::Gold) && s.deck.cards@.len() > 0 {
        s.deck.cards@.drop_last()
    } else {
        s.deck.cards@
    }
}

/// The capacities that return to play at a round end: each seat's claimed
/// stack capacity, the acting seat's being that of the just-taken stack.
pub open spec fn spec_round_caps(players: Seq<Player>, turn: int, taken_cap: usize) -> Seq<usize> {
    Seq::new(
        players.len(),
        |j: int|
            if j == turn {
                taken_cap
            } else {
                players[j].stack->Some_0.capacity
            },
    )
}

/// What a successful Flip does: the top of the deck becomes the flipped card
/// (an exhausted deck leaves no card flipped), and nothing else moves; in
/// particular the turn never advances on a Flip.
pub open spec fn spec_flip_post(s: Coloretto, t: Coloretto) -> bool {
    &&& t.players == s.players
    &&& t.stacks == s.stacks
    &&& t.turn == s.turn
    &&& t.winner == s.winner
    &&& (s.deck.cards@.len() == 0 ==> t.current is None && t.deck.cards@ == s.deck.cards@)
    &&& (s.deck.cards@.len() > 0 ==> t.current == Some(s.deck.cards@.last()) && t.deck.cards@
        == s.deck.cards@.drop_last())
}

/// What a successful Place at `i` does: the flipped card goes on top of
/// stack `i`, the flip slot empties, and the turn advances by one seat.
pub open spec fn spec_place_post(s: Coloretto, t: Coloretto, i: int) -> bool {
    &&& t.players == s.players
    &&& t.deck == s.deck
    &&& t.winner == s.winner
    &&& t.current is None
    &&& t.turn as int == (s.turn + 1) % (s.players@.len() as int)
    &&& t.stacks@.len() == s.stacks@.len()
    &&& forall|k: int| 0 <= k < s.stacks@.len() && k != i ==> t.stacks@[k] == s.stacks@[k]
    &&& t.stacks@[i].cards@ == s.stacks@[i].cards@.push(s.current->Some_0)
    &&& t.stacks@[i].capacity == s.stacks@[i].capacity
}

/// What a successful Take at `i` does. The stack leaves play, is replenished
/// if it holds gold, and becomes the acting seat's claimed stack. If that
/// leaves every seat with a claim, the round ends: claims merge into the
/// owners' collections, the shells and the cleared leftover stacks return to
/// play sorted by capacity, and the turn stays. Otherwise the turn advances
/// by one seat.
pub open spec fn spec_take_post(s: Coloretto, t: Coloretto, i: int) -> bool {
    &&& t.current == s.current
    &&& t.winner == s.winner
    &&& t.deck.cards@ == spec_take_deck(s, i)
    &&& t.players@.len() == s.players@.len()
    &&& if spec_take_ends_round(s) {
        &&& t.turn == s.turn
        &&& forall|j: int| 0 <= j < t.players@.len() ==> (#[trigger] t.players@[j]).stack is None
        &&& forall|j: int|
            0 <= j < t.players@.len() && j != s.turn ==> (#[trigger] t.players@[j]).cards@
                == s.players@[j].cards@ + s.players@[j].stack->Some_0.cards@
        &&& t.players@[s.turn as int].cards@ == s.players@[s.turn as int].cards@
            + spec_taken_cards(s, i)
        &&& t.stacks@.len() == s.stacks@.len() - 1 + s.players@.len()
        &&& forall|k: int| 0 <= k < t.stacks@.len() ==> (#[trigger] t.stacks@[k]).cards@.len()
            == 0
        &&& forall|k1: int, k2: int|
            0 <= k1 <= k2 < t.stacks@.len() ==> (#[trigger] t.stacks@[k1]).capacity
                <= (#[trigger] t.stacks@[k2]).capacity
        &&& forall|c: usize|
            #[trigger] ucount(caps_of(t.stacks@), c) == ucount(caps_of(s.stacks@.remove(i)), c)
                + ucount(spec_round_caps(s.players@, s.turn as int, s.stacks@[i].capacity), c)
    } else {
        &&& t.turn as int == (s.turn + 1) % (s.players@.len() as int)
        &&& t.stacks@ == s.stacks@.remove(i)
        &&& forall|j: int|
            0 <= j < t.players@.len() && j != s.turn ==> #[trigger] t.players@[j]
                == s.players@[j]
        &&& t.players@[s.turn as int].cards == s.players@[s.turn as int].cards
        &&& (t.players@[s.turn as int].stack matches Some(st) && st.cards@ == spec_taken_cards(
            s,
            i,
        ) && st.capacity == s.stacks@[i].capacity)
    }
}

/// What a freshly built engine for `size` seats looks like: every seat
/// empty-handed, seat 0 to act, nothing flipped, no winner, a deck sized to
/// the seat count, and the stack layout of capacities 1, 2, 3 for two seats
/// or one capacity-3 stack per seat otherwise.
pub open spec fn spec_fresh_engine(g: Coloretto, size: int) -> bool {
    &&& g.wf()
    &&& g.players@.len() == size
    &&& forall|j: int|
        0 <= j < size ==> (#[trigger] g.players@[j]).cards@.len() == 0 && g.players@[j].stack
            is None
    &&& g.turn == 0
    &&& g.current is None
    &&& g.winner is None
    &&& g.deck.cards@.len() == (if size == 2 {
        58int
    } else if size == 3 {
        67int
    } else {
        76int
    })
    &&& forall|k: int| 0 <= k < g.stacks@.len() ==> (#[trigger] g.stacks@[k]).cards@.len() == 0
    &&& (size == 2 ==> g.stacks@.len() == 3 && g.stacks@[0].capacity == 1 && g.stacks@[1].capacity
        == 2 && g.stacks@[2].capacity == 3)
    &&& (size != 2 ==> g.stacks@.len() == size && forall|k: int|
        0 <= k < size ==> (#[trigger] g.stacks@[k]).capacity == 3)
}

impl Coloretto {
    /// A fresh engine for `size` seats: a deck sized to the seat count,
    /// three stacks of capacities 1, 2, 3 for two seats and otherwise one
    /// capacity-3 stack per seat, no card flipped, seat 0 to act. Fails with
    /// `Players` exactly when `size` is outside 2..=5.
    pub fn new(size: usize) -> (r: Result<Coloretto, Error>)
        ensures
            r is Ok <==> 2 <= size <= 5,
            r is Err ==> r == Err::<Coloretto, Error>(Error::Players),
            r matches Ok(g) ==> spec_fresh_engine(g, size as int),
    {
        if size < 2 || size > 5 {
            return Err(Error::Players);
        }
        let mut players: Vec<Player> = Vec::new();
        let mut j: usize = 0;
        while j < size
            invariant
                j <= size,
                players@.len() == j,
                forall|m: int|
                    0 <= m < j ==> (#[trigger] players@[m]).cards@.len() == 0 && players@[m].stack
                        is None,
            decreases size - j,
        {
            players.push(Player::new());
            j = j + 1;
        }
        let deck = if size == 2 {
            Deck::small()
        } else if size == 3 {
            Deck::medium()
        } else {
            Deck::large()
        };
        let mut stacks: Vec<Stack> = Vec::new();
        if size == 2 {
            stacks.push(Stack::new(1));
            stacks.push(Stack::new(2));
            stacks.push(Stack::new(3));
        } else {
            let mut k: usize = 0;
            while k < size
                invariant
                    k <= size,
                    stacks@.len() == k,
                    forall|m: int|
                        0 <= m < k ==> (#[trigger] stacks@[m]).cards@.len() == 0
                            && stacks@[m].capacity == 3,
                decreases size - k,
            {
                stacks.push(Stack::new(3));
                k = k + 1;
            }
        }
        Ok(Coloretto { players, deck, stacks, current: None, turn: 0, winner: None })
    }


    /// Checks well-formedness at run time, for callers that obtained a state
    /// from outside (for instance by decoding a stored document).
    #[verifier::loop_isolation(false)]
    pub fn is_well_formed(&self) -> (r: bool)
        ensures
            r == self.wf(),
    {
        if self.players.len() < 2 || self.players.len() > 5 {
            return false;
        }
        if self.turn >= self.players.len() {
            return false;
        }
        let mut k: usize = 0;
        while k < self.stacks.len()
            invariant
                k <= self.stacks@.len(),
                forall|m: int| 0 <= m < k ==> (#[trigger] self.stacks@[m]).wf(),
            decreases self.stacks@.len() - k,
        {
            if self.stacks[k].cards.len() > self.stacks[k].capacity {
                proof {
                    assert(!self.stacks@[k as int].wf());
                }
                return false;
            }
            k = k + 1;
        }
        let mut j: usize = 0;
        while j < self.players.len()
            invariant
                j <= self.players@.len(),
                forall|m: int| 0 <= m < j ==> (#[trigger] self.players@[m]).wf(),
            decreases self.players@.len() - j,
        {
            let claimed = match &self.players[j].stack {
                None => true,
                Some(st) => !(st.cards.len() > 0 && st.cards.len() - 1 > st.capacity),
            };
            if !claimed {
                proof {
                    assert(!self.players@[j as int].wf());
                }
                return false;
            }
            j = j + 1;
        }
        true
    }

    /// The seat whose action is due.
    pub fn turn(&self) -> (t: usize)
        ensures
            t == self.turn,
    {
        self.turn
    }

    /// Applies one action. The result is `spec_outcome`; an error leaves the
    /// state untouched, and a success changes it as the matching post
    /// predicate says.
    pub fn perform(&mut self, action: Action) -> (r: Result<(), Error>)
        requires
            old(self).wf(),
        ensures
            final(self).wf(),
            r == spec_outcome(*old(self), action),
            r is Err ==> *final(self) == *old(self),
            final(self).winner == old(self).winner,
            final(self).players@.len() == old(self).players@.len(),
            r is Ok ==> match action {
                Action::Flip => spec_flip_post(*old(self), *final(self)),
                Action::Place(i) => spec_place_post(*old(self), *final(self), i as int),
                Action::Take(i) => spec_take_post(*old(self), *final(self), i as int),
            },
    {
        if self.winner.is_some() {
            return Err(Error::GameOver);
        }
        if self.current.is_none() {
            match action {
                Action::Flip => {
                    self.current = self.deck.draw();
                    Ok(())
                },
                Action::Place(_) => Err(Error::NoCard),
                Action::Take(index) => self.take(index),
            }
        } else {
            match action {
                Action::Flip => Err(Error::Flipped),
                Action::Place(index) => self.place(index),
                Action::Take(_) => Err(Error::Flipped),
            }
        }
    }

    /// Places the flipped card onto the stack at `index`.
    fn place(&mut self, index: usize) -> (r: Result<(), Error>)
        requires
            old(self).wf(),
            old(self).current is Some,
            old(self).winner is None,
        ensures
            final(self).wf(),
            r == spec_outcome(*old(self), Action::Place(index)),
            r is Err ==> *final(self) == *old(self),
            r is Ok ==> spec_place_post(*old(self), *final(self), index as int),
    {
        if index >= self.stacks.len() {
            return Err(Error::NoStack);
        }
        if self.stacks[index].is_full() {
            return Err(Error::FullStack);
        }
        let card = match self.current.take() {
            Some(card) => card,
            None => {
                return Err(Error::NoCard);
            },
        };
        let mut stack = self.stacks.remove(index);
        stack.push(card);
        self.stacks.insert(index, stack);
        proof {
            assert(self.stacks@ =~= old(self).stacks@.update(
                index as int,
                self.stacks@[index as int],
            ));
        }
        self.turn = (self.turn + 1) % self.players.len();
        Ok(())
    }

    /// Takes the stack at `index` for the acting seat.
    fn take(&mut self, index: usize) -> (r: Result<(), Error>)
        requires
            old(self).wf(),
            old(self).current is None,
            old(self).winner is None,
        ensures
            final(self).wf(),
            r == spec_outcome(*old(self), Action::Take(index)),
            r is Err ==> *final(self) == *old(self),
            final(self).players@.len() == old(self).players@.len(),
            final(self).winner == old(self).winner,
            r is Ok ==> spec_take_post(*old(self), *final(self), index as int),
    {
        if index >= self.stacks.len() {
            return Err(Error::NoStack);
        }
        if self.stacks[index].is_empty() {
            return Err(Error::EmptyStack);
        }
        let ghost s0 = *old(self);
        let mut taken = self.stacks.remove(index);
        if taken.has_gold() {
            match self.deck.draw() {
                Some(card) => taken.push(card),
                None => {},
            }
        }
        proof {
            assert(taken.cards@ == spec_taken_cards(s0, index as int));
            assert(self.deck.cards@ == spec_take_deck(s0, index as int));
        }
        let ghost stacks1 = self.stacks@;
        let turn = self.turn;
        let mut acting = self.players.remove(turn);
        acting.insert_stack(taken);
        self.players.insert(turn, acting);
        let ghost players1 = self.players@;
        proof {
            assert(players1 =~= s0.players@.update(turn as int, players1[turn as int]));
        }

        if self.all_players_have_stacks() {
            proof {
                assert forall|j: int|
                    0 <= j < s0.players@.len() && j != s0.turn
                    implies (#[trigger] s0.players@[j]).spec_has_stack() by {
                    assert(players1[j] == s0.players@[j]);
                    assert(players1[j].spec_has_stack());
                }
                assert(spec_take_ends_round(s0));
            }
            self.collect_round(Ghost(s0), Ghost(index as int));
        } else {
            proof {
                if spec_take_ends_round(s0) {
                    assert forall|j: int|
                        0 <= j < players1.len()
                        implies (#[trigger] players1[j]).spec_has_stack() by {
                        if j != s0.turn as int {
                            assert(players1[j] == s0.players@[j]);
                        }
                    }
                }
                assert(!spec_take_ends_round(s0));
            }
            self.turn = (self.turn + 1) % self.players.len();
        }
        Ok(())
    }

    /// Whether every seat holds a claimed stack.
    fn all_players_have_stacks(&self) -> (r: bool)
        ensures
            r == forall|j: int|
                0 <= j < self.players@.len() ==> (#[trigger] self.players@[j]).spec_has_stack(),
    {
        let mut j: usize = 0;
        while j < self.players.len()
            invariant
                j <= self.players@.len(),
                forall|m: int| 0 <= m < j ==> (#[trigger] self.players@[m]).spec_has_stack(),
            decreases self.players@.len() - j,
        {
            if !self.players[j].has_stack() {
                return false;
            }
            j = j + 1;
        }
        true
    }

    /// Round-end collection: clears the leftover in-play stacks, merges every
    /// claimed stack into its owner's collection, and returns the shells to
    /// play in ascending capacity order.
    fn collect_round(&mut self, Ghost(s0): Ghost<Coloretto>, Ghost(i): Ghost<int>)
        requires
            old(self).wf(),
            forall|j: int|
                0 <= j < old(self).players@.len() ==> (#[trigger] old(
                    self,
                ).players@[j]).spec_has_stack(),
            s0.wf(),
            0 <= i < s0.stacks@.len(),
            old(self).players@.len() == s0.players@.len(),
            0 <= s0.turn < s0.players@.len(),
            old(self).turn == s0.turn,
            old(self).current == s0.current,
            old(self).winner == s0.winner,
            old(self).stacks@ == s0.stacks@.remove(i),
            forall|j: int|
                0 <= j < s0.players@.len() && j != s0.turn ==> #[trigger] old(self).players@[j]
                    == s0.players@[j],
            old(self).players@[s0.turn as int].cards == s0.players@[s0.turn as int].cards,
            old(self).players@[s0.turn as int].stack matches Some(st) && st.capacity
                == s0.stacks@[i].capacity && st.cards@ == spec_taken_cards(s0, i),
        ensures
            final(self).wf(),
            final(self).turn == old(self).turn,
            final(self).current == old(self).current,
            final(self).winner == old(self).winner,
            final(self).deck == old(self).deck,
            final(self).players@.len() == old(self).players@.len(),
            forall|j: int|
                0 <= j < final(self).players@.len()
                    ==> (#[trigger] final(self).players@[j]).stack is None,
            forall|j: int|
                0 <= j < final(self).players@.len() && j != s0.turn
                    ==> (#[trigger] final(self).players@[j]).cards@ == s0.players@[j].cards@
                    + s0.players@[j].stack->Some_0.cards@,
            final(self).players@[s0.turn as int].cards@ == s0.players@[s0.turn as int].cards@
                + spec_taken_cards(s0, i),
            final(self).stacks@.len() == s0.stacks@.len() - 1 + s0.players@.len(),
            forall|k: int|
                0 <= k < final(self).stacks@.len()
                    ==> (#[trigger] final(self).stacks@[k]).cards@.len() == 0,
            forall|k1: int, k2: int|
                0 <= k1 <= k2 < final(self).stacks@.len()
                    ==> (#[trigger] final(self).stacks@[k1]).capacity
                    <= (#[trigger] final(self).stacks@[k2]).capacity,
            forall|c: usize|
                #[trigger] ucount(caps_of(final(self).stacks@), c) == ucount(
                    caps_of(s0.stacks@.remove(i)),
                    c,
                ) + ucount(spec_round_caps(s0.players@, s0.turn as int, s0.stacks@[i].capacity), c),
    {
        let ghost stacks1 = old(self).stacks@;
        let ghost players1 = old(self).players@;

        let mut k: usize = 0;
        while k < self.stacks.len()
            invariant
                k <= self.stacks@.len(),
                self.stacks@.len() == stacks1.len(),
                self.players@ == players1,
                self.turn == old(self).turn,
                self.current == old(self).current,
                self.winner == old(self).winner,
                self.deck == old(self).deck,
                forall|m: int|
                    0 <= m < k ==> (#[trigger] self.stacks@[m]).cards@.len() == 0
                        && self.stacks@[m].capacity == stacks1[m].capacity,
                forall|m: int| k <= m < stacks1.len() ==> #[trigger] self.stacks@[m] == stacks1[m],
            decreases self.stacks@.len() - k,
        {
            let cap = self.stacks[k].capacity;
            self.stacks[k] = Stack::new(cap);
            k = k + 1;
        }

        let ghost cleared = self.stacks@;
        let mut m: usize = 0;
        while m < self.players.len()
            invariant
                m <= self.players@.len(),
                self.players@.len() == players1.len(),
                self.turn == old(self).turn,
                self.current == old(self).current,
                self.winner == old(self).winner,
                self.deck == old(self).deck,
                forall|j: int|
                    0 <= j < players1.len() ==> (#[trigger] players1[j]).spec_has_stack()
                        && players1[j].wf(),
                forall|j: int|
                    0 <= j < m ==> (#[trigger] self.players@[j]).stack is None
                        && self.players@[j].cards@ == players1[j].cards@
                        + players1[j].stack->Some_0.cards@,
                forall|j: int| m <= j < players1.len() ==> #[trigger] self.players@[j]
                    == players1[j],
                self.stacks@.len() == cleared.len() + m,
                forall|k: int| 0 <= k < cleared.len() ==> #[trigger] self.stacks@[k] == cleared[k],
                forall|j: int|
                    0 <= j < m ==> (#[trigger] self.stacks@[cleared.len() + j]).cards@.len() == 0
                        && self.stacks@[cleared.len() + j].capacity
                        == players1[j].stack->Some_0.capacity,
            decreases self.players@.len() - m,
        {
            let mut p = self.players.remove(m);
            match p.collect_stack() {
                Ok(shell) => {
                    self.stacks.push(shell);
                },
                Err(_) => {
                    proof {
                        assert(false);
                    }
                },
            }
            self.players.insert(m, p);
            m = m + 1;
        }

        let ghost presort = self.stacks@;
        proof {
            assert forall|k: int|
                0 <= k < presort.len() implies (#[trigger] presort[k]).cards@.len() == 0 by {
                if k < cleared.len() {
                    assert(presort[k] == cleared[k]);
                } else {
                    let j = k - cleared.len();
                    assert(self.stacks@[cleared.len() + j].cards@.len() == 0);
                }
            }
        }
        sort_stacks_by_capacity(&mut self.stacks);

        proof {
            let round_caps = spec_round_caps(s0.players@, s0.turn as int, s0.stacks@[i].capacity);
            assert(presort.len() == stacks1.len() + players1.len());
            assert forall|k: int|
                0 <= k < presort.len() implies caps_of(presort)[k] == (caps_of(stacks1)
                + round_caps)[k] by {
                if k < stacks1.len() {
                    assert(presort[k] == cleared[k]);
                    assert(cleared[k].capacity == stacks1[k].capacity);
                } else {
                    let j = k - stacks1.len();
                    assert(presort[cleared.len() + j].capacity
                        == players1[j].stack->Some_0.capacity);
                    if j != s0.turn as int {
                        assert(players1[j] == s0.players@[j]);
                    }
                }
            }
            assert(caps_of(presort) =~= caps_of(stacks1) + round_caps);
            assert forall|c: usize|
                #[trigger] ucount(caps_of(self.stacks@), c) == ucount(
                    caps_of(s0.stacks@.remove(i)),
                    c,
                ) + ucount(round_caps, c) by {
                lemma_ucount_concat(caps_of(stacks1), round_caps, c);
            }
        }
    }
}


// --- the stack-budget laws ------------------------------------------------

/// The number of stacks a fresh engine lays out: three for a two-seat game,
/// one per seat otherwise.
pub open spec fn spec_layout_count(n: int) -> int {
    if n == 2 {
        3
    } else {
        n
    }
}

/// How many seats hold a claimed stack.
pub open spec fn spec_claim_count(players: Seq<Player>) -> int
    decreases players.len(),
{
    if players.len() == 0 {
        0
    } else {
        spec_claim_count(players.drop_last()) + if players.last().spec_has_stack() {
            1int
        } else {
            0int
        }
    }
}

/// Counting claims when every seat holds one.
proof fn lemma_claim_count_all_have(players: Seq<Player>)
    requires
        forall|j: int| 0 <= j < players.len() ==> (#[trigger] players[j]).spec_has_stack(),
    ensures
        spec_claim_count(players) == players.len(),
    decreases players.len(),
{
    if players.len() > 0 {
        lemma_claim_count_all_have(players.drop_last());
    }
}

/// Counting claims when no seat holds one.
proof fn lemma_claim_count_none(players: Seq<Player>)
    requires
        forall|j: int| 0 <= j < players.len() ==> (#[trigger] players[j]).stack is None,
    ensures
        spec_claim_count(players) == 0,
    decreases players.len(),
{
    if players.len() > 0 {
        lemma_claim_count_none(players.drop_last());
    }
}

/// Counting claims when every seat but `turn` holds one and `turn` does not.
proof fn lemma_claim_count_all_but_one(players: Seq<Player>, turn: int)
    requires
        0 <= turn < players.len(),
        !players[turn].spec_has_stack(),
        forall|j: int|
            0 <= j < players.len() && j != turn ==> (#[trigger] players[j]).spec_has_stack(),
    ensures
        spec_claim_count(players) == players.len() - 1,
    decreases players.len(),
{
    if turn == players.len() - 1 {
        lemma_claim_count_all_have(players.drop_last());
    } else {
        lemma_claim_count_all_but_one(players.drop_last(), turn);
    }
}

/// Seats with pairwise equal claim state count the same.
proof fn lemma_claim_count_pointwise(a: Seq<Player>, b: Seq<Player>)
    requires
        a.len() == b.len(),
        forall|j: int|
            0 <= j < a.len() ==> (#[trigger] a[j]).spec_has_stack()
                == (#[trigger] b[j]).spec_has_stack(),
    ensures
        spec_claim_count(a) == spec_claim_count(b),
    decreases a.len(),
{
    if a.len() > 0 {
        lemma_claim_count_pointwise(a.drop_last(), b.drop_last());
    }
}

/// Giving a claim to the one seat without one adds one to the count.
proof fn lemma_claim_count_update(a: Seq<Player>, b: Seq<Player>, turn: int)
    requires
        a.len() == b.len(),
        0 <= turn < a.len(),
        forall|j: int| 0 <= j < a.len() && j != turn ==> #[trigger] b[j] == a[j],
        !a[turn].spec_has_stack(),
        b[turn].spec_has_stack(),
    ensures
        spec_claim_count(b) == spec_claim_count(a) + 1,
    decreases a.len(),
{
    if turn == a.len() - 1 {
        lemma_claim_count_pointwise(a.drop_last(), b.drop_last());
    } else {
        lemma_claim_count_update(a.drop_last(), b.drop_last(), turn);
        assert(b.last() == a.last());
    }
}

/// Stack-budget law, base: a fresh engine holds exactly the layout's stack
/// count in play and no claims.
pub proof fn lemma_fresh_engine_layout_budget(g: Coloretto, n: int)
    requires
        spec_fresh_engine(g, n),
    ensures
        g.stacks@.len() + spec_claim_count(g.players@) == spec_layout_count(n),
{
    lemma_claim_count_none(g.players@);
}

/// Round-end restoration law: a successful Take that ends the round, made by
/// a seat without a claim from a state whose in-play stacks are the layout
/// count minus one per claimed stack, returns exactly the layout's stack
/// count to play and clears every claim.
pub proof fn lemma_round_end_restores_layout(s: Coloretto, t: Coloretto, i: usize)
    requires
        s.wf(),
        spec_outcome(s, Action::Take(i)) == Ok::<(), Error>(()),
        spec_take_post(s, t, i as int),
        spec_take_ends_round(s),
        !s.players@[s.turn as int].spec_has_stack(),
        s.stacks@.len() + spec_claim_count(s.players@) == spec_layout_count(
            s.players@.len() as int,
        ),
    ensures
        t.stacks@.len() == spec_layout_count(s.players@.len() as int),
        spec_claim_count(t.players@) == 0,
{
    lemma_claim_count_all_but_one(s.players@, s.turn as int);
    lemma_claim_count_none(t.players@);
}

/// Stack-budget law, step: every successful action keeps the in-play stack
/// count plus the claimed-stack count at the layout's stack count, as long
/// as a Take is made by a seat without a claim. A flip or a placement moves
/// no stack; a round-continuing take turns one in-play stack into a claim;
/// a round-ending take clears the claims and restores the layout.
pub proof fn lemma_perform_keeps_layout_budget(s: Coloretto, t: Coloretto, a: Action)
    requires
        s.wf(),
        spec_outcome(s, a) == Ok::<(), Error>(()),
        (match a {
            Action::Flip => spec_flip_post(s, t),
            Action::Place(i) => spec_place_post(s, t, i as int),
            Action::Take(i) => spec_take_post(s, t, i as int),
        }),
        a is Take ==> !s.players@[s.turn as int].spec_has_stack(),
        s.stacks@.len() + spec_claim_count(s.players@) == spec_layout_count(
            s.players@.len() as int,
        ),
    ensures
        t.stacks@.len() + spec_claim_count(t.players@) == spec_layout_count(
            t.players@.len() as int,
        ),
{
    match a {
        Action::Flip => {
        },
        Action::Place(_) => {
        },
        Action::Take(i) => {
            if spec_take_ends_round(s) {
                lemma_round_end_restores_layout(s, t, i);
            } else {
                lemma_claim_count_update(s.players@, t.players@, s.turn as int);
            }
        },
    }
}

} // verus!
