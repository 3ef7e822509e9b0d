//! A bounded ordered pile of cards in play.

use vstd::prelude::*;

use crate::card::Card;

verus! {

/// An ordered pile of cards with a fixed capacity. The storage itself does
/// not refuse a push beyond the capacity: the engine is the one caller that
/// places cards, and it never places into a full stack.
#[derive(Clone, Debug, PartialEq, Eq)]
pub struct Stack {
    pub cards: Vec<Card>,
    pub capacity: usize,
}

impl Stack {
    /// The card count respects the capacity.
    pub open spec fn wf(self) -> bool {
        self.cards@.len() <= self.capacity
    }

    /// A Gold card is present somewhere in the stack.
    pub open spec fn spec_has_gold(self) -> bool {
        self.cards@.contains(Card::Gold)
    }

    /// An empty stack of the given capacity.
    pub fn new(capacity: usize) -> (s: Stack)
        ensures
            s.cards@ == Seq::<Card>::empty(),
            s.capacity == capacity,
    {
        Stack { cards: Vec::new(), capacity }
    }

    /// A mutable borrow of the pile itself.
    pub fn get_cards_mut(&mut self) -> (cards: &mut Vec<Card>)
        ensures
            *cards == old(self).cards,
            final(self).cards == *final(cards),
            final(self).capacity == old(self).capacity,
    {
        &mut self.cards
    }

    /// Puts `card` on top. The caller keeps the capacity bound.
    pub fn push(&mut self, card: Card)
        ensures
            final(self).cards@ == old(self).cards@.push(card),
            final(self).capacity == old(self).capacity,
    {
        self.cards.push(card);
    }

    /// Removes every card, leaving an empty shell of the same capacity.
    pub fn clear(&mut self)
        ensures
            final(self).cards@ == Seq::<Card>::empty(),
            final(self).capacity == old(self).capacity,
    {
        self.cards.clear();
    }

    pub fn is_empty(&self) -> (r: bool)
        ensures
            r == (self.cards@.len() == 0),
    {
        self.cards.is_empty()
    }

    /// Full means the card count has reached the capacity.
    pub fn is_full(&self) -> (r: bool)
        ensures
            r == (self.cards@.len() >= self.capacity),
    {
        self.cards.len() >= self.capacity
    }

    /// Whether a Gold card is anywhere in the stack.
    pub fn has_gold(&self) -> (r: bool)
        ensures
            r == self.spec_has_gold(),
    {
        let mut i: usize = 0;
        while i < self.cards.len()
            invariant
                i <= self.cards@.len(),
                forall|j: int| 0 <= j < i ==> self.cards@[j] != Card::Gold,
            decreases self.cards@.len() - i,
        {
            if self.cards[i] == Card::Gold {
                return true;
            }
            i = i + 1;
        }
        false
    }
}

/// The capacities of the stacks, in order.
pub open spec fn caps_of(ss: Seq<Stack>) -> Seq<usize> {
    ss.map_values(|s: Stack| s.capacity)
}

/// How often the capacity value `x` occurs in `s`.
pub open spec fn ucount(s: Seq<usize>, x: usize) -> nat
    decreases s.len(),
{
    if s.len() == 0 {
        0
    } else {
        (if s[0] == x {
            1nat
        } else {
            0nat
        }) + ucount(s.drop_first(), x)
    }
}

pub proof fn lemma_ucount_concat(a: Seq<usize>, b: Seq<usize>, x: usize)
    ensures
        ucount(a + b, x) == ucount(a, x) + ucount(b, x),
    decreases a.len(),
{
    if a.len() == 0 {
        assert(a + b =~= b);
    } else {
        assert((a + b).drop_first() =~= a.drop_first() + b);
        lemma_ucount_concat(a.drop_first(), b, x);
    }
}

pub proof fn lemma_ucount_remove(s: Seq<usize>, i: int, x: usize)
    requires
        0 <= i < s.len(),
    ensures
        ucount(s, x) == ucount(s.remove(i), x) + (if s[i] == x {
            1nat
        } else {
            0nat
        }),
{
    let front = s.subrange(0, i);
    let back = s.subrange(i + 1, s.len() as int);
    assert(s =~= front + (seq![s[i]] + back));
    assert(s.remove(i) =~= front + back);
    lemma_ucount_concat(front, seq![s[i]] + back, x);
    lemma_ucount_concat(seq![s[i]], back, x);
    lemma_ucount_concat(front, back, x);
    assert(seq![s[i]].drop_first() =~= Seq::<usize>::empty());
    assert(ucount(Seq::<usize>::empty(), x) == 0);
}

pub proof fn lemma_ucount_insert(s: Seq<usize>, i: int, v: usize, x: usize)
    requires
        0 <= i <= s.len(),
    ensures
        ucount(s.insert(i, v), x) == ucount(s, x) + (if v == x {
            1nat
        } else {
            0nat
        }),
{
    lemma_ucount_remove(s.insert(i, v), i, x);
    assert(s.insert(i, v).remove(i) =~= s);
}

/// Stable reordering of empty stack shells into ascending capacity order:
/// the canonical redisplay order after a round-end collection.
pub(crate) fn sort_stacks_by_capacity(v: &mut Vec<Stack>)
    requires
        forall|k: int| 0 <= k < old(v)@.len() ==> (#[trigger] old(v)@[k]).cards@.len() == 0,
    ensures
        final(v)@.len() == old(v)@.len(),
        forall|k: int| 0 <= k < final(v)@.len() ==> (#[trigger] final(v)@[k]).cards@.len() == 0,
        forall|k1: int, k2: int|
            0 <= k1 <= k2 < final(v)@.len() ==> (#[trigger] final(v)@[k1]).capacity
                <= (#[trigger] final(v)@[k2]).capacity,
        forall|c: usize| #[trigger] ucount(caps_of(final(v)@), c) == ucount(caps_of(old(v)@), c),
{
    let ghost orig = old(v)@;
    let mut i: usize = 1;
    if v.len() <= 1 {
        return ;
    }
    while i < v.len()
        invariant
            1 <= i <= v@.len(),
            v@.len() == orig.len(),
            forall|k: int| 0 <= k < v@.len() ==> (#[trigger] v@[k]).cards@.len() == 0,
            forall|k1: int, k2: int|
                0 <= k1 <= k2 < i ==> (#[trigger] v@[k1]).capacity
                    <= (#[trigger] v@[k2]).capacity,
            forall|c: usize| #[trigger] ucount(caps_of(v@), c) == ucount(caps_of(orig), c),
        decreases v@.len() - i,
    {
        let ghost before = v@;
        let x = v.remove(i);
        let mut k: usize = 0;
        while k < i && v[k].capacity <= x.capacity
            invariant
                k <= i < before.len(),
                v@ == before.remove(i as int),
                forall|j: int| 0 <= j < k ==> (#[trigger] v@[j]).capacity <= x.capacity,
            decreases i - k,
        {
            k = k + 1;
        }
        v.insert(k, x);
        proof {
            let after = v@;
            assert forall|c: usize| #[trigger] ucount(caps_of(after), c) == ucount(
                caps_of(orig),
                c,
            ) by {
                assert(caps_of(before.remove(i as int)) =~= caps_of(before).remove(i as int));
                assert(caps_of(after) =~= caps_of(before.remove(i as int)).insert(
                    k as int,
                    x.capacity,
                ));
                lemma_ucount_remove(caps_of(before), i as int, c);
                lemma_ucount_insert(caps_of(before).remove(i as int), k as int, x.capacity, c);
                assert(caps_of(before)[i as int] == x.capacity);
            }
            let shifted = before.remove(i as int);
            let ki = k as int;
            assert(v@ == shifted.insert(ki, x));
            assert forall|k1: int, k2: int|
                0 <= k1 <= k2 < i + 1 implies (#[trigger] v@[k1]).capacity
                <= (#[trigger] v@[k2]).capacity by {
                assert(forall|j: int| 0 <= j < i ==> shifted[j] == before[j]);
                if k1 < ki {
                    assert(v@[k1] == shifted[k1]);
                }
                if k2 < ki {
                    assert(v@[k2] == shifted[k2]);
                }
                if k1 > ki {
                    assert(v@[k1] == shifted[k1 - 1]);
                }
                if k2 > ki {
                    assert(v@[k2] == shifted[k2 - 1]);
                }
                if k1 == ki {
                    assert(v@[k1] == x);
                }
                if k2 == ki {
                    assert(v@[k2] == x);
                }
                if ki < i as int {
                    assert(shifted[ki].capacity > x.capacity);
                }
            }
        }
        i = i + 1;
    }
}

} // verus!
