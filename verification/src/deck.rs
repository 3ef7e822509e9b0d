//! The draw pile: deck assembly scaled by player count, shuffling, and draw.
//!
//! A deck is built from a selection of color kinds plus the three special
//! kinds, each multiplied out by its fixed per-kind amount, then shuffled.
//! Which colors a small or medium deck drops is random, but the total card
//! count is invariant.

use vstd::multiset::Multiset;
use vstd::prelude::*;

use crate::card::{spec_amount, spec_colors, Card};
use crate::rng::shuffle;

verus! {

/// An owned draw pile. `draw` removes and returns the end of the sequence.
#[derive(Clone, Debug, PartialEq, Eq)]
pub struct Deck {
    pub cards: Vec<Card>,
}

/// The three special kinds that every deck contains.
pub open spec fn spec_specials() -> Seq<Card> {
    seq![Card::Rainbow, Card::Gold, Card::Points]
}

/// True of the seven color kinds.
pub open spec fn is_color(c: Card) -> bool {
    !(c == Card::Rainbow || c == Card::Gold || c == Card::Points)
}

/// How often `x` occurs in `s`.
pub open spec fn count_of(s: Seq<Card>, x: Card) -> nat
    decreases s.len(),
{
    if s.len() == 0 {
        0
    } else {
        (if s[0] == x {
            1nat
        } else {
            0nat
        }) + count_of(s.drop_first(), x)
    }
}

/// The pile before shuffling: `spec_amount(kinds[0])` copies of `kinds[0]`,
/// then of `kinds[1]`, and so on.
pub open spec fn spec_pile(kinds: Seq<Card>) -> Seq<Card>
    decreases kinds.len(),
{
    if kinds.len() == 0 {
        Seq::empty()
    } else {
        Seq::new(spec_amount(kinds[0]), |i: int| kinds[0]) + spec_pile(kinds.drop_first())
    }
}

/// The summed per-kind amounts of `kinds`: the length of its pile.
pub open spec fn spec_total(kinds: Seq<Card>) -> nat
    decreases kinds.len(),
{
    if kinds.len() == 0 {
        0
    } else {
        spec_amount(kinds[0]) + spec_total(kinds.drop_first())
    }
}

pub proof fn lemma_count_of_concat(a: Seq<Card>, b: Seq<Card>, x: Card)
    ensures
        count_of(a + b, x) == count_of(a, x) + count_of(b, x),
    decreases a.len(),
{
    if a.len() == 0 {
        assert(a + b =~= b);
    } else {
        assert((a + b).drop_first() =~= a.drop_first() + b);
        lemma_count_of_concat(a.drop_first(), b, x);
    }
}

/// `count_of` agrees with the multiset count, so a shuffle preserves it.
pub proof fn lemma_count_of_multiset(s: Seq<Card>, x: Card)
    ensures
        count_of(s, x) == s.to_multiset().count(x),
    decreases s.len(),
{
    broadcast use vstd::seq_lib::group_to_multiset_ensures;

    if s.len() == 0 {
        assert(s.to_multiset() =~= Multiset::empty());
    } else {
        lemma_count_of_multiset(s.drop_first(), x);
        assert(s =~= s.drop_first().insert(0, s[0]));
        vstd::seq_lib::to_multiset_insert(s.drop_first(), 0, s[0]);
    }
}

pub proof fn lemma_count_of_repeat(c: Card, n: nat, x: Card)
    ensures
        count_of(Seq::new(n, |i: int| c), x) == if x == c {
            n
        } else {
            0nat
        },
    decreases n,
{
    if n > 0 {
        assert(Seq::new(n, |i: int| c).drop_first() =~= Seq::new((n - 1) as nat, |i: int| c));
        lemma_count_of_repeat(c, (n - 1) as nat, x);
    }
}

pub proof fn lemma_pile_count(kinds: Seq<Card>, x: Card)
    ensures
        count_of(spec_pile(kinds), x) == spec_amount(x) * count_of(kinds, x),
    decreases kinds.len(),
{
    if kinds.len() == 0 {
        assert(spec_amount(x) * 0 == 0) by (nonlinear_arith);
    } else {
        let rep = Seq::new(spec_amount(kinds[0]), |i: int| kinds[0]);
        lemma_count_of_concat(rep, spec_pile(kinds.drop_first()), x);
        lemma_count_of_repeat(kinds[0], spec_amount(kinds[0]), x);
        lemma_pile_count(kinds.drop_first(), x);
        let rest = count_of(kinds.drop_first(), x);
        if kinds[0] == x {
            assert(spec_amount(x) * (rest + 1) == spec_amount(x) * rest + spec_amount(x))
                by (nonlinear_arith);
        } else {
            assert(spec_amount(x) * (rest + 0) == spec_amount(x) * rest) by (nonlinear_arith);
        }
    }
}

pub proof fn lemma_pile_len(kinds: Seq<Card>)
    ensures
        spec_pile(kinds).len() == spec_total(kinds),
    decreases kinds.len(),
{
    if kinds.len() > 0 {
        lemma_pile_len(kinds.drop_first());
    }
}

pub proof fn lemma_total_concat(a: Seq<Card>, b: Seq<Card>)
    ensures
        spec_total(a + b) == spec_total(a) + spec_total(b),
    decreases a.len(),
{
    if a.len() == 0 {
        assert(a + b =~= b);
    } else {
        assert((a + b).drop_first() =~= a.drop_first() + b);
        lemma_total_concat(a.drop_first(), b);
    }
}

pub proof fn lemma_total_colors(kinds: Seq<Card>)
    requires
        forall|i: int| 0 <= i < kinds.len() ==> is_color(#[trigger] kinds[i]),
    ensures
        spec_total(kinds) == 9 * kinds.len(),
    decreases kinds.len(),
{
    if kinds.len() > 0 {
        assert(is_color(kinds[0]));
        lemma_total_colors(kinds.drop_first());
    }
}

pub proof fn lemma_contains_count(s: Seq<Card>, x: Card)
    requires
        s.contains(x),
    ensures
        count_of(s, x) >= 1,
    decreases s.len(),
{
    if s[0] != x {
        let i = choose|i: int| 0 <= i < s.len() && s[i] == x;
        assert(s.drop_first()[i - 1] == x);
        lemma_contains_count(s.drop_first(), x);
    }
}

/// Evaluates `count_of` and `spec_total` on the literal specials sequence.
proof fn lemma_specials_counts(c: Card)
    ensures
        count_of(spec_specials(), c) == if is_color(c) {
            0nat
        } else {
            1nat
        },
        spec_total(spec_specials()) == 13,
{
    reveal_with_fuel(count_of, 5);
    reveal_with_fuel(spec_total, 5);
    assert(spec_specials().drop_first() =~= seq![Card::Gold, Card::Points]);
    assert(seq![Card::Gold, Card::Points].drop_first() =~= seq![Card::Points]);
    assert(count_of(spec_specials(), c) == if is_color(c) {
        0nat
    } else {
        1nat
    });
    assert(spec_total(spec_specials()) == 13);
}

/// What a pile built from color kinds `kept` plus the specials weighs and
/// holds, kind by kind.
proof fn lemma_deck_counts(kept: Seq<Card>)
    requires
        forall|i: int| 0 <= i < kept.len() ==> is_color(#[trigger] kept[i]),
    ensures
        spec_total(kept + spec_specials()) == 9 * kept.len() + 13,
        forall|x: Card|
            #[trigger] count_of(kept + spec_specials(), x) == count_of(kept, x) + count_of(
                spec_specials(),
                x,
            ),
        count_of(spec_specials(), Card::Rainbow) == 1,
        count_of(spec_specials(), Card::Gold) == 1,
        count_of(spec_specials(), Card::Points) == 1,
        forall|x: Card| is_color(x) ==> count_of(spec_specials(), x) == 0,
        forall|x: Card| !is_color(x) ==> count_of(kept, x) == 0,
{
    lemma_total_concat(kept, spec_specials());
    lemma_total_colors(kept);
    lemma_specials_counts(Card::Rainbow);
    assert forall|x: Card| #[trigger] count_of(kept + spec_specials(), x) == count_of(kept, x)
        + count_of(spec_specials(), x) by {
        lemma_count_of_concat(kept, spec_specials(), x);
    }
    assert forall|x: Card| is_color(x) implies count_of(spec_specials(), x) == 0 by {
        lemma_specials_counts(x);
    }
    lemma_specials_counts(Card::Gold);
    lemma_specials_counts(Card::Points);
    assert forall|x: Card| !is_color(x) implies count_of(kept, x) == 0 by {
        lemma_no_special_in_colors(kept, x);
    }
}

/// With every kept kind a color that occurs at most once, each color occurs
/// 9 times or not at all in the generated pile.
proof fn lemma_kept_counts(kept: Seq<Card>, cards: Seq<Card>)
    requires
        forall|i: int| 0 <= i < kept.len() ==> is_color(#[trigger] kept[i]),
        forall|c: Card| is_color(c) ==> count_of(kept, c) <= 1,
        forall|x: Card|
            count_of(cards, x) == spec_amount(x) * count_of(kept + spec_specials(), x),
    ensures
        forall|c: Card| is_color(c) ==> count_of(cards, c) == 9 || count_of(cards, c) == 0,
{
    lemma_deck_counts(kept);
    assert forall|c: Card| is_color(c) implies count_of(cards, c) == 9 || count_of(cards, c)
        == 0 by {
        assert(count_of(kept + spec_specials(), c) == count_of(kept, c) + count_of(
            spec_specials(),
            c,
        ));
        lemma_specials_counts(c);
        assert(count_of(kept + spec_specials(), c) <= 1);
        assert(spec_amount(c) == 9);
        assert(count_of(cards, c) == 9 * count_of(kept + spec_specials(), c));
    }
}

/// A sequence of colors holds no special.
proof fn lemma_no_special_in_colors(kept: Seq<Card>, x: Card)
    requires
        forall|i: int| 0 <= i < kept.len() ==> is_color(#[trigger] kept[i]),
        !is_color(x),
    ensures
        count_of(kept, x) == 0,
    decreases kept.len(),
{
    if kept.len() > 0 {
        assert(is_color(kept[0]));
        lemma_no_special_in_colors(kept.drop_first(), x);
    }
}

impl Deck {
    /// The deck for a 2-player game: five of the seven colors, chosen at
    /// random, plus the three specials; 58 cards in all.
    pub fn small() -> (d: Deck)
        ensures
            d.cards@.len() == 58,
            count_of(d.cards@, Card::Rainbow) == 2,
            count_of(d.cards@, Card::Gold) == 1,
            count_of(d.cards@, Card::Points) == 10,
            forall|c: Card|
                is_color(c) ==> count_of(d.cards@, c) == 9 || count_of(d.cards@, c) == 0,
    {
        let kept = Deck::drop_colors(2);
        let d = Deck::generate_with(&kept);
        proof {
            lemma_deck_counts(kept@);
            lemma_kept_counts(kept@, d.cards@);
        }
        d
    }

    /// The deck for a 3-player game: six of the seven colors, chosen at
    /// random, plus the three specials; 67 cards in all.
    pub fn medium() -> (d: Deck)
        ensures
            d.cards@.len() == 67,
            count_of(d.cards@, Card::Rainbow) == 2,
            count_of(d.cards@, Card::Gold) == 1,
            count_of(d.cards@, Card::Points) == 10,
            forall|c: Card|
                is_color(c) ==> count_of(d.cards@, c) == 9 || count_of(d.cards@, c) == 0,
    {
        let kept = Deck::drop_colors(1);
        let d = Deck::generate_with(&kept);
        proof {
            lemma_deck_counts(kept@);
            lemma_kept_counts(kept@, d.cards@);
        }
        d
    }

    /// The deck for a 4- or 5-player game: all seven colors plus the three
    /// specials; 76 cards in all.
    pub fn large() -> (d: Deck)
        ensures
            d.cards@.len() == 76,
            count_of(d.cards@, Card::Rainbow) == 2,
            count_of(d.cards@, Card::Gold) == 1,
            count_of(d.cards@, Card::Points) == 10,
            forall|c: Card| is_color(c) ==> count_of(d.cards@, c) == 9,
    {
        let kept = Card::colors();
        proof {
            lemma_colors_each_once();
        }
        let d = Deck::generate_with(&kept);
        proof {
            lemma_deck_counts(kept@);
            assert forall|c: Card| is_color(c) implies count_of(d.cards@, c) == 9 by {
                assert(count_of(kept@ + spec_specials(), c) == count_of(kept@, c) + count_of(
                    spec_specials(),
                    c,
                ));
                assert(count_of(kept@, c) == 1);
                assert(spec_amount(c) == 9);
            }
        }
        d
    }

    /// Shuffles the seven colors and keeps all but the first `dropped`.
    fn drop_colors(dropped: usize) -> (kept: Vec<Card>)
        requires
            dropped <= 7,
        ensures
            kept@.len() == 7 - dropped,
            forall|i: int| 0 <= i < kept@.len() ==> is_color(#[trigger] kept@[i]),
            forall|c: Card| is_color(c) ==> count_of(kept@, c) <= 1,
            count_of(kept@, Card::Rainbow) == 0,
            count_of(kept@, Card::Gold) == 0,
            count_of(kept@, Card::Points) == 0,
    {
        let mut colors = Card::colors();
        proof {
            lemma_colors_each_once();
        }
        shuffle(&mut colors);
        let ghost shuffled = colors@;
        proof {
            assert forall|c: Card| #[trigger] count_of(shuffled, c) == count_of(
                spec_colors(),
                c,
            ) by {
                lemma_count_of_multiset(shuffled, c);
                lemma_count_of_multiset(spec_colors(), c);
            }
        }
        let mut kept: Vec<Card> = Vec::new();
        let mut i: usize = dropped;
        while i < colors.len()
            invariant
                dropped <= i <= colors.len() == 7,
                colors@ == shuffled,
                kept@ == shuffled.subrange(dropped as int, i as int),
            decreases colors.len() - i,
        {
            let c = colors[i];
            kept.push(c);
            proof {
                assert(kept@ =~= shuffled.subrange(dropped as int, i + 1));
            }
            i = i + 1;
        }
        proof {
            let front = shuffled.subrange(0, dropped as int);
            assert(shuffled =~= front + kept@);
            assert forall|c: Card| #[trigger] count_of(kept@, c) <= count_of(shuffled, c) by {
                lemma_count_of_concat(front, kept@, c);
            }
            assert forall|i: int| 0 <= i < kept@.len() implies is_color(#[trigger] kept@[i]) by {
                assert(shuffled[dropped + i] == kept@[i]);
                assert(shuffled.contains(kept@[i]));
                lemma_contains_count(shuffled, kept@[i]);
                assert(count_of(spec_colors(), kept@[i]) >= 1);
                lemma_spec_colors_counts(kept@[i]);
            }
        }
        kept
    }

    /// Multiplies each kept color and each special out by its amount, then
    /// shuffles the pile into a fresh deck.
    fn generate_with(colors: &Vec<Card>) -> (d: Deck)
        ensures
            d.cards@.len() == spec_total(colors@ + spec_specials()),
            forall|x: Card|
                count_of(d.cards@, x) == spec_amount(x) * count_of(
                    colors@ + spec_specials(),
                    x,
                ),
    {
        let mut kinds: Vec<Card> = Vec::new();
        let mut i: usize = 0;
        while i < colors.len()
            invariant
                i <= colors.len(),
                kinds@ == colors@.subrange(0, i as int),
            decreases colors.len() - i,
        {
            kinds.push(colors[i]);
            proof {
                assert(kinds@ =~= colors@.subrange(0, i + 1));
            }
            i = i + 1;
        }
        kinds.push(Card::Rainbow);
        kinds.push(Card::Gold);
        kinds.push(Card::Points);
        proof {
            assert(colors@.subrange(0, colors@.len() as int) =~= colors@);
            assert(kinds@ =~= colors@ + spec_specials());
        }
        let ghost all = kinds@;

        let mut cards: Vec<Card> = Vec::new();
        let mut k: usize = 0;
        while k < kinds.len()
            invariant
                k <= kinds.len(),
                kinds@ == all,
                cards@ == spec_pile(all.subrange(0, k as int)),
            decreases kinds.len() - k,
        {
            let c = kinds[k];
            let n = c.amount();
            let ghost before = cards@;
            let mut j: usize = 0;
            while j < n
                invariant
                    j <= n,
                    n == spec_amount(c),
                    cards@ == before + Seq::new(j as nat, |i: int| c),
                decreases n - j,
            {
                cards.push(c);
                proof {
                    assert(cards@ =~= before + Seq::new((j + 1) as nat, |i: int| c));
                }
                j = j + 1;
            }
            proof {
                lemma_pile_snoc(all.subrange(0, k as int), c);
                assert(all.subrange(0, k + 1) =~= all.subrange(0, k as int).push(c));
            }
            k = k + 1;
        }
        proof {
            assert(all.subrange(0, all.len() as int) =~= all);
        }
        shuffle(&mut cards);
        proof {
            lemma_pile_len(all);
            assert forall|x: Card| #[trigger] count_of(cards@, x) == spec_amount(x) * count_of(
                all,
                x,
            ) by {
                lemma_count_of_multiset(cards@, x);
                lemma_count_of_multiset(spec_pile(all), x);
                lemma_pile_count(all, x);
            }
        }
        Deck { cards }
    }

    /// Removes and returns the top card; `None` signals exhaustion.
    pub fn draw(&mut self) -> (c: Option<Card>)
        ensures
            old(self).cards@.len() == 0 ==> c is None && final(self).cards@ == old(self).cards@,
            old(self).cards@.len() > 0 ==> c == Some(old(self).cards@.last())
                && final(self).cards@ == old(self).cards@.drop_last(),
    {
        let c = self.cards.pop();
        proof {
            if old(self).cards@.len() > 0 {
                assert(self.cards@ =~= old(self).cards@.drop_last());
            }
        }
        c
    }
}

proof fn lemma_pile_snoc(kinds: Seq<Card>, c: Card)
    ensures
        spec_pile(kinds.push(c)) == spec_pile(kinds) + Seq::new(spec_amount(c), |i: int| c),
    decreases kinds.len(),
{
    let rep_c = Seq::new(spec_amount(c), |i: int| c);
    if kinds.len() == 0 {
        assert(kinds.push(c).drop_first() =~= Seq::<Card>::empty());
        assert(kinds.push(c)[0] == c);
        assert(spec_pile(Seq::<Card>::empty()) == Seq::<Card>::empty());
        assert(spec_pile(kinds.push(c)) =~= rep_c);
        assert(spec_pile(kinds) + rep_c =~= rep_c);
    } else {
        let k0 = kinds[0];
        let rep0 = Seq::new(spec_amount(k0), |i: int| k0);
        assert(kinds.push(c)[0] == k0);
        assert(kinds.push(c).drop_first() =~= kinds.drop_first().push(c));
        lemma_pile_snoc(kinds.drop_first(), c);
        assert(spec_pile(kinds.push(c)) =~= rep0 + spec_pile(kinds.drop_first().push(c)));
        assert(rep0 + (spec_pile(kinds.drop_first()) + rep_c) =~= (rep0 + spec_pile(
            kinds.drop_first(),
        )) + rep_c);
    }
}

/// In the canonical color sequence every color occurs once and no special
/// occurs at all.
proof fn lemma_colors_each_once()
    ensures
        forall|c: Card| is_color(c) ==> count_of(spec_colors(), c) == 1,
        forall|i: int| 0 <= i < spec_colors().len() ==> is_color(#[trigger] spec_colors()[i]),
        count_of(spec_colors(), Card::Rainbow) == 0,
        count_of(spec_colors(), Card::Gold) == 0,
        count_of(spec_colors(), Card::Points) == 0,
{
    assert forall|c: Card| is_color(c) implies count_of(spec_colors(), c) == 1 by {
        lemma_spec_colors_counts(c);
    }
    lemma_spec_colors_counts(Card::Rainbow);
    lemma_spec_colors_counts(Card::Gold);
    lemma_spec_colors_counts(Card::Points);
}

/// Evaluates `count_of` on the literal color sequence.
proof fn lemma_spec_colors_counts(c: Card)
    ensures
        count_of(spec_colors(), c) == if is_color(c) {
            1nat
        } else {
            0nat
        },
{
    reveal_with_fuel(count_of, 9);
    assert(spec_colors().drop_first() =~= seq![
        Card::Orange,
        Card::Yellow,
        Card::Green,
        Card::Blue,
        Card::Purple,
        Card::Brown,
    ]);
    assert(count_of(spec_colors(), c) == if is_color(c) {
        1nat
    } else {
        0nat
    });
}

} // verus!
