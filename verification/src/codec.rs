//! The wire format: one JSON document per room, as stored in the key-value
//! store under `game/` plus the four-character room code. Encoding is
//! canonical (no whitespace, fields in declaration order, lower-case tags);
//! the decoder reads exactly that canonical form back, and decoding an
//! encoded room is proved to reproduce it.

use vstd::prelude::*;

use crate::action::Action;
use crate::card::Card;

verus! {

/// The bytes `seg` stand in `s` at offset `i`.
pub open spec fn seg_at(s: Seq<u8>, i: int, seg: Seq<u8>) -> bool {
    &&& 0 <= i
    &&& i + seg.len() <= s.len()
    &&& s.subrange(i, i + seg.len() as int) == seg
}

/// A segment splits into its two halves.
pub proof fn lemma_seg_split(s: Seq<u8>, i: int, a: Seq<u8>, b: Seq<u8>)
    requires
        seg_at(s, i, a + b),
    ensures
        seg_at(s, i, a),
        seg_at(s, i + a.len(), b),
{
    let whole = s.subrange(i, i + (a + b).len() as int);
    assert(s.subrange(i, i + a.len() as int) =~= a) by {
        assert forall|k: int| 0 <= k < a.len() implies s.subrange(i, i + a.len() as int)[k] == a[k]
            by {
            assert(whole[k] == (a + b)[k]);
        }
    }
    assert(s.subrange(i + a.len(), i + a.len() + b.len() as int) =~= b) by {
        assert forall|k: int|
            0 <= k < b.len() implies s.subrange(i + a.len(), i + a.len() + b.len() as int)[k]
            == b[k] by {
            assert(whole[a.len() + k] == (a + b)[a.len() + k]);
        }
    }
}

/// One byte of a segment, read off the segment equality.
pub proof fn lemma_seg_index(s: Seq<u8>, i: int, seg: Seq<u8>, k: int)
    requires
        seg_at(s, i, seg),
        0 <= k < seg.len(),
    ensures
        s[i + k] == seg[k],
{
    assert(s.subrange(i, i + seg.len() as int)[k] == seg[k]);
}

/// Expects the literal `lit` at offset `i` and steps past it.
pub open spec fn dec_lit(s: Seq<u8>, i: int, lit: Seq<u8>) -> Option<int> {
    if seg_at(s, i, lit) {
        Some(i + lit.len() as int)
    } else {
        None
    }
}

// --- strings -----------------------------------------------------------

/// Name bytes with `"` and `\` escaped by a backslash; all other bytes pass
/// through verbatim.
pub open spec fn esc_bytes(name: Seq<u8>) -> Seq<u8>
    decreases name.len(),
{
    if name.len() == 0 {
        Seq::empty()
    } else {
        let b = name[0];
        (if b == 34 || b == 92 {
            seq![92u8, b]
        } else {
            seq![b]
        }) + esc_bytes(name.drop_first())
    }
}

/// A JSON string: quote, escaped bytes, quote.
pub open spec fn enc_string(name: Seq<u8>) -> Seq<u8> {
    seq![34u8] + esc_bytes(name) + seq![34u8]
}

/// Reads string content up to the closing quote, unescaping as it goes.
pub open spec fn dec_string_body(s: Seq<u8>, i: int, acc: Seq<u8>) -> Option<(Seq<u8>, int)>
    decreases s.len() - i,
{
    if i < 0 || i >= s.len() {
        None
    } else if s[i] == 34 {
        Some((acc, i + 1))
    } else if s[i] == 92 {
        if i + 1 < s.len() {
            dec_string_body(s, i + 2, acc.push(s[i + 1]))
        } else {
            None
        }
    } else {
        dec_string_body(s, i + 1, acc.push(s[i]))
    }
}

/// Reads a JSON string at offset `i`.
pub open spec fn dec_string(s: Seq<u8>, i: int) -> Option<(Seq<u8>, int)> {
    if 0 <= i < s.len() && s[i] == 34 {
        dec_string_body(s, i + 1, Seq::empty())
    } else {
        None
    }
}

pub proof fn lemma_dec_string_body(s: Seq<u8>, i: int, acc: Seq<u8>, name: Seq<u8>)
    requires
        seg_at(s, i, esc_bytes(name) + seq![34u8]),
    ensures
        dec_string_body(s, i, acc) == Some((acc + name, i + esc_bytes(name).len() + 1)),
    decreases name.len(),
{
    if name.len() == 0 {
        assert(esc_bytes(name) + seq![34u8] =~= seq![34u8]);
        lemma_seg_index(s, i, esc_bytes(name) + seq![34u8], 0);
        assert(s[i] == 34);
        assert(acc + name =~= acc);
    } else {
        let b = name[0];
        let rest = name.drop_first();
        let head: Seq<u8> = if b == 34 || b == 92 {
            seq![92u8, b]
        } else {
            seq![b]
        };
        assert(esc_bytes(name) + seq![34u8] =~= head + (esc_bytes(rest) + seq![34u8]));
        lemma_seg_split(s, i, head, esc_bytes(rest) + seq![34u8]);
        if b == 34 || b == 92 {
            lemma_seg_index(s, i, head, 0);
            lemma_seg_index(s, i, head, 1);
            assert(s[i] == 92 && s[i + 1] == b);
            lemma_dec_string_body(s, i + 2, acc.push(b), rest);
            assert(acc.push(b) + rest =~= acc + name);
        } else {
            lemma_seg_index(s, i, head, 0);
            assert(s[i] == b);
            lemma_dec_string_body(s, i + 1, acc.push(b), rest);
            assert(acc.push(b) + rest =~= acc + name);
        }
    }
}

pub proof fn lemma_dec_string(s: Seq<u8>, i: int, name: Seq<u8>)
    requires
        seg_at(s, i, enc_string(name)),
    ensures
        dec_string(s, i) == Some((name, i + enc_string(name).len())),
{
    assert(enc_string(name) =~= seq![34u8] + (esc_bytes(name) + seq![34u8]));
    lemma_seg_split(s, i, seq![34u8], esc_bytes(name) + seq![34u8]);
    lemma_seg_index(s, i, seq![34u8], 0);
    assert(s[i] == 34);
    lemma_dec_string_body(s, i + 1, Seq::empty(), name);
    assert(Seq::<u8>::empty() + name =~= name);
}

// --- numbers -----------------------------------------------------------

/// An ASCII decimal digit.
pub open spec fn is_digit(b: u8) -> bool {
    48 <= b <= 57
}

/// The decimal digits of `n`, most significant first.
pub open spec fn enc_nat(n: nat) -> Seq<u8>
    decreases n,
{
    if n < 10 {
        seq![(48 + n) as u8]
    } else {
        enc_nat(n / 10) + seq![(48 + n % 10) as u8]
    }
}

/// Accumulates decimal digits left to right until a non-digit.
pub open spec fn dec_digits(s: Seq<u8>, i: int, acc: nat) -> (nat, int)
    decreases s.len() - i,
{
    if 0 <= i < s.len() && is_digit(s[i]) {
        dec_digits(s, i + 1, acc * 10 + (s[i] - 48) as nat)
    } else {
        (acc, i)
    }
}

/// Reads a decimal number that must fit in usize.
pub open spec fn dec_usize(s: Seq<u8>, i: int) -> Option<(usize, int)> {
    if 0 <= i < s.len() && is_digit(s[i]) {
        let (v, j) = dec_digits(s, i, 0);
        if v <= usize::MAX {
            Some((v as usize, j))
        } else {
            None
        }
    } else {
        None
    }
}

pub open spec fn pow10(k: nat) -> nat
    decreases k,
{
    if k == 0 {
        1
    } else {
        10 * pow10((k - 1) as nat)
    }
}

/// Every byte of an encoded number is a digit, and there is at least one.
pub proof fn lemma_enc_nat_digits(n: nat)
    ensures
        enc_nat(n).len() >= 1,
        forall|k: int| 0 <= k < enc_nat(n).len() ==> is_digit(#[trigger] enc_nat(n)[k]),
    decreases n,
{
    if n >= 10 {
        lemma_enc_nat_digits(n / 10);
        assert forall|k: int| 0 <= k < enc_nat(n).len() implies is_digit(
            #[trigger] enc_nat(n)[k],
        ) by {
            if k < enc_nat(n / 10).len() {
                assert(enc_nat(n)[k] == enc_nat(n / 10)[k]);
            }
        }
    }
}

/// Consuming the digits of `m` multiplies the accumulator by the right power
/// of ten and adds `m`.
pub proof fn lemma_dec_digits_prefix(s: Seq<u8>, i: int, acc: nat, m: nat)
    requires
        seg_at(s, i, enc_nat(m)),
    ensures
        dec_digits(s, i, acc) == dec_digits(
            s,
            i + enc_nat(m).len(),
            acc * pow10(enc_nat(m).len()) + m,
        ),
    decreases m,
{
    if m < 10 {
        lemma_seg_index(s, i, enc_nat(m), 0);
        assert(s[i] == (48 + m) as u8);
        assert(is_digit(s[i]));
        assert((s[i] - 48) as nat == m);
        assert(pow10(0) == 1);
        assert(pow10(1) == 10);
        assert(dec_digits(s, i, acc) == dec_digits(s, i + 1, acc * 10 + m));
    } else {
        let front = enc_nat(m / 10);
        let lastd = seq![(48 + m % 10) as u8];
        assert(enc_nat(m) =~= front + lastd);
        lemma_seg_split(s, i, front, lastd);
        lemma_dec_digits_prefix(s, i, acc, m / 10);
        let j = i + front.len();
        let acc1 = acc * pow10(front.len()) + m / 10;
        lemma_seg_index(s, j, lastd, 0);
        assert(s[j] == (48 + m % 10) as u8);
        assert(is_digit(s[j]));
        assert(dec_digits(s, j, acc1) == dec_digits(s, j + 1, acc1 * 10 + m % 10));
        assert(acc1 * 10 + m % 10 == acc * pow10(front.len() + 1) + m) by (nonlinear_arith)
            requires
                acc1 == acc * pow10(front.len()) + m / 10,
                pow10(front.len() + 1) == 10 * pow10(front.len()),
                m == 10 * (m / 10) + m % 10,
        {
        }
        assert(pow10(front.len() + 1) == 10 * pow10(front.len()));
        assert(enc_nat(m).len() == front.len() + 1);
    }
}

// --- cards -------------------------------------------------------------

/// The lower-case wire name of a card kind.
pub open spec fn card_name(c: Card) -> Seq<u8> {
    match c {
        Card::Red => seq![114u8, 101u8, 100u8],
        Card::Orange => seq![111u8, 114u8, 97u8, 110u8, 103u8, 101u8],
        Card::Yellow => seq![121u8, 101u8, 108u8, 108u8, 111u8, 119u8],
        Card::Green => seq![103u8, 114u8, 101u8, 101u8, 110u8],
        Card::Blue => seq![98u8, 108u8, 117u8, 101u8],
        Card::Purple => seq![112u8, 117u8, 114u8, 112u8, 108u8, 101u8],
        Card::Brown => seq![98u8, 114u8, 111u8, 119u8, 110u8],
        Card::Rainbow => seq![114u8, 97u8, 105u8, 110u8, 98u8, 111u8, 119u8],
        Card::Gold => seq![103u8, 111u8, 108u8, 100u8],
        Card::Points => seq![112u8, 111u8, 105u8, 110u8, 116u8, 115u8],
    }
}

/// The card kind bearing this wire name, if any.
pub open spec fn card_of_name(name: Seq<u8>) -> Option<Card> {
    if name == card_name(Card::Red) {
        Some(Card::Red)
    } else if name == card_name(Card::Orange) {
        Some(Card::Orange)
    } else if name == card_name(Card::Yellow) {
        Some(Card::Yellow)
    } else if name == card_name(Card::Green) {
        Some(Card::Green)
    } else if name == card_name(Card::Blue) {
        Some(Card::Blue)
    } else if name == card_name(Card::Purple) {
        Some(Card::Purple)
    } else if name == card_name(Card::Brown) {
        Some(Card::Brown)
    } else if name == card_name(Card::Rainbow) {
        Some(Card::Rainbow)
    } else if name == card_name(Card::Gold) {
        Some(Card::Gold)
    } else if name == card_name(Card::Points) {
        Some(Card::Points)
    } else {
        None
    }
}

/// Card names carry no quote and no backslash, so they escape to themselves.
pub proof fn lemma_esc_plain(name: Seq<u8>)
    requires
        forall|k: int| 0 <= k < name.len() ==> name[k] != 34 && name[k] != 92,
    ensures
        esc_bytes(name) == name,
    decreases name.len(),
{
    if name.len() == 0 {
        assert(esc_bytes(name) =~= name);
    } else {
        lemma_esc_plain(name.drop_first());
        assert(esc_bytes(name) =~= name);
    }
}

/// Wire names round-trip through the name table.
pub proof fn lemma_card_of_name(c: Card)
    ensures
        card_of_name(card_name(c)) == Some(c),
        esc_bytes(card_name(c)) == card_name(c),
{
    lemma_esc_plain(card_name(c));
}

/// A card on the wire: its name as a JSON string.
pub open spec fn enc_card(c: Card) -> Seq<u8> {
    enc_string(card_name(c))
}

pub open spec fn dec_card(s: Seq<u8>, i: int) -> Option<(Card, int)> {
    match dec_string(s, i) {
        None => None,
        Some((name, j)) => match card_of_name(name) {
            None => None,
            Some(c) => Some((c, j)),
        },
    }
}

pub proof fn lemma_dec_card(s: Seq<u8>, i: int, c: Card)
    requires
        seg_at(s, i, enc_card(c)),
    ensures
        dec_card(s, i) == Some((c, i + enc_card(c).len())),
        enc_card(c).len() >= 2,
{
    lemma_dec_string(s, i, card_name(c));
    lemma_card_of_name(c);
}

/// A card sequence on the wire, between the brackets: comma-separated.
pub open spec fn enc_card_items(cards: Seq<Card>) -> Seq<u8>
    decreases cards.len(),
{
    if cards.len() == 0 {
        Seq::empty()
    } else if cards.len() == 1 {
        enc_card(cards[0])
    } else {
        enc_card(cards[0]) + seq![44u8] + enc_card_items(cards.drop_first())
    }
}

/// A card sequence on the wire: a JSON array of names.
pub open spec fn enc_cards(cards: Seq<Card>) -> Seq<u8> {
    seq![91u8] + enc_card_items(cards) + seq![93u8]
}

pub open spec fn dec_card_items(s: Seq<u8>, i: int, acc: Seq<Card>) -> Option<(Seq<Card>, int)>
    decreases s.len() - i,
{
    match dec_card(s, i) {
        None => None,
        Some((c, j)) => if j <= i || j >= s.len() {
            None
        } else if s[j] == 44 {
            dec_card_items(s, j + 1, acc.push(c))
        } else if s[j] == 93 {
            Some((acc.push(c), j + 1))
        } else {
            None
        },
    }
}

pub open spec fn dec_cards(s: Seq<u8>, i: int) -> Option<(Seq<Card>, int)> {
    if 0 <= i < s.len() && s[i] == 91 {
        if i + 1 < s.len() && s[i + 1] == 93 {
            Some((Seq::empty(), i + 2))
        } else {
            dec_card_items(s, i + 1, Seq::empty())
        }
    } else {
        None
    }
}

pub proof fn lemma_dec_card_items(s: Seq<u8>, i: int, acc: Seq<Card>, cards: Seq<Card>)
    requires
        cards.len() > 0,
        seg_at(s, i, enc_card_items(cards) + seq![93u8]),
    ensures
        dec_card_items(s, i, acc) == Some((acc + cards, i + enc_card_items(cards).len() + 1)),
    decreases cards.len(),
{
    let c0 = cards[0];
    if cards.len() == 1 {
        assert(enc_card_items(cards) + seq![93u8] =~= enc_card(c0) + seq![93u8]);
        lemma_seg_split(s, i, enc_card(c0), seq![93u8]);
        lemma_dec_card(s, i, c0);
        let j = i + enc_card(c0).len();
        lemma_seg_index(s, j, seq![93u8], 0);
        assert(acc.push(c0) =~= acc + cards);
    } else {
        let rest = cards.drop_first();
        assert(enc_card_items(cards) + seq![93u8] =~= enc_card(c0) + (seq![44u8] + (enc_card_items(
            rest,
        ) + seq![93u8])));
        lemma_seg_split(s, i, enc_card(c0), seq![44u8] + (enc_card_items(rest) + seq![93u8]));
        lemma_dec_card(s, i, c0);
        let j = i + enc_card(c0).len();
        lemma_seg_split(s, j, seq![44u8], enc_card_items(rest) + seq![93u8]);
        lemma_seg_index(s, j, seq![44u8], 0);
        lemma_dec_card_items(s, j + 1, acc.push(c0), rest);
        assert(acc.push(c0) + rest =~= acc + cards);
    }
}

pub proof fn lemma_dec_cards(s: Seq<u8>, i: int, cards: Seq<Card>)
    requires
        seg_at(s, i, enc_cards(cards)),
    ensures
        dec_cards(s, i) == Some((cards, i + enc_cards(cards).len())),
        enc_cards(cards).len() >= 2,
{
    assert(enc_cards(cards) =~= seq![91u8] + (enc_card_items(cards) + seq![93u8]));
    lemma_seg_split(s, i, seq![91u8], enc_card_items(cards) + seq![93u8]);
    lemma_seg_index(s, i, seq![91u8], 0);
    if cards.len() == 0 {
        assert(enc_card_items(cards) + seq![93u8] =~= seq![93u8]);
        lemma_seg_index(s, i + 1, seq![93u8], 0);
    } else {
        lemma_seg_index(s, i + 1, enc_card_items(cards) + seq![93u8], 0);
        if cards.len() == 1 {
            assert((enc_card_items(cards) + seq![93u8])[0] == enc_card(cards[0])[0]);
        } else {
            assert((enc_card_items(cards) + seq![93u8])[0] == enc_card(cards[0])[0]);
        }
        assert(enc_card(cards[0])[0] == 34);
        assert(s[i + 1] == 34);
        lemma_dec_card_items(s, i + 1, Seq::empty(), cards);
        assert(Seq::<Card>::empty() + cards =~= cards);
    }
}

// --- user lists ---------------------------------------------------------

/// The enrolled identities on the wire, between the brackets.
pub open spec fn enc_user_items(names: Seq<Seq<u8>>) -> Seq<u8>
    decreases names.len(),
{
    if names.len() == 0 {
        Seq::empty()
    } else if names.len() == 1 {
        enc_string(names[0])
    } else {
        enc_string(names[0]) + seq![44u8] + enc_user_items(names.drop_first())
    }
}

/// The enrolled identities on the wire: a JSON array of strings.
pub open spec fn enc_users(names: Seq<Seq<u8>>) -> Seq<u8> {
    seq![91u8] + enc_user_items(names) + seq![93u8]
}

pub open spec fn dec_user_items(s: Seq<u8>, i: int, acc: Seq<Seq<u8>>) -> Option<
    (Seq<Seq<u8>>, int),
>
    decreases s.len() - i,
{
    match dec_string(s, i) {
        None => None,
        Some((name, j)) => if j <= i || j >= s.len() {
            None
        } else if s[j] == 44 {
            dec_user_items(s, j + 1, acc.push(name))
        } else if s[j] == 93 {
            Some((acc.push(name), j + 1))
        } else {
            None
        },
    }
}

pub open spec fn dec_users(s: Seq<u8>, i: int) -> Option<(Seq<Seq<u8>>, int)> {
    if 0 <= i < s.len() && s[i] == 91 {
        if i + 1 < s.len() && s[i + 1] == 93 {
            Some((Seq::empty(), i + 2))
        } else {
            dec_user_items(s, i + 1, Seq::empty())
        }
    } else {
        None
    }
}

pub proof fn lemma_dec_user_items(s: Seq<u8>, i: int, acc: Seq<Seq<u8>>, names: Seq<Seq<u8>>)
    requires
        names.len() > 0,
        seg_at(s, i, enc_user_items(names) + seq![93u8]),
    ensures
        dec_user_items(s, i, acc) == Some((acc + names, i + enc_user_items(names).len() + 1)),
    decreases names.len(),
{
    let n0 = names[0];
    if names.len() == 1 {
        assert(enc_user_items(names) + seq![93u8] =~= enc_string(n0) + seq![93u8]);
        lemma_seg_split(s, i, enc_string(n0), seq![93u8]);
        lemma_dec_string(s, i, n0);
        let j = i + enc_string(n0).len();
        lemma_seg_index(s, j, seq![93u8], 0);
        assert(acc.push(n0) =~= acc + names);
    } else {
        let rest = names.drop_first();
        assert(enc_user_items(names) + seq![93u8] =~= enc_string(n0) + (seq![44u8] + (
        enc_user_items(rest) + seq![93u8])));
        lemma_seg_split(s, i, enc_string(n0), seq![44u8] + (enc_user_items(rest) + seq![93u8]));
        lemma_dec_string(s, i, n0);
        let j = i + enc_string(n0).len();
        lemma_seg_split(s, j, seq![44u8], enc_user_items(rest) + seq![93u8]);
        lemma_seg_index(s, j, seq![44u8], 0);
        lemma_dec_user_items(s, j + 1, acc.push(n0), rest);
        assert(acc.push(n0) + rest =~= acc + names);
    }
}

pub proof fn lemma_dec_users(s: Seq<u8>, i: int, names: Seq<Seq<u8>>)
    requires
        seg_at(s, i, enc_users(names)),
    ensures
        dec_users(s, i) == Some((names, i + enc_users(names).len())),
        enc_users(names).len() >= 2,
{
    assert(enc_users(names) =~= seq![91u8] + (enc_user_items(names) + seq![93u8]));
    lemma_seg_split(s, i, seq![91u8], enc_user_items(names) + seq![93u8]);
    lemma_seg_index(s, i, seq![91u8], 0);
    if names.len() == 0 {
        assert(enc_user_items(names) + seq![93u8] =~= seq![93u8]);
        lemma_seg_index(s, i + 1, seq![93u8], 0);
    } else {
        lemma_seg_index(s, i + 1, enc_user_items(names) + seq![93u8], 0);
        if names.len() == 1 {
            assert((enc_user_items(names) + seq![93u8])[0] == enc_string(names[0])[0]);
        } else {
            assert((enc_user_items(names) + seq![93u8])[0] == enc_string(names[0])[0]);
        }
        assert(enc_string(names[0])[0] == 34);
        assert(s[i + 1] == 34);
        lemma_dec_user_items(s, i + 1, Seq::empty(), names);
        assert(Seq::<Seq<u8>>::empty() + names =~= names);
    }
}

/// Reading back an encoded usize yields the same value, provided the next
/// byte (if any) is not a digit.
pub proof fn lemma_dec_usize(s: Seq<u8>, i: int, n: usize)
    requires
        seg_at(s, i, enc_nat(n as nat)),
        i + enc_nat(n as nat).len() == s.len() || !is_digit(s[i + enc_nat(n as nat).len()]),
    ensures
        dec_usize(s, i) == Some((n, i + enc_nat(n as nat).len())),
{
    lemma_enc_nat_digits(n as nat);
    lemma_seg_index(s, i, enc_nat(n as nat), 0);
    assert(s[i] == enc_nat(n as nat)[0]);
    assert(is_digit(s[i]));
    lemma_dec_digits_prefix(s, i, 0, n as nat);
    let j = i + enc_nat(n as nat).len();
    assert(dec_digits(s, j, n as nat) == (n as nat, j));
    assert(0 * pow10(enc_nat(n as nat).len()) == 0) by (nonlinear_arith);
}


// --- composite values ----------------------------------------------------

/// A stack's view on the wire: its cards and its capacity.
pub type StackV = (Seq<Card>, usize);

/// A player's view on the wire: collected cards and the claimed stack.
pub type PlayerV = (Seq<Card>, Option<StackV>);

/// The engine's view on the wire: players, deck cards, stacks in play, the
/// flipped card, the turn, and the winner.
pub type GameV = (Seq<PlayerV>, Seq<Card>, Seq<StackV>, Option<Card>, usize, Option<usize>);

/// A room's view on the wire: the code bytes, the roster names, and the
/// engine view while playing (`None` while waiting).
pub type RoomV = (Seq<u8>, Seq<Seq<u8>>, Option<GameV>);

pub open spec fn lit_obj_cards() -> Seq<u8> {
    seq![123u8, 34u8, 99u8, 97u8, 114u8, 100u8, 115u8, 34u8, 58u8]
}

pub open spec fn lit_capacity() -> Seq<u8> {
    seq![44u8, 34u8, 99u8, 97u8, 112u8, 97u8, 99u8, 105u8, 116u8, 121u8, 34u8, 58u8]
}

pub open spec fn lit_stack_field() -> Seq<u8> {
    seq![44u8, 34u8, 115u8, 116u8, 97u8, 99u8, 107u8, 34u8, 58u8]
}

pub open spec fn lit_null() -> Seq<u8> {
    seq![110u8, 117u8, 108u8, 108u8]
}

pub open spec fn lit_obj_players() -> Seq<u8> {
    seq![123u8, 34u8, 112u8, 108u8, 97u8, 121u8, 101u8, 114u8, 115u8, 34u8, 58u8]
}

pub open spec fn lit_deck_field() -> Seq<u8> {
    seq![44u8, 34u8, 100u8, 101u8, 99u8, 107u8, 34u8, 58u8, 123u8, 34u8, 99u8, 97u8, 114u8, 100u8, 115u8, 34u8, 58u8]
}

pub open spec fn lit_stacks_field() -> Seq<u8> {
    seq![125u8, 44u8, 34u8, 115u8, 116u8, 97u8, 99u8, 107u8, 115u8, 34u8, 58u8]
}

pub open spec fn lit_current_field() -> Seq<u8> {
    seq![44u8, 34u8, 99u8, 117u8, 114u8, 114u8, 101u8, 110u8, 116u8, 34u8, 58u8]
}

pub open spec fn lit_turn_field() -> Seq<u8> {
    seq![44u8, 34u8, 116u8, 117u8, 114u8, 110u8, 34u8, 58u8]
}

pub open spec fn lit_winner_field() -> Seq<u8> {
    seq![44u8, 34u8, 119u8, 105u8, 110u8, 110u8, 101u8, 114u8, 34u8, 58u8]
}

pub open spec fn lit_waiting() -> Seq<u8> {
    seq![34u8, 119u8, 97u8, 105u8, 116u8, 105u8, 110u8, 103u8, 34u8]
}

pub open spec fn lit_playing() -> Seq<u8> {
    seq![123u8, 34u8, 112u8, 108u8, 97u8, 121u8, 105u8, 110u8, 103u8, 34u8, 58u8]
}

pub open spec fn lit_obj_id() -> Seq<u8> {
    seq![123u8, 34u8, 105u8, 100u8, 34u8, 58u8]
}

pub open spec fn lit_players_field() -> Seq<u8> {
    seq![44u8, 34u8, 112u8, 108u8, 97u8, 121u8, 101u8, 114u8, 115u8, 34u8, 58u8]
}

pub open spec fn lit_status_field() -> Seq<u8> {
    seq![44u8, 34u8, 115u8, 116u8, 97u8, 116u8, 117u8, 115u8, 34u8, 58u8]
}

pub open spec fn lit_flip() -> Seq<u8> {
    seq![34u8, 102u8, 108u8, 105u8, 112u8, 34u8]
}

pub open spec fn lit_place() -> Seq<u8> {
    seq![123u8, 34u8, 112u8, 108u8, 97u8, 99u8, 101u8, 34u8, 58u8]
}

pub open spec fn lit_take() -> Seq<u8> {
    seq![123u8, 34u8, 116u8, 97u8, 107u8, 101u8, 34u8, 58u8]
}


/// A stack on the wire: its cards and its capacity, as a JSON object.
pub open spec fn enc_stack(v: StackV) -> Seq<u8> {
    lit_obj_cards() + enc_cards(v.0) + lit_capacity() + enc_nat(v.1 as nat) + seq![125u8]
}

pub open spec fn dec_stack(s: Seq<u8>, i: int) -> Option<(StackV, int)> {
    match dec_lit(s, i, lit_obj_cards()) {
        None => None,
        Some(j1) => match dec_cards(s, j1) {
            None => None,
            Some((cards, j2)) => match dec_lit(s, j2, lit_capacity()) {
                None => None,
                Some(j3) => match dec_usize(s, j3) {
                    None => None,
                    Some((cap, j4)) => match dec_lit(s, j4, seq![125u8]) {
                        None => None,
                        Some(j5) => Some(((cards, cap), j5)),
                    },
                },
            },
        },
    }
}

pub proof fn lemma_dec_stack(s: Seq<u8>, i: int, v: StackV)
    requires
        seg_at(s, i, enc_stack(v)),
    ensures
        dec_stack(s, i) == Some((v, i + enc_stack(v).len())),
        enc_stack(v).len() >= 1,
        enc_stack(v)[0] == 123,
{
    let e1 = lit_obj_cards() + enc_cards(v.0) + lit_capacity() + enc_nat(v.1 as nat);
    lemma_seg_split(s, i, e1, seq![125u8]);
    let e2 = lit_obj_cards() + enc_cards(v.0) + lit_capacity();
    lemma_seg_split(s, i, e2, enc_nat(v.1 as nat));
    let e3 = lit_obj_cards() + enc_cards(v.0);
    lemma_seg_split(s, i, e3, lit_capacity());
    lemma_seg_split(s, i, lit_obj_cards(), enc_cards(v.0));
    lemma_dec_cards(s, i + lit_obj_cards().len(), v.0);
    lemma_seg_index(s, i + e2.len() + enc_nat(v.1 as nat).len(), seq![125u8], 0);
    lemma_dec_usize(s, i + e2.len(), v.1);
}

/// An optional stack on the wire: `null` or the stack object.
pub open spec fn enc_opt_stack(o: Option<StackV>) -> Seq<u8> {
    match o {
        None => lit_null(),
        Some(v) => enc_stack(v),
    }
}

pub open spec fn dec_opt_stack(s: Seq<u8>, i: int) -> Option<(Option<StackV>, int)> {
    if 0 <= i < s.len() && s[i] == 110 {
        match dec_lit(s, i, lit_null()) {
            None => None,
            Some(j) => Some((None, j)),
        }
    } else if 0 <= i < s.len() && s[i] == 123 {
        match dec_stack(s, i) {
            None => None,
            Some((v, j)) => Some((Some(v), j)),
        }
    } else {
        None
    }
}

pub proof fn lemma_dec_opt_stack(s: Seq<u8>, i: int, o: Option<StackV>)
    requires
        seg_at(s, i, enc_opt_stack(o)),
    ensures
        dec_opt_stack(s, i) == Some((o, i + enc_opt_stack(o).len())),
{
    match o {
        None => {
            lemma_seg_index(s, i, lit_null(), 0);
        },
        Some(v) => {
            lemma_dec_stack(s, i, v);
            lemma_seg_index(s, i, enc_stack(v), 0);
        },
    }
}

/// A player on the wire: collected cards and the claimed stack.
pub open spec fn enc_player(p: PlayerV) -> Seq<u8> {
    lit_obj_cards() + enc_cards(p.0) + lit_stack_field() + enc_opt_stack(p.1) + seq![125u8]
}

pub open spec fn dec_player(s: Seq<u8>, i: int) -> Option<(PlayerV, int)> {
    match dec_lit(s, i, lit_obj_cards()) {
        None => None,
        Some(j1) => match dec_cards(s, j1) {
            None => None,
            Some((cards, j2)) => match dec_lit(s, j2, lit_stack_field()) {
                None => None,
                Some(j3) => match dec_opt_stack(s, j3) {
                    None => None,
                    Some((st, j4)) => match dec_lit(s, j4, seq![125u8]) {
                        None => None,
                        Some(j5) => Some(((cards, st), j5)),
                    },
                },
            },
        },
    }
}

pub proof fn lemma_dec_player(s: Seq<u8>, i: int, p: PlayerV)
    requires
        seg_at(s, i, enc_player(p)),
    ensures
        dec_player(s, i) == Some((p, i + enc_player(p).len())),
        enc_player(p).len() >= 1,
        enc_player(p)[0] == 123,
{
    let e1 = lit_obj_cards() + enc_cards(p.0) + lit_stack_field() + enc_opt_stack(p.1);
    lemma_seg_split(s, i, e1, seq![125u8]);
    let e2 = lit_obj_cards() + enc_cards(p.0) + lit_stack_field();
    lemma_seg_split(s, i, e2, enc_opt_stack(p.1));
    let e3 = lit_obj_cards() + enc_cards(p.0);
    lemma_seg_split(s, i, e3, lit_stack_field());
    lemma_seg_split(s, i, lit_obj_cards(), enc_cards(p.0));
    lemma_dec_cards(s, i + lit_obj_cards().len(), p.0);
    lemma_dec_opt_stack(s, i + e2.len(), p.1);
    lemma_seg_index(s, i + e2.len() + enc_opt_stack(p.1).len(), seq![125u8], 0);
}

/// The player list on the wire, between the brackets.
pub open spec fn enc_player_items(ps: Seq<PlayerV>) -> Seq<u8>
    decreases ps.len(),
{
    if ps.len() == 0 {
        Seq::empty()
    } else if ps.len() == 1 {
        enc_player(ps[0])
    } else {
        enc_player(ps[0]) + seq![44u8] + enc_player_items(ps.drop_first())
    }
}

/// The player list on the wire: a JSON array of player objects.
pub open spec fn enc_players(ps: Seq<PlayerV>) -> Seq<u8> {
    seq![91u8] + enc_player_items(ps) + seq![93u8]
}

pub open spec fn dec_player_items(s: Seq<u8>, i: int, acc: Seq<PlayerV>) -> Option<
    (Seq<PlayerV>, int),
>
    decreases s.len() - i,
{
    match dec_player(s, i) {
        None => None,
        Some((p, j)) => if j <= i || j >= s.len() {
            None
        } else if s[j] == 44 {
            dec_player_items(s, j + 1, acc.push(p))
        } else if s[j] == 93 {
            Some((acc.push(p), j + 1))
        } else {
            None
        },
    }
}

pub open spec fn dec_players(s: Seq<u8>, i: int) -> Option<(Seq<PlayerV>, int)> {
    if 0 <= i < s.len() && s[i] == 91 {
        if i + 1 < s.len() && s[i + 1] == 93 {
            Some((Seq::empty(), i + 2))
        } else {
            dec_player_items(s, i + 1, Seq::empty())
        }
    } else {
        None
    }
}

pub proof fn lemma_dec_player_items(s: Seq<u8>, i: int, acc: Seq<PlayerV>, ps: Seq<PlayerV>)
    requires
        ps.len() > 0,
        seg_at(s, i, enc_player_items(ps) + seq![93u8]),
    ensures
        dec_player_items(s, i, acc) == Some((acc + ps, i + enc_player_items(ps).len() + 1)),
    decreases ps.len(),
{
    let p0 = ps[0];
    if ps.len() == 1 {
        assert(enc_player_items(ps) + seq![93u8] =~= enc_player(p0) + seq![93u8]);
        lemma_seg_split(s, i, enc_player(p0), seq![93u8]);
        lemma_dec_player(s, i, p0);
        let j = i + enc_player(p0).len();
        lemma_seg_index(s, j, seq![93u8], 0);
        assert(acc.push(p0) =~= acc + ps);
    } else {
        let rest = ps.drop_first();
        assert(enc_player_items(ps) + seq![93u8] =~= enc_player(p0) + (seq![44u8] + (
        enc_player_items(rest) + seq![93u8])));
        lemma_seg_split(s, i, enc_player(p0), seq![44u8] + (enc_player_items(rest) + seq![93u8]));
        lemma_dec_player(s, i, p0);
        let j = i + enc_player(p0).len();
        lemma_seg_split(s, j, seq![44u8], enc_player_items(rest) + seq![93u8]);
        lemma_seg_index(s, j, seq![44u8], 0);
        lemma_dec_player_items(s, j + 1, acc.push(p0), rest);
        assert(acc.push(p0) + rest =~= acc + ps);
    }
}

pub proof fn lemma_dec_players(s: Seq<u8>, i: int, ps: Seq<PlayerV>)
    requires
        seg_at(s, i, enc_players(ps)),
    ensures
        dec_players(s, i) == Some((ps, i + enc_players(ps).len())),
{
    assert(enc_players(ps) =~= seq![91u8] + (enc_player_items(ps) + seq![93u8]));
    lemma_seg_split(s, i, seq![91u8], enc_player_items(ps) + seq![93u8]);
    lemma_seg_index(s, i, seq![91u8], 0);
    if ps.len() == 0 {
        assert(enc_player_items(ps) + seq![93u8] =~= seq![93u8]);
        lemma_seg_index(s, i + 1, seq![93u8], 0);
    } else {
        lemma_seg_index(s, i + 1, enc_player_items(ps) + seq![93u8], 0);
        if ps.len() == 1 {
            assert((enc_player_items(ps) + seq![93u8])[0] == enc_player(ps[0])[0]);
        } else {
            assert((enc_player_items(ps) + seq![93u8])[0] == enc_player(ps[0])[0]);
        }
        assert(enc_player(ps[0])[0] == 123);
        lemma_dec_player_items(s, i + 1, Seq::empty(), ps);
        assert(Seq::<PlayerV>::empty() + ps =~= ps);
    }
}

/// The stack list on the wire, between the brackets.
pub open spec fn enc_stack_items(ss: Seq<StackV>) -> Seq<u8>
    decreases ss.len(),
{
    if ss.len() == 0 {
        Seq::empty()
    } else if ss.len() == 1 {
        enc_stack(ss[0])
    } else {
        enc_stack(ss[0]) + seq![44u8] + enc_stack_items(ss.drop_first())
    }
}

/// The stack list on the wire: a JSON array of stack objects.
pub open spec fn enc_stacks(ss: Seq<StackV>) -> Seq<u8> {
    seq![91u8] + enc_stack_items(ss) + seq![93u8]
}

pub open spec fn dec_stack_items(s: Seq<u8>, i: int, acc: Seq<StackV>) -> Option<
    (Seq<StackV>, int),
>
    decreases s.len() - i,
{
    match dec_stack(s, i) {
        None => None,
        Some((v, j)) => if j <= i || j >= s.len() {
            None
        } else if s[j] == 44 {
            dec_stack_items(s, j + 1, acc.push(v))
        } else if s[j] == 93 {
            Some((acc.push(v), j + 1))
        } else {
            None
        },
    }
}

pub open spec fn dec_stacks(s: Seq<u8>, i: int) -> Option<(Seq<StackV>, int)> {
    if 0 <= i < s.len() && s[i] == 91 {
        if i + 1 < s.len() && s[i + 1] == 93 {
            Some((Seq::empty(), i + 2))
        } else {
            dec_stack_items(s, i + 1, Seq::empty())
        }
    } else {
        None
    }
}

pub proof fn lemma_dec_stack_items(s: Seq<u8>, i: int, acc: Seq<StackV>, ss: Seq<StackV>)
    requires
        ss.len() > 0,
        seg_at(s, i, enc_stack_items(ss) + seq![93u8]),
    ensures
        dec_stack_items(s, i, acc) == Some((acc + ss, i + enc_stack_items(ss).len() + 1)),
    decreases ss.len(),
{
    let s0 = ss[0];
    if ss.len() == 1 {
        assert(enc_stack_items(ss) + seq![93u8] =~= enc_stack(s0) + seq![93u8]);
        lemma_seg_split(s, i, enc_stack(s0), seq![93u8]);
        lemma_dec_stack(s, i, s0);
        let j = i + enc_stack(s0).len();
        lemma_seg_index(s, j, seq![93u8], 0);
        assert(acc.push(s0) =~= acc + ss);
    } else {
        let rest = ss.drop_first();
        assert(enc_stack_items(ss) + seq![93u8] =~= enc_stack(s0) + (seq![44u8] + (enc_stack_items(
            rest,
        ) + seq![93u8])));
        lemma_seg_split(s, i, enc_stack(s0), seq![44u8] + (enc_stack_items(rest) + seq![93u8]));
        lemma_dec_stack(s, i, s0);
        let j = i + enc_stack(s0).len();
        lemma_seg_split(s, j, seq![44u8], enc_stack_items(rest) + seq![93u8]);
        lemma_seg_index(s, j, seq![44u8], 0);
        lemma_dec_stack_items(s, j + 1, acc.push(s0), rest);
        assert(acc.push(s0) + rest =~= acc + ss);
    }
}

pub proof fn lemma_dec_stacks(s: Seq<u8>, i: int, ss: Seq<StackV>)
    requires
        seg_at(s, i, enc_stacks(ss)),
    ensures
        dec_stacks(s, i) == Some((ss, i + enc_stacks(ss).len())),
{
    assert(enc_stacks(ss) =~= seq![91u8] + (enc_stack_items(ss) + seq![93u8]));
    lemma_seg_split(s, i, seq![91u8], enc_stack_items(ss) + seq![93u8]);
    lemma_seg_index(s, i, seq![91u8], 0);
    if ss.len() == 0 {
        assert(enc_stack_items(ss) + seq![93u8] =~= seq![93u8]);
        lemma_seg_index(s, i + 1, seq![93u8], 0);
    } else {
        lemma_seg_index(s, i + 1, enc_stack_items(ss) + seq![93u8], 0);
        if ss.len() == 1 {
            assert((enc_stack_items(ss) + seq![93u8])[0] == enc_stack(ss[0])[0]);
        } else {
            assert((enc_stack_items(ss) + seq![93u8])[0] == enc_stack(ss[0])[0]);
        }
        assert(enc_stack(ss[0])[0] == 123);
        lemma_dec_stack_items(s, i + 1, Seq::empty(), ss);
        assert(Seq::<StackV>::empty() + ss =~= ss);
    }
}

/// The flipped card on the wire: `null` or a card name.
pub open spec fn enc_opt_card(o: Option<Card>) -> Seq<u8> {
    match o {
        None => lit_null(),
        Some(c) => enc_card(c),
    }
}

pub open spec fn dec_opt_card(s: Seq<u8>, i: int) -> Option<(Option<Card>, int)> {
    if 0 <= i < s.len() && s[i] == 110 {
        match dec_lit(s, i, lit_null()) {
            None => None,
            Some(j) => Some((None, j)),
        }
    } else if 0 <= i < s.len() && s[i] == 34 {
        match dec_card(s, i) {
            None => None,
            Some((c, j)) => Some((Some(c), j)),
        }
    } else {
        None
    }
}

pub proof fn lemma_dec_opt_card(s: Seq<u8>, i: int, o: Option<Card>)
    requires
        seg_at(s, i, enc_opt_card(o)),
    ensures
        dec_opt_card(s, i) == Some((o, i + enc_opt_card(o).len())),
{
    match o {
        None => {
            lemma_seg_index(s, i, lit_null(), 0);
        },
        Some(c) => {
            lemma_dec_card(s, i, c);
            lemma_seg_index(s, i, enc_card(c), 0);
            assert(enc_card(c)[0] == 34);
        },
    }
}

/// The winner on the wire: `null` or a seat number.
pub open spec fn enc_opt_usize(o: Option<usize>) -> Seq<u8> {
    match o {
        None => lit_null(),
        Some(n) => enc_nat(n as nat),
    }
}

pub open spec fn dec_opt_usize(s: Seq<u8>, i: int) -> Option<(Option<usize>, int)> {
    if 0 <= i < s.len() && s[i] == 110 {
        match dec_lit(s, i, lit_null()) {
            None => None,
            Some(j) => Some((None, j)),
        }
    } else if 0 <= i < s.len() && is_digit(s[i]) {
        match dec_usize(s, i) {
            None => None,
            Some((n, j)) => Some((Some(n), j)),
        }
    } else {
        None
    }
}

pub proof fn lemma_dec_opt_usize(s: Seq<u8>, i: int, o: Option<usize>)
    requires
        seg_at(s, i, enc_opt_usize(o)),
        match o {
            None => true,
            Some(n) => i + enc_nat(n as nat).len() == s.len() || !is_digit(
                s[i + enc_nat(n as nat).len()],
            ),
        },
    ensures
        dec_opt_usize(s, i) == Some((o, i + enc_opt_usize(o).len())),
{
    match o {
        None => {
            lemma_seg_index(s, i, lit_null(), 0);
        },
        Some(n) => {
            lemma_dec_usize(s, i, n);
            lemma_enc_nat_digits(n as nat);
            lemma_seg_index(s, i, enc_nat(n as nat), 0);
        },
    }
}


// --- game, status, room --------------------------------------------------

/// The engine on the wire: players, deck, stacks, flipped card, turn, winner.
pub open spec fn enc_game(g: GameV) -> Seq<u8> {
    lit_obj_players() + enc_players(g.0) + lit_deck_field() + enc_cards(g.1) + lit_stacks_field()
        + enc_stacks(g.2) + lit_current_field() + enc_opt_card(g.3) + lit_turn_field() + enc_nat(
        g.4 as nat,
    ) + lit_winner_field() + enc_opt_usize(g.5) + seq![125u8]
}

pub open spec fn dec_game(s: Seq<u8>, i: int) -> Option<(GameV, int)> {
    match dec_lit(s, i, lit_obj_players()) {
        None => None,
        Some(j1) => match dec_players(s, j1) {
            None => None,
            Some((ps, j2)) => match dec_lit(s, j2, lit_deck_field()) {
                None => None,
                Some(j3) => match dec_cards(s, j3) {
                    None => None,
                    Some((deck, j4)) => match dec_lit(s, j4, lit_stacks_field()) {
                        None => None,
                        Some(j5) => match dec_stacks(s, j5) {
                            None => None,
                            Some((ss, j6)) => match dec_lit(s, j6, lit_current_field()) {
                                None => None,
                                Some(j7) => match dec_opt_card(s, j7) {
                                    None => None,
                                    Some((cur, j8)) => match dec_lit(s, j8, lit_turn_field()) {
                                        None => None,
                                        Some(j9) => match dec_usize(s, j9) {
                                            None => None,
                                            Some((turn, j10)) => match dec_lit(
                                                s,
                                                j10,
                                                lit_winner_field(),
                                            ) {
                                                None => None,
                                                Some(j11) => match dec_opt_usize(s, j11) {
                                                    None => None,
                                                    Some((win, j12)) => match dec_lit(
                                                        s,
                                                        j12,
                                                        seq![125u8],
                                                    ) {
                                                        None => None,
                                                        Some(j13) => Some(
                                                            ((ps, deck, ss, cur, turn, win), j13),
                                                        ),
                                                    },
                                                },
                                            },
                                        },
                                    },
                                },
                            },
                        },
                    },
                },
            },
        },
    }
}

#[verifier::rlimit(100)]
pub proof fn lemma_dec_game(s: Seq<u8>, i: int, g: GameV)
    requires
        seg_at(s, i, enc_game(g)),
    ensures
        dec_game(s, i) == Some((g, i + enc_game(g).len())),
        enc_game(g).len() >= 1,
        enc_game(g)[0] == 123,
{
    let p1 = lit_obj_players();
    let p2 = p1 + enc_players(g.0);
    let p3 = p2 + lit_deck_field();
    let p4 = p3 + enc_cards(g.1);
    let p5 = p4 + lit_stacks_field();
    let p6 = p5 + enc_stacks(g.2);
    let p7 = p6 + lit_current_field();
    let p8 = p7 + enc_opt_card(g.3);
    let p9 = p8 + lit_turn_field();
    let p10 = p9 + enc_nat(g.4 as nat);
    let p11 = p10 + lit_winner_field();
    let p12 = p11 + enc_opt_usize(g.5);
    lemma_seg_split(s, i, p12, seq![125u8]);
    lemma_seg_split(s, i, p11, enc_opt_usize(g.5));
    lemma_seg_split(s, i, p10, lit_winner_field());
    lemma_seg_split(s, i, p9, enc_nat(g.4 as nat));
    lemma_seg_split(s, i, p8, lit_turn_field());
    lemma_seg_split(s, i, p7, enc_opt_card(g.3));
    lemma_seg_split(s, i, p6, lit_current_field());
    lemma_seg_split(s, i, p5, enc_stacks(g.2));
    lemma_seg_split(s, i, p4, lit_stacks_field());
    lemma_seg_split(s, i, p3, enc_cards(g.1));
    lemma_seg_split(s, i, p2, lit_deck_field());
    lemma_seg_split(s, i, p1, enc_players(g.0));
    lemma_dec_players(s, i + p1.len(), g.0);
    lemma_dec_cards(s, i + p3.len(), g.1);
    lemma_dec_stacks(s, i + p5.len(), g.2);
    lemma_dec_opt_card(s, i + p7.len(), g.3);
    lemma_seg_index(s, i + p10.len(), lit_winner_field(), 0);
    lemma_dec_usize(s, i + p9.len(), g.4);
    lemma_seg_index(s, i + p12.len(), seq![125u8], 0);
    lemma_dec_opt_usize(s, i + p11.len(), g.5);
}

/// The lifecycle on the wire: the string `"waiting"`, or the engine under a
/// `playing` tag.
pub open spec fn enc_status(o: Option<GameV>) -> Seq<u8> {
    match o {
        None => lit_waiting(),
        Some(g) => lit_playing() + enc_game(g) + seq![125u8],
    }
}

pub open spec fn dec_status(s: Seq<u8>, i: int) -> Option<(Option<GameV>, int)> {
    if 0 <= i < s.len() && s[i] == 34 {
        match dec_lit(s, i, lit_waiting()) {
            None => None,
            Some(j) => Some((None, j)),
        }
    } else if 0 <= i < s.len() && s[i] == 123 {
        match dec_lit(s, i, lit_playing()) {
            None => None,
            Some(j1) => match dec_game(s, j1) {
                None => None,
                Some((g, j2)) => match dec_lit(s, j2, seq![125u8]) {
                    None => None,
                    Some(j3) => Some((Some(g), j3)),
                },
            },
        }
    } else {
        None
    }
}

#[verifier::rlimit(100)]
pub proof fn lemma_dec_status(s: Seq<u8>, i: int, o: Option<GameV>)
    requires
        seg_at(s, i, enc_status(o)),
    ensures
        dec_status(s, i) == Some((o, i + enc_status(o).len())),
{
    match o {
        None => {
            lemma_seg_index(s, i, lit_waiting(), 0);
        },
        Some(g) => {
            let p1 = lit_playing();
            let p2 = p1 + enc_game(g);
            lemma_seg_split(s, i, p2, seq![125u8]);
            lemma_seg_split(s, i, p1, enc_game(g));
            lemma_seg_index(s, i, lit_playing(), 0);
            lemma_dec_game(s, i + p1.len(), g);
            lemma_seg_index(s, i + p2.len(), seq![125u8], 0);
        },
    }
}

/// A room on the wire: the persisted JSON document.
pub open spec fn enc_room(rv: RoomV) -> Seq<u8> {
    lit_obj_id() + enc_string(rv.0) + lit_players_field() + enc_users(rv.1) + lit_status_field()
        + enc_status(rv.2) + seq![125u8]
}

pub open spec fn dec_room(s: Seq<u8>, i: int) -> Option<(RoomV, int)> {
    match dec_lit(s, i, lit_obj_id()) {
        None => None,
        Some(j1) => match dec_string(s, j1) {
            None => None,
            Some((id, j2)) => if id.len() != 4 {
                None
            } else {
                match dec_lit(s, j2, lit_players_field()) {
                    None => None,
                    Some(j3) => match dec_users(s, j3) {
                        None => None,
                        Some((names, j4)) => match dec_lit(s, j4, lit_status_field()) {
                            None => None,
                            Some(j5) => match dec_status(s, j5) {
                                None => None,
                                Some((st, j6)) => match dec_lit(s, j6, seq![125u8]) {
                                    None => None,
                                    Some(j7) => Some(((id, names, st), j7)),
                                },
                            },
                        },
                    },
                }
            },
        },
    }
}

/// Reads a whole document: the room and nothing after it.
pub open spec fn dec_room_full(s: Seq<u8>) -> Option<RoomV> {
    match dec_room(s, 0) {
        None => None,
        Some((rv, j)) => if j == s.len() {
            Some(rv)
        } else {
            None
        },
    }
}

#[verifier::rlimit(100)]
pub proof fn lemma_dec_room(s: Seq<u8>, i: int, rv: RoomV)
    requires
        rv.0.len() == 4,
        seg_at(s, i, enc_room(rv)),
    ensures
        dec_room(s, i) == Some((rv, i + enc_room(rv).len())),
{
    let p1 = lit_obj_id();
    let p2 = p1 + enc_string(rv.0);
    let p3 = p2 + lit_players_field();
    let p4 = p3 + enc_users(rv.1);
    let p5 = p4 + lit_status_field();
    let p6 = p5 + enc_status(rv.2);
    lemma_seg_split(s, i, p6, seq![125u8]);
    lemma_seg_split(s, i, p5, enc_status(rv.2));
    lemma_seg_split(s, i, p4, lit_status_field());
    lemma_seg_split(s, i, p3, enc_users(rv.1));
    lemma_seg_split(s, i, p2, lit_players_field());
    lemma_seg_split(s, i, p1, enc_string(rv.0));
    lemma_dec_string(s, i + p1.len(), rv.0);
    lemma_dec_users(s, i + p3.len(), rv.1);
    lemma_dec_status(s, i + p5.len(), rv.2);
    lemma_seg_index(s, i + p6.len(), seq![125u8], 0);
}

/// Round-trip law: decoding an encoded room document reproduces exactly the
/// room view that was encoded.
pub proof fn lemma_room_round_trip(rv: RoomV)
    requires
        rv.0.len() == 4,
    ensures
        dec_room_full(enc_room(rv)) == Some(rv),
{
    let s = enc_room(rv);
    assert(s.subrange(0, s.len() as int) =~= s);
    lemma_dec_room(s, 0, rv);
}

// --- actions -------------------------------------------------------------

/// An action on the wire: `"flip"`, or an index under a `place`/`take` tag.
pub open spec fn enc_action(a: Action) -> Seq<u8> {
    match a {
        Action::Flip => lit_flip(),
        Action::Place(n) => lit_place() + enc_nat(n as nat) + seq![125u8],
        Action::Take(n) => lit_take() + enc_nat(n as nat) + seq![125u8],
    }
}

pub open spec fn dec_action(s: Seq<u8>, i: int) -> Option<(Action, int)> {
    if 0 <= i < s.len() && s[i] == 34 {
        match dec_lit(s, i, lit_flip()) {
            None => None,
            Some(j) => Some((Action::Flip, j)),
        }
    } else if 0 <= i < s.len() && s[i] == 123 {
        match dec_lit(s, i, lit_place()) {
            Some(j1) => match dec_usize(s, j1) {
                None => None,
                Some((n, j2)) => match dec_lit(s, j2, seq![125u8]) {
                    None => None,
                    Some(j3) => Some((Action::Place(n), j3)),
                },
            },
            None => match dec_lit(s, i, lit_take()) {
                None => None,
                Some(j1) => match dec_usize(s, j1) {
                    None => None,
                    Some((n, j2)) => match dec_lit(s, j2, seq![125u8]) {
                        None => None,
                        Some(j3) => Some((Action::Take(n), j3)),
                    },
                },
            },
        }
    } else {
        None
    }
}

/// Reads a whole action document: the action and nothing after it.
pub open spec fn dec_action_full(s: Seq<u8>) -> Option<Action> {
    match dec_action(s, 0) {
        None => None,
        Some((a, j)) => if j == s.len() {
            Some(a)
        } else {
            None
        },
    }
}

/// Round-trip law for actions on the wire.
pub proof fn lemma_action_round_trip(a: Action)
    ensures
        dec_action_full(enc_action(a)) == Some(a),
{
    let s = enc_action(a);
    assert(s.subrange(0, s.len() as int) =~= s);
    match a {
        Action::Flip => {
            lemma_seg_index(s, 0, lit_flip(), 0);
        },
        Action::Place(n) => {
            let p1 = lit_place();
            let p2 = p1 + enc_nat(n as nat);
            lemma_seg_split(s, 0, p2, seq![125u8]);
            lemma_seg_split(s, 0, p1, enc_nat(n as nat));
            lemma_seg_index(s, 0, lit_place(), 0);
            lemma_seg_index(s, p2.len() as int, seq![125u8], 0);
            lemma_dec_usize(s, p1.len() as int, n);
        },
        Action::Take(n) => {
            let p1 = lit_take();
            let p2 = p1 + enc_nat(n as nat);
            lemma_seg_split(s, 0, p2, seq![125u8]);
            lemma_seg_split(s, 0, p1, enc_nat(n as nat));
            lemma_seg_index(s, 0, lit_take(), 0);
            lemma_seg_index(s, p2.len() as int, seq![125u8], 0);
            lemma_dec_usize(s, p1.len() as int, n);
            if seg_at(s, 0, lit_place()) {
                lemma_seg_index(s, 0, lit_place(), 2);
                assert(s[2] == 112);
                lemma_seg_index(s, 0, lit_take(), 2);
                assert(false);
            }
        },
    }
}

// --- views ---------------------------------------------------------------

/// A stack as the wire sees it.
pub open spec fn stack_view(s: crate::stack::Stack) -> StackV {
    (s.cards@, s.capacity)
}

/// A claimed stack as the wire sees it.
pub open spec fn opt_stack_view(o: Option<crate::stack::Stack>) -> Option<StackV> {
    match o {
        None => None,
        Some(s) => Some(stack_view(s)),
    }
}

/// A player as the wire sees it.
pub open spec fn player_view(p: crate::player::Player) -> PlayerV {
    (p.cards@, opt_stack_view(p.stack))
}

pub open spec fn players_view(ps: Seq<crate::player::Player>) -> Seq<PlayerV> {
    ps.map_values(|p: crate::player::Player| player_view(p))
}

pub open spec fn stacks_view(ss: Seq<crate::stack::Stack>) -> Seq<StackV> {
    ss.map_values(|s: crate::stack::Stack| stack_view(s))
}

/// The engine as the wire sees it.
pub open spec fn game_view(g: crate::engine::Coloretto) -> GameV {
    (players_view(g.players@), g.deck.cards@, stacks_view(g.stacks@), g.current, g.turn, g.winner)
}

/// The lifecycle as the wire sees it: the engine view while playing.
pub open spec fn status_view(st: crate::room::Status) -> Option<GameV> {
    match st {
        crate::room::Status::Waiting => None,
        crate::room::Status::Playing(g) => Some(game_view(g)),
    }
}

pub open spec fn users_view(us: Seq<crate::room::User>) -> Seq<Seq<u8>> {
    us.map_values(|u: crate::room::User| u.name@)
}

/// A room as the wire sees it.
pub open spec fn room_view(r: crate::room::Room) -> RoomV {
    (r.id.code@, users_view(r.players@), status_view(r.status))
}


// --- executable encoding ---------------------------------------------------


/// The literal `lit_obj_cards` as an owned buffer.
fn bytes_obj_cards() -> (v: Vec<u8>)
    ensures
        v@ == lit_obj_cards(),
{
    let mut v: Vec<u8> = Vec::new();
    v.push(123);
    v.push(34);
    v.push(99);
    v.push(97);
    v.push(114);
    v.push(100);
    v.push(115);
    v.push(34);
    v.push(58);
    proof {
        assert(v@ =~= lit_obj_cards());
    }
    v
}

/// The literal `lit_capacity` as an owned buffer.
fn bytes_capacity() -> (v: Vec<u8>)
    ensures
        v@ == lit_capacity(),
{
    let mut v: Vec<u8> = Vec::new();
    v.push(44);
    v.push(34);
    v.push(99);
    v.push(97);
    v.push(112);
    v.push(97);
    v.push(99);
    v.push(105);
    v.push(116);
    v.push(121);
    v.push(34);
    v.push(58);
    proof {
        assert(v@ =~= lit_capacity());
    }
    v
}

/// The literal `lit_stack_field` as an owned buffer.
fn bytes_stack_field() -> (v: Vec<u8>)
    ensures
        v@ == lit_stack_field(),
{
    let mut v: Vec<u8> = Vec::new();
    v.push(44);
    v.push(34);
    v.push(115);
    v.push(116);
    v.push(97);
    v.push(99);
    v.push(107);
    v.push(34);
    v.push(58);
    proof {
        assert(v@ =~= lit_stack_field());
    }
    v
}

/// The literal `lit_null` as an owned buffer.
fn bytes_null() -> (v: Vec<u8>)
    ensures
        v@ == lit_null(),
{
    let mut v: Vec<u8> = Vec::new();
    v.push(110);
    v.push(117);
    v.push(108);
    v.push(108);
    proof {
        assert(v@ =~= lit_null());
    }
    v
}

/// The literal `lit_obj_players` as an owned buffer.
fn bytes_obj_players() -> (v: Vec<u8>)
    ensures
        v@ == lit_obj_players(),
{
    let mut v: Vec<u8> = Vec::new();
    v.push(123);
    v.push(34);
    v.push(112);
    v.push(108);
    v.push(97);
    v.push(121);
    v.push(101);
    v.push(114);
    v.push(115);
    v.push(34);
    v.push(58);
    proof {
        assert(v@ =~= lit_obj_players());
    }
    v
}

/// The literal `lit_deck_field` as an owned buffer.
fn bytes_deck_field() -> (v: Vec<u8>)
    ensures
        v@ == lit_deck_field(),
{
    let mut v: Vec<u8> = Vec::new();
    v.push(44);
    v.push(34);
    v.push(100);
    v.push(101);
    v.push(99);
    v.push(107);
    v.push(34);
    v.push(58);
    v.push(123);
    v.push(34);
    v.push(99);
    v.push(97);
    v.push(114);
    v.push(100);
    v.push(115);
    v.push(34);
    v.push(58);
    proof {
        assert(v@ =~= lit_deck_field());
    }
    v
}

/// The literal `lit_stacks_field` as an owned buffer.
fn bytes_stacks_field() -> (v: Vec<u8>)
    ensures
        v@ == lit_stacks_field(),
{
    let mut v: Vec<u8> = Vec::new();
    v.push(125);
    v.push(44);
    v.push(34);
    v.push(115);
    v.push(116);
    v.push(97);
    v.push(99);
    v.push(107);
    v.push(115);
    v.push(34);
    v.push(58);
    proof {
        assert(v@ =~= lit_stacks_field());
    }
    v
}

/// The literal `lit_current_field` as an owned buffer.
fn bytes_current_field() -> (v: Vec<u8>)
    ensures
        v@ == lit_current_field(),
{
    let mut v: Vec<u8> = Vec::new();
    v.push(44);
    v.push(34);
    v.push(99);
    v.push(117);
    v.push(114);
    v.push(114);
    v.push(101);
    v.push(110);
    v.push(116);
    v.push(34);
    v.push(58);
    proof {
        assert(v@ =~= lit_current_field());
    }
    v
}

/// The literal `lit_turn_field` as an owned buffer.
fn bytes_turn_field() -> (v: Vec<u8>)
    ensures
        v@ == lit_turn_field(),
{
    let mut v: Vec<u8> = Vec::new();
    v.push(44);
    v.push(34);
    v.push(116);
    v.push(117);
    v.push(114);
    v.push(110);
    v.push(34);
    v.push(58);
    proof {
        assert(v@ =~= lit_turn_field());
    }
    v
}

/// The literal `lit_winner_field` as an owned buffer.
fn bytes_winner_field() -> (v: Vec<u8>)
    ensures
        v@ == lit_winner_field(),
{
    let mut v: Vec<u8> = Vec::new();
    v.push(44);
    v.push(34);
    v.push(119);
    v.push(105);
    v.push(110);
    v.push(110);
    v.push(101);
    v.push(114);
    v.push(34);
    v.push(58);
    proof {
        assert(v@ =~= lit_winner_field());
    }
    v
}

/// The literal `lit_waiting` as an owned buffer.
fn bytes_waiting() -> (v: Vec<u8>)
    ensures
        v@ == lit_waiting(),
{
    let mut v: Vec<u8> = Vec::new();
    v.push(34);
    v.push(119);
    v.push(97);
    v.push(105);
    v.push(116);
    v.push(105);
    v.push(110);
    v.push(103);
    v.push(34);
    proof {
        assert(v@ =~= lit_waiting());
    }
    v
}

/// The literal `lit_playing` as an owned buffer.
fn bytes_playing() -> (v: Vec<u8>)
    ensures
        v@ == lit_playing(),
{
    let mut v: Vec<u8> = Vec::new();
    v.push(123);
    v.push(34);
    v.push(112);
    v.push(108);
    v.push(97);
    v.push(121);
    v.push(105);
    v.push(110);
    v.push(103);
    v.push(34);
    v.push(58);
    proof {
        assert(v@ =~= lit_playing());
    }
    v
}

/// The literal `lit_obj_id` as an owned buffer.
fn bytes_obj_id() -> (v: Vec<u8>)
    ensures
        v@ == lit_obj_id(),
{
    let mut v: Vec<u8> = Vec::new();
    v.push(123);
    v.push(34);
    v.push(105);
    v.push(100);
    v.push(34);
    v.push(58);
    proof {
        assert(v@ =~= lit_obj_id());
    }
    v
}

/// The literal `lit_players_field` as an owned buffer.
fn bytes_players_field() -> (v: Vec<u8>)
    ensures
        v@ == lit_players_field(),
{
    let mut v: Vec<u8> = Vec::new();
    v.push(44);
    v.push(34);
    v.push(112);
    v.push(108);
    v.push(97);
    v.push(121);
    v.push(101);
    v.push(114);
    v.push(115);
    v.push(34);
    v.push(58);
    proof {
        assert(v@ =~= lit_players_field());
    }
    v
}

/// The literal `lit_status_field` as an owned buffer.
fn bytes_status_field() -> (v: Vec<u8>)
    ensures
        v@ == lit_status_field(),
{
    let mut v: Vec<u8> = Vec::new();
    v.push(44);
    v.push(34);
    v.push(115);
    v.push(116);
    v.push(97);
    v.push(116);
    v.push(117);
    v.push(115);
    v.push(34);
    v.push(58);
    proof {
        assert(v@ =~= lit_status_field());
    }
    v
}

/// The literal `lit_flip` as an owned buffer.
fn bytes_flip() -> (v: Vec<u8>)
    ensures
        v@ == lit_flip(),
{
    let mut v: Vec<u8> = Vec::new();
    v.push(34);
    v.push(102);
    v.push(108);
    v.push(105);
    v.push(112);
    v.push(34);
    proof {
        assert(v@ =~= lit_flip());
    }
    v
}

/// The literal `lit_place` as an owned buffer.
fn bytes_place() -> (v: Vec<u8>)
    ensures
        v@ == lit_place(),
{
    let mut v: Vec<u8> = Vec::new();
    v.push(123);
    v.push(34);
    v.push(112);
    v.push(108);
    v.push(97);
    v.push(99);
    v.push(101);
    v.push(34);
    v.push(58);
    proof {
        assert(v@ =~= lit_place());
    }
    v
}

/// The literal `lit_take` as an owned buffer.
fn bytes_take() -> (v: Vec<u8>)
    ensures
        v@ == lit_take(),
{
    let mut v: Vec<u8> = Vec::new();
    v.push(123);
    v.push(34);
    v.push(116);
    v.push(97);
    v.push(107);
    v.push(101);
    v.push(34);
    v.push(58);
    proof {
        assert(v@ =~= lit_take());
    }
    v
}

/// The wire name of a card as an owned buffer.
fn card_name_bytes(c: Card) -> (v: Vec<u8>)
    ensures
        v@ == card_name(c),
{
    let mut v: Vec<u8> = Vec::new();
    match c {
        Card::Red => {
            v.push(114); v.push(101); v.push(100);
        },
        Card::Orange => {
            v.push(111); v.push(114); v.push(97); v.push(110); v.push(103); v.push(101);
        },
        Card::Yellow => {
            v.push(121); v.push(101); v.push(108); v.push(108); v.push(111); v.push(119);
        },
        Card::Green => {
            v.push(103); v.push(114); v.push(101); v.push(101); v.push(110);
        },
        Card::Blue => {
            v.push(98); v.push(108); v.push(117); v.push(101);
        },
        Card::Purple => {
            v.push(112); v.push(117); v.push(114); v.push(112); v.push(108); v.push(101);
        },
        Card::Brown => {
            v.push(98); v.push(114); v.push(111); v.push(119); v.push(110);
        },
        Card::Rainbow => {
            v.push(114); v.push(97); v.push(105); v.push(110); v.push(98); v.push(111); v.push(119);
        },
        Card::Gold => {
            v.push(103); v.push(111); v.push(108); v.push(100);
        },
        Card::Points => {
            v.push(112); v.push(111); v.push(105); v.push(110); v.push(116); v.push(115);
        },
    }
    proof {
        assert(v@ =~= card_name(c));
    }
    v
}

proof fn lemma_card_items_snoc(p: Seq<Card>, c: Card)
    ensures
        enc_card_items(p.push(c)) == if p.len() == 0 {
            enc_card(c)
        } else {
            enc_card_items(p) + seq![44u8] + enc_card(c)
        },
    decreases p.len(),
{
    if p.len() == 0 {
        assert(p.push(c)[0] == c);
        assert(enc_card_items(p.push(c)) =~= enc_card(c));
    } else if p.len() == 1 {
        assert(p.push(c).drop_first() =~= seq![c]);
        assert(enc_card_items(seq![c]) == enc_card(c)) by {
            assert(seq![c][0] == c);
        }
        assert(p.push(c)[0] == p[0]);
        assert(enc_card_items(p.push(c)) == enc_card(p[0]) + seq![44u8] + enc_card_items(seq![c]));
        assert(enc_card_items(p) == enc_card(p[0]));
        assert(enc_card_items(p.push(c)) =~= enc_card_items(p) + seq![44u8] + enc_card(c));
    } else {
        assert(p.push(c).drop_first() =~= p.drop_first().push(c));
        lemma_card_items_snoc(p.drop_first(), c);
        assert(p.push(c)[0] == p[0]);
        assert(enc_card_items(p.push(c)) == enc_card(p[0]) + seq![44u8] + enc_card_items(p.drop_first().push(c)));
        assert(enc_card_items(p) == enc_card(p[0]) + seq![44u8] + enc_card_items(p.drop_first()));
        assert(enc_card(p[0]) + seq![44u8] + (enc_card_items(p.drop_first()) + seq![44u8] + enc_card(c)) =~= (
        enc_card(p[0]) + seq![44u8] + enc_card_items(p.drop_first())) + seq![44u8] + enc_card(c));
        assert(enc_card_items(p.push(c)) =~= enc_card_items(p) + seq![44u8] + enc_card(c));
    }
}

proof fn lemma_user_items_snoc(p: Seq<Seq<u8>>, c: Seq<u8>)
    ensures
        enc_user_items(p.push(c)) == if p.len() == 0 {
            enc_string(c)
        } else {
            enc_user_items(p) + seq![44u8] + enc_string(c)
        },
    decreases p.len(),
{
    if p.len() == 0 {
        assert(p.push(c)[0] == c);
        assert(enc_user_items(p.push(c)) =~= enc_string(c));
    } else if p.len() == 1 {
        assert(p.push(c).drop_first() =~= seq![c]);
        assert(enc_user_items(seq![c]) == enc_string(c)) by {
            assert(seq![c][0] == c);
        }
        assert(p.push(c)[0] == p[0]);
        assert(enc_user_items(p.push(c)) == enc_string(p[0]) + seq![44u8] + enc_user_items(seq![c]));
        assert(enc_user_items(p) == enc_string(p[0]));
        assert(enc_user_items(p.push(c)) =~= enc_user_items(p) + seq![44u8] + enc_string(c));
    } else {
        assert(p.push(c).drop_first() =~= p.drop_first().push(c));
        lemma_user_items_snoc(p.drop_first(), c);
        assert(p.push(c)[0] == p[0]);
        assert(enc_user_items(p.push(c)) == enc_string(p[0]) + seq![44u8] + enc_user_items(p.drop_first().push(c)));
        assert(enc_user_items(p) == enc_string(p[0]) + seq![44u8] + enc_user_items(p.drop_first()));
        assert(enc_string(p[0]) + seq![44u8] + (enc_user_items(p.drop_first()) + seq![44u8] + enc_string(c)) =~= (
        enc_string(p[0]) + seq![44u8] + enc_user_items(p.drop_first())) + seq![44u8] + enc_string(c));
        assert(enc_user_items(p.push(c)) =~= enc_user_items(p) + seq![44u8] + enc_string(c));
    }
}

proof fn lemma_player_items_snoc(p: Seq<PlayerV>, c: PlayerV)
    ensures
        enc_player_items(p.push(c)) == if p.len() == 0 {
            enc_player(c)
        } else {
            enc_player_items(p) + seq![44u8] + enc_player(c)
        },
    decreases p.len(),
{
    if p.len() == 0 {
        assert(p.push(c)[0] == c);
        assert(enc_player_items(p.push(c)) =~= enc_player(c));
    } else if p.len() == 1 {
        assert(p.push(c).drop_first() =~= seq![c]);
        assert(enc_player_items(seq![c]) == enc_player(c)) by {
            assert(seq![c][0] == c);
        }
        assert(p.push(c)[0] == p[0]);
        assert(enc_player_items(p.push(c)) == enc_player(p[0]) + seq![44u8] + enc_player_items(seq![c]));
        assert(enc_player_items(p) == enc_player(p[0]));
        assert(enc_player_items(p.push(c)) =~= enc_player_items(p) + seq![44u8] + enc_player(c));
    } else {
        assert(p.push(c).drop_first() =~= p.drop_first().push(c));
        lemma_player_items_snoc(p.drop_first(), c);
        assert(p.push(c)[0] == p[0]);
        assert(enc_player_items(p.push(c)) == enc_player(p[0]) + seq![44u8] + enc_player_items(p.drop_first().push(c)));
        assert(enc_player_items(p) == enc_player(p[0]) + seq![44u8] + enc_player_items(p.drop_first()));
        assert(enc_player(p[0]) + seq![44u8] + (enc_player_items(p.drop_first()) + seq![44u8] + enc_player(c)) =~= (
        enc_player(p[0]) + seq![44u8] + enc_player_items(p.drop_first())) + seq![44u8] + enc_player(c));
        assert(enc_player_items(p.push(c)) =~= enc_player_items(p) + seq![44u8] + enc_player(c));
    }
}

proof fn lemma_stack_items_snoc(p: Seq<StackV>, c: StackV)
    ensures
        enc_stack_items(p.push(c)) == if p.len() == 0 {
            enc_stack(c)
        } else {
            enc_stack_items(p) + seq![44u8] + enc_stack(c)
        },
    decreases p.len(),
{
    if p.len() == 0 {
        assert(p.push(c)[0] == c);
        assert(enc_stack_items(p.push(c)) =~= enc_stack(c));
    } else if p.len() == 1 {
        assert(p.push(c).drop_first() =~= seq![c]);
        assert(enc_stack_items(seq![c]) == enc_stack(c)) by {
            assert(seq![c][0] == c);
        }
        assert(p.push(c)[0] == p[0]);
        assert(enc_stack_items(p.push(c)) == enc_stack(p[0]) + seq![44u8] + enc_stack_items(seq![c]));
        assert(enc_stack_items(p) == enc_stack(p[0]));
        assert(enc_stack_items(p.push(c)) =~= enc_stack_items(p) + seq![44u8] + enc_stack(c));
    } else {
        assert(p.push(c).drop_first() =~= p.drop_first().push(c));
        lemma_stack_items_snoc(p.drop_first(), c);
        assert(p.push(c)[0] == p[0]);
        assert(enc_stack_items(p.push(c)) == enc_stack(p[0]) + seq![44u8] + enc_stack_items(p.drop_first().push(c)));
        assert(enc_stack_items(p) == enc_stack(p[0]) + seq![44u8] + enc_stack_items(p.drop_first()));
        assert(enc_stack(p[0]) + seq![44u8] + (enc_stack_items(p.drop_first()) + seq![44u8] + enc_stack(c)) =~= (
        enc_stack(p[0]) + seq![44u8] + enc_stack_items(p.drop_first())) + seq![44u8] + enc_stack(c));
        assert(enc_stack_items(p.push(c)) =~= enc_stack_items(p) + seq![44u8] + enc_stack(c));
    }
}


/// Appends an owned buffer.
fn push_bytes(out: &mut Vec<u8>, bytes: &Vec<u8>)
    ensures
        final(out)@ == old(out)@ + bytes@,
{
    let ghost base = out@;
    let mut k: usize = 0;
    proof {
        assert(out@ =~= base + bytes@.subrange(0, 0));
    }
    while k < bytes.len()
        invariant
            k <= bytes@.len(),
            out@ == base + bytes@.subrange(0, k as int),
        decreases bytes@.len() - k,
    {
        out.push(bytes[k]);
        proof {
            assert(bytes@.subrange(0, k + 1) =~= bytes@.subrange(0, k as int).push(
                bytes@[k as int],
            ));
            assert(out@ =~= base + bytes@.subrange(0, k + 1));
        }
        k = k + 1;
    }
    proof {
        assert(bytes@.subrange(0, bytes@.len() as int) =~= bytes@);
    }
}

/// Appending a byte to a name appends its escape to the escaped form.
proof fn lemma_esc_snoc(p: Seq<u8>, b: u8)
    ensures
        esc_bytes(p.push(b)) == esc_bytes(p) + (if b == 34 || b == 92 {
            seq![92u8, b]
        } else {
            seq![b]
        }),
    decreases p.len(),
{
    let tail: Seq<u8> = if b == 34 || b == 92 {
        seq![92u8, b]
    } else {
        seq![b]
    };
    if p.len() == 0 {
        assert(p.push(b).drop_first() =~= Seq::<u8>::empty());
        assert(p.push(b)[0] == b);
        assert(esc_bytes(Seq::<u8>::empty()) == Seq::<u8>::empty());
        assert(esc_bytes(p.push(b)) =~= esc_bytes(p) + tail);
    } else {
        assert(p.push(b).drop_first() =~= p.drop_first().push(b));
        lemma_esc_snoc(p.drop_first(), b);
        assert(p.push(b)[0] == p[0]);
        let head0: Seq<u8> = if p[0] == 34 || p[0] == 92 {
            seq![92u8, p[0]]
        } else {
            seq![p[0]]
        };
        assert(esc_bytes(p.push(b)) == head0 + esc_bytes(p.drop_first().push(b)));
        assert(esc_bytes(p) == head0 + esc_bytes(p.drop_first()));
        assert(head0 + (esc_bytes(p.drop_first()) + tail) =~= (head0 + esc_bytes(p.drop_first()))
            + tail);
        assert(esc_bytes(p.push(b)) =~= esc_bytes(p) + tail);
    }
}

/// Appends a JSON string.
fn push_string(out: &mut Vec<u8>, name: &Vec<u8>)
    ensures
        final(out)@ == old(out)@ + enc_string(name@),
{
    let ghost base = out@;
    out.push(34);
    let mut k: usize = 0;
    proof {
        assert(name@.subrange(0, 0) =~= Seq::<u8>::empty());
        assert(out@ =~= base + seq![34u8] + esc_bytes(name@.subrange(0, 0)));
    }
    while k < name.len()
        invariant
            k <= name@.len(),
            out@ == base + seq![34u8] + esc_bytes(name@.subrange(0, k as int)),
        decreases name@.len() - k,
    {
        let b = name[k];
        if b == 34 || b == 92 {
            out.push(92);
            out.push(b);
        } else {
            out.push(b);
        }
        proof {
            lemma_esc_snoc(name@.subrange(0, k as int), b);
            assert(name@.subrange(0, k + 1) =~= name@.subrange(0, k as int).push(b));
            assert(out@ =~= base + seq![34u8] + esc_bytes(name@.subrange(0, k + 1)));
        }
        k = k + 1;
    }
    out.push(34);
    proof {
        assert(name@.subrange(0, name@.len() as int) =~= name@);
        assert(out@ =~= base + enc_string(name@));
    }
}

/// Appends a decimal number.
fn push_nat(out: &mut Vec<u8>, n: usize)
    ensures
        final(out)@ == old(out)@ + enc_nat(n as nat),
    decreases n,
{
    if n < 10 {
        out.push(48 + (n as u8));
        proof {
            assert(out@ =~= old(out)@ + enc_nat(n as nat));
        }
    } else {
        push_nat(out, n / 10);
        out.push(48 + ((n % 10) as u8));
        proof {
            assert(out@ =~= old(out)@ + enc_nat(n as nat));
        }
    }
}

/// Appends a card name as a JSON string.
fn push_card(out: &mut Vec<u8>, c: Card)
    ensures
        final(out)@ == old(out)@ + enc_card(c),
{
    let name = card_name_bytes(c);
    push_string(out, &name);
}

/// Appends a JSON array of card names.
fn push_cards(out: &mut Vec<u8>, cards: &Vec<Card>)
    ensures
        final(out)@ == old(out)@ + enc_cards(cards@),
{
    let ghost base = out@;
    out.push(91);
    let mut k: usize = 0;
    proof {
        assert(cards@.subrange(0, 0) =~= Seq::<Card>::empty());
        assert(out@ =~= base + seq![91u8] + enc_card_items(cards@.subrange(0, 0)));
    }
    while k < cards.len()
        invariant
            k <= cards@.len(),
            out@ == base + seq![91u8] + enc_card_items(cards@.subrange(0, k as int)),
        decreases cards@.len() - k,
    {
        if k > 0 {
            out.push(44);
        }
        let c = cards[k];
        push_card(out, c);
        proof {
            lemma_card_items_snoc(cards@.subrange(0, k as int), cards@[k as int]);
            assert(cards@.subrange(0, k + 1) =~= cards@.subrange(0, k as int).push(
                cards@[k as int],
            ));
            assert(out@ =~= base + seq![91u8] + enc_card_items(cards@.subrange(0, k + 1)));
        }
        k = k + 1;
    }
    out.push(93);
    proof {
        assert(cards@.subrange(0, cards@.len() as int) =~= cards@);
        assert(out@ =~= base + enc_cards(cards@));
    }
}

/// Appends a JSON array of identity strings.
fn push_users(out: &mut Vec<u8>, users: &Vec<crate::room::User>)
    ensures
        final(out)@ == old(out)@ + enc_users(users_view(users@)),
{
    let ghost base = out@;
    let ghost uv = users_view(users@);
    out.push(91);
    let mut k: usize = 0;
    proof {
        assert(uv.subrange(0, 0) =~= Seq::<Seq<u8>>::empty());
        assert(out@ =~= base + seq![91u8] + enc_user_items(uv.subrange(0, 0)));
    }
    while k < users.len()
        invariant
            k <= users@.len() == uv.len(),
            uv == users_view(users@),
            out@ == base + seq![91u8] + enc_user_items(uv.subrange(0, k as int)),
        decreases users@.len() - k,
    {
        if k > 0 {
            out.push(44);
        }
        push_string(out, &users[k].name);
        proof {
            lemma_user_items_snoc(uv.subrange(0, k as int), uv[k as int]);
            assert(uv.subrange(0, k + 1) =~= uv.subrange(0, k as int).push(uv[k as int]));
            assert(out@ =~= base + seq![91u8] + enc_user_items(uv.subrange(0, k + 1)));
        }
        k = k + 1;
    }
    out.push(93);
    proof {
        assert(uv.subrange(0, uv.len() as int) =~= uv);
        assert(out@ =~= base + enc_users(uv));
    }
}

/// Appends a stack object.
fn push_stack(out: &mut Vec<u8>, st: &crate::stack::Stack)
    ensures
        final(out)@ == old(out)@ + enc_stack(stack_view(*st)),
{
    let lit1 = bytes_obj_cards();
    push_bytes(out, &lit1);
    push_cards(out, &st.cards);
    let lit2 = bytes_capacity();
    push_bytes(out, &lit2);
    push_nat(out, st.capacity);
    out.push(125);
    proof {
        assert(out@ =~= old(out)@ + enc_stack(stack_view(*st)));
    }
}

/// Appends a claimed stack: `null` or the stack object.
fn push_opt_stack(out: &mut Vec<u8>, o: &Option<crate::stack::Stack>)
    ensures
        final(out)@ == old(out)@ + enc_opt_stack(opt_stack_view(*o)),
{
    match o {
        None => {
            let lit = bytes_null();
            push_bytes(out, &lit);
        },
        Some(st) => {
            push_stack(out, st);
        },
    }
}

/// Appends a player object.
fn push_player(out: &mut Vec<u8>, p: &crate::player::Player)
    ensures
        final(out)@ == old(out)@ + enc_player(player_view(*p)),
{
    let lit1 = bytes_obj_cards();
    push_bytes(out, &lit1);
    push_cards(out, &p.cards);
    let lit2 = bytes_stack_field();
    push_bytes(out, &lit2);
    push_opt_stack(out, &p.stack);
    out.push(125);
    proof {
        assert(out@ =~= old(out)@ + enc_player(player_view(*p)));
    }
}

/// Appends a JSON array of player objects.
fn push_players(out: &mut Vec<u8>, ps: &Vec<crate::player::Player>)
    ensures
        final(out)@ == old(out)@ + enc_players(players_view(ps@)),
{
    let ghost base = out@;
    let ghost pv = players_view(ps@);
    out.push(91);
    let mut k: usize = 0;
    proof {
        assert(pv.subrange(0, 0) =~= Seq::<PlayerV>::empty());
        assert(out@ =~= base + seq![91u8] + enc_player_items(pv.subrange(0, 0)));
    }
    while k < ps.len()
        invariant
            k <= ps@.len() == pv.len(),
            pv == players_view(ps@),
            out@ == base + seq![91u8] + enc_player_items(pv.subrange(0, k as int)),
        decreases ps@.len() - k,
    {
        if k > 0 {
            out.push(44);
        }
        push_player(out, &ps[k]);
        proof {
            lemma_player_items_snoc(pv.subrange(0, k as int), pv[k as int]);
            assert(pv.subrange(0, k + 1) =~= pv.subrange(0, k as int).push(pv[k as int]));
            assert(out@ =~= base + seq![91u8] + enc_player_items(pv.subrange(0, k + 1)));
        }
        k = k + 1;
    }
    out.push(93);
    proof {
        assert(pv.subrange(0, pv.len() as int) =~= pv);
        assert(out@ =~= base + enc_players(pv));
    }
}

/// Appends a JSON array of stack objects.
fn push_stacks(out: &mut Vec<u8>, ss: &Vec<crate::stack::Stack>)
    ensures
        final(out)@ == old(out)@ + enc_stacks(stacks_view(ss@)),
{
    let ghost base = out@;
    let ghost sv = stacks_view(ss@);
    out.push(91);
    let mut k: usize = 0;
    proof {
        assert(sv.subrange(0, 0) =~= Seq::<StackV>::empty());
        assert(out@ =~= base + seq![91u8] + enc_stack_items(sv.subrange(0, 0)));
    }
    while k < ss.len()
        invariant
            k <= ss@.len() == sv.len(),
            sv == stacks_view(ss@),
            out@ == base + seq![91u8] + enc_stack_items(sv.subrange(0, k as int)),
        decreases ss@.len() - k,
    {
        if k > 0 {
            out.push(44);
        }
        push_stack(out, &ss[k]);
        proof {
            lemma_stack_items_snoc(sv.subrange(0, k as int), sv[k as int]);
            assert(sv.subrange(0, k + 1) =~= sv.subrange(0, k as int).push(sv[k as int]));
            assert(out@ =~= base + seq![91u8] + enc_stack_items(sv.subrange(0, k + 1)));
        }
        k = k + 1;
    }
    out.push(93);
    proof {
        assert(sv.subrange(0, sv.len() as int) =~= sv);
        assert(out@ =~= base + enc_stacks(sv));
    }
}

/// Appends the flipped card: `null` or a card name.
fn push_opt_card(out: &mut Vec<u8>, o: &Option<Card>)
    ensures
        final(out)@ == old(out)@ + enc_opt_card(*o),
{
    match o {
        None => {
            let lit = bytes_null();
            push_bytes(out, &lit);
        },
        Some(c) => {
            push_card(out, *c);
        },
    }
}

/// Appends the winner: `null` or a seat number.
fn push_opt_usize(out: &mut Vec<u8>, o: &Option<usize>)
    ensures
        final(out)@ == old(out)@ + enc_opt_usize(*o),
{
    match o {
        None => {
            let lit = bytes_null();
            push_bytes(out, &lit);
        },
        Some(n) => {
            push_nat(out, *n);
        },
    }
}

/// Appends the engine object.
#[verifier::rlimit(100)]
fn push_game(out: &mut Vec<u8>, g: &crate::engine::Coloretto)
    ensures
        final(out)@ == old(out)@ + enc_game(game_view(*g)),
{
    let lit1 = bytes_obj_players();
    push_bytes(out, &lit1);
    push_players(out, &g.players);
    let lit2 = bytes_deck_field();
    push_bytes(out, &lit2);
    push_cards(out, &g.deck.cards);
    let lit3 = bytes_stacks_field();
    push_bytes(out, &lit3);
    push_stacks(out, &g.stacks);
    let lit4 = bytes_current_field();
    push_bytes(out, &lit4);
    push_opt_card(out, &g.current);
    let lit5 = bytes_turn_field();
    push_bytes(out, &lit5);
    push_nat(out, g.turn);
    let lit6 = bytes_winner_field();
    push_bytes(out, &lit6);
    push_opt_usize(out, &g.winner);
    out.push(125);
    proof {
        assert(out@ =~= old(out)@ + enc_game(game_view(*g)));
    }
}

/// Appends the lifecycle value.
fn push_status(out: &mut Vec<u8>, st: &crate::room::Status)
    ensures
        final(out)@ == old(out)@ + enc_status(status_view(*st)),
{
    match st {
        crate::room::Status::Waiting => {
            let lit = bytes_waiting();
            push_bytes(out, &lit);
        },
        crate::room::Status::Playing(g) => {
            let lit1 = bytes_playing();
            push_bytes(out, &lit1);
            push_game(out, g);
            out.push(125);
            proof {
                assert(out@ =~= old(out)@ + enc_status(status_view(*st)));
            }
        },
    }
}

/// Serializes a room to its wire document.
pub fn encode_room(room: &crate::room::Room) -> (out: Vec<u8>)
    ensures
        out@ == enc_room(room_view(*room)),
{
    let mut out: Vec<u8> = Vec::new();
    let lit1 = bytes_obj_id();
    push_bytes(&mut out, &lit1);
    let id = room.id.to_bytes();
    push_string(&mut out, &id);
    let lit2 = bytes_players_field();
    push_bytes(&mut out, &lit2);
    push_users(&mut out, &room.players);
    let lit3 = bytes_status_field();
    push_bytes(&mut out, &lit3);
    push_status(&mut out, &room.status);
    out.push(125);
    proof {
        assert(out@ =~= enc_room(room_view(*room)));
    }
    out
}

/// Serializes an action to its wire form.
pub fn encode_action(a: Action) -> (out: Vec<u8>)
    ensures
        out@ == enc_action(a),
{
    let mut out: Vec<u8> = Vec::new();
    match a {
        Action::Flip => {
            let lit = bytes_flip();
            push_bytes(&mut out, &lit);
        },
        Action::Place(n) => {
            let lit = bytes_place();
            push_bytes(&mut out, &lit);
            push_nat(&mut out, n);
            out.push(125);
            proof {
                assert(out@ =~= enc_action(a));
            }
        },
        Action::Take(n) => {
            let lit = bytes_take();
            push_bytes(&mut out, &lit);
            push_nat(&mut out, n);
            out.push(125);
            proof {
                assert(out@ =~= enc_action(a));
            }
        },
    }
    out
}


/// Round-trip law at the room level: every room's persisted document decodes
/// back to exactly that room's view (a room code is always four bytes).
pub proof fn lemma_room_codec_round_trip(room: crate::room::Room)
    ensures
        dec_room_full(enc_room(room_view(room))) == Some(room_view(room)),
{
    lemma_room_round_trip(room_view(room));
}

// --- executable decoding ---------------------------------------------------

/// Expects an owned literal at offset `i`.
#[verifier::loop_isolation(false)]
fn eat_bytes(v: &Vec<u8>, i: usize, lit: &Vec<u8>) -> (r: Option<usize>)
    ensures
        match r {
            Some(j) => dec_lit(v@, i as int, lit@) == Some(j as int),
            None => dec_lit(v@, i as int, lit@) is None,
        },
{
    if i > v.len() || lit.len() > v.len() - i {
        return None;
    }
    let mut k: usize = 0;
    while k < lit.len()
        invariant
            k <= lit@.len(),
            i + lit@.len() <= v@.len(),
            forall|m: int| 0 <= m < k ==> v@[i + m] == lit@[m],
        decreases lit@.len() - k,
    {
        if v[i + k] != lit[k] {
            proof {
                if seg_at(v@, i as int, lit@) {
                    lemma_seg_index(v@, i as int, lit@, k as int);
                }
            }
            return None;
        }
        k = k + 1;
    }
    proof {
        assert(v@.subrange(i as int, i + lit@.len() as int) =~= lit@);
    }
    Some(i + lit.len())
}

/// Expects a single closing brace at offset `i`.
fn eat_rbrace(v: &Vec<u8>, i: usize) -> (r: Option<usize>)
    ensures
        match r {
            Some(j) => dec_lit(v@, i as int, seq![125u8]) == Some(j as int),
            None => dec_lit(v@, i as int, seq![125u8]) is None,
        },
{
    if i < v.len() && v[i] == 125 {
        proof {
            assert(v@.subrange(i as int, i + 1) =~= seq![125u8]);
        }
        Some(i + 1)
    } else {
        proof {
            if seg_at(v@, i as int, seq![125u8]) {
                lemma_seg_index(v@, i as int, seq![125u8], 0);
            }
        }
        None
    }
}

/// Reads a JSON string.
#[verifier::loop_isolation(false)]
fn d_string(v: &Vec<u8>, i: usize) -> (r: Option<(Vec<u8>, usize)>)
    ensures
        match r {
            Some((name, j)) => dec_string(v@, i as int) == Some((name@, j as int)) && j
                <= v@.len(),
            None => dec_string(v@, i as int) is None,
        },
{
    if i >= v.len() || v[i] != 34 {
        return None;
    }
    let mut acc: Vec<u8> = Vec::new();
    let mut cur: usize = i + 1;
    loop
        invariant
            i + 1 <= cur <= v@.len(),
            dec_string_body(v@, i + 1, Seq::empty()) == dec_string_body(v@, cur as int, acc@),
        decreases v@.len() - cur,
    {
        if cur >= v.len() {
            return None;
        }
        let b = v[cur];
        if b == 34 {
            return Some((acc, cur + 1));
        } else if b == 92 {
            if cur + 1 < v.len() {
                let e = v[cur + 1];
                acc.push(e);
                cur = cur + 2;
            } else {
                return None;
            }
        } else {
            acc.push(b);
            cur = cur + 1;
        }
    }
}

/// The accumulated value only grows while digits are consumed.
proof fn lemma_dec_digits_ge(s: Seq<u8>, i: int, acc: nat)
    ensures
        dec_digits(s, i, acc).0 >= acc,
    decreases s.len() - i,
{
    if 0 <= i < s.len() && is_digit(s[i]) {
        lemma_dec_digits_ge(s, i + 1, acc * 10 + (s[i] - 48) as nat);
    }
}

/// Reads a decimal number that must fit in usize.
#[verifier::loop_isolation(false)]
fn d_usize(v: &Vec<u8>, i: usize) -> (r: Option<(usize, usize)>)
    ensures
        match r {
            Some((n, j)) => dec_usize(v@, i as int) == Some((n, j as int)) && j <= v@.len(),
            None => dec_usize(v@, i as int) is None,
        },
{
    if i >= v.len() || v[i] < 48 || v[i] > 57 {
        return None;
    }
    let mut acc: usize = 0;
    let mut cur: usize = i;
    loop
        invariant
            i <= cur <= v@.len(),
            dec_digits(v@, i as int, 0) == dec_digits(v@, cur as int, acc as nat),
        decreases v@.len() - cur,
    {
        if cur >= v.len() || v[cur] < 48 || v[cur] > 57 {
            return Some((acc, cur));
        }
        let d = v[cur] - 48;
        let step = match acc.checked_mul(10) {
            Some(x) => x.checked_add(d as usize),
            None => None,
        };
        match step {
            Some(next) => {
                acc = next;
                cur = cur + 1;
            },
            None => {
                proof {
                    lemma_dec_digits_ge(
                        v@,
                        cur + 1,
                        (acc as nat) * 10 + (v@[cur as int] - 48) as nat,
                    );
                }
                return None;
            },
        }
    }
}

/// Maps a wire name back to its card kind.
fn card_from_name(name: &Vec<u8>) -> (r: Option<Card>)
    ensures
        r == card_of_name(name@),
{
    let red = card_name_bytes(Card::Red);
    if crate::room::eq_bytes(name, &red) {
        return Some(Card::Red);
    }
    let orange = card_name_bytes(Card::Orange);
    if crate::room::eq_bytes(name, &orange) {
        return Some(Card::Orange);
    }
    let yellow = card_name_bytes(Card::Yellow);
    if crate::room::eq_bytes(name, &yellow) {
        return Some(Card::Yellow);
    }
    let green = card_name_bytes(Card::Green);
    if crate::room::eq_bytes(name, &green) {
        return Some(Card::Green);
    }
    let blue = card_name_bytes(Card::Blue);
    if crate::room::eq_bytes(name, &blue) {
        return Some(Card::Blue);
    }
    let purple = card_name_bytes(Card::Purple);
    if crate::room::eq_bytes(name, &purple) {
        return Some(Card::Purple);
    }
    let brown = card_name_bytes(Card::Brown);
    if crate::room::eq_bytes(name, &brown) {
        return Some(Card::Brown);
    }
    let rainbow = card_name_bytes(Card::Rainbow);
    if crate::room::eq_bytes(name, &rainbow) {
        return Some(Card::Rainbow);
    }
    let gold = card_name_bytes(Card::Gold);
    if crate::room::eq_bytes(name, &gold) {
        return Some(Card::Gold);
    }
    let points = card_name_bytes(Card::Points);
    if crate::room::eq_bytes(name, &points) {
        return Some(Card::Points);
    }
    None
}

/// Reads one card name.
fn d_card(v: &Vec<u8>, i: usize) -> (r: Option<(Card, usize)>)
    ensures
        match r {
            Some((c, j)) => dec_card(v@, i as int) == Some((c, j as int)) && j <= v@.len(),
            None => dec_card(v@, i as int) is None,
        },
{
    match d_string(v, i) {
        None => None,
        Some((name, j)) => match card_from_name(&name) {
            None => None,
            Some(c) => Some((c, j)),
        },
    }
}

/// Reads the items of a card array after the opening bracket.
fn d_card_items(v: &Vec<u8>, i: usize, acc: Vec<Card>) -> (r: Option<(Vec<Card>, usize)>)
    ensures
        match r {
            Some((cards, j)) => dec_card_items(v@, i as int, acc@) == Some((cards@, j as int))
                && j <= v@.len(),
            None => dec_card_items(v@, i as int, acc@) is None,
        },
    decreases v@.len() - i,
{
    match d_card(v, i) {
        None => None,
        Some((c, j)) => {
            if j <= i || j >= v.len() {
                None
            } else if v[j] == 44 {
                let mut acc2 = acc;
                acc2.push(c);
                d_card_items(v, j + 1, acc2)
            } else if v[j] == 93 {
                let mut acc2 = acc;
                acc2.push(c);
                Some((acc2, j + 1))
            } else {
                None
            }
        },
    }
}

/// Reads a card array.
fn d_cards(v: &Vec<u8>, i: usize) -> (r: Option<(Vec<Card>, usize)>)
    ensures
        match r {
            Some((cards, j)) => dec_cards(v@, i as int) == Some((cards@, j as int)) && j
                <= v@.len(),
            None => dec_cards(v@, i as int) is None,
        },
{
    if i >= v.len() || v[i] != 91 {
        return None;
    }
    if i + 1 < v.len() && v[i + 1] == 93 {
        let empty: Vec<Card> = Vec::new();
        return Some((empty, i + 2));
    }
    let empty: Vec<Card> = Vec::new();
    d_card_items(v, i + 1, empty)
}

/// Reads the items of an identity array after the opening bracket.
fn d_user_items(v: &Vec<u8>, i: usize, acc: Vec<crate::room::User>) -> (r: Option<
    (Vec<crate::room::User>, usize),
>)
    ensures
        match r {
            Some((us, j)) => dec_user_items(v@, i as int, users_view(acc@)) == Some(
                (users_view(us@), j as int),
            ) && j <= v@.len(),
            None => dec_user_items(v@, i as int, users_view(acc@)) is None,
        },
    decreases v@.len() - i,
{
    match d_string(v, i) {
        None => None,
        Some((name, j)) => {
            if j <= i || j >= v.len() {
                None
            } else if v[j] == 44 {
                let mut acc2 = acc;
                acc2.push(crate::room::User::new(name));
                proof {
                    assert(users_view(acc2@) =~= users_view(acc@).push(name@));
                }
                d_user_items(v, j + 1, acc2)
            } else if v[j] == 93 {
                let mut acc2 = acc;
                acc2.push(crate::room::User::new(name));
                proof {
                    assert(users_view(acc2@) =~= users_view(acc@).push(name@));
                }
                Some((acc2, j + 1))
            } else {
                None
            }
        },
    }
}

/// Reads an identity array.
fn d_users(v: &Vec<u8>, i: usize) -> (r: Option<(Vec<crate::room::User>, usize)>)
    ensures
        match r {
            Some((us, j)) => dec_users(v@, i as int) == Some((users_view(us@), j as int)) && j
                <= v@.len(),
            None => dec_users(v@, i as int) is None,
        },
{
    if i >= v.len() || v[i] != 91 {
        return None;
    }
    if i + 1 < v.len() && v[i + 1] == 93 {
        let empty: Vec<crate::room::User> = Vec::new();
        proof {
            assert(users_view(empty@) =~= Seq::<Seq<u8>>::empty());
        }
        return Some((empty, i + 2));
    }
    let empty: Vec<crate::room::User> = Vec::new();
    proof {
        assert(users_view(empty@) =~= Seq::<Seq<u8>>::empty());
    }
    d_user_items(v, i + 1, empty)
}

/// Reads a stack object.
fn d_stack(v: &Vec<u8>, i: usize) -> (r: Option<(crate::stack::Stack, usize)>)
    ensures
        match r {
            Some((st, j)) => dec_stack(v@, i as int) == Some((stack_view(st), j as int)) && j
                <= v@.len(),
            None => dec_stack(v@, i as int) is None,
        },
{
    let lit1 = bytes_obj_cards();
    let j1 = match eat_bytes(v, i, &lit1) {
        None => {
            return None;
        },
        Some(j) => j,
    };
    let (cards, j2) = match d_cards(v, j1) {
        None => {
            return None;
        },
        Some(x) => x,
    };
    let lit2 = bytes_capacity();
    let j3 = match eat_bytes(v, j2, &lit2) {
        None => {
            return None;
        },
        Some(j) => j,
    };
    let (cap, j4) = match d_usize(v, j3) {
        None => {
            return None;
        },
        Some(x) => x,
    };
    let j5 = match eat_rbrace(v, j4) {
        None => {
            return None;
        },
        Some(j) => j,
    };
    Some((crate::stack::Stack { cards, capacity: cap }, j5))
}

/// Reads a claimed stack: `null` or a stack object.
fn d_opt_stack(v: &Vec<u8>, i: usize) -> (r: Option<(Option<crate::stack::Stack>, usize)>)
    ensures
        match r {
            Some((o, j)) => dec_opt_stack(v@, i as int) == Some((opt_stack_view(o), j as int))
                && j <= v@.len(),
            None => dec_opt_stack(v@, i as int) is None,
        },
{
    if i < v.len() && v[i] == 110 {
        let lit = bytes_null();
        match eat_bytes(v, i, &lit) {
            None => None,
            Some(j) => Some((None, j)),
        }
    } else if i < v.len() && v[i] == 123 {
        match d_stack(v, i) {
            None => None,
            Some((st, j)) => Some((Some(st), j)),
        }
    } else {
        None
    }
}

/// Reads a player object.
fn d_player(v: &Vec<u8>, i: usize) -> (r: Option<(crate::player::Player, usize)>)
    ensures
        match r {
            Some((p, j)) => dec_player(v@, i as int) == Some((player_view(p), j as int)) && j
                <= v@.len(),
            None => dec_player(v@, i as int) is None,
        },
{
    let lit1 = bytes_obj_cards();
    let j1 = match eat_bytes(v, i, &lit1) {
        None => {
            return None;
        },
        Some(j) => j,
    };
    let (cards, j2) = match d_cards(v, j1) {
        None => {
            return None;
        },
        Some(x) => x,
    };
    let lit2 = bytes_stack_field();
    let j3 = match eat_bytes(v, j2, &lit2) {
        None => {
            return None;
        },
        Some(j) => j,
    };
    let (stack, j4) = match d_opt_stack(v, j3) {
        None => {
            return None;
        },
        Some(x) => x,
    };
    let j5 = match eat_rbrace(v, j4) {
        None => {
            return None;
        },
        Some(j) => j,
    };
    Some((crate::player::Player { cards, stack }, j5))
}

/// Reads the items of a player array after the opening bracket.
fn d_player_items(v: &Vec<u8>, i: usize, acc: Vec<crate::player::Player>) -> (r: Option<
    (Vec<crate::player::Player>, usize),
>)
    ensures
        match r {
            Some((ps, j)) => dec_player_items(v@, i as int, players_view(acc@)) == Some(
                (players_view(ps@), j as int),
            ) && j <= v@.len(),
            None => dec_player_items(v@, i as int, players_view(acc@)) is None,
        },
    decreases v@.len() - i,
{
    match d_player(v, i) {
        None => None,
        Some((p, j)) => {
            if j <= i || j >= v.len() {
                None
            } else if v[j] == 44 {
                let ghost pv = player_view(p);
                let mut acc2 = acc;
                acc2.push(p);
                proof {
                    assert(players_view(acc2@) =~= players_view(acc@).push(pv));
                }
                d_player_items(v, j + 1, acc2)
            } else if v[j] == 93 {
                let ghost pv = player_view(p);
                let mut acc2 = acc;
                acc2.push(p);
                proof {
                    assert(players_view(acc2@) =~= players_view(acc@).push(pv));
                }
                Some((acc2, j + 1))
            } else {
                None
            }
        },
    }
}

/// Reads a player array.
fn d_players(v: &Vec<u8>, i: usize) -> (r: Option<(Vec<crate::player::Player>, usize)>)
    ensures
        match r {
            Some((ps, j)) => dec_players(v@, i as int) == Some((players_view(ps@), j as int))
                && j <= v@.len(),
            None => dec_players(v@, i as int) is None,
        },
{
    if i >= v.len() || v[i] != 91 {
        return None;
    }
    if i + 1 < v.len() && v[i + 1] == 93 {
        let empty: Vec<crate::player::Player> = Vec::new();
        proof {
            assert(players_view(empty@) =~= Seq::<PlayerV>::empty());
        }
        return Some((empty, i + 2));
    }
    let empty: Vec<crate::player::Player> = Vec::new();
    proof {
        assert(players_view(empty@) =~= Seq::<PlayerV>::empty());
    }
    d_player_items(v, i + 1, empty)
}

/// Reads the items of a stack array after the opening bracket.
fn d_stack_items(v: &Vec<u8>, i: usize, acc: Vec<crate::stack::Stack>) -> (r: Option<
    (Vec<crate::stack::Stack>, usize),
>)
    ensures
        match r {
            Some((ss, j)) => dec_stack_items(v@, i as int, stacks_view(acc@)) == Some(
                (stacks_view(ss@), j as int),
            ) && j <= v@.len(),
            None => dec_stack_items(v@, i as int, stacks_view(acc@)) is None,
        },
    decreases v@.len() - i,
{
    match d_stack(v, i) {
        None => None,
        Some((st, j)) => {
            if j <= i || j >= v.len() {
                None
            } else if v[j] == 44 {
                let ghost sv = stack_view(st);
                let mut acc2 = acc;
                acc2.push(st);
                proof {
                    assert(stacks_view(acc2@) =~= stacks_view(acc@).push(sv));
                }
                d_stack_items(v, j + 1, acc2)
            } else if v[j] == 93 {
                let ghost sv = stack_view(st);
                let mut acc2 = acc;
                acc2.push(st);
                proof {
                    assert(stacks_view(acc2@) =~= stacks_view(acc@).push(sv));
                }
                Some((acc2, j + 1))
            } else {
                None
            }
        },
    }
}

/// Reads a stack array.
fn d_stacks(v: &Vec<u8>, i: usize) -> (r: Option<(Vec<crate::stack::Stack>, usize)>)
    ensures
        match r {
            Some((ss, j)) => dec_stacks(v@, i as int) == Some((stacks_view(ss@), j as int)) && j
                <= v@.len(),
            None => dec_stacks(v@, i as int) is None,
        },
{
    if i >= v.len() || v[i] != 91 {
        return None;
    }
    if i + 1 < v.len() && v[i + 1] == 93 {
        let empty: Vec<crate::stack::Stack> = Vec::new();
        proof {
            assert(stacks_view(empty@) =~= Seq::<StackV>::empty());
        }
        return Some((empty, i + 2));
    }
    let empty: Vec<crate::stack::Stack> = Vec::new();
    proof {
        assert(stacks_view(empty@) =~= Seq::<StackV>::empty());
    }
    d_stack_items(v, i + 1, empty)
}

/// Reads the flipped card: `null` or a card name.
fn d_opt_card(v: &Vec<u8>, i: usize) -> (r: Option<(Option<Card>, usize)>)
    ensures
        match r {
            Some((o, j)) => dec_opt_card(v@, i as int) == Some((o, j as int)) && j <= v@.len(),
            None => dec_opt_card(v@, i as int) is None,
        },
{
    if i < v.len() && v[i] == 110 {
        let lit = bytes_null();
        match eat_bytes(v, i, &lit) {
            None => None,
            Some(j) => Some((None, j)),
        }
    } else if i < v.len() && v[i] == 34 {
        match d_card(v, i) {
            None => None,
            Some((c, j)) => Some((Some(c), j)),
        }
    } else {
        None
    }
}

/// Reads the winner: `null` or a seat number.
fn d_opt_usize(v: &Vec<u8>, i: usize) -> (r: Option<(Option<usize>, usize)>)
    ensures
        match r {
            Some((o, j)) => dec_opt_usize(v@, i as int) == Some((o, j as int)) && j <= v@.len(),
            None => dec_opt_usize(v@, i as int) is None,
        },
{
    if i < v.len() && v[i] == 110 {
        let lit = bytes_null();
        match eat_bytes(v, i, &lit) {
            None => None,
            Some(j) => Some((None, j)),
        }
    } else if i < v.len() && 48 <= v[i] && v[i] <= 57 {
        match d_usize(v, i) {
            None => None,
            Some((n, j)) => Some((Some(n), j)),
        }
    } else {
        None
    }
}

/// Reads the engine object.
#[verifier::rlimit(100)]
fn d_game(v: &Vec<u8>, i: usize) -> (r: Option<(crate::engine::Coloretto, usize)>)
    ensures
        match r {
            Some((g, j)) => dec_game(v@, i as int) == Some((game_view(g), j as int)) && j
                <= v@.len(),
            None => dec_game(v@, i as int) is None,
        },
{
    let lit1 = bytes_obj_players();
    let j1 = match eat_bytes(v, i, &lit1) {
        None => {
            return None;
        },
        Some(j) => j,
    };
    let (players, j2) = match d_players(v, j1) {
        None => {
            return None;
        },
        Some(x) => x,
    };
    let lit2 = bytes_deck_field();
    let j3 = match eat_bytes(v, j2, &lit2) {
        None => {
            return None;
        },
        Some(j) => j,
    };
    let (deck_cards, j4) = match d_cards(v, j3) {
        None => {
            return None;
        },
        Some(x) => x,
    };
    let lit3 = bytes_stacks_field();
    let j5 = match eat_bytes(v, j4, &lit3) {
        None => {
            return None;
        },
        Some(j) => j,
    };
    let (stacks, j6) = match d_stacks(v, j5) {
        None => {
            return None;
        },
        Some(x) => x,
    };
    let lit4 = bytes_current_field();
    let j7 = match eat_bytes(v, j6, &lit4) {
        None => {
            return None;
        },
        Some(j) => j,
    };
    let (current, j8) = match d_opt_card(v, j7) {
        None => {
            return None;
        },
        Some(x) => x,
    };
    let lit5 = bytes_turn_field();
    let j9 = match eat_bytes(v, j8, &lit5) {
        None => {
            return None;
        },
        Some(j) => j,
    };
    let (turn, j10) = match d_usize(v, j9) {
        None => {
            return None;
        },
        Some(x) => x,
    };
    let lit6 = bytes_winner_field();
    let j11 = match eat_bytes(v, j10, &lit6) {
        None => {
            return None;
        },
        Some(j) => j,
    };
    let (winner, j12) = match d_opt_usize(v, j11) {
        None => {
            return None;
        },
        Some(x) => x,
    };
    let j13 = match eat_rbrace(v, j12) {
        None => {
            return None;
        },
        Some(j) => j,
    };
    let game = crate::engine::Coloretto {
        players,
        deck: crate::deck::Deck { cards: deck_cards },
        stacks,
        current,
        turn,
        winner,
    };
    Some((game, j13))
}

/// Reads the lifecycle value.
fn d_status(v: &Vec<u8>, i: usize) -> (r: Option<(crate::room::Status, usize)>)
    ensures
        match r {
            Some((st, j)) => dec_status(v@, i as int) == Some((status_view(st), j as int)) && j
                <= v@.len(),
            None => dec_status(v@, i as int) is None,
        },
{
    if i < v.len() && v[i] == 34 {
        let lit = bytes_waiting();
        match eat_bytes(v, i, &lit) {
            None => None,
            Some(j) => Some((crate::room::Status::Waiting, j)),
        }
    } else if i < v.len() && v[i] == 123 {
        let lit = bytes_playing();
        let j1 = match eat_bytes(v, i, &lit) {
            None => {
                return None;
            },
            Some(j) => j,
        };
        let (game, j2) = match d_game(v, j1) {
            None => {
                return None;
            },
            Some(x) => x,
        };
        match eat_rbrace(v, j2) {
            None => None,
            Some(j3) => Some((crate::room::Status::Playing(game), j3)),
        }
    } else {
        None
    }
}

/// Deserializes a room from its wire document; `None` on anything but a
/// whole, canonical document.
#[verifier::rlimit(100)]
pub fn decode_room(v: &Vec<u8>) -> (r: Option<crate::room::Room>)
    ensures
        match r {
            Some(room) => dec_room_full(v@) == Some(room_view(room)),
            None => dec_room_full(v@) is None,
        },
{
    let lit1 = bytes_obj_id();
    let j1 = match eat_bytes(v, 0, &lit1) {
        None => {
            return None;
        },
        Some(j) => j,
    };
    let (id_bytes, j2) = match d_string(v, j1) {
        None => {
            return None;
        },
        Some(x) => x,
    };
    if id_bytes.len() != 4 {
        return None;
    }
    let id = crate::room::RoomId { code: [id_bytes[0], id_bytes[1], id_bytes[2], id_bytes[3]] };
    proof {
        assert(id.code@ =~= id_bytes@);
    }
    let lit2 = bytes_players_field();
    let j3 = match eat_bytes(v, j2, &lit2) {
        None => {
            return None;
        },
        Some(j) => j,
    };
    let (players, j4) = match d_users(v, j3) {
        None => {
            return None;
        },
        Some(x) => x,
    };
    let lit3 = bytes_status_field();
    let j5 = match eat_bytes(v, j4, &lit3) {
        None => {
            return None;
        },
        Some(j) => j,
    };
    let (status, j6) = match d_status(v, j5) {
        None => {
            return None;
        },
        Some(x) => x,
    };
    let j7 = match eat_rbrace(v, j6) {
        None => {
            return None;
        },
        Some(j) => j,
    };
    if j7 != v.len() {
        return None;
    }
    let room = crate::room::Room { id, players, status };
    Some(room)
}

/// Reads an action from its wire form; `None` on anything but a whole,
/// canonical document.
pub fn decode_action(v: &Vec<u8>) -> (r: Option<Action>)
    ensures
        match r {
            Some(a) => dec_action_full(v@) == Some(a),
            None => dec_action_full(v@) is None,
        },
{
    let end: usize;
    let act: Action;
    if v.len() > 0 && v[0] == 34 {
        let lit = bytes_flip();
        match eat_bytes(v, 0, &lit) {
            None => {
                return None;
            },
            Some(j) => {
                act = Action::Flip;
                end = j;
            },
        }
    } else if v.len() > 0 && v[0] == 123 {
        let litp = bytes_place();
        match eat_bytes(v, 0, &litp) {
            Some(j1) => {
                let (n, j2) = match d_usize(v, j1) {
                    None => {
                        return None;
                    },
                    Some(x) => x,
                };
                match eat_rbrace(v, j2) {
                    None => {
                        return None;
                    },
                    Some(j3) => {
                        act = Action::Place(n);
                        end = j3;
                    },
                }
            },
            None => {
                let litt = bytes_take();
                let j1 = match eat_bytes(v, 0, &litt) {
                    None => {
                        return None;
                    },
                    Some(j) => j,
                };
                let (n, j2) = match d_usize(v, j1) {
                    None => {
                        return None;
                    },
                    Some(x) => x,
                };
                match eat_rbrace(v, j2) {
                    None => {
                        return None;
                    },
                    Some(j3) => {
                        act = Action::Take(n);
                        end = j3;
                    },
                }
            },
        }
    } else {
        return None;
    }
    if end == v.len() {
        Some(act)
    } else {
        None
    }
}

} // verus!
