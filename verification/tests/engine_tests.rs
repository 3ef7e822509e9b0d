use tortoaster::{Action, Card, Coloretto, Deck, Error, Player, Stack};

fn new_game(size: usize) -> Coloretto {
    Coloretto::new(size).expect("legal size")
}

fn count(cards: &[Card], wanted: Card) -> usize {
    cards.iter().filter(|c| **c == wanted).count()
}

#[test]
fn deck_sizes_by_player_count() {
    assert_eq!(new_game(2).deck.cards.len(), 58);
    assert_eq!(new_game(3).deck.cards.len(), 67);
    assert_eq!(new_game(4).deck.cards.len(), 76);
    assert_eq!(new_game(5).deck.cards.len(), 76);
}

#[test]
fn deck_composition_small() {
    let deck = Deck::small();
    assert_eq!(deck.cards.len(), 58);
    assert_eq!(count(&deck.cards, Card::Rainbow), 2);
    assert_eq!(count(&deck.cards, Card::Gold), 1);
    assert_eq!(count(&deck.cards, Card::Points), 10);
    let colors = [
        Card::Red,
        Card::Orange,
        Card::Yellow,
        Card::Green,
        Card::Blue,
        Card::Purple,
        Card::Brown,
    ];
    let mut present = 0;
    for c in colors {
        let n = count(&deck.cards, c);
        assert!(n == 0 || n == 9);
        if n == 9 {
            present += 1;
        }
    }
    assert_eq!(present, 5);
}

#[test]
fn deck_composition_medium_and_large() {
    let medium = Deck::medium();
    assert_eq!(medium.cards.len(), 67);
    let large = Deck::large();
    assert_eq!(large.cards.len(), 76);
    assert_eq!(count(&large.cards, Card::Red), 9);
    assert_eq!(count(&large.cards, Card::Brown), 9);
    assert_eq!(count(&large.cards, Card::Gold), 1);
}

#[test]
fn new_rejects_bad_sizes() {
    assert_eq!(Coloretto::new(0).unwrap_err(), Error::Players);
    assert_eq!(Coloretto::new(1).unwrap_err(), Error::Players);
    assert_eq!(Coloretto::new(6).unwrap_err(), Error::Players);
}

#[test]
fn two_player_layout() {
    let game = new_game(2);
    assert_eq!(game.stacks.len(), 3);
    let caps: Vec<usize> = game.stacks.iter().map(|s| s.capacity).collect();
    assert_eq!(caps, vec![1, 2, 3]);
    assert!(game.stacks.iter().all(|s| s.cards.is_empty()));
    assert_eq!(game.turn, 0);
    assert!(game.current.is_none());
    assert!(game.winner.is_none());
}

#[test]
fn flip_keeps_turn_and_place_advances() {
    let mut game = new_game(3);
    assert_eq!(game.perform(Action::Flip), Ok(()));
    assert_eq!(game.turn, 0);
    assert!(game.current.is_some());
    assert_eq!(game.perform(Action::Place(0)), Ok(()));
    assert_eq!(game.turn, 1);
    assert!(game.current.is_none());
    assert_eq!(game.stacks[0].cards.len(), 1);
}

#[test]
fn place_without_flip_is_no_card() {
    let mut game = new_game(3);
    assert_eq!(game.perform(Action::Place(0)), Err(Error::NoCard));
    assert_eq!(game.turn, 0);
}

#[test]
fn flip_twice_is_flipped() {
    let mut game = new_game(3);
    assert_eq!(game.perform(Action::Flip), Ok(()));
    assert_eq!(game.perform(Action::Flip), Err(Error::Flipped));
}

#[test]
fn take_while_flipped_is_flipped() {
    let mut game = new_game(3);
    assert_eq!(game.perform(Action::Flip), Ok(()));
    assert_eq!(game.perform(Action::Take(0)), Err(Error::Flipped));
}

#[test]
fn take_out_of_range_is_no_stack() {
    let mut game = new_game(3);
    assert_eq!(game.perform(Action::Take(3)), Err(Error::NoStack));
}

#[test]
fn place_out_of_range_is_no_stack() {
    let mut game = new_game(3);
    assert_eq!(game.perform(Action::Flip), Ok(()));
    assert_eq!(game.perform(Action::Place(17)), Err(Error::NoStack));
}

#[test]
fn take_empty_stack_is_refused() {
    let mut game = new_game(3);
    assert_eq!(game.perform(Action::Take(0)), Err(Error::EmptyStack));
}

#[test]
fn place_into_full_stack_never_mutates() {
    let mut game = new_game(2);
    assert_eq!(game.perform(Action::Flip), Ok(()));
    assert_eq!(game.perform(Action::Place(0)), Ok(()));
    // stack 0 has capacity 1 and is now full
    assert_eq!(game.perform(Action::Flip), Ok(()));
    let before = game.stacks[0].cards.clone();
    assert_eq!(game.perform(Action::Place(0)), Err(Error::FullStack));
    assert_eq!(game.stacks[0].cards, before);
    assert!(game.current.is_some());
    assert_eq!(game.turn, 1);
}

#[test]
fn take_advances_turn_when_round_continues() {
    let mut game = new_game(2);
    assert_eq!(game.perform(Action::Flip), Ok(()));
    assert_eq!(game.perform(Action::Place(0)), Ok(()));
    assert_eq!(game.turn, 1);
    assert_eq!(game.perform(Action::Take(0)), Ok(()));
    // only seat 1 holds a stack, so no round end: turn wraps to 0
    assert_eq!(game.turn, 0);
    assert_eq!(game.stacks.len(), 2);
    assert!(game.players[1].stack.is_some());
}

#[test]
fn round_end_restores_stacks() {
    let mut game = new_game(2);
    // seat 0 fills the capacity-1 stack, seat 1 takes it
    assert_eq!(game.perform(Action::Flip), Ok(()));
    assert_eq!(game.perform(Action::Place(0)), Ok(()));
    assert_eq!(game.perform(Action::Take(0)), Ok(()));
    // seat 0 fills the capacity-2 stack (now at index 0), seat 1 places too
    assert_eq!(game.perform(Action::Flip), Ok(()));
    assert_eq!(game.perform(Action::Place(0)), Ok(()));
    assert_eq!(game.perform(Action::Flip), Ok(()));
    assert_eq!(game.perform(Action::Place(0)), Ok(()));
    // seat 0 takes: every seat now holds a stack, the round ends
    let turn_before = game.turn;
    assert_eq!(turn_before, 0);
    assert_eq!(game.perform(Action::Take(0)), Ok(()));
    assert_eq!(game.stacks.len(), 2 + 1);
    assert!(game.stacks.iter().all(|s| s.cards.is_empty()));
    let caps: Vec<usize> = game.stacks.iter().map(|s| s.capacity).collect();
    assert_eq!(caps, vec![1, 2, 3]);
    assert!(game.players.iter().all(|p| p.stack.is_none()));
    // the turn pointer stays where it was
    assert_eq!(game.turn, turn_before);
}

fn fixed_game(stack0: Vec<Card>) -> Coloretto {
    Coloretto {
        players: vec![Player::new(), Player::new()],
        deck: Deck { cards: vec![Card::Red, Card::Blue] },
        stacks: vec![
            Stack { cards: stack0, capacity: 3 },
            Stack { cards: vec![Card::Green], capacity: 3 },
        ],
        current: None,
        turn: 0,
        winner: None,
    }
}

#[test]
fn gold_take_draws_exactly_one_extra_card() {
    let mut game = fixed_game(vec![Card::Gold]);
    assert_eq!(game.perform(Action::Take(0)), Ok(()));
    // one card left the deck onto the taken stack
    assert_eq!(game.deck.cards, vec![Card::Red]);
    let claimed = game.players[0].stack.as_ref().unwrap();
    assert_eq!(claimed.cards, vec![Card::Gold, Card::Blue]);
}

#[test]
fn plain_take_leaves_deck_alone() {
    let mut game = fixed_game(vec![Card::Purple]);
    assert_eq!(game.perform(Action::Take(0)), Ok(()));
    assert_eq!(game.deck.cards, vec![Card::Red, Card::Blue]);
    let claimed = game.players[0].stack.as_ref().unwrap();
    assert_eq!(claimed.cards, vec![Card::Purple]);
}

#[test]
fn flip_on_exhausted_deck_leaves_no_card() {
    let mut game = fixed_game(vec![Card::Purple]);
    game.deck.cards.clear();
    assert_eq!(game.perform(Action::Flip), Ok(()));
    assert!(game.current.is_none());
}

#[test]
fn any_action_after_winner_is_game_over() {
    let mut game = fixed_game(vec![Card::Purple]);
    game.winner = Some(0);
    assert_eq!(game.perform(Action::Flip), Err(Error::GameOver));
    assert_eq!(game.perform(Action::Take(0)), Err(Error::GameOver));
}

#[test]
fn collect_without_claim_is_no_stack() {
    let mut player = Player::new();
    assert_eq!(player.collect_stack(), Err(Error::NoStack));
}

#[test]
fn insert_then_collect_merges_cards() {
    let mut player = Player::new();
    player.cards.push(Card::Red);
    let mut stack = Stack::new(3);
    stack.push(Card::Gold);
    stack.push(Card::Blue);
    player.insert_stack(stack);
    assert!(player.has_stack());
    let shell = player.collect_stack().unwrap();
    assert!(shell.cards.is_empty());
    assert_eq!(shell.capacity, 3);
    assert_eq!(player.cards, vec![Card::Red, Card::Gold, Card::Blue]);
    assert!(!player.has_stack());
}

#[test]
fn stack_queries() {
    let mut stack = Stack::new(2);
    assert!(stack.is_empty());
    assert!(!stack.is_full());
    assert!(!stack.has_gold());
    stack.push(Card::Gold);
    assert!(!stack.is_empty());
    assert!(stack.has_gold());
    stack.push(Card::Red);
    assert!(stack.is_full());
    stack.clear();
    assert!(stack.is_empty());
    assert_eq!(stack.capacity, 2);
    let mut cards = stack.get_cards_mut();
    cards.push(Card::Blue);
    assert_eq!(stack.cards, vec![Card::Blue]);
}

#[test]
fn card_amounts() {
    assert_eq!(Card::Red.amount(), 9);
    assert_eq!(Card::Rainbow.amount(), 2);
    assert_eq!(Card::Gold.amount(), 1);
    assert_eq!(Card::Points.amount(), 10);
    assert_eq!(Card::colors().len(), 7);
}

#[test]
fn draw_pops_from_the_end() {
    let mut deck = Deck { cards: vec![Card::Red, Card::Blue] };
    assert_eq!(deck.draw(), Some(Card::Blue));
    assert_eq!(deck.draw(), Some(Card::Red));
    assert_eq!(deck.draw(), None);
}
