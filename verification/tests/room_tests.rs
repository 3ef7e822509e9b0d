use tortoaster::{Action, Error, GameError, Room, RoomId, Status, User};

fn user(name: &str) -> User {
    User::new(name.as_bytes().to_vec())
}

fn two_player_room() -> Room {
    let mut room = Room::new(user("A"));
    room.enroll(user("B")).unwrap();
    room
}

fn current_actor(room: &Room) -> User {
    let turn = match &room.status {
        Status::Playing(game) => game.turn(),
        Status::Waiting => panic!("not playing"),
    };
    room.players[turn].clone()
}

fn other_actor(room: &Room) -> User {
    let turn = match &room.status {
        Status::Playing(game) => game.turn(),
        Status::Waiting => panic!("not playing"),
    };
    room.players[(turn + 1) % room.players.len()].clone()
}

#[test]
fn new_room_waits_with_creator_leading() {
    let room = Room::new(user("A"));
    assert_eq!(room.players.len(), 1);
    assert_eq!(room.players[0].name, b"A".to_vec());
    assert!(matches!(room.status, Status::Waiting));
    assert!(room.is_well_formed());
    let code = room.id().to_bytes();
    assert_eq!(code.len(), 4);
    assert!(code.iter().all(|b| b.is_ascii_alphanumeric()));
}

#[test]
fn enroll_appends_new_identities() {
    let mut room = Room::new(user("A"));
    assert_eq!(room.enroll(user("B")), Ok(()));
    assert_eq!(room.players.len(), 2);
    assert_eq!(room.players[1].name, b"B".to_vec());
}

#[test]
fn enroll_twice_is_already_joined() {
    let mut room = two_player_room();
    assert_eq!(room.enroll(user("B")), Err(GameError::AlreadyJoined));
    assert_eq!(room.players.len(), 2);
}

#[test]
fn sixth_enrollee_finds_the_room_full() {
    let mut room = Room::new(user("A"));
    for name in ["B", "C", "D", "E"] {
        assert_eq!(room.enroll(user(name)), Ok(()));
    }
    assert_eq!(room.enroll(user("F")), Err(GameError::Full));
    assert_eq!(room.players.len(), 5);
}

#[test]
fn enroll_after_start_is_wrong_state() {
    let mut room = two_player_room();
    room.start(&user("A")).unwrap();
    assert_eq!(room.enroll(user("C")), Err(GameError::WrongState));
}

#[test]
fn remove_drops_every_matching_entry() {
    let mut room = two_player_room();
    assert_eq!(room.remove(&user("B")), Ok(()));
    assert_eq!(room.players.len(), 1);
    assert_eq!(room.players[0].name, b"A".to_vec());
    // removing an absent identity succeeds and changes nothing
    assert_eq!(room.remove(&user("Z")), Ok(()));
    assert_eq!(room.players.len(), 1);
}

#[test]
fn remove_after_start_is_wrong_state() {
    let mut room = two_player_room();
    room.start(&user("A")).unwrap();
    assert_eq!(room.remove(&user("B")), Err(GameError::WrongState));
}

#[test]
fn start_by_non_leader_is_refused() {
    let mut room = two_player_room();
    assert_eq!(room.start(&user("B")), Err(GameError::NotLeader));
    assert!(matches!(room.status, Status::Waiting));
}

#[test]
fn start_alone_is_not_enough_players() {
    let mut room = Room::new(user("A"));
    assert_eq!(room.start(&user("A")), Err(GameError::NotEnoughPlayers));
}

#[test]
fn start_seats_everyone_and_builds_the_engine() {
    let mut room = two_player_room();
    assert_eq!(room.start(&user("A")), Ok(()));
    assert_eq!(room.players.len(), 2);
    let mut names: Vec<Vec<u8>> = room.players.iter().map(|u| u.name.clone()).collect();
    names.sort();
    assert_eq!(names, vec![b"A".to_vec(), b"B".to_vec()]);
    match &room.status {
        Status::Playing(game) => {
            assert_eq!(game.players.len(), 2);
            assert_eq!(game.deck.cards.len(), 58);
            let caps: Vec<usize> = game.stacks.iter().map(|s| s.capacity).collect();
            assert_eq!(caps, vec![1, 2, 3]);
            assert_eq!(game.turn(), 0);
        },
        Status::Waiting => panic!("room did not start"),
    }
    assert!(room.is_well_formed());
}

#[test]
fn start_twice_is_wrong_state_for_the_new_leader() {
    let mut room = two_player_room();
    room.start(&user("A")).unwrap();
    let leader = room.players[0].clone();
    assert_eq!(room.start(&leader), Err(GameError::WrongState));
}

#[test]
fn perform_while_waiting_is_wrong_state() {
    let mut room = two_player_room();
    assert_eq!(room.perform(&user("A"), Action::Flip), Err(GameError::WrongState));
}

#[test]
fn perform_out_of_turn_awaits_turn() {
    let mut room = two_player_room();
    room.start(&user("A")).unwrap();
    let other = other_actor(&room);
    // a valid action is still refused for the seat whose turn it is not
    assert_eq!(room.perform(&other, Action::Flip), Err(GameError::AwaitTurn));
    // an identity that never enrolled is refused the same way
    assert_eq!(room.perform(&user("Z"), Action::Flip), Err(GameError::AwaitTurn));
}

#[test]
fn end_to_end_two_player_scenario() {
    let mut room = Room::new(user("A"));
    assert_eq!(room.enroll(user("B")), Ok(()));
    assert_eq!(room.start(&user("A")), Ok(()));
    match &room.status {
        Status::Playing(game) => {
            let caps: Vec<usize> = game.stacks.iter().map(|s| s.capacity).collect();
            assert_eq!(caps, vec![1, 2, 3]);
        },
        Status::Waiting => panic!("room did not start"),
    }
    let actor = current_actor(&room);
    assert_eq!(room.perform(&actor, Action::Flip), Ok(()));
    match &room.status {
        Status::Playing(game) => {
            assert!(game.current.is_some());
            assert_eq!(game.turn(), 0);
        },
        Status::Waiting => panic!("room fell back to waiting"),
    }
    assert_eq!(room.perform(&actor, Action::Place(0)), Ok(()));
    match &room.status {
        Status::Playing(game) => {
            assert!(game.current.is_none());
            assert_eq!(game.turn(), 1);
            assert_eq!(game.stacks[0].cards.len(), 1);
        },
        Status::Waiting => panic!("room fell back to waiting"),
    }
}

#[test]
fn engine_refusals_come_back_wrapped() {
    let mut room = two_player_room();
    room.start(&user("A")).unwrap();
    let actor = current_actor(&room);
    assert_eq!(
        room.perform(&actor, Action::Place(0)),
        Err(GameError::Coloretto(Error::NoCard))
    );
}

#[test]
fn room_id_parses_only_four_ascii_bytes() {
    let ok = RoomId::parse(&b"AB12".to_vec()).unwrap();
    assert_eq!(ok.to_bytes(), b"AB12".to_vec());
    assert_eq!(RoomId::parse(&b"ABC".to_vec()).unwrap_err(), GameError::Invalid);
    assert_eq!(RoomId::parse(&b"ABCDE".to_vec()).unwrap_err(), GameError::Invalid);
    assert_eq!(RoomId::parse(&b"".to_vec()).unwrap_err(), GameError::Invalid);
    // four bytes that are not ASCII are refused: two two-byte characters
    let cents = "\u{a2}\u{a2}".as_bytes().to_vec();
    assert_eq!(cents.len(), 4);
    assert_eq!(RoomId::parse(&cents).unwrap_err(), GameError::Invalid);
    // so is a single non-ASCII byte among ASCII ones
    assert_eq!(
        RoomId::parse(&vec![b'A', 0x80, b'1', b'2']).unwrap_err(),
        GameError::Invalid
    );
}

#[test]
fn user_equality_is_by_name() {
    assert!(user("A").same(&user("A")));
    assert!(!user("A").same(&user("B")));
}
