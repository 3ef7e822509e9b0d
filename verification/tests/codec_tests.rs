use tortoaster::{
    decode_action, decode_room, encode_action, encode_room, Action, Card, Coloretto, Deck,
    Player, Room, RoomId, Stack, Status, User,
};

fn user(name: &str) -> User {
    User::new(name.as_bytes().to_vec())
}

fn fixed_id() -> RoomId {
    RoomId { code: *b"AB12" }
}

#[test]
fn waiting_room_wire_format() {
    let room = Room {
        id: fixed_id(),
        players: vec![user("alice")],
        status: Status::Waiting,
    };
    let bytes = encode_room(&room);
    assert_eq!(
        bytes,
        br#"{"id":"AB12","players":["alice"],"status":"waiting"}"#.to_vec()
    );
}

#[test]
fn playing_room_wire_format() {
    let game = Coloretto {
        players: vec![
            Player { cards: vec![], stack: None },
            Player {
                cards: vec![Card::Red],
                stack: Some(Stack { cards: vec![Card::Gold], capacity: 2 }),
            },
        ],
        deck: Deck { cards: vec![Card::Blue] },
        stacks: vec![Stack { cards: vec![], capacity: 1 }],
        current: Some(Card::Points),
        turn: 1,
        winner: None,
    };
    let room = Room {
        id: fixed_id(),
        players: vec![user("a"), user("b")],
        status: Status::Playing(game),
    };
    let bytes = encode_room(&room);
    let mut expected = String::new();
    expected.push_str(r#"{"id":"AB12","players":["a","b"],"status":{"playing":{"#);
    expected.push_str(r#""players":[{"cards":[],"stack":null},"#);
    expected.push_str(r#"{"cards":["red"],"stack":{"cards":["gold"],"capacity":2}}],"#);
    expected.push_str(r#""deck":{"cards":["blue"]},"#);
    expected.push_str(r#""stacks":[{"cards":[],"capacity":1}],"#);
    expected.push_str(r#""current":"points","turn":1,"winner":null}}}"#);
    assert_eq!(String::from_utf8(bytes).unwrap(), expected);
}

#[test]
fn waiting_room_round_trip() {
    let room = Room {
        id: fixed_id(),
        players: vec![user("alice"), user("bob")],
        status: Status::Waiting,
    };
    let bytes = encode_room(&room);
    let back = decode_room(&bytes).expect("decodes");
    assert_eq!(back, room);
}

#[test]
fn playing_room_round_trip() {
    let mut room = Room::new(user("A"));
    room.enroll(user("B")).unwrap();
    room.start(&user("A")).unwrap();
    let actor = {
        let turn = match &room.status {
            Status::Playing(game) => game.turn(),
            Status::Waiting => panic!("not playing"),
        };
        room.players[turn].clone()
    };
    room.perform(&actor, Action::Flip).unwrap();
    room.perform(&actor, Action::Place(2)).unwrap();
    let bytes = encode_room(&room);
    let back = decode_room(&bytes).expect("decodes");
    assert_eq!(back, room);
}

#[test]
fn escaped_names_round_trip() {
    let mut name = b"a\"b\\c".to_vec();
    name.push(0x7f);
    let room = Room {
        id: fixed_id(),
        players: vec![User::new(name)],
        status: Status::Waiting,
    };
    let bytes = encode_room(&room);
    let back = decode_room(&bytes).expect("decodes");
    assert_eq!(back, room);
}

#[test]
fn decode_rejects_malformed_documents() {
    assert_eq!(decode_room(&b"".to_vec()), None);
    assert_eq!(decode_room(&b"{}".to_vec()), None);
    assert_eq!(decode_room(&b"null".to_vec()), None);
    assert_eq!(
        decode_room(&br#"{"id":"TOOLONG","players":[],"status":"waiting"}"#.to_vec()),
        None
    );
    // a trailing byte spoils an otherwise good document
    let room = Room { id: fixed_id(), players: vec![user("a")], status: Status::Waiting };
    let mut bytes = encode_room(&room);
    bytes.push(b' ');
    assert_eq!(decode_room(&bytes), None);
}

#[test]
fn action_wire_format() {
    assert_eq!(encode_action(Action::Flip), br#""flip""#.to_vec());
    assert_eq!(encode_action(Action::Place(3)), br#"{"place":3}"#.to_vec());
    assert_eq!(encode_action(Action::Take(12)), br#"{"take":12}"#.to_vec());
}

#[test]
fn action_round_trips() {
    for action in [Action::Flip, Action::Place(0), Action::Place(41), Action::Take(7)] {
        let bytes = encode_action(action);
        assert_eq!(decode_action(&bytes), Some(action));
    }
}

#[test]
fn decode_action_rejects_malformed_input() {
    assert_eq!(decode_action(&b"".to_vec()), None);
    assert_eq!(decode_action(&br#""flop""#.to_vec()), None);
    assert_eq!(decode_action(&br#"{"place":}"#.to_vec()), None);
    assert_eq!(decode_action(&br#"{"take":1} "#.to_vec()), None);
}

#[test]
fn decoded_rooms_can_be_validated() {
    let room = Room { id: fixed_id(), players: vec![user("a")], status: Status::Waiting };
    let bytes = encode_room(&room);
    let back = decode_room(&bytes).unwrap();
    assert!(back.is_well_formed());
    // a stored document may hold a state the engine never produces
    let broken = Room {
        id: RoomId { code: *b"A 12" },
        players: vec![user("a")],
        status: Status::Waiting,
    };
    assert!(!broken.is_well_formed());
    let bad_game = Coloretto {
        players: vec![Player::new(), Player::new()],
        deck: Deck { cards: vec![] },
        stacks: vec![],
        current: None,
        turn: 9,
        winner: None,
    };
    let broken2 = Room {
        id: fixed_id(),
        players: vec![user("a"), user("b")],
        status: Status::Playing(bad_game),
    };
    assert!(!broken2.is_well_formed());
}
