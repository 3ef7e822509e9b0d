//! The multiplayer session around the engine: a short session code, the
//! enrolled roster, and a lifecycle that goes one way from waiting to
//! playing. The first enrollee leads; only the leader can start; once the
//! game runs, only the seat whose turn it is may act.

use vstd::prelude::*;

use crate::action::Action;
use crate::engine::{
    spec_flip_post, spec_fresh_engine, spec_outcome, spec_place_post, spec_take_post, Coloretto,
    Error,
};
use crate::rng::{is_alphanumeric_byte, random_alphanumeric_byte, shuffle};

verus! {

/// An opaque, equality-comparable participant identity, as UTF-8 bytes.
#[derive(Clone, Debug, PartialEq, Eq)]
pub struct User {
    pub name: Vec<u8>,
}

impl User {
    /// An identity from its UTF-8 name bytes.
    pub fn new(name: Vec<u8>) -> (u: User)
        ensures
            u.name@ == name@,
    {
        User { name }
    }

    /// Whether two identities are the same.
    pub fn same(&self, other: &User) -> (r: bool)
        ensures
            r == (self.name@ == other.name@),
    {
        eq_bytes(&self.name, &other.name)
    }
}

/// Whether `b` is an ASCII letter or digit.
fn alnum_byte(b: u8) -> (r: bool)
    ensures
        r == is_alphanumeric_byte(b),
{
    (48 <= b && b <= 57) || (65 <= b && b <= 90) || (97 <= b && b <= 122)
}

/// Byte-for-byte equality of two buffers.
pub(crate) fn eq_bytes(a: &Vec<u8>, b: &Vec<u8>) -> (r: bool)
    ensures
        r == (a@ == b@),
{
    if a.len() != b.len() {
        return false;
    }
    let mut i: usize = 0;
    while i < a.len()
        invariant
            i <= a@.len() == b@.len(),
            forall|m: int| 0 <= m < i ==> a@[m] == b@[m],
        decreases a@.len() - i,
    {
        if a[i] != b[i] {
            return false;
        }
        i = i + 1;
    }
    proof {
        assert(a@ =~= b@);
    }
    true
}

/// Why a session request was refused.
#[derive(Clone, Copy, Debug, PartialEq, Eq, Structural, Hash)]
pub enum GameError {
    /// A malformed room code.
    Invalid,
    /// Five players are already enrolled.
    Full,
    /// The identity is already on the roster.
    AlreadyJoined,
    /// A start with fewer than two players.
    NotEnoughPlayers,
    /// A start by anyone but the current seat 0 of the roster.
    NotLeader,
    /// An action by a seat whose turn it is not.
    AwaitTurn,
    /// A request that the lifecycle phase does not allow.
    WrongState,
    /// The engine refused the action.
    Coloretto(Error),
}

/// The four-character session code: four alphanumeric ASCII bytes.
#[derive(Clone, Copy, Debug, PartialEq, Eq)]
pub struct RoomId {
    pub code: [u8; 4],
}

impl RoomId {
    /// All four bytes are ASCII letters or digits.
    pub open spec fn wf(self) -> bool {
        forall|k: int| 0 <= k < 4 ==> is_alphanumeric_byte(#[trigger] self.code@[k])
    }

    /// A fresh code of four random alphanumeric bytes.
    pub fn generate() -> (id: RoomId)
        ensures
            id.wf(),
    {
        let a = random_alphanumeric_byte();
        let b = random_alphanumeric_byte();
        let c = random_alphanumeric_byte();
        let d = random_alphanumeric_byte();
        let id = RoomId { code: [a, b, c, d] };
        proof {
            assert(id.code@ =~= seq![a, b, c, d]);
        }
        id
    }

    /// Reads a code from its textual form, as bytes: exactly four ASCII
    /// bytes pass; longer, shorter or non-ASCII input fails with `Invalid`.
    pub fn parse(bytes: &Vec<u8>) -> (r: Result<RoomId, GameError>)
        ensures
            r is Ok <==> bytes@.len() == 4 && (forall|k: int|
                0 <= k < 4 ==> #[trigger] bytes@[k] <= 127),
            r is Err ==> r == Err::<RoomId, GameError>(GameError::Invalid),
            r matches Ok(id) ==> id.code@ == bytes@,
    {
        if bytes.len() == 4 && bytes[0] <= 127 && bytes[1] <= 127 && bytes[2] <= 127 && bytes[3]
            <= 127 {
            let id = RoomId { code: [bytes[0], bytes[1], bytes[2], bytes[3]] };
            proof {
                assert(id.code@ =~= bytes@);
                assert forall|k: int| 0 <= k < 4 implies #[trigger] bytes@[k] <= 127 by {
                    if k == 0 {
                    } else if k == 1 {
                    } else if k == 2 {
                    } else {
                        assert(k == 3);
                    }
                }
            }
            Ok(id)
        } else {
            Err(GameError::Invalid)
        }
    }

    /// The code's four bytes, for display and for the persistence key.
    pub fn to_bytes(&self) -> (v: Vec<u8>)
        ensures
            v@ == self.code@,
    {
        let mut v: Vec<u8> = Vec::new();
        v.push(self.code[0]);
        v.push(self.code[1]);
        v.push(self.code[2]);
        v.push(self.code[3]);
        proof {
            assert(v@ =~= self.code@);
        }
        v
    }
}

/// The lifecycle phase: enrolling, or playing with the engine state inline.
#[derive(Clone, Debug, PartialEq, Eq)]
pub enum Status {
    Waiting,
    Playing(Coloretto),
}

/// One multiplayer session.
#[derive(Clone, Debug, PartialEq, Eq)]
pub struct Room {
    pub id: RoomId,
    pub players: Vec<User>,
    pub status: Status,
}

/// The roster with every entry bearing these name bytes removed, order kept.
pub open spec fn spec_without_user(players: Seq<User>, name: Seq<u8>) -> Seq<User>
    decreases players.len(),
{
    if players.len() == 0 {
        Seq::empty()
    } else {
        let rest = spec_without_user(players.drop_last(), name);
        if players.last().name@ != name {
            rest.push(players.last())
        } else {
            rest
        }
    }
}

/// Whether some enrolled identity has these name bytes.
pub open spec fn spec_contains_user(players: Seq<User>, name: Seq<u8>) -> bool {
    exists|j: int| 0 <= j < players.len() && (#[trigger] players[j]).name@ == name
}

/// The seat of the first enrollee with these name bytes, if any.
fn position_of(players: &Vec<User>, user: &User) -> (r: Option<usize>)
    ensures
        match r {
            Some(j) => j < players@.len() && players@[j as int].name@ == user.name@ && forall|
                m: int,
            | 0 <= m < j ==> (#[trigger] players@[m]).name@ != user.name@,
            None => forall|m: int|
                0 <= m < players@.len() ==> (#[trigger] players@[m]).name@ != user.name@,
        },
        r is Some <==> spec_contains_user(players@, user.name@),
{
    let mut j: usize = 0;
    while j < players.len()
        invariant
            j <= players@.len(),
            forall|m: int| 0 <= m < j ==> (#[trigger] players@[m]).name@ != user.name@,
        decreases players@.len() - j,
    {
        if players[j].same(user) {
            return Some(j);
        }
        j = j + 1;
    }
    None
}

impl Room {
    /// Roster and engine stay consistent: at most five enrolled while
    /// waiting, and a well-formed engine with one seat per enrollee while
    /// playing.
    pub open spec fn wf(self) -> bool {
        &&& self.id.wf()
        &&& match self.status {
            Status::Waiting => self.players@.len() <= 5,
            Status::Playing(g) => g.wf() && g.players@.len() == self.players@.len(),
        }
    }

    /// A new room: a fresh random code, the creator as sole enrollee and
    /// leader, waiting for players.
    pub fn new(creator: User) -> (room: Room)
        ensures
            room.wf(),
            room.players@.len() == 1,
            room.players@[0].name@ == creator.name@,
            room.status is Waiting,
    {
        let mut players: Vec<User> = Vec::new();
        players.push(creator);
        Room { id: RoomId::generate(), players, status: Status::Waiting }
    }


    /// Checks the consistency that the mutating calls expect, for callers
    /// that obtained a room from outside (for instance by decoding a stored
    /// document).
    pub fn is_well_formed(&self) -> (r: bool)
        ensures
            r == self.wf(),
    {
        let c = self.id.code;
        let id_ok = alnum_byte(c[0]) && alnum_byte(c[1]) && alnum_byte(c[2]) && alnum_byte(c[3]);
        proof {
            if is_alphanumeric_byte(self.id.code@[0]) && is_alphanumeric_byte(self.id.code@[1])
                && is_alphanumeric_byte(self.id.code@[2]) && is_alphanumeric_byte(
                self.id.code@[3],
            ) {
                assert forall|k: int| 0 <= k < 4 implies is_alphanumeric_byte(
                    #[trigger] self.id.code@[k],
                ) by {
                    if k == 0 {
                    } else if k == 1 {
                    } else if k == 2 {
                    } else {
                        assert(k == 3);
                    }
                }
            }
        }
        if !id_ok {
            return false;
        }
        match &self.status {
            Status::Waiting => self.players.len() <= 5,
            Status::Playing(g) => g.is_well_formed() && g.players.len() == self.players.len(),
        }
    }

    /// The session code.
    pub fn id(&self) -> (id: RoomId)
        ensures
            id == self.id,
    {
        self.id
    }

    /// Enrolls a new identity: fails with `WrongState` once playing, with
    /// `AlreadyJoined` if the identity is already on the roster, and with
    /// `Full` at five enrollees; otherwise appends the identity.
    pub fn enroll(&mut self, user: User) -> (r: Result<(), GameError>)
        requires
            old(self).wf(),
        ensures
            final(self).wf(),
            final(self).id == old(self).id,
            r == spec_enroll_outcome(*old(self), user.name@),
            r is Err ==> *final(self) == *old(self),
            r is Ok ==> final(self).players@ =~= old(self).players@.push(user)
                && final(self).status == old(self).status,
    {
        match &self.status {
            Status::Waiting => {
                if position_of(&self.players, &user).is_some() {
                    Err(GameError::AlreadyJoined)
                } else if self.players.len() < 5 {
                    self.players.push(user);
                    Ok(())
                } else {
                    Err(GameError::Full)
                }
            },
            Status::Playing(_) => Err(GameError::WrongState),
        }
    }

    /// Removes every enrollee with this identity while waiting (a no-op if
    /// absent); fails with `WrongState` once playing.
    pub fn remove(&mut self, user: &User) -> (r: Result<(), GameError>)
        requires
            old(self).wf(),
        ensures
            final(self).wf(),
            final(self).id == old(self).id,
            old(self).status is Waiting ==> r == Ok::<(), GameError>(()) && final(self).players@
                == spec_without_user(old(self).players@, user.name@) && final(self).status == old(
                self,
            ).status,
            !(old(self).status is Waiting) ==> r == Err::<(), GameError>(GameError::WrongState)
                && *final(self) == *old(self),
    {
        let waiting = match &self.status {
            Status::Waiting => true,
            Status::Playing(_) => false,
        };
        if !waiting {
            return Err(GameError::WrongState);
        }
        let ghost orig = self.players@;
        let total = self.players.len();
        let mut kept: Vec<User> = Vec::new();
        let mut j: usize = 0;
        while self.players.len() > 0
            invariant
                j <= orig.len() == total,
                kept@.len() <= j,
                self.id == old(self).id,
                self.status == old(self).status,
                self.status is Waiting,
                self.players@ == orig.subrange(j as int, orig.len() as int),
                kept@ == spec_without_user(orig.subrange(0, j as int), user.name@),
            decreases self.players@.len(),
        {
            let ghost pre = orig.subrange(0, j as int);
            let ghost cur = orig.subrange(0, j + 1);
            let u = self.players.remove(0);
            proof {
                assert(u == orig[j as int]);
                assert(cur.drop_last() =~= pre);
                assert(cur.last() == orig[j as int]);
                assert(self.players@ =~= orig.subrange(j + 1, orig.len() as int));
            }
            if !u.same(user) {
                kept.push(u);
            }
            j = j + 1;
        }
        proof {
            assert(orig.subrange(0, orig.len() as int) =~= orig);
        }
        self.players = kept;
        Ok(())
    }

    /// Starts the game: only the current seat 0 may (else `NotLeader`), only
    /// while waiting (else `WrongState`), and only with at least two
    /// enrolled (else `NotEnoughPlayers`). Shuffles the roster into seats
    /// and builds a fresh engine of that size.
    pub fn start(&mut self, user: &User) -> (r: Result<(), GameError>)
        requires
            old(self).wf(),
        ensures
            final(self).wf(),
            final(self).id == old(self).id,
            r == spec_start_outcome(*old(self), user.name@),
            r is Err ==> *final(self) == *old(self),
            r is Ok ==> {
                &&& final(self).players@.len() == old(self).players@.len()
                &&& final(self).players@.to_multiset() == old(self).players@.to_multiset()
                &&& final(self).status matches Status::Playing(g) && spec_fresh_engine(
                    g,
                    old(self).players@.len() as int,
                )
            },
    {
        let leader = if self.players.len() > 0 {
            self.players[0].same(user)
        } else {
            false
        };
        if !leader {
            return Err(GameError::NotLeader);
        }
        match &self.status {
            Status::Waiting => {
                if self.players.len() >= 2 {
                    shuffle(&mut self.players);
                    match Coloretto::new(self.players.len()) {
                        Ok(game) => {
                            self.status = Status::Playing(game);
                            Ok(())
                        },
                        Err(_) => {
                            proof {
                                assert(false);
                            }
                            Err(GameError::NotEnoughPlayers)
                        },
                    }
                } else {
                    Err(GameError::NotEnoughPlayers)
                }
            },
            Status::Playing(_) => Err(GameError::WrongState),
        }
    }

    /// Applies an engine action for `user`: fails with `WrongState` while
    /// waiting and with `AwaitTurn` unless the identity's seat is exactly
    /// the engine's turn; engine refusals come back wrapped in `Coloretto`.
    pub fn perform(&mut self, user: &User, action: Action) -> (r: Result<(), GameError>)
        requires
            old(self).wf(),
        ensures
            final(self).wf(),
            final(self).id == old(self).id,
            final(self).players@ == old(self).players@,
            old(self).status is Waiting ==> r == Err::<(), GameError>(GameError::WrongState)
                && *final(self) == *old(self),
            old(self).status matches Status::Playing(g) ==> {
                if spec_is_turn(old(self).players@, user.name@, g.turn as int) {
                    &&& r == spec_wrap_outcome(spec_outcome(g, action))
                    &&& (r is Err ==> *final(self) == *old(self))
                    &&& final(self).status matches Status::Playing(g2) && (r is Ok ==> match action {
                        Action::Flip => spec_flip_post(g, g2),
                        Action::Place(i) => spec_place_post(g, g2, i as int),
                        Action::Take(i) => spec_take_post(g, g2, i as int),
                    })
                } else {
                    r == Err::<(), GameError>(GameError::AwaitTurn) && *final(self) == *old(self)
                }
            },
    {
        let is_playing = match &self.status {
            Status::Playing(_) => true,
            Status::Waiting => false,
        };
        if !is_playing {
            return Err(GameError::WrongState);
        }
        let seat = position_of(&self.players, user);
        match &mut self.status {
            Status::Playing(game) => {
                let authorized = match seat {
                    Some(j) => j == game.turn(),
                    None => false,
                };
                if !authorized {
                    return Err(GameError::AwaitTurn);
                }
                match game.perform(action) {
                    Ok(()) => Ok(()),
                    Err(e) => Err(GameError::Coloretto(e)),
                }
            },
            Status::Waiting => Err(GameError::WrongState),
        }
    }
}

/// What `enroll` returns, as a total function of the state and the identity.
pub open spec fn spec_enroll_outcome(room: Room, name: Seq<u8>) -> Result<(), GameError> {
    match room.status {
        Status::Waiting => if spec_contains_user(room.players@, name) {
            Err(GameError::AlreadyJoined)
        } else if room.players@.len() < 5 {
            Ok(())
        } else {
            Err(GameError::Full)
        },
        Status::Playing(_) => Err(GameError::WrongState),
    }
}

/// What `start` returns: the leader check comes first, then the lifecycle
/// check, then the roster size check.
pub open spec fn spec_start_outcome(room: Room, name: Seq<u8>) -> Result<(), GameError> {
    if !(room.players@.len() > 0 && room.players@[0].name@ == name) {
        Err(GameError::NotLeader)
    } else {
        match room.status {
            Status::Waiting => if room.players@.len() >= 2 {
                Ok(())
            } else {
                Err(GameError::NotEnoughPlayers)
            },
            Status::Playing(_) => Err(GameError::WrongState),
        }
    }
}

/// The identity's seat (the first roster index bearing its name) is exactly
/// the engine's turn.
pub open spec fn spec_is_turn(players: Seq<User>, name: Seq<u8>, turn: int) -> bool {
    &&& 0 <= turn < players.len()
    &&& players[turn].name@ == name
    &&& forall|m: int| 0 <= m < turn ==> (#[trigger] players[m]).name@ != name
}

/// Engine results as the session reports them: failures wrapped.
pub open spec fn spec_wrap_outcome(r: Result<(), Error>) -> Result<(), GameError> {
    match r {
        Ok(()) => Ok(()),
        Err(e) => Err(GameError::Coloretto(e)),
    }
}

} // verus!
