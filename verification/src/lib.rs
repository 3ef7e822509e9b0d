//! Verified core of a turn-based multiplayer card game service: the card and
//! deck vocabulary, the Coloretto rules engine, the multiplayer room layer,
//! the wire format used to persist rooms in a key-value store, and the small
//! data vocabulary of the service around it.

mod action;
mod card;
mod claims;
mod codec;
mod comments;
mod content;
mod deck;
mod engine;
mod method;
mod pagination;
mod player;
mod room;
mod rng;
mod stack;

pub use action::Action;
pub use card::Card;
pub use claims::{AppClaims, ClientRoles, ResourceAccess, Role};
pub use codec::{decode_action, decode_room, encode_action, encode_room};
pub use comments::NewComment;
pub use content::{ImageContentType, UnsupportedContentType};
pub use deck::Deck;
pub use engine::{Coloretto, Error};
pub use method::Method;
pub use pagination::{Page, PaginatedResponse, Pager};
pub use player::Player;
pub use room::{GameError, Room, RoomId, Status, User};
pub use stack::Stack;
