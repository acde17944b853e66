//! What each request of the API is answered: a status code and either the
//! reply's body or an error.
//!
//! Each handler performs the request on a [`RoomStore`] in the same steps as
//! the service: it validates the body, looks the room up, then the player,
//! and changes the store only when every check passed. Times are seconds
//! given by the caller.

use vstd::prelude::*;
use vstd::string::StringExecFns;
use crate::models::{
    CreateRoomRequest, CreateRoomResponse, DetailedHealth, DrinkRequest, JoinRoomRequest,
    PlayerScore, RoomState, Score,
};
use crate::room_id::{
    ascii_upper, code_of_uuid, is_hyphenated_v4, parse_room_id, parse_room_id_spec, room_id_text,
};
use crate::store::{
    drink_added, drink_removed, has_player, has_room, joined, new_room, player_index, room_index,
    room_of, score_model, sorted_by_score, with_drunk, RoomModel, RoomStore,
};
use crate::units::{unit_from_bits, UnitSize};

verus! {

pub const STATUS_OK: u16 = 200;
pub const STATUS_CREATED: u16 = 201;
pub const STATUS_BAD_REQUEST: u16 = 400;
pub const STATUS_NOT_FOUND: u16 = 404;
pub const STATUS_INTERNAL_SERVER_ERROR: u16 = 500;
pub const STATUS_SERVICE_UNAVAILABLE: u16 = 503;

/// Why a request was refused.
#[derive(Clone, Copy, PartialEq, Eq, Debug, Structural)]
pub enum ApiError {
    /// The size sent is neither 0.33 nor 0.5.
    InvalidUnitSize,
    /// No room has the code in the path.
    RoomNotFound,
    /// The room has no player of the name in the path.
    PlayerNotFound,
    /// The room already has a player of the name sent.
    UsernameTaken,
    /// The new room's random code belongs to a room already.
    RoomIdTaken,
}

impl ApiError {
    /// The status code of the refusal.
    pub open spec fn status_spec(self) -> u16 {
        match self {
            ApiError::InvalidUnitSize => STATUS_BAD_REQUEST,
            ApiError::RoomNotFound => STATUS_NOT_FOUND,
            ApiError::PlayerNotFound => STATUS_NOT_FOUND,
            ApiError::UsernameTaken => STATUS_BAD_REQUEST,
            ApiError::RoomIdTaken => STATUS_INTERNAL_SERVER_ERROR,
        }
    }

    /// The message of the refusal.
    pub open spec fn message_spec(self) -> Seq<char> {
        match self {
            ApiError::InvalidUnitSize => "unit_size must be 0.33 or 0.5"@,
            ApiError::RoomNotFound => "room not found"@,
            ApiError::PlayerNotFound => "player not found"@,
            ApiError::UsernameTaken => "username already taken in this room"@,
            ApiError::RoomIdTaken => "room id already in use"@,
        }
    }

    /// The status code of the refusal.
    pub fn status(&self) -> (r: u16)
        ensures
            r == self.status_spec(),
    {
        match self {
            ApiError::InvalidUnitSize => STATUS_BAD_REQUEST,
            ApiError::RoomNotFound => STATUS_NOT_FOUND,
            ApiError::PlayerNotFound => STATUS_NOT_FOUND,
            ApiError::UsernameTaken => STATUS_BAD_REQUEST,
            ApiError::RoomIdTaken => STATUS_INTERNAL_SERVER_ERROR,
        }
    }

    /// The message of the refusal, sent as the `error` field of the reply.
    pub fn message(&self) -> (r: String)
        ensures
            r@ == self.message_spec(),
    {
        match self {
            ApiError::InvalidUnitSize => String::from_str("unit_size must be 0.33 or 0.5"),
            ApiError::RoomNotFound => String::from_str("room not found"),
            ApiError::PlayerNotFound => String::from_str("player not found"),
            ApiError::UsernameTaken => String::from_str("username already taken in this room"),
            ApiError::RoomIdTaken => String::from_str("room id already in use"),
        }
    }
}

/// A reply: its status code and its body, or the refusal it carries.
pub struct Reply<T> {
    pub status: u16,
    pub body: Result<T, ApiError>,
}

/// `r` refuses the request for reason `e`.
pub open spec fn refuses<T>(r: Reply<T>, e: ApiError) -> bool {
    r.status == e.status_spec() && r.body == Err::<T, ApiError>(e)
}

fn refuse<T>(e: ApiError) -> (r: Reply<T>)
    ensures
        refuses(r, e),
{
    Reply { status: e.status(), body: Err(e) }
}

/// The path names an existing room: its text is a code that a room has.
pub open spec fn names_room(s: Seq<RoomModel>, text: Seq<char>) -> bool {
    parse_room_id_spec(text) matches Some(id) && has_room(s, id)
}

/// The code that a path names.
pub open spec fn named_id(text: Seq<char>) -> u16 {
    parse_room_id_spec(text).unwrap()
}

/// `state` shows room `id` of `s`: its code, unit size and goal, and its
/// players, all of them, from the highest score to the lowest.
pub open spec fn shows_room(state: RoomState, s: Seq<RoomModel>, id: u16) -> bool {
    let room = room_of(s, id);
    &&& state.room_id@ == room_id_text(id)
    &&& state.unit_size == room.unit
    &&& state.unit_goal_bits == room.goal_bits
    &&& state.players@.map_values(|p: PlayerScore| score_model(p)).to_multiset() == room.players.to_multiset()
    &&& sorted_by_score(state.players@)
    &&& forall|a: int| 0 <= a < state.players@.len() ==> (#[trigger] state.players@[a]).score.unit == room.unit
}

/// `GET /health`: always `200` with the text `ok`.
pub fn health() -> (r: Reply<String>)
    ensures
        r.status == STATUS_OK,
        r.body matches Ok(t) && t@ == "ok"@,
{
    Reply { status: STATUS_OK, body: Ok(String::from_str("ok")) }
}

/// `GET /health/detailed`: the server is `ok`; the database is `ok` with
/// `200` when it answered, and `error` with `503` when it did not.
pub fn health_detailed(database_ok: bool) -> (r: Reply<DetailedHealth>)
    ensures
        r.status == (if database_ok { STATUS_OK } else { STATUS_SERVICE_UNAVAILABLE }),
        r.body matches Ok(h) && h.server@ == "ok"@ && h.database@ == (if database_ok {
            "ok"@
        } else {
            "error"@
        }),
{
    let database = if database_ok { String::from_str("ok") } else { String::from_str("error") };
    let status = if database_ok { STATUS_OK } else { STATUS_SERVICE_UNAVAILABLE };
    Reply { status, body: Ok(DetailedHealth { server: String::from_str("ok"), database }) }
}

/// `POST /rooms` with the room code `id` already drawn: a size other than
/// 0.33 or 0.5 is refused; a code that a room has is refused; otherwise the
/// room is opened at time `now` with no players, and `201` gives its code.
pub fn create_room_with_id(store: &mut RoomStore, req: &CreateRoomRequest, id: u16, now: u64) -> (r: Reply<CreateRoomResponse>)
    requires
        old(store).wf(),
    ensures
        final(store).wf(),
        match unit_from_bits(req.unit_size_bits) {
            None => refuses(r, ApiError::InvalidUnitSize) && final(store)@ == old(store)@,
            Some(unit) => if has_room(old(store)@, id) {
                refuses(r, ApiError::RoomIdTaken) && final(store)@ == old(store)@
            } else {
                &&& r.status == STATUS_CREATED
                &&& r.body matches Ok(resp) && resp.room_id@ == room_id_text(id)
                &&& final(store)@ == old(store)@.push(new_room(id, unit, req.unit_goal_bits, now))
            },
        },
        final(store).drawn_uuids() == old(store).drawn_uuids(),
{
    let unit = match UnitSize::from_f64_bits(req.unit_size_bits) {
        None => return refuse(ApiError::InvalidUnitSize),
        Some(unit) => unit,
    };
    if store.insert_room(id, unit, req.unit_goal_bits, now) {
        Reply { status: STATUS_CREATED, body: Ok(CreateRoomResponse { room_id: crate::room_id::format_room_id(id) }) }
    } else {
        refuse(ApiError::RoomIdTaken)
    }
}

/// `POST /rooms`: a size other than 0.33 or 0.5 is refused before anything
/// else, and nothing is drawn. Otherwise a random code is drawn (the first
/// four digits of a new version-4 UUID, upper-cased, recorded as the store's
/// latest draw). When no room has that code, the room is opened under it at
/// time `now` with no players, and `201` gives the code; when a room has it
/// already, the request is refused with `500` and nothing else changes.
pub fn create_room(store: &mut RoomStore, req: &CreateRoomRequest, now: u64) -> (r: Reply<CreateRoomResponse>)
    requires
        old(store).wf(),
    ensures
        final(store).wf(),
        match unit_from_bits(req.unit_size_bits) {
            None => {
                &&& refuses(r, ApiError::InvalidUnitSize)
                &&& final(store)@ == old(store)@
                &&& final(store).drawn_uuids() == old(store).drawn_uuids()
            },
            Some(unit) => {
                let drawn = final(store).last_draw();
                let code = code_of_uuid(drawn);
                &&& final(store).drawn_uuids() == old(store).drawn_uuids().push(drawn)
                &&& is_hyphenated_v4(drawn)
                &&& room_id_text(code) == drawn.take(4).map_values(|c: char| ascii_upper(c))
                &&& if has_room(old(store)@, code) {
                    &&& refuses(r, ApiError::RoomIdTaken)
                    &&& final(store)@ == old(store)@
                } else {
                    &&& r.status == STATUS_CREATED
                    &&& r.body matches Ok(resp) && resp.room_id@ == room_id_text(code)
                    &&& final(store)@ == old(store)@.push(new_room(code, unit, req.unit_goal_bits, now))
                }
                &&& match r.body {
                    Ok(resp) => {
                        &&& r.status == STATUS_CREATED
                        &&& parse_room_id_spec(resp.room_id@) is Some
                        &&& !has_room(old(store)@, named_id(resp.room_id@))
                        &&& final(store)@ == old(store)@.push(
                            new_room(named_id(resp.room_id@), unit, req.unit_goal_bits, now),
                        )
                    },
                    Err(e) => {
                        &&& refuses(r, ApiError::RoomIdTaken)
                        &&& old(store)@.len() > 0
                        &&& final(store)@ == old(store)@
                    },
                }
            },
        },
{
    if UnitSize::from_f64_bits(req.unit_size_bits).is_none() {
        return refuse(ApiError::InvalidUnitSize);
    }
    let id = store.draw_room_id();
    let r = create_room_with_id(store, req, id, now);
    proof {
        crate::room_id::lemma_room_id_roundtrip(id, room_id_text(id));
        if has_room(old(store)@, id) {
            assert(old(store)@.len() > 0);
        }
    }
    r
}

/// The state of room `id`, which exists.
fn room_state(store: &RoomStore, id: u16) -> (state: RoomState)
    requires
        store.wf(),
        has_room(store@, id),
    ensures
        shows_room(state, store@, id),
{
    let row = store.room_row(id).unwrap();
    let players = store.players_by_score(id);
    RoomState { room_id: row.room_id, unit_size: row.unit_size, unit_goal_bits: row.unit_goal_bits, players }
}

/// The code that a path names, when a room has it.
fn lookup_room(store: &RoomStore, room_id: &str) -> (r: Option<u16>)
    requires
        store.wf(),
    ensures
        r is Some <==> names_room(store@, room_id@),
        r matches Some(id) ==> id == named_id(room_id@),
{
    match parse_room_id(room_id) {
        None => None,
        Some(id) => if store.contains_room(id) {
            Some(id)
        } else {
            None
        },
    }
}

/// `GET /rooms/:room_id`: `404` unless the path names a room; otherwise
/// `200` with the room and its players from the highest score to the lowest.
pub fn get_room(store: &RoomStore, room_id: &str) -> (r: Reply<RoomState>)
    requires
        store.wf(),
    ensures
        !names_room(store@, room_id@) ==> refuses(r, ApiError::RoomNotFound),
        names_room(store@, room_id@) ==> {
            &&& r.status == STATUS_OK
            &&& r.body matches Ok(state) && shows_room(state, store@, named_id(room_id@))
        },
{
    match lookup_room(store, room_id) {
        None => refuse(ApiError::RoomNotFound),
        Some(id) => Reply { status: STATUS_OK, body: Ok(room_state(store, id)) },
    }
}

/// `POST /rooms/:room_id/join`: `404` unless the path names a room; `400`
/// when the room has a player of that name already; otherwise the player
/// joins at time `now` with nothing drunk, and `201` gives the player with a
/// score of zero.
pub fn join_room(store: &mut RoomStore, room_id: &str, req: &JoinRoomRequest, now: u64) -> (r: Reply<PlayerScore>)
    requires
        old(store).wf(),
    ensures
        final(store).wf(),
        !names_room(old(store)@, room_id@) ==> refuses(r, ApiError::RoomNotFound) && final(store)@ == old(store)@,
        names_room(old(store)@, room_id@) ==> {
            let id = named_id(room_id@);
            let room = room_of(old(store)@, id);
            if has_player(room.players, req.username@) {
                refuses(r, ApiError::UsernameTaken) && final(store)@ == old(store)@
            } else {
                &&& r.status == STATUS_CREATED
                &&& r.body matches Ok(p) && p.username@ == req.username@ && p.score == (Score {
                    drunk_cl: 0,
                    unit: room.unit,
                })
                &&& final(store)@ == old(store)@.update(room_index(old(store)@, id), joined(room, req.username@, now))
            }
        },
{
    let id = match lookup_room(store, room_id) {
        None => return refuse(ApiError::RoomNotFound),
        Some(id) => id,
    };
    if store.player_score(id, &req.username).is_some() {
        return refuse(ApiError::UsernameTaken);
    }
    let row = store.room_row(id).unwrap();
    let inserted = store.insert_player(id, req.username.clone(), now);
    assert(inserted);
    Reply {
        status: STATUS_CREATED,
        body: Ok(PlayerScore { username: req.username.clone(), score: Score { drunk_cl: 0, unit: row.unit_size } }),
    }
}

/// `POST /rooms/:room_id/players/:username/drink`: a size other than 0.33
/// or 0.5 is refused; then `404` unless the path names a room, and `404`
/// unless the room has that player. Otherwise the drink is added to the
/// player's total at time `now`, so the score grows by the drink's size over
/// the room's unit size, and `200` gives the player.
pub fn add_drink(store: &mut RoomStore, room_id: &str, username: &String, req: &DrinkRequest, now: u64) -> (r: Reply<PlayerScore>)
    requires
        old(store).wf(),
    ensures
        final(store).wf(),
        match unit_from_bits(req.unit_size_bits) {
            None => refuses(r, ApiError::InvalidUnitSize) && final(store)@ == old(store)@,
            Some(drink) => if !names_room(old(store)@, room_id@) {
                refuses(r, ApiError::RoomNotFound) && final(store)@ == old(store)@
            } else {
                let id = named_id(room_id@);
                let i = room_index(old(store)@, id);
                let room = old(store)@[i];
                if !has_player(room.players, username@) {
                    refuses(r, ApiError::PlayerNotFound) && final(store)@ == old(store)@
                } else {
                    let j = player_index(room.players, username@);
                    let total = drink_added(room.players[j].drunk_cl, drink.cl());
                    &&& r.status == STATUS_OK
                    &&& r.body matches Ok(p) && p.username@ == username@ && p.score == (Score {
                        drunk_cl: total,
                        unit: room.unit,
                    })
                    &&& final(store)@ == old(store)@.update(i, with_drunk(room, j, total, now))
                }
            },
        },
{
    let drink = match UnitSize::from_f64_bits(req.unit_size_bits) {
        None => return refuse(ApiError::InvalidUnitSize),
        Some(drink) => drink,
    };
    let id = match lookup_room(store, room_id) {
        None => return refuse(ApiError::RoomNotFound),
        Some(id) => id,
    };
    let row = store.room_row(id).unwrap();
    match store.add_drink_to(id, username, drink.centiliters(), now) {
        None => refuse(ApiError::PlayerNotFound),
        Some(total) => Reply {
            status: STATUS_OK,
            body: Ok(PlayerScore { username: username.clone(), score: Score { drunk_cl: total, unit: row.unit_size } }),
        },
    }
}

/// `DELETE /rooms/:room_id/players/:username/drink`: a size other than 0.33
/// or 0.5 is refused; then `404` unless the path names a room, and `404`
/// unless the room has that player. Otherwise the drink is taken back from
/// the player's total at time `now`, never below zero, and `200` gives the
/// room as `GET /rooms/:room_id` shows it.
pub fn undo_drink(store: &mut RoomStore, room_id: &str, username: &String, req: &DrinkRequest, now: u64) -> (r: Reply<RoomState>)
    requires
        old(store).wf(),
    ensures
        final(store).wf(),
        match unit_from_bits(req.unit_size_bits) {
            None => refuses(r, ApiError::InvalidUnitSize) && final(store)@ == old(store)@,
            Some(drink) => if !names_room(old(store)@, room_id@) {
                refuses(r, ApiError::RoomNotFound) && final(store)@ == old(store)@
            } else {
                let id = named_id(room_id@);
                let i = room_index(old(store)@, id);
                let room = old(store)@[i];
                if !has_player(room.players, username@) {
                    refuses(r, ApiError::PlayerNotFound) && final(store)@ == old(store)@
                } else {
                    let j = player_index(room.players, username@);
                    let total = drink_removed(room.players[j].drunk_cl, drink.cl());
                    &&& final(store)@ == old(store)@.update(i, with_drunk(room, j, total, now))
                    &&& r.status == STATUS_OK
                    &&& r.body matches Ok(state) && shows_room(state, final(store)@, id)
                }
            },
        },
{
    let drink = match UnitSize::from_f64_bits(req.unit_size_bits) {
        None => return refuse(ApiError::InvalidUnitSize),
        Some(drink) => drink,
    };
    let id = match lookup_room(store, room_id) {
        None => return refuse(ApiError::RoomNotFound),
        Some(id) => id,
    };
    match store.remove_drink_from(id, username, drink.centiliters(), now) {
        None => refuse(ApiError::PlayerNotFound),
        Some(total) => {
            proof {
                let s = store@;
                let i = room_index(old(store)@, id);
                assert(s[i].id == id);
                crate::store::lemma_room_index(s, id, i);
            }
            Reply { status: STATUS_OK, body: Ok(room_state(store, id)) }
        },
    }
}

} // verus!
