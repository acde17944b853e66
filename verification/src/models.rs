//! The values that requests carry and replies return.
//!
//! Numbers that the API sends as binary64 are held here by their bit
//! patterns (`*_bits`), and a score is held as the exact fraction it is: the
//! centilitres a player drank over the room's unit size.

use vstd::prelude::*;
use crate::units::UnitSize;

verus! {

/// Body of a request to open a room: the unit size and the goal, as the
/// bit patterns of the binary64 numbers sent.
pub struct CreateRoomRequest {
    pub unit_size_bits: u64,
    pub unit_goal_bits: u64,
}

/// Reply to opening a room: its code.
pub struct CreateRoomResponse {
    pub room_id: String,
}

/// A room as the API shows it: its code, unit size, goal, and its players
/// from highest score to lowest.
pub struct RoomState {
    pub room_id: String,
    pub unit_size: UnitSize,
    pub unit_goal_bits: u64,
    pub players: Vec<PlayerScore>,
}

/// Body of a request to join a room.
pub struct JoinRoomRequest {
    pub username: String,
}

/// A score in units: `drunk_cl` centilitres over the room's unit size.
#[derive(Clone, Copy, PartialEq, Eq, Debug, Structural)]
pub struct Score {
    pub drunk_cl: u64,
    pub unit: UnitSize,
}

/// A player and the player's score.
pub struct PlayerScore {
    pub username: String,
    pub score: Score,
}

/// Body of a request to log or take back a drink: its size, as the bit
/// pattern of the binary64 number sent.
pub struct DrinkRequest {
    pub unit_size_bits: u64,
}

/// Reply of the detailed health check.
pub struct DetailedHealth {
    pub server: String,
    pub database: String,
}

/// The settings of a room as they are stored: code, unit size and goal.
pub struct RoomRow {
    pub room_id: String,
    pub unit_size: UnitSize,
    pub unit_goal_bits: u64,
}

} // verus!
