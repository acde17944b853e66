//! Rooms in which players log the drinks they have, counted in units of the
//! room's chosen size, together with the rules of the HTTP API that serves them.
//!
//! The library holds the rooms and players, validates requests, computes
//! scores and room codes, and says which reply each request gets. The HTTP
//! server around it lives in `app/`.

pub mod handlers;
pub mod laws;
pub mod models;
pub mod room_id;
pub mod store;
pub mod units;
