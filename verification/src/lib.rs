//! Battleship game engine: boards, boats, turn logic, and the decisions
//! behind the MQTT and HTTP front ends.

pub mod api;
pub mod game;
pub mod mqtt;
pub mod text;
