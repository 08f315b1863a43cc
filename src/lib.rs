//! Supervision of game-server processes and the pairing and relay protocol
//! that lets a desktop owner control servers on remote agents.
//!
//! `manager` keeps the server registry and each server's supervision state;
//! `node` mints pairing tokens and tracks nodes; `relay` routes frames between
//! agents and desktops; `agent` decides what an agent does for each owner
//! command. Process spawning, sockets and files are left to the host program:
//! the library takes their results as plain values.

use vstd::prelude::*;

pub mod status;
pub mod text;
pub mod server;
pub mod manager;
pub mod node;
pub mod relay;
pub mod egg;
pub mod agent;
pub mod modpack;

verus! {

} // verus!
