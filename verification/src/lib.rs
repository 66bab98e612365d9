//! Verified core of the Heads-or-Tails elimination arena: the rules that the
//! on-chain contract applies to its stored state, stated and proved with Verus.

pub mod addr;
pub mod admin;
pub mod bounds;
pub mod crypto;
pub mod events;
pub mod laws;
pub mod model;
pub mod prize;
pub mod queries;
pub mod resolution;
pub mod roster;
pub mod rounds;
pub mod types;
pub mod upgrade;
