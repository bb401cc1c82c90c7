use vstd::prelude::*;

pub mod catalog;
pub mod chat;
pub mod clock;
pub mod config;
pub mod dialogue;
pub mod encoding;
pub mod heartbeat;
pub mod instances;
pub mod json;
pub mod keyed;
pub mod memory;
pub mod message;
pub mod order;
pub mod package;
pub mod payload;
pub mod pets;
pub mod prompt;
pub mod screenshot;
pub mod search;
pub mod settings;
pub mod provider;
pub mod stream;
pub mod text;
pub mod tray;

verus! {

} // verus!
