use vstd::prelude::*;

pub mod text;
pub mod cvars;
pub mod console;
pub mod shader;
pub mod geometry;
pub mod entity_database;
pub mod engine;
pub mod game;
pub mod world_map;
pub mod panic_report;
pub mod ui_style;
pub mod window_state;

verus! {

/// The engine's start-up hook: the event loop needs no preparation.
pub fn init() {
}

} // verus!
