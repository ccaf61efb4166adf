pub mod assets;
pub mod utils;
pub mod memop;
pub mod command_buffer;
pub mod event_target;
pub mod data;
pub mod scene_graph;
pub mod input;
pub mod dragon_bones;
pub mod animation;
pub mod game;
pub mod gi;
pub mod scene_globals;
pub mod state_machine;
pub mod event_bus;
pub mod event;
pub mod geometry;
pub mod scriptable_object;
pub mod scene_manager;
pub mod component_registry;
pub mod component_scheduler;
