pub mod bootstrap;
pub mod js_probe;
pub mod game;
pub mod director;
