pub mod text;
pub mod clock;
pub mod model;
pub mod store;
pub mod commands;
pub mod ids;
pub mod paths;
pub mod hook;
pub mod tray;
pub mod laws;
