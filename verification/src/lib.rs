pub mod clipboard;
pub mod clock;
pub mod commands;
pub mod history;
pub mod settings;
pub mod laws;
pub mod tray;
pub mod window;
