//! The desktop shell's own logic: login-item registration and the tray.
pub mod autostart;
pub mod app;
pub mod settings;
pub mod ui;
pub mod supervisor;
