//! Limen: the decision logic of a macOS Space switcher, verified.

pub mod text;
pub mod config;
pub mod desktop;
pub mod fingerprint;
pub mod apps;
pub mod persistence;
pub mod tray;
pub mod session;
pub mod calendar;
pub mod updater;
