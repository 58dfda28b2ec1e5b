//! Verified core of an application launcher: desktop entries, fuzzy ranking,
//! launch history, command lines and the launcher's state machine.

pub mod app_entry;
pub mod config;
pub mod desktop;
pub mod history;
pub mod icons;
pub mod launch;
pub mod launcher;
pub mod locale;
pub mod order;
pub mod text;
