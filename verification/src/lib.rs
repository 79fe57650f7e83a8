//! Global hotkey management.
//!
//! A hotkey description such as `CTRL+SHIFT+K` is parsed into a canonical
//! [`hotkey::Hotkey`]: a set of modifiers and one key. The
//! [`registry::Registry`] keeps the hotkeys that are active, each with the
//! platform's handle for its hook and the callback to run when it fires,
//! and the [`manager::HotkeyManager`] offers the registry by description.
//!
//! The library never talks to the platform. Installs and removals of
//! system hooks are handed in as closures, or as their outcomes where the
//! caller has to run them outside a lock; scheduling a callback is handed in
//! the same way.

pub mod error;
pub mod hotkey;
pub mod keys;
pub mod manager;
pub mod parser;
pub mod registry;
pub mod text;
