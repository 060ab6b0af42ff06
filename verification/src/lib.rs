//! Clipboard-history keeper: the verified core of a tray clipboard manager.

pub mod calendar;
pub mod text;
pub mod order;
pub mod history;
pub mod saved;
pub mod app_state;
pub mod keys;
pub mod detectors;
pub mod settings;
pub mod hotkey;
pub mod hotkey_logger;
pub mod display;
pub mod clipboard_service;
pub mod contexts;
