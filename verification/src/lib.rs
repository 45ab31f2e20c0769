//! The Mouse Without Borders bridge.

pub mod cg_events;
pub mod clipboard;
pub mod config;
pub mod conversation;
pub mod crypto;
pub mod decimal;
pub mod file_header;
pub mod icon;
pub mod input_handling;
pub mod keycode_macos;
pub mod link;
pub mod mwb_protocol;
pub mod paths;
pub mod picture;
pub mod probe;
mod random;
pub mod session;
pub mod sharing;
pub mod text;
pub mod transfer;
pub mod vk_keycode;
