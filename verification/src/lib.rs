//! Kernel-level keyboard to mouse-button remapping: the verified core.
//!
//! The key mapper is a reference-counted state machine over key codes: the
//! mouse button is held exactly while at least one mapped key is held.

pub mod cli;
pub mod config;
pub mod device_discovery;
pub mod error;
pub mod event_loop;
pub mod key_mapper;
pub mod options;
pub mod util;

pub use config::parse_key_names;
pub use error::Error;
pub use key_mapper::KeyMapper;
