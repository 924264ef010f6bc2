//! A terminal system-information banner: configuration parsing, parsing of
//! host facts, and the layout of the banner beside its ASCII art.

pub mod text;
pub mod config;
pub mod system;
pub mod display;

pub use config::{Config, is_valid_ansi_code, extract_ascii_art, extract_param, extract_bool};
pub use display::{Display, Frame, Placed, SystemInfo};
pub use system::{DiskInfo, DiskSpace};
