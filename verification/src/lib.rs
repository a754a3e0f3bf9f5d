//! The decisions of a tray tool that turns downloaded `.webp` images into
//! PNG or JPEG: safe output names, the format rule, transparency counting,
//! when a file being written has settled, what each watcher event means,
//! autostart and configuration values, and the texts it shows.
//!
//! Everything here is verified; file-system, registry, image-codec and UI
//! work is done by the caller, which hands the results in as plain values.

pub mod autostart;
pub mod config;
pub mod convert;
pub mod logging;
pub mod notify;
pub mod pool;
pub mod sanitize;
pub mod text;
pub mod tray;
pub mod unicode;
pub mod watcher;
