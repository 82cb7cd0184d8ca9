//! Verified core of the VHS capture and playback application.
pub mod app;
pub mod audio_cleanup;
pub mod binary64;
pub mod build_info;
pub mod command;
pub mod config;
pub mod encoding;
pub mod fix_sync;
pub mod ieee;
pub mod job;
pub mod path;
pub mod text;
pub mod vs_ops;
