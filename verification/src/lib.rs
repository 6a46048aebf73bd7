pub mod actlet;
pub mod text;
pub mod broadcaster;
pub mod command_util;
pub mod config;
pub mod epg;
pub mod epg_jobs;
pub mod epg_state;
pub mod error;
pub mod events;
pub mod faults;
pub mod file_util;
pub mod filter;
pub mod models;
pub mod mpeg_ts_stream;
pub mod onair;
pub mod recording;
pub mod recording_manager;
pub mod render_safety;
pub mod schedule;
