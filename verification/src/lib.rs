//! Monitor profiles for Hyprland.
pub mod assignment;
pub mod atomic;
pub mod bytes;
pub mod call_laws;
pub mod cli;
pub mod config;
pub mod daemon;
pub mod daemon_laws;
pub mod doctor;
pub mod double;
pub mod double_bounds;
pub mod error;
pub mod hyprland;
pub mod lines;
pub mod number;
pub mod path;
pub mod place_laws;
pub mod process;
pub mod profile;
pub mod range;
pub mod report_laws;
pub mod run_laws;
pub mod service_laws;
pub mod sort;
pub mod systemd;
pub mod text;
pub mod text_laws;
pub mod tui;
pub mod wording_laws;
