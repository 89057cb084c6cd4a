//! The compositor: its monitors, its events and its commands.
pub mod hyprctl;
pub mod ipc;
pub mod ipc_laws;
pub mod monitor;
pub mod monitor_laws;
