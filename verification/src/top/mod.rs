//! An at-a-glance operator dashboard for a Hydrozoa head.
//!
//! Pollers feed what a head reports into [`state::App`]; [`alerts`] turns that into things an
//! operator should act on, [`ui`] into panels, and [`snapshot`] into one machine-readable
//! document.

pub mod alert_laws;
pub mod alerts;
pub mod clock;
pub mod config;
pub mod control;
pub mod log_laws;
pub mod panel_laws;
pub mod persist;
pub mod poll;
pub mod poll_laws;
pub mod ratio;
pub mod screens;
pub mod search;
pub mod session_laws;
pub mod snapshot;
pub mod snapshot_laws;
pub mod spans;
pub mod state;
pub mod ui;
