//! BBR congestion control with deadline-aware admission of objects.

pub mod admission;
pub mod admission_laws;
pub mod admission_rates;
pub mod batch;
pub mod config;
pub mod controller;
pub mod event_laws;
pub mod gain;
pub mod laws;
pub mod mode_laws;
pub mod range_laws;
pub mod rate_laws;
pub mod slack_laws;
pub mod state;
