//! Verified sending side of a deadline-aware transport.

pub mod bbr;
pub mod chunk;
pub mod cross_layer;
pub mod cross_layer_laws;
pub mod cross_layer_rates;
pub mod cross_layer_readings;
pub mod float64;
pub mod float_error;
pub mod float_order;
pub mod hints;
pub mod hints_laws;
pub mod priority;
pub mod rounding;
pub mod send;
pub mod send_buffer;
pub mod send_laws;
pub mod source;
pub mod time;
