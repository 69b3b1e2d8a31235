//! Load-driven hardware governor: configuration parsing, threshold
//! selection and the write decisions that keep sysfs settings in step
//! with the averaged CPU load.

pub mod config;
pub mod governor;
pub mod monitor;
pub mod number;
pub mod power;
pub mod text;
