//! Personal forecasting: record probabilistic predictions, resolve them once
//! they are due, and measure calibration over the resolved ones.

pub mod cli;
pub mod collection;
pub mod input;
pub mod model;
pub mod render;
pub mod stats;
pub mod time;
