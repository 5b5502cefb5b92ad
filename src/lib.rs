//! Operating-system uptime reporting: metrics collection from kernel text
//! sources, and rendering in several display styles.

pub mod clock;
pub mod numerals;
pub mod panel;
pub mod raw_reading;
pub mod render;
pub mod scan;
pub mod system_metrics;
pub mod users;
