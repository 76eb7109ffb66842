//! Turns a monitored audio level into on/off commands: a channel mixer that
//! downmixes frames to mono, a hysteresis controller with a timeout, and a
//! dispatcher that runs the resulting commands one at a time, in order.

pub mod dispatch;
pub mod mixer;
pub mod switch;
