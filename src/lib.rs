//! Closed-loop fan control for laptops whose fans are driven through
//! sysfs-style control files: the text format of those files, per-fan speed
//! clamping with write suppression, and the power-dependent setpoint.

pub mod control;
pub mod fan;
pub mod smc_text;
