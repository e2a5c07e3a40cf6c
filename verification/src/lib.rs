//! Bridges a dual-axis analog controller to a peripheral over a byte-oriented
//! serial link: axis readings are normalized into a fixed-point form, packed
//! into an 11-byte delimited frame, and handed to the transport once per
//! cycle, while a textual bar gauge visualizes the two channels.
//!
//! Axis values are carried as signed fixed-point integers in units of
//! [`axis::AXIS_ONE`] (so `AXIS_ONE` stands for full positive deflection and
//! `-AXIS_ONE` for full negative deflection); the process boundary converts
//! the device's native readings into this form.

pub mod axis;
pub mod control;
pub mod frame;
pub mod gauge;
