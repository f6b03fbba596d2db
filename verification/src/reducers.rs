//! The three functions through which a scanner's state changes, one for each
//! stream of events.

pub mod mount;
pub mod udev;
pub mod zed;
