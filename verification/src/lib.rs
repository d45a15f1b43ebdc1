//! Firmware for Samsung devices: downloading it from the update server in parts that
//! can be resumed, and sending it to a device in download mode.

pub mod bytes;
pub mod fus;
pub mod odin;
pub mod text;
